use flappy::input::{classify, route, Action, Input, KeyCode, KeyEventKind, TermEvent};
use flappy::rules::Phase;

fn key(code: KeyCode) -> TermEvent {
    TermEvent::Key { code, kind: KeyEventKind::Press }
}

fn key_with_kind(code: KeyCode, kind: KeyEventKind) -> TermEvent {
    TermEvent::Key { code, kind }
}

fn left_click() -> TermEvent {
    TermEvent::LeftClick
}

#[test]
fn classify_keys_and_mouse() {
    assert_eq!(classify(&key(KeyCode::Char(' '))), Some(Input::Primary));
    assert_eq!(classify(&left_click()), Some(Input::Primary));
    assert_eq!(classify(&key(KeyCode::Char('r'))), Some(Input::Restart));
    assert_eq!(classify(&key(KeyCode::Char('R'))), Some(Input::Restart));
    assert_eq!(classify(&key(KeyCode::Char('q'))), Some(Input::Quit));
    assert_eq!(classify(&key(KeyCode::Esc)), Some(Input::Quit));
    assert_eq!(classify(&key(KeyCode::Char('x'))), None);
    assert_eq!(classify(&key(KeyCode::Other)), None);
}

#[test]
fn classify_ignores_non_press_key_events() {
    for code in [KeyCode::Char(' '), KeyCode::Char('r'), KeyCode::Char('q')] {
        assert_eq!(classify(&key_with_kind(code, KeyEventKind::Release)), None);
        assert_eq!(classify(&key_with_kind(code, KeyEventKind::Repeat)), None);
        assert!(classify(&key_with_kind(code, KeyEventKind::Press)).is_some());
    }
}

#[test]
fn classify_other_events_and_quit_case() {
    assert_eq!(classify(&TermEvent::Other), None);
    assert_eq!(classify(&key(KeyCode::Char('Q'))), Some(Input::Quit));
    assert_eq!(classify(&key_with_kind(KeyCode::Esc, KeyEventKind::Repeat)), None);
}

#[test]
fn primary_flaps_unless_gameover() {
    assert_eq!(route(Input::Primary, Phase::Ready), Action::Flap);
    assert_eq!(route(Input::Primary, Phase::Playing), Action::Flap);
    assert_eq!(route(Input::Primary, Phase::GameOver), Action::Restart);
}

#[test]
fn restart_and_quit_are_phase_independent() {
    for phase in [Phase::Ready, Phase::Playing, Phase::GameOver] {
        assert_eq!(route(Input::Restart, phase), Action::Restart);
        assert_eq!(route(Input::Quit, phase), Action::Quit);
    }
}
