use flappy::cli::{arg_value, same_text};
use flappy::scene::Paint;
use flappy::term::{paint_color, pause_origin, row_ops, seed_from_nanos, DrawOp, Tint};

#[test]
fn paint_colors() {
    assert_eq!(paint_color(Paint::Pipe), Some(Tint::Green));
    assert_eq!(paint_color(Paint::BirdDead), Some(Tint::Red));
    assert_eq!(paint_color(Paint::Bird), None);
    assert_eq!(paint_color(Paint::Plain), None);
}

#[test]
fn row_ops_group_colour_runs() {
    let line = ['a', 'b', 'c', 'd', 'e'];
    let paints = [Paint::Plain, Paint::Pipe, Paint::Pipe, Paint::Bird, Paint::BirdDead];
    assert_eq!(
        row_ops(&line, &paints),
        vec![
            DrawOp::Glyph('a'),
            DrawOp::SetColor(Tint::Green),
            DrawOp::Glyph('b'),
            DrawOp::Glyph('c'),
            DrawOp::ResetColor,
            DrawOp::Glyph('d'),
            DrawOp::SetColor(Tint::Red),
            DrawOp::Glyph('e'),
            DrawOp::ResetColor,
        ]
    );
    assert_eq!(row_ops(&['x'], &[Paint::Plain]), vec![DrawOp::Glyph('x')]);
    assert!(row_ops(&[], &[]).is_empty());
}

#[test]
fn pause_message_is_centred_by_display_width() {
    let msg = "端末を 64x24 以上にしてください";
    assert_eq!(pause_origin((63, 24), msg), (16, 12));
    assert_eq!(pause_origin((20, 5), msg), (0, 2));
}

#[test]
fn seed_truncates_nanos() {
    assert_eq!(seed_from_nanos(None), 0);
    assert_eq!(seed_from_nanos(Some(5)), 5);
    assert_eq!(seed_from_nanos(Some((1u128 << 64) + 7)), 7);
}

#[test]
fn arg_value_takes_the_token_after_the_flag() {
    let args: Vec<String> = ["flappy", "--headless", "--seed", "12", "--frames"]
        .iter()
        .map(|s| s.to_string())
        .collect();
    assert_eq!(arg_value(&args, "--seed"), Some("12"));
    assert_eq!(arg_value(&args, "--frames"), None);
    assert_eq!(arg_value(&args, "--missing"), None);
    let twice: Vec<String> = ["--seed", "1", "--seed", "2"].iter().map(|s| s.to_string()).collect();
    assert_eq!(arg_value(&twice, "--seed"), Some("1"));
    assert!(same_text("端末", "端末"));
    assert!(!same_text("端末", "端"));
}
