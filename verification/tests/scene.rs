use flappy::rng::Rng;
use flappy::rules::{spawn_gap_top, Phase};
use flappy::scene::{
    braille, dot_bit, place_at, place_centered, render, scene_to_string, Frame, Paint, PipeView,
    Snapshot, BIRD, BIRD_DEAD, GAMEOVER_RETRY_HINT, GAMEOVER_TITLE, VERSION,
};

const COLS: u16 = 64;
const ROWS: u16 = 24;
const PIPE_GAP: u16 = 6;

/// The snapshot of a freshly created game: bird at column 12 on the middle
/// row, one pipe at the right edge (x = cols) with its gap drawn from the seed.
fn new_game(seed: u64) -> Snapshot {
    let mut rng = Rng::new(seed);
    let gap_top = spawn_gap_top(&mut rng, ROWS, PIPE_GAP);
    Snapshot {
        cols: COLS,
        rows: ROWS,
        pipe_gap: PIPE_GAP,
        phase: Phase::Ready,
        score: 0,
        best: 0,
        bird_col: 12,
        bird_row: ROWS / 2,
        pipes: vec![PipeView { dot_x: 2 * COLS as i32, col: COLS as i32, gap_top, course_idx: 0 }],
    }
}

fn lines(s: &str) -> Vec<&str> {
    s.split('\n').collect()
}

#[test]
fn ready_has_hud_bird_ground_and_message() {
    let g = new_game(1);
    let scene = scene_to_string(&g);
    let ls = lines(&scene);
    assert_eq!(ls.len(), 24);
    assert!(ls[0].contains("SCORE 0"));
    assert!(ls[0].contains("BEST 0"));
    assert!(ls[0].contains('─'), "ceiling line should render as ─ on row 0");
    let bird = ls[12].chars().nth(12).unwrap();
    assert_eq!(bird, BIRD, "bird cell should render as ●, got {bird:?}");
    assert!(ls[23].starts_with(&"─".repeat(40)));
    assert!(ls[23].contains(&format!("v{}", VERSION)));
    assert!(scene.contains("F L A P P Y"));
    assert!(scene.contains("press SPACE"));
}

#[test]
fn version_is_drawn_from_core_const() {
    let g = new_game(1);
    let scene = scene_to_string(&g);
    assert!(scene.contains(&format!("v{}", VERSION)));
}

#[test]
fn playing_drops_message_and_keeps_bird() {
    let mut g = new_game(1);
    g.phase = Phase::Playing;
    let scene = scene_to_string(&g);
    assert!(!scene.contains("press SPACE"), "no menu message while playing");
    assert!(!scene.contains("F L A P P Y"));
    let bird = lines(&scene)[12].chars().nth(12).unwrap();
    assert_eq!(bird, BIRD, "bird should remain a ● glyph while playing");
}

#[test]
fn ready_frame_layout_in_detail() {
    let g = new_game(1);
    let f = render(&g, None);
    let row0: String = f.chars[0].iter().collect();
    assert_eq!(row0, format!("─SCORE 0{}BEST 0─", "─".repeat(64 - 8 - 7)));
    let row3: String = f.chars[3].iter().collect();
    assert_eq!(row3.trim(), "F L A P P Y");
    assert_eq!(row3.find('F').unwrap(), (64 - 11) / 2);
    let row8: String = f.chars[8].iter().collect();
    assert_eq!(row8.trim(), "──  press SPACE  ──");
    let last: String = f.chars[23].iter().collect();
    assert!(last.ends_with(&format!("v{}─", VERSION)));
    assert!(f.paint.iter().flatten().all(|p| *p != Paint::Pipe));
    assert_eq!(f.paint[12][12], Paint::Bird);
}

#[test]
fn pipe_renders_as_braille_when_on_screen() {
    let mut g = new_game(1);
    g.phase = Phase::Playing;
    g.pipes = vec![PipeView { dot_x: 60, col: 30, gap_top: 10, course_idx: 0 }];
    let frame = render(&g, None);
    assert!(
        frame.paint.iter().flatten().any(|p| *p == Paint::Pipe),
        "a pipe should render with Paint::Pipe once on screen"
    );
    // dot columns 60 and 61 fill both halves of cell 30.
    assert_eq!(frame.chars[5][30], '\u{28FF}');
    assert_eq!(frame.paint[5][30], Paint::Pipe);
    assert_eq!(frame.chars[12][30], ' ');
    assert_eq!(frame.chars[22][30], '\u{28FF}');
    assert_eq!(frame.chars[5][29], ' ');
    assert_eq!(frame.chars[5][31], ' ');
    // odd dot column: right half of one cell and left half of the next.
    g.pipes = vec![PipeView { dot_x: 61, col: 31, gap_top: 10, course_idx: 0 }];
    let frame = render(&g, None);
    assert_eq!(frame.chars[5][30], '\u{28B8}');
    assert_eq!(frame.chars[5][31], '\u{2847}');
}

#[test]
fn gameover_shows_box_and_dead_bird() {
    let mut g = new_game(1);
    g.phase = Phase::GameOver;
    g.bird_row = 23;
    let scene = scene_to_string(&g);
    assert!(scene.contains(GAMEOVER_TITLE));
    assert!(scene.contains(GAMEOVER_RETRY_HINT));
    assert!(scene.contains("q                 : quit"));
    assert!(scene.contains('✕'), "dead bird should render as ✕");
    assert!(scene.contains("SCORE 0"));
    let ls = lines(&scene);
    assert_eq!(ls[2].trim(), format!("╔{}╗", "═".repeat(25)));
    assert_eq!(ls[7].trim(), format!("╚{}╝", "═".repeat(25)));
    assert!(ls[4].contains("║         SCORE 0         ║"));
}

#[test]
fn dead_bird_is_tagged_bird_dead() {
    let mut g = new_game(1);
    g.phase = Phase::GameOver;
    g.bird_row = 23;
    let frame = render(&g, None);
    assert!(
        frame.paint.iter().flatten().any(|p| *p == Paint::BirdDead),
        "dead bird cell should be tagged Paint::BirdDead"
    );
    assert_eq!(frame.chars[23][12], BIRD_DEAD);
}

#[test]
fn ceiling_death_marker_clamps_to_play_area_top() {
    let mut g = new_game(1);
    g.phase = Phase::GameOver;
    g.bird_row = 0;
    let frame = render(&g, None);
    assert!(
        !frame.chars[0].contains(&BIRD_DEAD),
        "death marker must not land on row 0 (ceiling line / HUD)"
    );
    assert!(
        frame.chars[1].contains(&BIRD_DEAD),
        "death marker must be clamped to play area top (row 1)"
    );
}

#[test]
fn braille_packs_mask_to_codepoint() {
    assert_eq!(braille(0), ' ');
    assert_eq!(braille(0x01), '\u{2801}');
    assert_eq!(braille(0xFF), '\u{28FF}');
    assert_eq!(braille(0x03), '\u{2803}');
}

#[test]
fn dot_bits_follow_the_braille_numbering() {
    assert_eq!(dot_bit(0, 0), 0x01);
    assert_eq!(dot_bit(0, 1), 0x02);
    assert_eq!(dot_bit(0, 2), 0x04);
    assert_eq!(dot_bit(1, 0), 0x08);
    assert_eq!(dot_bit(1, 1), 0x10);
    assert_eq!(dot_bit(1, 2), 0x20);
    assert_eq!(dot_bit(0, 3), 0x40);
    assert_eq!(dot_bit(1, 3), 0x80);
    assert_eq!(dot_bit(2, 0), 0);
    assert_eq!(dot_bit(0, 4), 0);
}

#[test]
fn bird_renders_as_single_circle_while_drifting() {
    for row in [1u16, 5, 12, 22] {
        let mut g = new_game(1);
        g.phase = Phase::Playing;
        g.bird_row = row;
        let frame = render(&g, None);
        assert_eq!(frame.chars[row as usize][12], BIRD, "bird should render as a single ●");
        let bird_count = frame.chars.iter().flatten().filter(|&&c| c == BIRD).count();
        assert_eq!(bird_count, 1, "exactly one ● should be drawn");
    }
}

#[test]
fn course_mode_draws_text_wall_with_gap() {
    let lines = vec!["abcdef".to_string(), "XYZ".to_string()];
    let mut g = new_game(1);
    g.phase = Phase::Playing;
    g.pipes = vec![PipeView { dot_x: 100, col: 50, gap_top: 10, course_idx: 0 }];
    let frame = render(&g, Some(&lines));
    let glyphs: Vec<char> = "abcdef".chars().collect();
    for row in 1..(ROWS as i32 - 1) {
        let cell = frame.chars[row as usize][50];
        if flappy::rules::pipe_blocks_row(10, PIPE_GAP, ROWS, row) {
            assert_eq!(cell, glyphs[(row as usize - 1) % glyphs.len()], "row {row}");
            assert!(frame.paint[row as usize][50] == Paint::Pipe, "row {row}");
        } else {
            assert_eq!(cell, ' ', "row {row}: gap must be blank");
        }
    }
    assert!(
        !frame.chars.iter().flatten().any(|&c| ('\u{2800}'..='\u{28FF}').contains(&c)),
        "course mode must not render Braille pipes"
    );
}

#[test]
fn course_mode_cycles_lines_across_pipes() {
    let lines = vec!["AAAAAAAA".to_string(), "BBBBBBBB".to_string()];
    let mut g = new_game(1);
    g.phase = Phase::Playing;
    g.pipes = vec![
        PipeView { dot_x: 60, col: 30, gap_top: 9, course_idx: 0 },
        PipeView { dot_x: 104, col: 52, gap_top: 10, course_idx: 1 },
        PipeView { dot_x: 80, col: 40, gap_top: 10, course_idx: 2 },
    ];
    let frame = render(&g, Some(&lines));
    assert_eq!(frame.chars[1][30], 'A');
    assert_eq!(frame.chars[1][52], 'B');
    assert_eq!(frame.chars[1][40], 'A');
    let empty: Vec<String> = vec![];
    let blank = render(&g, Some(&empty));
    assert_eq!(blank.chars[1][30], ' ');
}

#[test]
fn pipe_visual_cells_always_cover_collision_cell() {
    for i in 0..=400 {
        let x = i as f32 * 0.05;
        let dx0 = (x * 2.0).round() as i32;
        let cells = [dx0.div_euclid(2), (dx0 + 1).div_euclid(2)];
        assert!(
            cells.contains(&(x.round() as i32)),
            "x={x}: visual cells {cells:?} must cover collision cell {}",
            x.round() as i32
        );
    }
}

#[test]
fn rendered_pipe_covers_its_collision_cell() {
    for i in 0..=400 {
        let x = i as f32 * 0.05;
        let mut g = new_game(1);
        g.phase = Phase::Playing;
        g.bird_row = 12;
        let col = x.round() as i32;
        g.pipes = vec![PipeView { dot_x: (x * 2.0).round() as i32, col, gap_top: 10, course_idx: 0 }];
        let frame = render(&g, None);
        assert_eq!(frame.paint[5][col as usize], Paint::Pipe, "x={x}");
    }
}

#[test]
fn place_at_clips_and_resets_paint() {
    let mut chars = vec!['.'; 5];
    let mut paint = vec![Paint::Pipe; 5];
    place_at(&mut chars, &mut paint, "abcd", 3);
    assert_eq!(chars, vec!['.', '.', '.', 'a', 'b']);
    assert_eq!(paint, vec![Paint::Pipe, Paint::Pipe, Paint::Pipe, Paint::Plain, Paint::Plain]);
    let mut chars = vec!['.'; 7];
    let mut paint = vec![Paint::Pipe; 7];
    place_centered(&mut chars, &mut paint, "xyz", 7);
    assert_eq!(chars.iter().collect::<String>(), "..xyz..");
}

#[test]
fn to_text_joins_rows_with_newlines() {
    let f = Frame {
        chars: vec![vec!['a', 'b'], vec!['c', 'd'], vec![]],
        paint: vec![vec![Paint::Plain; 2], vec![Paint::Plain; 2], vec![]],
    };
    assert_eq!(f.to_text(), "ab\ncd\n");
}
