use flappy::text::{char_width, display_width, labeled_number, push_decimal};

#[test]
fn ascii_is_one_cell_each() {
    assert_eq!(display_width(""), 0);
    assert_eq!(display_width("64x24"), 5);
    assert_eq!(display_width("F L A P P Y"), 11);
    assert_eq!(char_width(' '), 1);
    assert_eq!(char_width('A'), 1);
}

#[test]
fn cjk_is_two_cells_each() {
    assert_eq!(char_width('端'), 2);
    assert_eq!(char_width('を'), 2);
    assert_eq!(display_width("端末"), 4);
    assert_eq!(display_width("以上"), 4);
}

#[test]
fn pause_message_width_counts_fullwidth() {
    let msg = "端末を 64x24 以上にしてください";
    assert_eq!(msg.chars().count(), 19);
    assert_eq!(display_width(msg), 31);
    assert!(display_width(msg) > msg.chars().count());
}

#[test]
fn wide_range_edges() {
    for (c, w) in [
        ('\u{10FF}', 1),
        ('\u{1100}', 2),
        ('\u{115F}', 2),
        ('\u{1160}', 1),
        ('\u{2E7F}', 1),
        ('\u{2E80}', 2),
        ('\u{A4CF}', 2),
        ('\u{A4D0}', 1),
        ('\u{AC00}', 2),
        ('\u{D7A3}', 2),
        ('\u{F900}', 2),
        ('\u{FAFF}', 2),
        ('\u{FE30}', 2),
        ('\u{FE4F}', 2),
        ('\u{FF00}', 2),
        ('\u{FF60}', 2),
        ('\u{FF61}', 1),
        ('\u{FFE0}', 2),
        ('\u{FFE6}', 2),
        ('\u{FFE7}', 1),
        ('●', 1),
    ] {
        assert_eq!(char_width(c), w, "{c:?}");
    }
}

#[test]
fn decimal_numbers() {
    assert_eq!(labeled_number("SCORE ", 0), "SCORE 0");
    assert_eq!(labeled_number("BEST ", 1203), "BEST 1203");
    let mut s = String::from("x");
    push_decimal(&mut s, u32::MAX);
    assert_eq!(s, "x4294967295");
}

#[test]
fn width_of_joined_strings_is_the_sum() {
    let parts = ["", "abc", "漢字", "ｈｉ!", "──  press SPACE  ──"];
    for a in parts {
        for b in parts {
            let joined = a.to_owned() + b;
            assert_eq!(display_width(&joined), display_width(a) + display_width(b));
            let n = joined.chars().count();
            assert!(n <= display_width(&joined) && display_width(&joined) <= 2 * n);
        }
    }
}
