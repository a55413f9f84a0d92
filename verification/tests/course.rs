use flappy::course::{build_course, fnv1a, gap_top_for, is_white_space, nonblank_lines};

#[test]
fn run_command_splits_nonempty_lines() {
    // What `printf 'a\nbb\nccc\n'` writes.
    let lines = nonblank_lines(b"a\nbb\nccc\n");
    assert_eq!(lines, vec!["a", "bb", "ccc"]);
}

#[test]
fn run_command_filters_blank_lines() {
    // What `printf 'a\n\n  \nb\n'` writes.
    let lines = nonblank_lines(b"a\n\n  \nb\n");
    assert_eq!(lines, vec!["a", "b"]);
}

#[test]
fn nonblank_lines_handles_crlf_last_line_and_unicode_space() {
    assert_eq!(nonblank_lines(b"x\r\ny"), vec!["x", "y"]);
    assert_eq!(nonblank_lines(b"x\r"), vec!["x\r"]);
    assert_eq!(nonblank_lines("\u{3000}\n z \n".as_bytes()), vec![" z "]);
    assert!(nonblank_lines(b"").is_empty());
    assert!(nonblank_lines(b"\n\t\n").is_empty());
}

#[test]
fn nonblank_lines_replaces_invalid_utf8() {
    assert_eq!(nonblank_lines(b"a\xffb\n"), vec!["a\u{FFFD}b"]);
}

#[test]
fn fnv1a_reference_values() {
    assert_eq!(fnv1a(b""), 0xcbf2_9ce4_8422_2325);
    assert_eq!(fnv1a(b"a"), 0xaf63_dc4c_8601_ec8c);
    assert_eq!(fnv1a(b"foobar"), 0x8594_4171_f739_67e8);
}

#[test]
fn gap_top_for_is_deterministic_and_in_range() {
    let (rows, pipe_gap) = (24u16, 6u16);
    let hi = rows - 1 - pipe_gap;
    for line in [
        "total 56",
        "drwxr-xr-x  5 astel staff 160 crates",
        "-rw-r--r--  1 astel staff 2451 NOTES.md",
        "",
        "x",
    ] {
        let g = gap_top_for(line, rows, pipe_gap);
        assert!(
            (1..=hi).contains(&g),
            "gap_top {g} out of [1,{hi}] for {line:?}"
        );
        assert_eq!(g, gap_top_for(line, rows, pipe_gap));
    }
}

#[test]
fn gap_top_for_is_one_plus_hash_mod_range() {
    assert_eq!(gap_top_for("", 24, 6), 1 + (0xcbf2_9ce4_8422_2325u64 % 17) as u16);
    assert_eq!(gap_top_for("a", 24, 6), 1 + (fnv1a(b"a") % 17) as u16);
}

#[test]
fn build_course_maps_each_line_and_is_deterministic() {
    let (rows, pipe_gap) = (24u16, 6u16);
    let lines: Vec<String> = ["alpha", "beta", "gamma"]
        .iter()
        .map(|s| s.to_string())
        .collect();
    let a = build_course(&lines, rows, pipe_gap);
    assert_eq!(a.len(), lines.len());
    assert_eq!(a, build_course(&lines, rows, pipe_gap));
    let hi = rows - 1 - pipe_gap;
    assert!(a.iter().all(|&g| (1..=hi).contains(&g)));
    for (i, l) in lines.iter().enumerate() {
        assert_eq!(a[i], gap_top_for(l, rows, pipe_gap));
    }
}

#[test]
fn white_space_agrees_with_std_on_every_char() {
    for c in (0u32..=0x10FFFF).filter_map(char::from_u32) {
        assert_eq!(is_white_space(c), c.is_whitespace(), "U+{:04X}", c as u32);
    }
}
