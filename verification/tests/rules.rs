use flappy::rng::{Rng, GOLDEN_GAMMA};
use flappy::rules::{autopilot_wants_flap, pipe_blocks_row, spawn_gap_top, Phase, PipeCell, Progress};

#[test]
fn pipe_blocks_row_matches_design_definition() {
    let (gap_top, pipe_gap, rows) = (10u16, 6u16, 24u16);
    for row in 10..16 {
        assert!(
            !pipe_blocks_row(gap_top, pipe_gap, rows, row),
            "row {row} should be open (gap)"
        );
    }
    for row in 1..10 {
        assert!(pipe_blocks_row(gap_top, pipe_gap, rows, row), "row {row}");
    }
    for row in 16..=22 {
        assert!(pipe_blocks_row(gap_top, pipe_gap, rows, row), "row {row}");
    }
    assert!(!pipe_blocks_row(gap_top, pipe_gap, rows, 0));
    assert!(!pipe_blocks_row(gap_top, pipe_gap, rows, 23));
}

#[test]
fn rng_matches_splitmix64_reference_values() {
    // SplitMix64 from seed 0: the published first outputs.
    let mut r = Rng::new(0);
    assert_eq!(r.next_u64(), 0xE220_A839_7B1D_CDAF);
    assert_eq!(r.next_u64(), 0x6E78_9E6A_A1B9_65F4);
    assert_eq!(r.next_u64(), 0x06C4_5D18_8009_454F);
}

#[test]
fn rng_same_seed_same_sequence() {
    let mut a = Rng::new(777);
    let mut b = Rng::new(777);
    for _ in 0..100 {
        assert_eq!(a.next_u64(), b.next_u64());
    }
    let mut c = Rng::new(778);
    let mut d = Rng::new(777);
    assert_ne!(c.next_u64(), d.next_u64());
}

#[test]
fn gen_range_inclusive_stays_in_range_and_reaches_both_ends() {
    let mut r = Rng::new(42);
    let (mut saw_lo, mut saw_hi) = (false, false);
    for _ in 0..2000 {
        let v = r.gen_range_inclusive(1, 17);
        assert!((1..=17).contains(&v));
        saw_lo |= v == 1;
        saw_hi |= v == 17;
    }
    assert!(saw_lo && saw_hi);
    let mut one = Rng::new(5);
    assert_eq!(one.gen_range_inclusive(9, 9), 9);
}

#[test]
fn gen_range_inclusive_is_lo_plus_output_mod_span() {
    let mut a = Rng::new(3);
    let mut b = Rng::new(3);
    let x = a.next_u64();
    assert_eq!(b.gen_range_inclusive(4, 10), 4 + (x % 7) as u16);
}

#[test]
fn spawn_gap_top_uses_the_design_range() {
    let mut r = Rng::new(9);
    for _ in 0..500 {
        let g = spawn_gap_top(&mut r, 24, 6);
        assert!((1..=17).contains(&g));
    }
    let mut a = Rng::new(1);
    let mut b = Rng::new(1);
    assert_eq!(spawn_gap_top(&mut a, 24, 6), b.gen_range_inclusive(1, 17));
}

#[test]
fn flap_starts_the_game_and_is_ignored_after_game_over() {
    let mut p = Progress::new();
    assert_eq!(p.get_phase(), Phase::Ready);
    assert!(p.flap());
    assert_eq!(p.get_phase(), Phase::Playing);
    assert!(p.flap());
    let mut pipes = vec![];
    assert!(p.settle(0, 12, 24, 6, &mut pipes));
    assert_eq!(p.get_phase(), Phase::GameOver);
    assert!(!p.flap());
    assert_eq!(p.get_phase(), Phase::GameOver);
}

#[test]
fn settle_does_nothing_outside_playing() {
    let mut p = Progress::new();
    let mut pipes = vec![PipeCell { col: 5, gap_top: 10, passed: false }];
    assert!(!p.settle(0, 12, 24, 6, &mut pipes));
    assert_eq!(p.get_phase(), Phase::Ready);
    assert!(!pipes[0].passed);
    assert_eq!(p.get_score(), 0);
}

#[test]
fn ceiling_and_ground_end_the_game() {
    for row in [0, -3, 23, 30] {
        let mut p = Progress::new();
        p.flap();
        let mut pipes = vec![];
        assert!(p.settle(row, 12, 24, 6, &mut pipes), "row {row}");
        assert_eq!(p.get_phase(), Phase::GameOver);
    }
    let mut p = Progress::new();
    p.flap();
    let mut pipes = vec![];
    assert!(!p.settle(22, 12, 24, 6, &mut pipes));
    assert!(!p.settle(1, 12, 24, 6, &mut pipes));
}

#[test]
fn pipe_in_bird_column_outside_gap_ends_the_game_without_scoring() {
    let mut p = Progress::new();
    p.flap();
    let mut pipes = vec![
        PipeCell { col: 3, gap_top: 10, passed: false },
        PipeCell { col: 12, gap_top: 10, passed: false },
    ];
    assert!(p.settle(5, 12, 24, 6, &mut pipes));
    assert_eq!(p.get_phase(), Phase::GameOver);
    assert_eq!(p.get_score(), 0);
    assert!(!pipes[0].passed);
    let mut q = Progress::new();
    q.flap();
    let mut through = vec![PipeCell { col: 12, gap_top: 10, passed: false }];
    assert!(!q.settle(12, 12, 24, 6, &mut through));
}

#[test]
fn each_passed_pipe_scores_once_and_best_follows() {
    let mut p = Progress::new();
    p.flap();
    let mut pipes = vec![
        PipeCell { col: 3, gap_top: 10, passed: false },
        PipeCell { col: 11, gap_top: 4, passed: false },
        PipeCell { col: 30, gap_top: 8, passed: false },
        PipeCell { col: 2, gap_top: 8, passed: true },
    ];
    assert!(!p.settle(12, 12, 24, 6, &mut pipes));
    assert_eq!(p.get_score(), 2);
    assert_eq!(p.get_best(), 2);
    assert!(pipes[0].passed && pipes[1].passed && !pipes[2].passed && pipes[3].passed);
    assert!(!p.settle(12, 12, 24, 6, &mut pipes));
    assert_eq!(p.get_score(), 2);
}

#[test]
fn restart_keeps_best_and_resets_score_and_phase() {
    let mut p = Progress::new();
    p.flap();
    let mut pipes = vec![PipeCell { col: 3, gap_top: 10, passed: false }];
    p.settle(12, 12, 24, 6, &mut pipes);
    assert_eq!(p.get_best(), 1);
    p.settle(0, 12, 24, 6, &mut pipes);
    p.restart();
    assert_eq!(p.get_phase(), Phase::Ready);
    assert_eq!(p.get_score(), 0);
    assert_eq!(p.get_best(), 1);
    p.flap();
    let mut more = vec![PipeCell { col: 3, gap_top: 10, passed: false }];
    p.settle(12, 12, 24, 6, &mut more);
    assert_eq!(p.get_score(), 1);
    assert_eq!(p.get_best(), 1);
}

#[test]
fn autopilot_flaps_below_gap_centre() {
    // gap 10..16, centre 13: rows below 13 flap.
    assert!(autopilot_wants_flap(14, 10, 6));
    assert!(!autopilot_wants_flap(13, 10, 6));
    assert!(!autopilot_wants_flap(5, 10, 6));
    // odd gap: centre 10 + 2.5
    assert!(autopilot_wants_flap(13, 10, 5));
    assert!(!autopilot_wants_flap(12, 10, 5));
}

fn splitmix_finaliser(mut z: u64) -> u64 {
    z = (z ^ (z >> 30)).wrapping_mul(0xBF58_476D_1CE4_E5B9);
    z = (z ^ (z >> 27)).wrapping_mul(0x94D0_49BB_1331_11EB);
    z ^ (z >> 31)
}

#[test]
fn kth_output_matches_closed_form() {
    for seed in [0u64, 1, 42, 0xDEAD_BEEF, u64::MAX] {
        let mut r = Rng::new(seed);
        for k in 1u64..=64 {
            let got = r.next_u64();
            let want = splitmix_finaliser(seed.wrapping_add(k.wrapping_mul(GOLDEN_GAMMA)));
            assert_eq!(got, want, "seed {seed}, call {k}");
        }
    }
}

#[test]
fn best_equals_score_through_a_play_without_restart() {
    let mut p = Progress::new();
    assert!(p.flap());
    let mut pipes: Vec<PipeCell> = (0..6).map(|i| PipeCell { col: 14 + 4 * i, gap_top: 10, passed: false }).collect();
    let mut last = 0;
    for _ in 0..30 {
        for q in pipes.iter_mut() {
            q.col -= 1;
        }
        assert!(!p.settle(12, 12, 24, 6, &mut pipes));
        p.flap();
        assert!(p.get_score() >= last);
        assert_eq!(p.get_best(), p.get_score());
        last = p.get_score();
    }
    assert_eq!(p.get_score(), 6);
}
