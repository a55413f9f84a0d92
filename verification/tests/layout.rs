use flappy::layout::{compute_layout, Layout};

#[test]
fn exact_fit_is_top_left() {
    assert_eq!(
        compute_layout((64, 24), (64, 24)),
        Layout::Fit { ox: 0, oy: 0 }
    );
}

#[test]
fn larger_terminal_centers() {
    assert_eq!(
        compute_layout((84, 30), (64, 24)),
        Layout::Fit { ox: 10, oy: 3 }
    );
}

#[test]
fn too_narrow_or_short_is_too_small() {
    assert_eq!(compute_layout((63, 24), (64, 24)), Layout::TooSmall);
    assert_eq!(compute_layout((64, 23), (64, 24)), Layout::TooSmall);
    assert_eq!(compute_layout((0, 0), (64, 24)), Layout::TooSmall);
}

#[test]
fn odd_margin_rounds_down() {
    assert_eq!(
        compute_layout((65, 25), (64, 24)),
        Layout::Fit { ox: 0, oy: 0 }
    );
}

#[test]
fn fitted_grid_stays_inside_and_centred() {
    for (tw, th) in [(64u16, 24u16), (65, 25), (100, 40), (u16::MAX, u16::MAX)] {
        match compute_layout((tw, th), (64, 24)) {
            Layout::Fit { ox, oy } => {
                assert!(ox as u32 + 64 <= tw as u32 && oy as u32 + 24 <= th as u32);
                let right = tw as u32 - 64 - ox as u32;
                assert!(right - ox as u32 <= 1);
            }
            Layout::TooSmall => panic!("should fit"),
        }
    }
}
