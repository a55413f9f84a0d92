//! Placing the grid in the terminal: centred with letterboxing, or paused
//! when the terminal is smaller than the grid.

use vstd::prelude::*;

verus! {

/// Where the grid goes in the terminal.
#[derive(Debug, Clone, Copy, PartialEq, Eq, Structural)]
pub enum Layout {
    /// The terminal is smaller than the grid: play stops until it is resized.
    TooSmall,
    /// The grid's top-left corner at `(ox, oy)`, centred.
    Fit { ox: u16, oy: u16 },
}

/// The layout of a `gw x gh` grid in a `tw x th` terminal.
pub open spec fn layout_of(tw: int, th: int, gw: int, gh: int) -> Layout {
    if tw < gw || th < gh {
        Layout::TooSmall
    } else {
        Layout::Fit { ox: ((tw - gw) / 2) as u16, oy: ((th - gh) / 2) as u16 }
    }
}

/// Places grid `(gw, gh)` in terminal `(tw, th)`: centred, margins rounded
/// down, or `TooSmall` when the terminal is narrower or shorter than the grid.
pub fn compute_layout(term: (u16, u16), grid: (u16, u16)) -> (r: Layout)
    ensures
        r == layout_of(term.0 as int, term.1 as int, grid.0 as int, grid.1 as int),
{
    let (tw, th) = term;
    let (gw, gh) = grid;
    if tw < gw || th < gh {
        Layout::TooSmall
    } else {
        Layout::Fit { ox: (tw - gw) / 2, oy: (th - gh) / 2 }
    }
}

} // verus!
