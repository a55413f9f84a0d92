//! What the terminal renderer decides before it writes: the colour of each
//! paint tag, the colour changes and prints of a frame row, where the pause
//! message goes, and the seed taken from the clock.

use crate::scene::Paint;
use crate::text::{display_width, width_of_seq};
use vstd::prelude::*;

verus! {

/// Terminal colours the game uses; `None` where one is expected is the terminal's default.
#[derive(Debug, Clone, Copy, PartialEq, Eq, Structural)]
pub enum Tint {
    Green,
    Red,
}

/// One terminal write of a frame row.
#[derive(Debug, Clone, Copy, PartialEq, Eq, Structural)]
pub enum DrawOp {
    SetColor(Tint),
    ResetColor,
    Glyph(char),
}

/// Colour of a paint tag: pipes green, the dead bird red, the living bird and
/// the rest in the terminal's default colour.
pub open spec fn tint_of(p: Paint) -> Option<Tint> {
    match p {
        Paint::Pipe => Some(Tint::Green),
        Paint::BirdDead => Some(Tint::Red),
        Paint::Bird => None,
        Paint::Plain => None,
    }
}

/// Colour of a paint tag.
pub fn paint_color(p: Paint) -> (r: Option<Tint>)
    ensures
        r == tint_of(p),
{
    match p {
        Paint::Pipe => Some(Tint::Green),
        Paint::BirdDead => Some(Tint::Red),
        Paint::Bird | Paint::Plain => None,
    }
}

/// The write that switches to colour `t`.
pub open spec fn color_op(t: Option<Tint>) -> DrawOp {
    match t {
        Some(c) => DrawOp::SetColor(c),
        None => DrawOp::ResetColor,
    }
}

/// The write that prints `c`.
pub open spec fn glyph_op(c: char) -> DrawOp {
    DrawOp::Glyph(c)
}

/// Writes for the cells of a row from the current colour `cur` on: a colour
/// change only where the colour differs from the current one, each glyph, and
/// a reset at the end of the row if a colour is still set.
pub open spec fn ops_from(line: Seq<char>, paints: Seq<Paint>, cur: Option<Tint>) -> Seq<DrawOp>
    decreases line.len(),
{
    if line.len() == 0 || paints.len() == 0 {
        if cur is Some {
            seq![DrawOp::ResetColor]
        } else {
            Seq::empty()
        }
    } else {
        let want = tint_of(paints[0]);
        let head = if want != cur {
            seq![color_op(want), glyph_op(line[0])]
        } else {
            seq![glyph_op(line[0])]
        };
        head + ops_from(line.drop_first(), paints.drop_first(), want)
    }
}

fn same_tint(a: Option<Tint>, b: Option<Tint>) -> (r: bool)
    ensures
        r == (a == b),
{
    match (a, b) {
        (None, None) => true,
        (Some(x), Some(y)) => x == y,
        _ => false,
    }
}

/// The writes of one frame row, starting in the default colour: runs of the
/// same colour share one colour change.
pub fn row_ops(line: &[char], paints: &[Paint]) -> (r: Vec<DrawOp>)
    ensures
        r@ == ops_from(line@, paints@, None),
{
    let n = if line.len() < paints.len() {
        line.len()
    } else {
        paints.len()
    };
    let mut ops: Vec<DrawOp> = Vec::new();
    let mut cur: Option<Tint> = None;
    let mut i: usize = 0;
    assert(line@.skip(0) =~= line@);
    assert(paints@.skip(0) =~= paints@);
    while i < n
        invariant
            n <= line@.len(),
            n <= paints@.len(),
            n == line@.len() || n == paints@.len(),
            i <= n,
            ops@ + ops_from(line@.skip(i as int), paints@.skip(i as int), cur) == ops_from(
                line@,
                paints@,
                None,
            ),
        decreases n - i,
    {
        let want = paint_color(paints[i]);
        let ghost before = ops@;
        let ghost cur0 = cur;
        if !same_tint(want, cur) {
            match want {
                Some(c) => ops.push(DrawOp::SetColor(c)),
                None => ops.push(DrawOp::ResetColor),
            }
            cur = want;
        }
        ops.push(DrawOp::Glyph(line[i]));
        proof {
            assert(line@.skip(i as int).drop_first() =~= line@.skip(i + 1));
            assert(paints@.skip(i as int).drop_first() =~= paints@.skip(i + 1));
            assert(line@.skip(i as int).len() > 0 && paints@.skip(i as int).len() > 0);
            assert(line@.skip(i as int)[0] == line@[i as int]);
            assert(paints@.skip(i as int)[0] == paints@[i as int]);
            let rest = ops_from(line@.skip(i + 1), paints@.skip(i + 1), want);
            assert(ops_from(line@.skip(i as int), paints@.skip(i as int), cur0) == (if want != cur0 {
                seq![color_op(want), glyph_op(line@[i as int])]
            } else {
                seq![glyph_op(line@[i as int])]
            }) + rest);
            assert(ops@ + rest =~= before + ops_from(line@.skip(i as int), paints@.skip(i as int), cur0));
        }
        i = i + 1;
    }
    let ghost before = ops@;
    if cur.is_some() {
        ops.push(DrawOp::ResetColor);
    }
    proof {
        assert(line@.skip(n as int).len() == 0 || paints@.skip(n as int).len() == 0);
        assert(ops@ =~= before + ops_from(line@.skip(n as int), paints@.skip(n as int), cur));
    }
    ops
}

/// Top-left cell of the pause message in a `(tw, th)` terminal: centred by
/// display width (wide characters count twice) on the middle row.
pub fn pause_origin(term: (u16, u16), msg: &str) -> (r: (u16, u16))
    requires
        2 * msg@.len() <= usize::MAX,
    ensures
        r.0 == (if term.0 >= width_of_seq(msg@) {
            term.0 - width_of_seq(msg@)
        } else {
            0
        }) / 2,
        r.1 == term.1 / 2,
{
    let (tw, th) = term;
    let w = display_width(msg);
    let x = (tw as usize).saturating_sub(w) / 2;
    (x as u16, th / 2)
}

/// The seed taken from the clock: the nanoseconds since the Unix epoch
/// truncated to 64 bits, or 0 when the clock is before the epoch.
pub fn seed_from_nanos(nanos: Option<u128>) -> (r: u64)
    ensures
        r == match nanos {
            Some(n) => (n % 0x1_0000_0000_0000_0000) as u64,
            None => 0,
        },
{
    match nanos {
        Some(n) => {
            let r = n as u64;
            assert(r == (n % 0x1_0000_0000_0000_0000) as u64) by (bit_vector)
                requires
                    r == n as u64,
            ;
            r
        },
        None => 0,
    }
}

} // verus!
