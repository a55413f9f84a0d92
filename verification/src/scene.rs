//! Turns a snapshot of the game, taken at cell resolution, into one frame of
//! characters with a paint tag per cell. Pipes are drawn with Braille dots
//! (2x4 dots per cell), or in command mode as a wall of a line's characters;
//! the HUD, the ceiling and ground lines, the messages, the GameOver box and
//! the bird are then written over them as text.

use crate::rules::{blocks, Phase};
use crate::text::{decimal, labeled_number, lemma_u32_decimal_len};
use vstd::prelude::*;

verus! {

pub const BIRD: char = '●';

pub const BIRD_DEAD: char = '✕';

pub const GROUND: char = '─';

pub const READY_TITLE: &'static str = "F L A P P Y";

pub const READY_HINT: &'static str = "──  press SPACE  ──";

pub const GAMEOVER_TITLE: &'static str = "GAME  OVER";

pub const GAMEOVER_RETRY_HINT: &'static str = "SPACE / click / r : retry";

pub const QUIT_HINT: &'static str = "q                 : quit";

pub const VERSION: &'static str = "0.2.0";

/// Paint tag of one cell; the renderer chooses the colour.
#[derive(Debug, Clone, Copy, PartialEq, Eq, Structural)]
pub enum Paint {
    Plain,
    Pipe,
    Bird,
    /// The dead bird, drawn apart from the living one.
    BirdDead,
}

/// A frame: glyphs and, cell for cell, their paint tags.
pub struct Frame {
    pub chars: Vec<Vec<char>>,
    pub paint: Vec<Vec<Paint>>,
}

/// The cells of a frame, as glyph rows and paint rows.
pub type Canvas = (Seq<Seq<char>>, Seq<Seq<Paint>>);

/// The rows of a grid of vectors, as sequences.
pub open spec fn grid_view<T>(g: Seq<Vec<T>>) -> Seq<Seq<T>> {
    Seq::new(g.len(), |i: int| g[i]@)
}

impl View for Frame {
    type V = Canvas;

    open spec fn view(&self) -> Canvas {
        (grid_view(self.chars@), grid_view(self.paint@))
    }
}

/// `text` written over `row` from column `start` on; what falls past the end is dropped.
pub open spec fn put_text<T>(row: Seq<T>, text: Seq<T>, start: int) -> Seq<T> {
    Seq::new(
        row.len(),
        |j: int|
            if start <= j < start + text.len() {
                text[j - start]
            } else {
                row[j]
            },
    )
}

/// How many of `len` characters written from `start` land in a row of `row_len` cells.
pub open spec fn landed(row_len: int, len: int, start: int) -> int {
    if start + len <= row_len {
        len
    } else if start <= row_len {
        row_len - start
    } else {
        0
    }
}

/// The paint row after `len` characters are written from column `start` on.
pub open spec fn clear_paint(row: Seq<Paint>, len: int, start: int) -> Seq<Paint> {
    Seq::new(
        row.len(),
        |j: int|
            if start <= j < start + len {
                Paint::Plain
            } else {
                row[j]
            },
    )
}

/// Rows joined with line feeds.
pub open spec fn join_lines(rows: Seq<Seq<char>>) -> Seq<char>
    decreases rows.len(),
{
    if rows.len() == 0 {
        Seq::empty()
    } else if rows.len() == 1 {
        rows[0]
    } else {
        join_lines(rows.drop_last()) + seq!['\n'] + rows.last()
    }
}

impl Frame {
    /// The glyph rows joined with `\n`.
    pub fn to_text(&self) -> (r: String)
        ensures
            r@ == join_lines(self@.0),
    {
        let mut s = String::new();
        let n = self.chars.len();
        let mut i: usize = 0;
        while i < n
            invariant
                n == self.chars@.len(),
                i <= n,
                s@ == join_lines(self@.0.take(i as int)),
            decreases n - i,
        {
            let ghost before = s@;
            if i > 0 {
                s.push('\n');
            }
            let row = &self.chars[i];
            let m = row.len();
            let mut j: usize = 0;
            while j < m
                invariant
                    m == row@.len(),
                    j <= m,
                    s@ == (if i > 0 {
                        before + seq!['\n']
                    } else {
                        before
                    }) + row@.take(j as int),
                decreases m - j,
            {
                s.push(row[j]);
                assert(row@.take(j + 1) =~= row@.take(j as int).push(row@[j as int]));
                j = j + 1;
            }
            proof {
                assert(row@.take(m as int) =~= row@);
                let t = self@.0.take(i + 1);
                assert(t.drop_last() =~= self@.0.take(i as int));
                assert(t.last() == row@);
                if i == 0 {
                    assert(join_lines(self@.0.take(0)) =~= Seq::<char>::empty());
                    assert(s@ =~= t[0]);
                }
            }
            i = i + 1;
        }
        assert(self@.0.take(n as int) =~= self@.0);
        s
    }
}

/// Glyph of the Braille pattern with dot mask `mask`: code point `0x2800 + mask`.
pub open spec fn braille_glyph(mask: u8) -> char {
    ((0x2800 + mask) as u32) as char
}

/// Packs a 2x4 dot block into its Braille character; an empty block is a space.
pub fn braille(mask: u8) -> (r: char)
    ensures
        mask == 0 ==> r == ' ',
        mask != 0 ==> r as u32 == 0x2800 + mask && r == braille_glyph(mask),
{
    if mask == 0 {
        ' '
    } else {
        let v: u32 = 0x2800 + mask as u32;
        let o = core::char::from_u32(v);
        assert(o->0 as u32 == v);
        let r = o.unwrap();
        proof {
            vstd::utf8::char_u32_cast(r, v);
        }
        r
    }
}

/// Bit of dot `(dx, dy)` in a Braille mask, 0 outside the 2x4 block.
pub open spec fn dot_bit_of(dx: int, dy: int) -> u8 {
    if dx == 0 && dy == 0 {
        0x01
    } else if dx == 0 && dy == 1 {
        0x02
    } else if dx == 0 && dy == 2 {
        0x04
    } else if dx == 1 && dy == 0 {
        0x08
    } else if dx == 1 && dy == 1 {
        0x10
    } else if dx == 1 && dy == 2 {
        0x20
    } else if dx == 0 && dy == 3 {
        0x40
    } else if dx == 1 && dy == 3 {
        0x80
    } else {
        0
    }
}

/// Bit of dot `(dx, dy)` (dx in 0..2, dy in 0..4) in a Braille mask.
pub fn dot_bit(dx: usize, dy: usize) -> (r: u8)
    ensures
        r == dot_bit_of(dx as int, dy as int),
{
    if dx == 0 && dy == 0 {
        0x01
    } else if dx == 0 && dy == 1 {
        0x02
    } else if dx == 0 && dy == 2 {
        0x04
    } else if dx == 1 && dy == 0 {
        0x08
    } else if dx == 1 && dy == 1 {
        0x10
    } else if dx == 1 && dy == 2 {
        0x20
    } else if dx == 0 && dy == 3 {
        0x40
    } else if dx == 1 && dy == 3 {
        0x80
    } else {
        0
    }
}

/// Writes `text` over a grid row from column `start` on and resets the paint
/// of the written cells; characters past the row's end are dropped.
pub fn place_at(chars: &mut [char], paint: &mut [Paint], text: &str, start: usize)
    requires
        landed(old(chars)@.len() as int, text@.len() as int, start as int) > 0 ==> start + landed(
            old(chars)@.len() as int,
            text@.len() as int,
            start as int,
        ) <= old(paint)@.len(),
        text@.len() == 0 || start + text@.len() - 1 <= usize::MAX,
    ensures
        final(chars)@ == put_text(old(chars)@, text@, start as int),
        final(paint)@ == clear_paint(
            old(paint)@,
            landed(old(chars)@.len() as int, text@.len() as int, start as int),
            start as int,
        ),
{
    let n = text.unicode_len();
    let len = chars.len();
    let ghost c0 = chars@;
    let ghost p0 = paint@;
    let mut i: usize = 0;
    while i < n
        invariant
            n == text@.len(),
            len == chars@.len(),
            len == c0.len(),
            landed(len as int, n as int, start as int) > 0 ==> start + landed(
                len as int,
                n as int,
                start as int,
            ) <= paint@.len(),
            paint@.len() == p0.len(),
            n == 0 || start + n - 1 <= usize::MAX,
            i <= n,
            chars@ == put_text(c0, text@.take(i as int), start as int),
            paint@ == clear_paint(p0, landed(len as int, i as int, start as int), start as int),
        decreases n - i,
    {
        if start + i < len {
            chars[start + i] = text.get_char(i);
            paint[start + i] = Paint::Plain;
        }
        proof {
            assert(chars@ =~= put_text(c0, text@.take(i + 1), start as int));
            assert(paint@ =~= clear_paint(p0, landed(len as int, i + 1, start as int), start as int));
        }
        i = i + 1;
    }
    assert(text@.take(n as int) =~= text@);
}

/// Column at which `text` starts when centred in `cols` columns.
pub open spec fn centered_start(cols: int, len: int) -> int {
    if cols >= len {
        (cols - len) / 2
    } else {
        0
    }
}

/// Writes `text` centred in a row of `cols` columns.
pub fn place_centered(chars: &mut [char], paint: &mut [Paint], text: &str, cols: u16)
    requires
        landed(
            old(chars)@.len() as int,
            text@.len() as int,
            centered_start(cols as int, text@.len() as int),
        ) > 0 ==> centered_start(cols as int, text@.len() as int) + landed(
            old(chars)@.len() as int,
            text@.len() as int,
            centered_start(cols as int, text@.len() as int),
        ) <= old(paint)@.len(),
        text@.len() == 0 || centered_start(cols as int, text@.len() as int) + text@.len() - 1 <= usize::MAX,
    ensures
        final(chars)@ == put_text(old(chars)@, text@, centered_start(cols as int, text@.len() as int)),
        final(paint)@ == clear_paint(
            old(paint)@,
            landed(
                old(chars)@.len() as int,
                text@.len() as int,
                centered_start(cols as int, text@.len() as int),
            ),
            centered_start(cols as int, text@.len() as int),
        ),
{
    let tw = text.unicode_len();
    let start = (cols as usize).saturating_sub(tw) / 2;
    place_at(chars, paint, text, start);
}

} // verus!

verus! {

/// A pipe at drawing resolution: `dot_x` is the left dot column (twice its x,
/// rounded), `col` the collision column (its x, rounded), and `course_idx`
/// the command-output line it stands for in command mode.
#[derive(Debug, Clone, Copy, PartialEq, Eq, Structural)]
pub struct PipeView {
    pub dot_x: i32,
    pub col: i32,
    pub gap_top: u16,
    pub course_idx: usize,
}

/// Everything a frame is drawn from.
pub struct Snapshot {
    pub cols: u16,
    pub rows: u16,
    pub pipe_gap: u16,
    pub phase: Phase,
    pub score: u32,
    pub best: u32,
    /// The bird's cell, as the collision test rounds it (row clamped at 0).
    pub bird_col: u16,
    pub bird_row: u16,
    pub pipes: Vec<PipeView>,
}

/// Dot column `dx` of grid row `row` is raised by one of the first `n` pipes.
pub open spec fn lit_by(pipes: Seq<PipeView>, n: int, pipe_gap: int, rows: int, dot_w: int, row: int, dx: int) -> bool {
    0 <= dx < dot_w && exists|i: int|
        0 <= i < n && (dx == (#[trigger] pipes[i]).dot_x || dx == pipes[i].dot_x + 1) && blocks(
            pipes[i].gap_top as int,
            pipe_gap,
            rows,
            row,
        )
}

/// Dot column `dx` of grid row `row` belongs to some pipe.
pub open spec fn dot_lit(s: Snapshot, row: int, dx: int) -> bool {
    lit_by(s.pipes@, s.pipes@.len() as int, s.pipe_gap as int, s.rows as int, 2 * s.cols, row, dx)
}

/// The Braille mask after the first `k` dots of a cell, visited row by row,
/// left dot before right dot; `left` and `right` say whether the cell's two
/// dot columns are raised (all four dots of a column alike).
pub open spec fn mask_upto(left: bool, right: bool, k: nat) -> u8
    decreases k,
{
    if k == 0 {
        0
    } else {
        let j = k - 1;
        let dx = j % 2;
        let dy = j / 2;
        let raised = if dx == 0 {
            left
        } else {
            right
        };
        if raised {
            mask_upto(left, right, (k - 1) as nat) | dot_bit_of(dx, dy)
        } else {
            mask_upto(left, right, (k - 1) as nat)
        }
    }
}

/// The Braille mask of a cell whose left and right dot columns are as given.
pub open spec fn cell_mask(left: bool, right: bool) -> u8 {
    mask_upto(left, right, 8)
}

/// A cell of the Braille pipe layer.
pub open spec fn braille_cell(s: Snapshot, r: int, c: int) -> (char, Paint) {
    let mask = cell_mask(dot_lit(s, r, 2 * c), dot_lit(s, r, 2 * c + 1));
    if mask != 0 {
        (braille_glyph(mask), Paint::Pipe)
    } else {
        (' ', Paint::Plain)
    }
}

/// A grid of `rows` rows of `cols` copies of `v`.
pub open spec fn filled<T>(rows: int, cols: int, v: T) -> Seq<Seq<T>> {
    Seq::new(rows as nat, |r: int| Seq::new(cols as nat, |c: int| v))
}

fn blank_grid<T: Copy>(rows: usize, cols: usize, v: T) -> (g: Vec<Vec<T>>)
    ensures
        grid_view(g@) == filled(rows as int, cols as int, v),
{
    let mut g: Vec<Vec<T>> = Vec::new();
    let mut r: usize = 0;
    while r < rows
        invariant
            r <= rows,
            g@.len() == r,
            grid_view(g@) == filled(r as int, cols as int, v),
        decreases rows - r,
    {
        let mut row: Vec<T> = Vec::new();
        let mut c: usize = 0;
        while c < cols
            invariant
                c <= cols,
                row@ == Seq::new(c as nat, |j: int| v),
            decreases cols - c,
        {
            row.push(v);
            c = c + 1;
            assert(row@ =~= Seq::new(c as nat, |j: int| v));
        }
        assert(row@ == Seq::new(cols as nat, |j: int| v));
        let ghost g0 = g@;
        g.push(row);
        proof {
            assert forall|k: int| 0 <= k <= r implies #[trigger] grid_view(g@)[k] == Seq::new(
                cols as nat,
                |j: int| v,
            ) by {
                if k < r {
                    assert(g@[k] == g0[k]);
                    assert(grid_view(g0)[k] == filled(r as int, cols as int, v)[k]);
                    assert(grid_view(g@)[k] == g@[k]@);
                }
            }
            assert(grid_view(g@) =~= filled(r + 1, cols as int, v));
        }
        r = r + 1;
    }
    g
}

/// Dot column `x` lies in the first `t` dot columns of pipe `p` (it has two).
pub open spec fn covers(p: PipeView, x: int, t: int) -> bool {
    (t >= 1 && x == p.dot_x) || (t >= 2 && x == p.dot_x + 1)
}

/// Grid row of dot row `y`.
pub open spec fn cell_row(y: int) -> int {
    y / 4
}

/// A layer of cells computed by `f`.
pub open spec fn layer<T>(rows: int, cols: int, f: spec_fn(int, int) -> T) -> Seq<Seq<T>> {
    Seq::new(rows as nat, |r: int| Seq::new(cols as nat, |c: int| f(r, c)))
}

proof fn lemma_dot_row(r: int, k: int)
    requires
        0 <= k < 4,
    ensures
        cell_row(r * 4 + k) == r,
{
}

/// Draws the pipes as Braille dots (2 dot columns per cell, 4 dot rows per
/// cell) over a blank grid: each pipe raises dot columns `dot_x` and
/// `dot_x + 1` on every row it blocks.
fn render_pipes_braille(
    s: &Snapshot,
    chars: &mut [Vec<char>],
    paint: &mut [Vec<Paint>],
    cols: usize,
    rows: usize,
)
    requires
        cols == s.cols,
        rows == s.rows,
        grid_view(old(chars)@) == filled(rows as int, cols as int, ' '),
        grid_view(old(paint)@) == filled(rows as int, cols as int, Paint::Plain),
        forall|i: int| 0 <= i < s.pipes@.len() ==> (#[trigger] s.pipes@[i]).dot_x < i32::MAX,
    ensures
        grid_view(final(chars)@) == layer(rows as int, cols as int, |r: int, c: int| braille_cell(*s, r, c).0),
        grid_view(final(paint)@) == layer(rows as int, cols as int, |r: int, c: int| braille_cell(*s, r, c).1),
{
    let dot_w = cols * 2;
    let dot_h = rows * 4;
    let mut dots = blank_grid(dot_h, dot_w, false);
    let ghost pipes = s.pipes@;
    let ghost gap = s.pipe_gap as int;
    let ghost rws = s.rows as int;
    let n = s.pipes.len();
    proof {
        assert(grid_view(dots@).len() == dots@.len());
        assert(filled(dot_h as int, dot_w as int, false).len() == dot_h);
        assert(dots@.len() == dot_h);
        assert forall|y: int| 0 <= y < dot_h implies (#[trigger] dots@[y])@ == Seq::new(
            dot_w as nat,
            |c: int| false,
        ) by {
            assert(grid_view(dots@)[y] == dots@[y]@);
        }
    }
    let mut i: usize = 0;
    while i < n
        invariant
            n == pipes.len(),
            pipes == s.pipes@,
            gap == s.pipe_gap,
            rws == s.rows,
            rows == s.rows,
            dot_w == 2 * cols,
            dot_h == 4 * rows,
            i <= n,
            dots@.len() == dot_h,
            forall|y: int| 0 <= y < dot_h ==> (#[trigger] dots@[y])@.len() == dot_w,
            forall|y: int, x: int|
                0 <= y < dot_h && 0 <= x < dot_w ==> (#[trigger] dots@[y]@[x]) == lit_by(
                    pipes,
                    i as int,
                    gap,
                    rws,
                    dot_w as int,
                    cell_row(y),
                    x,
                ),
            forall|j: int| 0 <= j < pipes.len() ==> (#[trigger] pipes[j]).dot_x < i32::MAX,
        decreases n - i,
    {
        let p = s.pipes[i];
        let mut t: i32 = 0;
        while t < 2
            invariant
                n == pipes.len(),
                pipes == s.pipes@,
                gap == s.pipe_gap,
                rws == s.rows,
                rows == s.rows,
                dot_w == 2 * cols,
                dot_h == 4 * rows,
                i < n,
                p == pipes[i as int],
                p.dot_x < i32::MAX,
                0 <= t <= 2,
                dots@.len() == dot_h,
                forall|y: int| 0 <= y < dot_h ==> (#[trigger] dots@[y])@.len() == dot_w,
                forall|y: int, x: int|
                    0 <= y < dot_h && 0 <= x < dot_w ==> (#[trigger] dots@[y]@[x]) == (lit_by(
                        pipes,
                        i as int,
                        gap,
                        rws,
                        dot_w as int,
                        cell_row(y),
                        x,
                    ) || (covers(p, x, t as int) && blocks(p.gap_top as int, gap, rws, cell_row(y)))),
            decreases 2 - t,
        {
            let dx = p.dot_x + t;
            if dx >= 0 && (dx as usize) < dot_w {
                let dxu = dx as usize;
                let mut row: usize = 0;
                while row < rows
                    invariant
                        rows == s.rows,
                        rws == s.rows,
                        gap == s.pipe_gap,
                        dot_w == 2 * cols,
                        dot_h == 4 * rows,
                        0 <= t < 2,
                        dx == p.dot_x + t,
                        dxu == dx,
                        dxu < dot_w,
                        row <= rows,
                        dots@.len() == dot_h,
                        forall|y: int| 0 <= y < dot_h ==> (#[trigger] dots@[y])@.len() == dot_w,
                        forall|y: int, x: int|
                            0 <= y < dot_h && 0 <= x < dot_w ==> (#[trigger] dots@[y]@[x]) == (
                            lit_by(pipes, i as int, gap, rws, dot_w as int, cell_row(y), x) || (
                            covers(p, x, t as int) && blocks(p.gap_top as int, gap, rws, cell_row(y)))
                                || (x == dx && cell_row(y) < row && blocks(
                                p.gap_top as int,
                                gap,
                                rws,
                                cell_row(y),
                            ))),
                    decreases rows - row,
                {
                    if crate::rules::pipe_blocks_row(p.gap_top, s.pipe_gap, s.rows, row as i32) {
                        let mut k: usize = 0;
                        while k < 4
                            invariant
                                rows == s.rows,
                                rws == s.rows,
                                gap == s.pipe_gap,
                                dot_w == 2 * cols,
                                dot_h == 4 * rows,
                                0 <= t < 2,
                                dx == p.dot_x + t,
                                dxu == dx,
                                dxu < dot_w,
                                row < rows,
                                blocks(p.gap_top as int, gap, rws, row as int),
                                k <= 4,
                                dots@.len() == dot_h,
                                forall|y: int| 0 <= y < dot_h ==> (#[trigger] dots@[y])@.len() == dot_w,
                                forall|y: int, x: int|
                                    0 <= y < dot_h && 0 <= x < dot_w ==> (#[trigger] dots@[y]@[x])
                                        == (lit_by(pipes, i as int, gap, rws, dot_w as int, cell_row(y), x)
                                        || (covers(p, x, t as int) && blocks(
                                        p.gap_top as int,
                                        gap,
                                        rws,
                                        cell_row(y),
                                    )) || (x == dx && cell_row(y) < row && blocks(
                                        p.gap_top as int,
                                        gap,
                                        rws,
                                        cell_row(y),
                                    )) || (x == dx && cell_row(y) == row && y - 4 * row < k)),
                            decreases 4 - k,
                        {
                            let y = row * 4 + k;
                            proof {
                                lemma_dot_row(row as int, k as int);
                            }
                            let ghost before = dots@;
                            dots[y][dxu] = true;
                            proof {
                                assert forall|yy: int, x: int|
                                    0 <= yy < dot_h && 0 <= x < dot_w implies (#[trigger] dots@[yy]@[x])
                                        == (lit_by(pipes, i as int, gap, rws, dot_w as int, cell_row(yy), x)
                                        || (covers(p, x, t as int) && blocks(
                                        p.gap_top as int,
                                        gap,
                                        rws,
                                        cell_row(yy),
                                    )) || (x == dx && cell_row(yy) < row && blocks(
                                        p.gap_top as int,
                                        gap,
                                        rws,
                                        cell_row(yy),
                                    )) || (x == dx && cell_row(yy) == row && yy - 4 * row < k + 1)) by {
                                    assert(before[yy]@[x] == (lit_by(pipes, i as int, gap, rws, dot_w as int, cell_row(yy), x)
                                        || (covers(p, x, t as int) && blocks(
                                        p.gap_top as int,
                                        gap,
                                        rws,
                                        cell_row(yy),
                                    )) || (x == dx && cell_row(yy) < row && blocks(
                                        p.gap_top as int,
                                        gap,
                                        rws,
                                        cell_row(yy),
                                    )) || (x == dx && cell_row(yy) == row && yy - 4 * row < k)));
                                }
                            }
                            k = k + 1;
                        }
                    }
                    row = row + 1;
                }
            }
            t = t + 1;
        }
        proof {
            assert forall|y: int, x: int|
                0 <= y < dot_h && 0 <= x < dot_w implies (#[trigger] dots@[y]@[x]) == lit_by(
                pipes,
                i + 1,
                gap,
                rws,
                dot_w as int,
                cell_row(y),
                x,
            ) by {
                if covers(p, x, 2) && blocks(p.gap_top as int, gap, rws, cell_row(y)) {
                    assert(pipes[i as int] == p);
                }
                if lit_by(pipes, i + 1, gap, rws, dot_w as int, cell_row(y), x) {
                    let j = choose|j: int|
                        0 <= j < i + 1 && (x == (#[trigger] pipes[j]).dot_x || x == pipes[j].dot_x + 1)
                            && blocks(pipes[j].gap_top as int, gap, rws, cell_row(y));
                    if j < i {
                        assert(lit_by(pipes, i as int, gap, rws, dot_w as int, cell_row(y), x));
                    }
                }
            }
        }
        i = i + 1;
    }
    proof {
        assert(grid_view(chars@).len() == chars@.len());
        assert(grid_view(paint@).len() == paint@.len());
        assert forall|rr: int| 0 <= rr < rows implies (#[trigger] chars@[rr])@ == Seq::new(
            cols as nat,
            |c: int| ' ',
        ) by {
            assert(grid_view(chars@)[rr] == chars@[rr]@);
        }
        assert forall|rr: int| 0 <= rr < rows implies (#[trigger] paint@[rr])@ == Seq::new(
            cols as nat,
            |c: int| Paint::Plain,
        ) by {
            assert(grid_view(paint@)[rr] == paint@[rr]@);
        }
    }
    let ghost sv = *s;
    let mut r: usize = 0;
    while r < rows
        invariant
            sv == *s,
            n == pipes.len(),
            pipes == s.pipes@,
            gap == s.pipe_gap,
            rws == s.rows,
            rows == s.rows,
            cols == s.cols,
            dot_w == 2 * cols,
            dot_h == 4 * rows,
            r <= rows,
            dots@.len() == dot_h,
            forall|y: int| 0 <= y < dot_h ==> (#[trigger] dots@[y])@.len() == dot_w,
            forall|y: int, x: int|
                0 <= y < dot_h && 0 <= x < dot_w ==> (#[trigger] dots@[y]@[x]) == dot_lit(
                    sv,
                    cell_row(y),
                    x,
                ),
            chars@.len() == rows,
            paint@.len() == rows,
            forall|rr: int| 0 <= rr < rows ==> (#[trigger] chars@[rr])@.len() == cols,
            forall|rr: int| 0 <= rr < rows ==> (#[trigger] paint@[rr])@.len() == cols,
            forall|rr: int, c: int|
                0 <= rr < r && 0 <= c < cols ==> (#[trigger] chars@[rr]@[c]) == braille_cell(sv, rr, c).0
                    && paint@[rr]@[c] == braille_cell(sv, rr, c).1,
            forall|rr: int, c: int|
                r <= rr < rows && 0 <= c < cols ==> (#[trigger] chars@[rr]@[c]) == ' ' && paint@[rr]@[c]
                    == Paint::Plain,
        decreases rows - r,
    {
        let mut c: usize = 0;
        while c < cols
            invariant
                sv == *s,
                rows == s.rows,
                cols == s.cols,
                dot_w == 2 * cols,
                dot_h == 4 * rows,
                r < rows,
                c <= cols,
                dots@.len() == dot_h,
                forall|y: int| 0 <= y < dot_h ==> (#[trigger] dots@[y])@.len() == dot_w,
                forall|y: int, x: int|
                    0 <= y < dot_h && 0 <= x < dot_w ==> (#[trigger] dots@[y]@[x]) == dot_lit(
                        sv,
                        cell_row(y),
                        x,
                    ),
                chars@.len() == rows,
                paint@.len() == rows,
                forall|rr: int| 0 <= rr < rows ==> (#[trigger] chars@[rr])@.len() == cols,
                forall|rr: int| 0 <= rr < rows ==> (#[trigger] paint@[rr])@.len() == cols,
                forall|rr: int, cc: int|
                    0 <= rr < rows && 0 <= cc < cols && (rr < r || (rr == r && cc < c)) ==> (
                    #[trigger] chars@[rr]@[cc]) == braille_cell(sv, rr, cc).0 && paint@[rr]@[cc]
                        == braille_cell(sv, rr, cc).1,
                forall|rr: int, cc: int|
                    0 <= rr < rows && 0 <= cc < cols && (rr > r || (rr == r && cc >= c)) ==> (
                    #[trigger] chars@[rr]@[cc]) == ' ' && paint@[rr]@[cc] == Paint::Plain,
            decreases cols - c,
        {
            let ghost left = dot_lit(sv, r as int, 2 * c);
            let ghost right = dot_lit(sv, r as int, 2 * c + 1);
            let mut mask: u8 = 0;
            let mut dy: usize = 0;
            while dy < 4
                invariant
                    sv == *s,
                    rows == s.rows,
                    dot_w == 2 * cols,
                    dot_h == 4 * rows,
                    r < rows,
                    c < cols,
                    dy <= 4,
                    left == dot_lit(sv, r as int, 2 * c),
                    right == dot_lit(sv, r as int, 2 * c + 1),
                    dots@.len() == dot_h,
                    forall|y: int| 0 <= y < dot_h ==> (#[trigger] dots@[y])@.len() == dot_w,
                    forall|y: int, x: int|
                        0 <= y < dot_h && 0 <= x < dot_w ==> (#[trigger] dots@[y]@[x]) == dot_lit(
                            sv,
                            cell_row(y),
                            x,
                        ),
                    mask == mask_upto(left, right, (2 * dy) as nat),
                decreases 4 - dy,
            {
                let mut dx: usize = 0;
                while dx < 2
                    invariant
                        sv == *s,
                        rows == s.rows,
                        dot_w == 2 * cols,
                        dot_h == 4 * rows,
                        r < rows,
                        c < cols,
                        dy < 4,
                        dx <= 2,
                        left == dot_lit(sv, r as int, 2 * c),
                        right == dot_lit(sv, r as int, 2 * c + 1),
                        dots@.len() == dot_h,
                        forall|y: int| 0 <= y < dot_h ==> (#[trigger] dots@[y])@.len() == dot_w,
                        forall|y: int, x: int|
                            0 <= y < dot_h && 0 <= x < dot_w ==> (#[trigger] dots@[y]@[x])
                                == dot_lit(sv, cell_row(y), x),
                        mask == mask_upto(left, right, (2 * dy + dx) as nat),
                    decreases 2 - dx,
                {
                    proof {
                        lemma_dot_row(r as int, dy as int);
                        let k = 2 * dy + dx;
                        assert((k as int) % 2 == dx as int);
                        assert((k as int) / 2 == dy as int);
                    }
                    if dots[r * 4 + dy][c * 2 + dx] {
                        mask = mask | dot_bit(dx, dy);
                    }
                    dx = dx + 1;
                }
                dy = dy + 1;
            }
            let ghost c0 = chars@;
            let ghost p0 = paint@;
            assert(mask == cell_mask(left, right));
            assert forall|rr: int, cc: int|
                0 <= rr < rows && 0 <= cc < cols && (rr < r || (rr == r && cc < c)) implies (
                #[trigger] c0[rr]@[cc]) == braille_cell(sv, rr, cc).0 && p0[rr]@[cc]
                    == braille_cell(sv, rr, cc).1 by {
                assert(c0[rr]@[cc] == chars@[rr]@[cc]);
            }
            assert forall|rr: int, cc: int|
                0 <= rr < rows && 0 <= cc < cols && (rr > r || (rr == r && cc >= c)) implies (
                #[trigger] c0[rr]@[cc]) == ' ' && p0[rr]@[cc] == Paint::Plain by {
                assert(c0[rr]@[cc] == chars@[rr]@[cc]);
            }
            if mask != 0 {
                let g = braille(mask);
                chars[r][c] = g;
                paint[r][c] = Paint::Pipe;
            }
            proof {
                assert(chars@[r as int]@[c as int] == braille_cell(sv, r as int, c as int).0);
                assert(paint@[r as int]@[c as int] == braille_cell(sv, r as int, c as int).1);
                assert forall|rr: int, cc: int|
                    0 <= rr < rows && 0 <= cc < cols && !(rr == r && cc == c) implies (
                    #[trigger] chars@[rr]@[cc]) == c0[rr]@[cc] && paint@[rr]@[cc] == p0[rr]@[cc] by {
                    if rr != r {
                        assert(chars@[rr] == c0[rr]);
                        assert(paint@[rr] == p0[rr]);
                    }
                }
                assert forall|rr: int, cc: int|
                    0 <= rr < rows && 0 <= cc < cols && (rr < r || (rr == r && cc < c + 1)) implies (
                    #[trigger] chars@[rr]@[cc]) == braille_cell(sv, rr, cc).0 && paint@[rr]@[cc]
                        == braille_cell(sv, rr, cc).1 by {
                    if !(rr == r && cc == c) {
                        assert(chars@[rr]@[cc] == c0[rr]@[cc] && paint@[rr]@[cc] == p0[rr]@[cc]);
                        assert(c0[rr]@[cc] == braille_cell(sv, rr, cc).0);
                    }
                }
                assert forall|rr: int, cc: int|
                    0 <= rr < rows && 0 <= cc < cols && (rr > r || (rr == r && cc >= c + 1)) implies (
                    #[trigger] chars@[rr]@[cc]) == ' ' && paint@[rr]@[cc] == Paint::Plain by {
                    assert(chars@[rr]@[cc] == c0[rr]@[cc] && paint@[rr]@[cc] == p0[rr]@[cc]);
                    assert(c0[rr]@[cc] == ' ');
                }
            }
            c = c + 1;
        }
        proof {
            assert forall|rr: int, cc: int|
                0 <= rr < r + 1 && 0 <= cc < cols implies (#[trigger] chars@[rr]@[cc]) == braille_cell(
                sv,
                rr,
                cc,
            ).0 && paint@[rr]@[cc] == braille_cell(sv, rr, cc).1 by {
                assert(rr < r || (rr == r && cc < c));
            }
        }
        r = r + 1;
    }
    proof {
        assert forall|rr: int| 0 <= rr < rows implies (#[trigger] grid_view(chars@)[rr]) =~= layer(
            rows as int,
            cols as int,
            |r: int, c: int| braille_cell(*s, r, c).0,
        )[rr] by {
            assert(grid_view(chars@)[rr] == chars@[rr]@);
            assert forall|cc: int| 0 <= cc < cols implies #[trigger] chars@[rr]@[cc] == layer(
                rows as int,
                cols as int,
                |r: int, c: int| braille_cell(*s, r, c).0,
            )[rr][cc] by {
                assert(chars@[rr]@[cc] == braille_cell(sv, rr, cc).0);
            }
        }
        assert forall|rr: int| 0 <= rr < rows implies (#[trigger] grid_view(paint@)[rr]) =~= layer(
            rows as int,
            cols as int,
            |r: int, c: int| braille_cell(*s, r, c).1,
        )[rr] by {
            assert(grid_view(paint@)[rr] == paint@[rr]@);
            assert forall|cc: int| 0 <= cc < cols implies #[trigger] paint@[rr]@[cc] == layer(
                rows as int,
                cols as int,
                |r: int, c: int| braille_cell(*s, r, c).1,
            )[rr][cc] by {
                assert(chars@[rr]@[cc] == braille_cell(sv, rr, cc).0);
                assert(paint@[rr]@[cc] == braille_cell(sv, rr, cc).1);
            }
        }
        assert(grid_view(chars@) =~~= layer(
            rows as int,
            cols as int,
            |r: int, c: int| braille_cell(*s, r, c).0,
        ));
        assert(grid_view(paint@) =~~= layer(
            rows as int,
            cols as int,
            |r: int, c: int| braille_cell(*s, r, c).1,
        ));
    }

}

/// The character sequences of some strings.
pub open spec fn lines_view(lines: Seq<String>) -> Seq<Seq<char>> {
    Seq::new(lines.len(), |i: int| lines[i]@)
}

/// The line a pipe stands for in command mode (lines used in turn).
pub open spec fn wall_line(lines: Seq<Seq<char>>, p: PipeView) -> Seq<char> {
    lines[(p.course_idx as int) % (lines.len() as int)]
}

/// Pipe `p` draws its wall on cell `(r, c)`.
pub open spec fn wall_hits(s: Snapshot, lines: Seq<Seq<char>>, p: PipeView, r: int, c: int) -> bool {
    &&& p.col == c
    &&& wall_line(lines, p).len() > 0
    &&& 1 <= r
    &&& blocks(p.gap_top as int, s.pipe_gap as int, s.rows as int, r)
}

/// The wall character of pipe `p` on row `r`: the line's characters from row 1
/// down, repeated when the line is shorter than the wall.
pub open spec fn wall_glyph(lines: Seq<Seq<char>>, p: PipeView, r: int) -> char {
    let g = wall_line(lines, p);
    g[(r - 1) % (g.len() as int)]
}

/// A cell of the wall layer drawn by `pipes`; a later pipe draws over an earlier one.
pub open spec fn wall_cell(s: Snapshot, lines: Seq<Seq<char>>, pipes: Seq<PipeView>, r: int, c: int) -> (char, Paint)
    decreases pipes.len(),
{
    if pipes.len() == 0 {
        (' ', Paint::Plain)
    } else if wall_hits(s, lines, pipes.last(), r, c) {
        (wall_glyph(lines, pipes.last(), r), Paint::Pipe)
    } else {
        wall_cell(s, lines, pipes.drop_last(), r, c)
    }
}

/// A cell of the command-mode pipe layer; no lines draw nothing.
pub open spec fn text_cell(s: Snapshot, lines: Seq<Seq<char>>, r: int, c: int) -> (char, Paint) {
    if lines.len() == 0 {
        (' ', Paint::Plain)
    } else {
        wall_cell(s, lines, s.pipes@, r, c)
    }
}

/// The first `k` pipes of the command-mode layer are drawn in the grid.
pub open spec fn walls_drawn(
    chars: Seq<Vec<char>>,
    paint: Seq<Vec<Paint>>,
    s: Snapshot,
    lv: Seq<Seq<char>>,
    k: int,
    rows: int,
    cols: int,
) -> bool {
    &&& chars.len() == rows
    &&& paint.len() == rows
    &&& forall|rr: int| 0 <= rr < rows ==> (#[trigger] chars[rr])@.len() == cols
    &&& forall|rr: int| 0 <= rr < rows ==> (#[trigger] paint[rr])@.len() == cols
    &&& forall|rr: int, cc: int|
        0 <= rr < rows && 0 <= cc < cols ==> (#[trigger] chars[rr]@[cc]) == wall_cell(
            s,
            lv,
            s.pipes@.take(k),
            rr,
            cc,
        ).0 && paint[rr]@[cc] == wall_cell(s, lv, s.pipes@.take(k), rr, cc).1
}

/// One pipe of the command-mode layer: given the grid drawn for the first
/// `i` pipes, draws pipe `i` over it.
fn draw_wall(
    s: &Snapshot,
    lines: &[String],
    i: usize,
    chars: &mut [Vec<char>],
    paint: &mut [Vec<Paint>],
    cols: usize,
    rows: usize,
)
    requires
        i < s.pipes@.len(),
        lines@.len() > 0,
        rows == s.rows,
        cols == s.cols,
        walls_drawn(old(chars)@, old(paint)@, *s, lines_view(lines@), i as int, rows as int, cols as int),
    ensures
        walls_drawn(final(chars)@, final(paint)@, *s, lines_view(lines@), i + 1, rows as int, cols as int),
{
    let ghost sv = *s;
    let ghost lv = lines_view(lines@);
    let p = s.pipes[i];
    let ghost pre = sv.pipes@.take(i as int);
    let ghost post = sv.pipes@.take(i + 1);
    proof {
        assert(post.drop_last() =~= pre);
        assert(post.last() == p);
        assert forall|rr: int, cc: int|
            0 <= rr < rows && 0 <= cc < cols implies (#[trigger] chars@[rr]@[cc]) == wall_cell(
                sv,
                lv,
                pre,
                rr,
                cc,
            ).0 && paint@[rr]@[cc] == wall_cell(sv, lv, pre, rr, cc).1 by {
            assert(old(chars)@[rr]@[cc] == chars@[rr]@[cc]);
            assert(old(paint)@[rr]@[cc] == paint@[rr]@[cc]);
        }
    }
    let col = p.col;
    if col >= 0 && (col as usize) < cols {
        let cu = col as usize;
        let line = &lines[p.course_idx % lines.len()];
        let glen = line.unicode_len();
        proof {
            assert(lv[(p.course_idx as int) % (lines@.len() as int)] == line@);
            assert(wall_line(lv, p) == line@);
        }
        if glen > 0 {
            let mut row: usize = 1;
            proof {
                assert forall|rr: int, cc: int|
                    0 <= rr < rows && 0 <= cc < cols implies (#[trigger] chars@[rr]@[cc]) == (if rr
                        < row {
                        wall_cell(sv, lv, post, rr, cc).0
                    } else {
                        wall_cell(sv, lv, pre, rr, cc).0
                    }) && paint@[rr]@[cc] == (if rr < row {
                        wall_cell(sv, lv, post, rr, cc).1
                    } else {
                        wall_cell(sv, lv, pre, rr, cc).1
                    }) by {
                    assert(chars@[rr]@[cc] == wall_cell(sv, lv, pre, rr, cc).0);
                    assert(paint@[rr]@[cc] == wall_cell(sv, lv, pre, rr, cc).1);
                    if rr < row {
                        assert(post.len() > 0);
                        assert(!wall_hits(sv, lv, post.last(), rr, cc));
                        assert(wall_cell(sv, lv, post, rr, cc) == wall_cell(
                            sv,
                            lv,
                            post.drop_last(),
                            rr,
                            cc,
                        ));
                        assert(post.drop_last() == pre);
                    }
                }
            }
            while row < rows
                invariant
                    sv == *s,
                    lv == lines_view(lines@),
                    lines@.len() > 0,
                    rows == s.rows,
                    cols == s.cols,
                    post.len() > 0,
                    p == post.last(),
                    post.drop_last() == pre,
                    wall_line(lv, p) == line@,
                    glen == line@.len(),
                    glen > 0,
                    cu == p.col,
                    cu < cols,
                    1 <= row <= rows || rows == 0,
                    chars@.len() == rows,
                    paint@.len() == rows,
                    forall|rr: int| 0 <= rr < rows ==> (#[trigger] chars@[rr])@.len() == cols,
                    forall|rr: int| 0 <= rr < rows ==> (#[trigger] paint@[rr])@.len() == cols,
                    forall|rr: int, cc: int|
                        0 <= rr < rows && 0 <= cc < cols ==> (#[trigger] chars@[rr]@[cc])
                            == (if rr < row {
                            wall_cell(sv, lv, post, rr, cc).0
                        } else {
                            wall_cell(sv, lv, pre, rr, cc).0
                        }) && paint@[rr]@[cc] == (if rr < row {
                            wall_cell(sv, lv, post, rr, cc).1
                        } else {
                            wall_cell(sv, lv, pre, rr, cc).1
                        }),
                decreases rows - row,
            {
                let ghost c0 = chars@;
                let ghost p0 = paint@;
                proof {
                    assert forall|rr: int, cc: int|
                        0 <= rr < rows && 0 <= cc < cols implies (#[trigger] c0[rr]@[cc]) == (if rr
                            < row {
                            wall_cell(sv, lv, post, rr, cc).0
                        } else {
                            wall_cell(sv, lv, pre, rr, cc).0
                        }) && p0[rr]@[cc] == (if rr < row {
                            wall_cell(sv, lv, post, rr, cc).1
                        } else {
                            wall_cell(sv, lv, pre, rr, cc).1
                        }) by {
                        assert(c0[rr]@[cc] == chars@[rr]@[cc]);
                    }
                }
                if crate::rules::pipe_blocks_row(p.gap_top, s.pipe_gap, s.rows, row as i32) {
                    let g = line.get_char((row - 1) % glen);
                    chars[row][cu] = g;
                    paint[row][cu] = Paint::Pipe;
                }
                proof {
                    assert forall|rr: int, cc: int|
                        0 <= rr < rows && 0 <= cc < cols implies (#[trigger] chars@[rr]@[cc]) == (if rr
                            < row + 1 {
                            wall_cell(sv, lv, post, rr, cc).0
                        } else {
                            wall_cell(sv, lv, pre, rr, cc).0
                        }) && paint@[rr]@[cc] == (if rr < row + 1 {
                            wall_cell(sv, lv, post, rr, cc).1
                        } else {
                            wall_cell(sv, lv, pre, rr, cc).1
                        }) by {
                        assert(post.len() > 0);
                        assert(wall_cell(sv, lv, post, rr, cc) == if wall_hits(sv, lv, p, rr, cc) {
                            (wall_glyph(lv, p, rr), Paint::Pipe)
                        } else {
                            wall_cell(sv, lv, pre, rr, cc)
                        });
                        if rr == row && cc == cu {
                            assert(chars@[rr]@[cc] == c0[rr]@[cc] || wall_hits(sv, lv, p, rr, cc));
                        } else {
                            if rr != row {
                                assert(chars@[rr] == c0[rr]);
                                assert(paint@[rr] == p0[rr]);
                            }
                            assert(chars@[rr]@[cc] == c0[rr]@[cc]);
                            assert(paint@[rr]@[cc] == p0[rr]@[cc]);
                            if rr == row {
                                assert(!wall_hits(sv, lv, p, rr, cc));
                            }
                        }
                    }
                }
                row = row + 1;
            }
            proof {
                assert forall|rr: int, cc: int|
                    0 <= rr < rows && 0 <= cc < cols implies (#[trigger] chars@[rr]@[cc])
                        == wall_cell(sv, lv, post, rr, cc).0 && paint@[rr]@[cc] == wall_cell(
                        sv,
                        lv,
                        post,
                        rr,
                        cc,
                    ).1 by {
                    assert(rr < row);
                    assert(chars@[rr]@[cc] == (if rr < row {
                        wall_cell(sv, lv, post, rr, cc).0
                    } else {
                        wall_cell(sv, lv, pre, rr, cc).0
                    }));
                    assert(paint@[rr]@[cc] == (if rr < row {
                        wall_cell(sv, lv, post, rr, cc).1
                    } else {
                        wall_cell(sv, lv, pre, rr, cc).1
                    }));
                }
            }
        } else {
            proof {
                assert forall|rr: int, cc: int|
                    0 <= rr < rows && 0 <= cc < cols implies (#[trigger] chars@[rr]@[cc])
                        == wall_cell(sv, lv, post, rr, cc).0 && paint@[rr]@[cc] == wall_cell(
                        sv,
                        lv,
                        post,
                        rr,
                        cc,
                    ).1 by {
                    assert(post.len() > 0);
                    assert(wall_cell(sv, lv, post, rr, cc) == if wall_hits(sv, lv, p, rr, cc) {
                        (wall_glyph(lv, p, rr), Paint::Pipe)
                    } else {
                        wall_cell(sv, lv, pre, rr, cc)
                    });
                    assert(!wall_hits(sv, lv, p, rr, cc));
                    assert(pre == sv.pipes@.take(i as int));
                    assert(chars@[rr]@[cc] == wall_cell(sv, lv, pre, rr, cc).0);
                    assert(paint@[rr]@[cc] == wall_cell(sv, lv, pre, rr, cc).1);
                }
            }
        }
    } else {
        proof {
            assert forall|rr: int, cc: int|
                0 <= rr < rows && 0 <= cc < cols implies (#[trigger] chars@[rr]@[cc])
                    == wall_cell(sv, lv, post, rr, cc).0 && paint@[rr]@[cc] == wall_cell(
                    sv,
                    lv,
                    post,
                    rr,
                    cc,
                ).1 by {
                assert(post.len() > 0);
                    assert(wall_cell(sv, lv, post, rr, cc) == if wall_hits(sv, lv, p, rr, cc) {
                        (wall_glyph(lv, p, rr), Paint::Pipe)
                    } else {
                        wall_cell(sv, lv, pre, rr, cc)
                    });
                assert(!wall_hits(sv, lv, p, rr, cc));
                assert(pre == sv.pipes@.take(i as int));
                assert(chars@[rr]@[cc] == wall_cell(sv, lv, pre, rr, cc).0);
                assert(paint@[rr]@[cc] == wall_cell(sv, lv, pre, rr, cc).1);
            }
        }
    }
    proof {
        assert(post == sv.pipes@.take(i + 1));
        assert forall|rr: int, cc: int|
            0 <= rr < rows && 0 <= cc < cols implies (#[trigger] chars@[rr]@[cc]) == wall_cell(
                sv,
                lv,
                sv.pipes@.take(i + 1),
                rr,
                cc,
            ).0 && paint@[rr]@[cc] == wall_cell(sv, lv, sv.pipes@.take(i + 1), rr, cc).1 by {
            assert(chars@[rr]@[cc] == wall_cell(sv, lv, post, rr, cc).0);
            assert(paint@[rr]@[cc] == wall_cell(sv, lv, post, rr, cc).1);
        }
        assert(walls_drawn(chars@, paint@, *s, lines_view(lines@), i + 1, rows as int, cols as int));
    }
}

/// Draws each pipe as a wall of its line's characters (command mode), over a
/// blank grid: in the pipe's collision column, every blocked row from row 1
/// down shows the next character of the line, cycling.
fn render_pipes_text(
    s: &Snapshot,
    lines: &[String],
    chars: &mut [Vec<char>],
    paint: &mut [Vec<Paint>],
    cols: usize,
    rows: usize,
)
    requires
        cols == s.cols,
        rows == s.rows,
        grid_view(old(chars)@) == filled(rows as int, cols as int, ' '),
        grid_view(old(paint)@) == filled(rows as int, cols as int, Paint::Plain),
    ensures
        grid_view(final(chars)@) == layer(
            rows as int,
            cols as int,
            |r: int, c: int| text_cell(*s, lines_view(lines@), r, c).0,
        ),
        grid_view(final(paint)@) == layer(
            rows as int,
            cols as int,
            |r: int, c: int| text_cell(*s, lines_view(lines@), r, c).1,
        ),
{
    let ghost sv = *s;
    let ghost lv = lines_view(lines@);
    proof {
        assert(grid_view(chars@).len() == chars@.len());
        assert(grid_view(paint@).len() == paint@.len());
        assert forall|rr: int| 0 <= rr < rows implies (#[trigger] chars@[rr])@ == Seq::new(
            cols as nat,
            |c: int| ' ',
        ) by {
            assert(grid_view(chars@)[rr] == chars@[rr]@);
        }
        assert forall|rr: int| 0 <= rr < rows implies (#[trigger] paint@[rr])@ == Seq::new(
            cols as nat,
            |c: int| Paint::Plain,
        ) by {
            assert(grid_view(paint@)[rr] == paint@[rr]@);
        }
    }
    if lines.len() == 0 {
        proof {
            assert(grid_view(chars@) =~~= layer(
                rows as int,
                cols as int,
                |r: int, c: int| text_cell(*s, lines_view(lines@), r, c).0,
            ));
            assert(grid_view(paint@) =~~= layer(
                rows as int,
                cols as int,
                |r: int, c: int| text_cell(*s, lines_view(lines@), r, c).1,
            ));
        }
        return;
    }
    let n = s.pipes.len();
    let mut i: usize = 0;
    while i < n
        invariant
            sv == *s,
            lv == lines_view(lines@),
            lines@.len() > 0,
            n == s.pipes@.len(),
            rows == s.rows,
            cols == s.cols,
            i <= n,
            walls_drawn(chars@, paint@, sv, lv, i as int, rows as int, cols as int),
        decreases n - i,
    {
        draw_wall(s, lines, i, chars, paint, cols, rows);
        i = i + 1;
    }
    proof {
        assert(sv.pipes@.take(n as int) =~= sv.pipes@);
        assert forall|rr: int| 0 <= rr < rows implies (#[trigger] grid_view(chars@)[rr]) =~= layer(
            rows as int,
            cols as int,
            |r: int, c: int| text_cell(*s, lines_view(lines@), r, c).0,
        )[rr] by {
            assert(grid_view(chars@)[rr] == chars@[rr]@);
            assert forall|cc: int| 0 <= cc < cols implies #[trigger] chars@[rr]@[cc] == layer(
                rows as int,
                cols as int,
                |r: int, c: int| text_cell(*s, lines_view(lines@), r, c).0,
            )[rr][cc] by {
                assert(chars@[rr]@[cc] == wall_cell(sv, lv, sv.pipes@.take(n as int), rr, cc).0);
            }
        }
        assert forall|rr: int| 0 <= rr < rows implies (#[trigger] grid_view(paint@)[rr]) =~= layer(
            rows as int,
            cols as int,
            |r: int, c: int| text_cell(*s, lines_view(lines@), r, c).1,
        )[rr] by {
            assert(grid_view(paint@)[rr] == paint@[rr]@);
            assert forall|cc: int| 0 <= cc < cols implies #[trigger] paint@[rr]@[cc] == layer(
                rows as int,
                cols as int,
                |r: int, c: int| text_cell(*s, lines_view(lines@), r, c).1,
            )[rr][cc] by {
                assert(chars@[rr]@[cc] == wall_cell(sv, lv, sv.pipes@.take(n as int), rr, cc).0);
                assert(paint@[rr]@[cc] == wall_cell(sv, lv, sv.pipes@.take(n as int), rr, cc).1);
            }
        }
        assert(grid_view(chars@) =~~= layer(
            rows as int,
            cols as int,
            |r: int, c: int| text_cell(*s, lines_view(lines@), r, c).0,
        ));
        assert(grid_view(paint@) =~~= layer(
            rows as int,
            cols as int,
            |r: int, c: int| text_cell(*s, lines_view(lines@), r, c).1,
        ));
    }
}

/// Every row of the canvas has `cols` cells, and there are `rows` rows.
pub open spec fn sized(cv: Canvas, rows: int, cols: int) -> bool {
    &&& cv.0.len() == rows
    &&& cv.1.len() == rows
    &&& forall|r: int| 0 <= r < rows ==> (#[trigger] cv.0[r]).len() == cols
    &&& forall|r: int| 0 <= r < rows ==> (#[trigger] cv.1[r]).len() == cols
}

/// The canvas with row `r` filled with `ch` and its paint reset.
pub open spec fn fill_row(cv: Canvas, r: int, ch: char) -> Canvas {
    (
        cv.0.update(r, Seq::new(cv.0[r].len(), |j: int| ch)),
        cv.1.update(r, Seq::new(cv.1[r].len(), |j: int| Paint::Plain)),
    )
}

/// The canvas with `text` written on row `r` from column `start`; a row
/// outside the canvas leaves it as it is.
pub open spec fn put_row(cv: Canvas, r: int, text: Seq<char>, start: int) -> Canvas {
    if 0 <= r < cv.0.len() {
        (
            cv.0.update(r, put_text(cv.0[r], text, start)),
            cv.1.update(
                r,
                clear_paint(cv.1[r], landed(cv.0[r].len() as int, text.len() as int, start), start),
            ),
        )
    } else {
        cv
    }
}

/// The canvas with cell `(r, c)` set to `ch` painted `p`.
pub open spec fn set_cell(cv: Canvas, r: int, c: int, ch: char, p: Paint) -> Canvas {
    (cv.0.update(r, cv.0[r].update(c, ch)), cv.1.update(r, cv.1[r].update(c, p)))
}

/// The exec grids as a canvas.
pub open spec fn canvas_of(chars: Seq<Vec<char>>, paint: Seq<Vec<Paint>>) -> Canvas {
    (grid_view(chars), grid_view(paint))
}

proof fn lemma_sized_rows(chars: Seq<Vec<char>>, paint: Seq<Vec<Paint>>, rows: int, cols: int)
    requires
        sized(canvas_of(chars, paint), rows, cols),
    ensures
        chars.len() == rows,
        paint.len() == rows,
        forall|r: int| 0 <= r < rows ==> (#[trigger] chars[r])@.len() == cols,
        forall|r: int| 0 <= r < rows ==> (#[trigger] paint[r])@.len() == cols,
{
    assert forall|r: int| 0 <= r < rows implies (#[trigger] chars[r])@.len() == cols by {
        assert(grid_view(chars)[r] == chars[r]@);
    }
    assert forall|r: int| 0 <= r < rows implies (#[trigger] paint[r])@.len() == cols by {
        assert(grid_view(paint)[r] == paint[r]@);
    }
}

/// Fills grid row `r` with `ch` and resets its paint.
fn fill_grid_row(chars: &mut [Vec<char>], paint: &mut [Vec<Paint>], r: usize, ch: char)
    requires
        r < old(chars)@.len(),
        old(chars)@.len() == old(paint)@.len(),
        old(chars)@[r as int]@.len() == old(paint)@[r as int]@.len(),
    ensures
        canvas_of(final(chars)@, final(paint)@) == fill_row(canvas_of(old(chars)@, old(paint)@), r as int, ch),
        final(chars)@.len() == old(chars)@.len(),
        final(paint)@.len() == old(paint)@.len(),
{
    let ghost c0 = chars@;
    let ghost p0 = paint@;
    let n = chars[r].len();
    let mut j: usize = 0;
    while j < n
        invariant
            r < chars@.len(),
            chars@.len() == c0.len(),
            paint@.len() == p0.len(),
            c0.len() == p0.len(),
            n == c0[r as int]@.len(),
            n == p0[r as int]@.len(),
            j <= n,
            chars@[r as int]@.len() == n,
            paint@[r as int]@.len() == n,
            forall|k: int| 0 <= k < c0.len() && k != r ==> #[trigger] chars@[k] == c0[k],
            forall|k: int| 0 <= k < p0.len() && k != r ==> #[trigger] paint@[k] == p0[k],
            forall|k: int| 0 <= k < j ==> #[trigger] chars@[r as int]@[k] == ch,
            forall|k: int| 0 <= k < j ==> #[trigger] paint@[r as int]@[k] == Paint::Plain,
        decreases n - j,
    {
        chars[r][j] = ch;
        paint[r][j] = Paint::Plain;
        j = j + 1;
    }
    proof {
        let cv = fill_row(canvas_of(c0, p0), r as int, ch);
        assert(grid_view(chars@)[r as int] =~= cv.0[r as int]);
        assert(grid_view(paint@)[r as int] =~= cv.1[r as int]);
        assert(grid_view(chars@) =~= cv.0);
        assert(grid_view(paint@) =~= cv.1);
    }
}

/// Writes `text` on grid row `r` from column `start`.
fn put_grid_row(chars: &mut [Vec<char>], paint: &mut [Vec<Paint>], r: usize, text: &str, start: usize)
    requires
        r < old(chars)@.len(),
        old(chars)@.len() == old(paint)@.len(),
        old(chars)@[r as int]@.len() == old(paint)@[r as int]@.len(),
        start + text@.len() <= usize::MAX,
    ensures
        canvas_of(final(chars)@, final(paint)@) == put_row(
            canvas_of(old(chars)@, old(paint)@),
            r as int,
            text@,
            start as int,
        ),
        final(chars)@.len() == old(chars)@.len(),
        final(paint)@.len() == old(paint)@.len(),
{
    let ghost c0 = chars@;
    let ghost p0 = paint@;
    place_at(&mut chars[r], &mut paint[r], text, start);
    proof {
        let cv = put_row(canvas_of(c0, p0), r as int, text@, start as int);
        assert(grid_view(c0)[r as int] == c0[r as int]@);
        assert(grid_view(p0)[r as int] == p0[r as int]@);
        assert(grid_view(chars@) =~= cv.0);
        assert(grid_view(paint@) =~= cv.1);
    }
}

/// Sets grid cell `(r, c)`.
fn set_grid_cell(chars: &mut [Vec<char>], paint: &mut [Vec<Paint>], r: usize, c: usize, ch: char, p: Paint)
    requires
        r < old(chars)@.len(),
        old(chars)@.len() == old(paint)@.len(),
        c < old(chars)@[r as int]@.len(),
        c < old(paint)@[r as int]@.len(),
    ensures
        canvas_of(final(chars)@, final(paint)@) == set_cell(
            canvas_of(old(chars)@, old(paint)@),
            r as int,
            c as int,
            ch,
            p,
        ),
        final(chars)@.len() == old(chars)@.len(),
        final(paint)@.len() == old(paint)@.len(),
{
    let ghost c0 = chars@;
    let ghost p0 = paint@;
    chars[r][c] = ch;
    paint[r][c] = p;
    proof {
        let cv = set_cell(canvas_of(c0, p0), r as int, c as int, ch, p);
        assert(grid_view(c0)[r as int] == c0[r as int]@);
        assert(grid_view(p0)[r as int] == p0[r as int]@);
        assert(grid_view(chars@) =~= cv.0);
        assert(grid_view(paint@) =~= cv.1);
    }
}

/// `a - b`, or 0 when `b > a`.
pub open spec fn sat_sub(a: int, b: int) -> int {
    if a >= b {
        a - b
    } else {
        0
    }
}

/// `n` copies of `c`.
pub open spec fn repeat(c: char, n: int) -> Seq<char> {
    Seq::new(n as nat, |i: int| c)
}

/// The HUD's score text.
pub open spec fn score_text(n: u32) -> Seq<char> {
    "SCORE "@ + decimal(n as nat)
}

/// The HUD's best-score text.
pub open spec fn best_text(n: u32) -> Seq<char> {
    "BEST "@ + decimal(n as nat)
}

/// The version tag drawn on the ground line.
pub open spec fn version_text() -> Seq<char> {
    seq!['v'] + VERSION@
}

/// Inner width of the GameOver box: that of its longest line, the retry hint.
pub open spec fn box_width() -> int {
    GAMEOVER_RETRY_HINT@.len() as int
}

/// A horizontal border of the GameOver box.
pub open spec fn box_border(left: char, right: char) -> Seq<char> {
    seq![left] + repeat('═', box_width()) + seq![right]
}

/// A line of the GameOver box: `inner` centred (extra space to the right) between two bars.
pub open spec fn box_line(inner: Seq<char>) -> Seq<char> {
    let pad = sat_sub(box_width(), inner.len() as int);
    let left = pad / 2;
    seq!['║'] + repeat(' ', left) + inner + repeat(' ', pad - left) + seq!['║']
}

/// The six lines of the GameOver box.
pub open spec fn box_body(score: u32) -> Seq<Seq<char>> {
    seq![
        box_border('╔', '╗'),
        box_line(GAMEOVER_TITLE@),
        box_line(score_text(score)),
        box_line(GAMEOVER_RETRY_HINT@),
        box_line(QUIT_HINT@),
        box_border('╚', '╝'),
    ]
}

/// The first `k` lines of `body` written from row `top` on, each from column `start`.
pub open spec fn put_rows(cv: Canvas, body: Seq<Seq<char>>, top: int, start: int, k: nat) -> Canvas
    decreases k,
{
    if k == 0 {
        cv
    } else {
        put_row(put_rows(cv, body, top, start, (k - 1) as nat), top + k - 1, body[k - 1], start)
    }
}

/// The GameOver box centred on rows 2 to 7.
pub open spec fn gameover_box(cv: Canvas, cols: int, score: u32) -> Canvas {
    put_rows(cv, box_body(score), 2, sat_sub(cols, box_width() + 2) / 2, 6)
}

/// Ceiling line and HUD on row 0: score from column 1, best right-aligned one cell from the edge.
pub open spec fn hud(cv: Canvas, s: Snapshot) -> Canvas {
    let c1 = fill_row(cv, 0, GROUND);
    let c2 = put_row(c1, 0, score_text(s.score), 1);
    let bt = best_text(s.best);
    put_row(c2, 0, bt, sat_sub(s.cols as int, bt.len() as int + 1))
}

/// Ground line on the last row, the version right-aligned one cell from the edge.
pub open spec fn ground_line(cv: Canvas, s: Snapshot) -> Canvas {
    let last = s.rows - 1;
    let v = version_text();
    put_row(fill_row(cv, last, GROUND), last, v, sat_sub(s.cols as int, v.len() as int + 1))
}

/// The bird's glyph on its cell, moved down to row 1 when it is on row 0,
/// and left out when the cell is off the grid.
pub open spec fn mark_bird(cv: Canvas, s: Snapshot, ch: char, p: Paint) -> Canvas {
    let br: int = if s.bird_row >= 1 {
        s.bird_row as int
    } else {
        1
    };
    if br < s.rows && s.bird_col < s.cols {
        set_cell(cv, br, s.bird_col as int, ch, p)
    } else {
        cv
    }
}

/// The phase's message: title and hint when Ready, the box and the dead bird on GameOver.
pub open spec fn messages(cv: Canvas, s: Snapshot) -> Canvas {
    match s.phase {
        Phase::Ready => put_row(
            put_row(cv, 3, READY_TITLE@, centered_start(s.cols as int, READY_TITLE@.len() as int)),
            8,
            READY_HINT@,
            centered_start(s.cols as int, READY_HINT@.len() as int),
        ),
        Phase::GameOver => mark_bird(
            gameover_box(cv, s.cols as int, s.score),
            s,
            BIRD_DEAD,
            Paint::BirdDead,
        ),
        Phase::Playing => cv,
    }
}

/// The living bird.
pub open spec fn live_bird(cv: Canvas, s: Snapshot) -> Canvas {
    if s.phase != Phase::GameOver {
        mark_bird(cv, s, BIRD, Paint::Bird)
    } else {
        cv
    }
}

/// The text layer written over the pipe layer.
pub open spec fn overlay(cv: Canvas, s: Snapshot) -> Canvas {
    live_bird(messages(ground_line(hud(cv, s), s), s), s)
}

/// Appends `n` copies of `c`.
fn push_repeat(s: &mut String, c: char, n: usize)
    ensures
        final(s)@ == old(s)@ + repeat(c, n as int),
{
    let mut i: usize = 0;
    while i < n
        invariant
            i <= n,
            s@ == old(s)@ + repeat(c, i as int),
        decreases n - i,
    {
        s.push(c);
        i = i + 1;
        assert(s@ =~= old(s)@ + repeat(c, i as int));
    }
}

fn box_border_text(left: char, right: char, inner_w: usize) -> (r: String)
    requires
        inner_w == box_width(),
    ensures
        r@ == box_border(left, right),
{
    let mut s = String::new();
    s.push(left);
    push_repeat(&mut s, '═', inner_w);
    s.push(right);
    assert(s@ =~= box_border(left, right));
    s
}

fn box_line_text(inner: &str, inner_w: usize) -> (r: String)
    requires
        inner_w == box_width(),
    ensures
        r@ == box_line(inner@),
{
    let tw = inner.unicode_len();
    let pad = inner_w.saturating_sub(tw);
    let left = pad / 2;
    let right = pad - left;
    let mut s = String::new();
    s.push('║');
    push_repeat(&mut s, ' ', left);
    s.append(inner);
    push_repeat(&mut s, ' ', right);
    s.push('║');
    assert(s@ =~= box_line(inner@));
    s
}

proof fn lemma_box_body_len(score: u32)
    ensures
        forall|i: int| 0 <= i < 6 ==> (#[trigger] box_body(score)[i]).len() <= 40,
{
    reveal_strlit("SPACE / click / r : retry");
    reveal_strlit("GAME  OVER");
    reveal_strlit("q                 : quit");
    reveal_strlit("SCORE ");
    lemma_u32_decimal_len(score);
}

/// Draws the GameOver box, centred, on rows 2 to 7 (rows past the grid are skipped).
fn draw_gameover_box(chars: &mut [Vec<char>], paint: &mut [Vec<Paint>], cols: u16, score: u32)
    requires
        sized(canvas_of(old(chars)@, old(paint)@), old(chars)@.len() as int, cols as int),
    ensures
        canvas_of(final(chars)@, final(paint)@) == gameover_box(
            canvas_of(old(chars)@, old(paint)@),
            cols as int,
            score,
        ),
        final(chars)@.len() == old(chars)@.len(),
        final(paint)@.len() == old(paint)@.len(),
{
    let ghost rows = chars@.len() as int;
    let ghost cv0 = canvas_of(chars@, paint@);
    proof {
        lemma_sized_rows(chars@, paint@, rows, cols as int);
    }
    proof {
        reveal_strlit("SPACE / click / r : retry");
        reveal_strlit("GAME  OVER");
        reveal_strlit("q                 : quit");
        reveal_strlit("SCORE ");
        lemma_u32_decimal_len(score);
        lemma_box_body_len(score);
    }
    let inner_w = GAMEOVER_RETRY_HINT.unicode_len();
    let start = (cols as usize).saturating_sub(inner_w + 2) / 2;
    let top: usize = 2;
    let score_line = labeled_number("SCORE ", score);
    let mut body: Vec<String> = Vec::new();
    body.push(box_border_text('╔', '╗', inner_w));
    body.push(box_line_text(GAMEOVER_TITLE, inner_w));
    body.push(box_line_text(score_line.as_str(), inner_w));
    body.push(box_line_text(GAMEOVER_RETRY_HINT, inner_w));
    body.push(box_line_text(QUIT_HINT, inner_w));
    body.push(box_border_text('╚', '╝', inner_w));
    proof {
        assert(lines_view(body@) =~= box_body(score));
    }
    let mut i: usize = 0;
    while i < 6
        invariant
            body@.len() == 6,
            lines_view(body@) == box_body(score),
            forall|j: int| 0 <= j < 6 ==> (#[trigger] box_body(score)[j]).len() <= 40,
            start <= cols,
            start == sat_sub(cols as int, box_width() + 2) / 2,
            top == 2,
            i <= 6,
            chars@.len() == rows,
            paint@.len() == rows,
            sized(canvas_of(chars@, paint@), rows, cols as int),
            canvas_of(chars@, paint@) == put_rows(cv0, box_body(score), 2, start as int, i as nat),
        decreases 6 - i,
    {
        let row = top + i;
        let ghost before = canvas_of(chars@, paint@);
        proof {
            assert(lines_view(body@)[i as int] == body@[i as int]@);
        }
        if row < chars.len() {
            proof {
                lemma_sized_rows(chars@, paint@, rows, cols as int);
            }
            let line = &body[i];
            put_grid_row(chars, paint, row, line.as_str(), start);
        }
        i = i + 1;
        proof {
            let after = canvas_of(chars@, paint@);
            assert(after == put_row(before, row as int, box_body(score)[i - 1], start as int));
            assert forall|r: int| 0 <= r < rows implies (#[trigger] after.0[r]).len() == cols && after.1[r].len() == cols by {
                assert(before.0[r].len() == cols);
                assert(before.1[r].len() == cols);
            }
        }
    }
}

pub(crate) proof fn lemma_fill_sized(cv: Canvas, r: int, ch: char, rows: int, cols: int)
    requires
        sized(cv, rows, cols),
        0 <= r < rows,
    ensures
        sized(fill_row(cv, r, ch), rows, cols),
{
    let nv = fill_row(cv, r, ch);
    assert forall|k: int| 0 <= k < rows implies (#[trigger] nv.0[k]).len() == cols && nv.1[k].len() == cols by {
        assert(cv.0[k].len() == cols && cv.1[k].len() == cols);
    }
}

pub(crate) proof fn lemma_put_sized(cv: Canvas, r: int, text: Seq<char>, start: int, rows: int, cols: int)
    requires
        sized(cv, rows, cols),
    ensures
        sized(put_row(cv, r, text, start), rows, cols),
{
    let nv = put_row(cv, r, text, start);
    assert forall|k: int| 0 <= k < rows implies (#[trigger] nv.0[k]).len() == cols && nv.1[k].len() == cols by {
        assert(cv.0[k].len() == cols && cv.1[k].len() == cols);
    }
}

pub(crate) proof fn lemma_put_rows_sized(cv: Canvas, body: Seq<Seq<char>>, top: int, start: int, k: nat, rows: int, cols: int)
    requires
        sized(cv, rows, cols),
    ensures
        sized(put_rows(cv, body, top, start, k), rows, cols),
    decreases k,
{
    if k > 0 {
        lemma_put_rows_sized(cv, body, top, start, (k - 1) as nat, rows, cols);
        lemma_put_sized(put_rows(cv, body, top, start, (k - 1) as nat), top + k - 1, body[k - 1], start, rows, cols);
    }
}

pub(crate) proof fn lemma_mark_sized(cv: Canvas, s: Snapshot, ch: char, p: Paint)
    requires
        sized(cv, s.rows as int, s.cols as int),
    ensures
        sized(mark_bird(cv, s, ch, p), s.rows as int, s.cols as int),
{
    let nv = mark_bird(cv, s, ch, p);
    assert forall|k: int| 0 <= k < s.rows implies (#[trigger] nv.0[k]).len() == s.cols && nv.1[k].len() == s.cols by {
        assert(cv.0[k].len() == s.cols && cv.1[k].len() == s.cols);
    }
}

/// Writes `text` centred on grid row `r`.
fn center_grid_row(chars: &mut [Vec<char>], paint: &mut [Vec<Paint>], r: usize, text: &str, cols: u16)
    requires
        r < old(chars)@.len(),
        old(chars)@.len() == old(paint)@.len(),
        old(chars)@[r as int]@.len() == old(paint)@[r as int]@.len(),
        centered_start(cols as int, text@.len() as int) + text@.len() <= usize::MAX,
    ensures
        canvas_of(final(chars)@, final(paint)@) == put_row(
            canvas_of(old(chars)@, old(paint)@),
            r as int,
            text@,
            centered_start(cols as int, text@.len() as int),
        ),
        final(chars)@.len() == old(chars)@.len(),
        final(paint)@.len() == old(paint)@.len(),
{
    let ghost c0 = chars@;
    let ghost p0 = paint@;
    place_centered(&mut chars[r], &mut paint[r], text, cols);
    proof {
        let cv = put_row(
            canvas_of(c0, p0),
            r as int,
            text@,
            centered_start(cols as int, text@.len() as int),
        );
        assert(grid_view(c0)[r as int] == c0[r as int]@);
        assert(grid_view(p0)[r as int] == p0[r as int]@);
        assert(grid_view(chars@) =~= cv.0);
        assert(grid_view(paint@) =~= cv.1);
    }
}

/// Draws the bird glyph `ch` on its cell (moved down to row 1 from row 0) if the cell is on the grid.
fn draw_bird(s: &Snapshot, chars: &mut [Vec<char>], paint: &mut [Vec<Paint>], ch: char, p: Paint)
    requires
        sized(canvas_of(old(chars)@, old(paint)@), s.rows as int, s.cols as int),
    ensures
        canvas_of(final(chars)@, final(paint)@) == mark_bird(canvas_of(old(chars)@, old(paint)@), *s, ch, p),
        sized(canvas_of(final(chars)@, final(paint)@), s.rows as int, s.cols as int),
{
    proof {
        lemma_sized_rows(chars@, paint@, s.rows as int, s.cols as int);
        lemma_mark_sized(canvas_of(chars@, paint@), *s, ch, p);
    }
    let br = if s.bird_row >= 1 {
        s.bird_row
    } else {
        1
    };
    if br < s.rows && s.bird_col < s.cols {
        set_grid_cell(chars, paint, br as usize, s.bird_col as usize, ch, p);
    }
}

/// Writes the text layer: ceiling line and HUD, ground line and version, the
/// phase's message (title and hint, or the GameOver box and the dead bird),
/// and the living bird.
fn overlay_text(s: &Snapshot, chars: &mut [Vec<char>], paint: &mut [Vec<Paint>], cols: u16, rows: u16)
    requires
        cols == s.cols,
        rows == s.rows,
        rows >= 1,
        s.phase == Phase::Ready ==> rows >= 9,
        sized(canvas_of(old(chars)@, old(paint)@), rows as int, cols as int),
    ensures
        canvas_of(final(chars)@, final(paint)@) == overlay(canvas_of(old(chars)@, old(paint)@), *s),
        sized(canvas_of(final(chars)@, final(paint)@), rows as int, cols as int),
{
    let ghost cv0 = canvas_of(chars@, paint@);
    let ghost sv = *s;
    let cols_u = cols as usize;
    proof {
        lemma_sized_rows(chars@, paint@, rows as int, cols as int);
        reveal_strlit("SCORE ");
        reveal_strlit("BEST ");
        lemma_u32_decimal_len(s.score);
        lemma_u32_decimal_len(s.best);
    }
    fill_grid_row(chars, paint, 0, GROUND);
    proof {
        lemma_fill_sized(cv0, 0, GROUND, rows as int, cols as int);
        lemma_sized_rows(chars@, paint@, rows as int, cols as int);
    }
    let score_text = labeled_number("SCORE ", s.score);
    put_grid_row(chars, paint, 0, score_text.as_str(), 1);
    let best_text = labeled_number("BEST ", s.best);
    let best_start = cols_u.saturating_sub(best_text.as_str().unicode_len() + 1);
    proof {
        lemma_put_sized(fill_row(cv0, 0, GROUND), 0, score_text@, 1, rows as int, cols as int);
        lemma_sized_rows(chars@, paint@, rows as int, cols as int);
    }
    put_grid_row(chars, paint, 0, best_text.as_str(), best_start);
    let ghost c3 = canvas_of(chars@, paint@);
    proof {
        assert(c3 == hud(cv0, sv));
        lemma_put_sized(put_row(fill_row(cv0, 0, GROUND), 0, score_text@, 1), 0, best_text@, best_start as int, rows as int, cols as int);
        lemma_sized_rows(chars@, paint@, rows as int, cols as int);
    }
    let last = rows as usize - 1;
    fill_grid_row(chars, paint, last, GROUND);
    let mut ver = String::new();
    ver.push('v');
    ver.append(VERSION);
    proof {
        assert(ver@ =~= version_text());
        reveal_strlit("0.2.0");
        lemma_fill_sized(c3, last as int, GROUND, rows as int, cols as int);
        lemma_sized_rows(chars@, paint@, rows as int, cols as int);
    }
    let ver_start = cols_u.saturating_sub(ver.as_str().unicode_len() + 1);
    put_grid_row(chars, paint, last, ver.as_str(), ver_start);
    let ghost c5 = canvas_of(chars@, paint@);
    proof {
        assert(c5 == ground_line(c3, sv));
        lemma_put_sized(fill_row(c3, last as int, GROUND), last as int, ver@, ver_start as int, rows as int, cols as int);
        lemma_sized_rows(chars@, paint@, rows as int, cols as int);
    }
    match s.phase {
        Phase::Ready => {
            proof {
                reveal_strlit("F L A P P Y");
                reveal_strlit("──  press SPACE  ──");
            }
            center_grid_row(chars, paint, 3, READY_TITLE, cols);
            proof {
                lemma_put_sized(c5, 3, READY_TITLE@, centered_start(cols as int, READY_TITLE@.len() as int), rows as int, cols as int);
                lemma_sized_rows(chars@, paint@, rows as int, cols as int);
            }
            center_grid_row(chars, paint, 8, READY_HINT, cols);
            proof {
                lemma_put_sized(
                    put_row(c5, 3, READY_TITLE@, centered_start(cols as int, READY_TITLE@.len() as int)),
                    8,
                    READY_HINT@,
                    centered_start(cols as int, READY_HINT@.len() as int),
                    rows as int,
                    cols as int,
                );
            }
        },
        Phase::GameOver => {
            draw_gameover_box(chars, paint, cols, s.score);
            proof {
                lemma_put_rows_sized(c5, box_body(s.score), 2, sat_sub(cols as int, box_width() + 2) / 2, 6, rows as int, cols as int);
            }
            draw_bird(s, chars, paint, BIRD_DEAD, Paint::BirdDead);
        },
        Phase::Playing => {},
    }
    let ghost c6 = canvas_of(chars@, paint@);
    assert(c6 == messages(c5, sv));
    if s.phase != Phase::GameOver {
        draw_bird(s, chars, paint, BIRD, Paint::Bird);
    }
}

/// The pipe layer: Braille pipes, or walls of lines in command mode.
pub open spec fn pipe_layer(s: Snapshot, lines: Option<Seq<Seq<char>>>) -> Canvas {
    match lines {
        None => (
            layer(s.rows as int, s.cols as int, |r: int, c: int| braille_cell(s, r, c).0),
            layer(s.rows as int, s.cols as int, |r: int, c: int| braille_cell(s, r, c).1),
        ),
        Some(ls) => (
            layer(s.rows as int, s.cols as int, |r: int, c: int| text_cell(s, ls, r, c).0),
            layer(s.rows as int, s.cols as int, |r: int, c: int| text_cell(s, ls, r, c).1),
        ),
    }
}

/// The command-mode lines, as character sequences.
pub open spec fn course_view(course_lines: Option<&[String]>) -> Option<Seq<Seq<char>>> {
    match course_lines {
        None => None,
        Some(l) => Some(lines_view(l@)),
    }
}

/// The complete frame of a snapshot.
pub open spec fn frame_of(s: Snapshot, course_lines: Option<&[String]>) -> Canvas {
    overlay(pipe_layer(s, course_view(course_lines)), s)
}

/// Whether a snapshot can be drawn: at least one row, room for the Ready
/// messages on rows 3 and 8, and dot columns that do not overflow.
pub open spec fn drawable(s: Snapshot) -> bool {
    &&& s.rows >= 1
    &&& s.phase == Phase::Ready ==> s.rows >= 9
    &&& forall|i: int| 0 <= i < s.pipes@.len() ==> (#[trigger] s.pipes@[i]).dot_x < i32::MAX
}

/// Draws one frame: the pipes (Braille, or walls of `course_lines` in
/// command mode), then the text layer over them.
pub fn render(s: &Snapshot, course_lines: Option<&[String]>) -> (f: Frame)
    requires
        drawable(*s),
    ensures
        f@ == frame_of(*s, course_lines),
        sized(f@, s.rows as int, s.cols as int),
{
    let cols = s.cols as usize;
    let rows = s.rows as usize;
    let mut chars = blank_grid(rows, cols, ' ');
    let mut paint = blank_grid(rows, cols, Paint::Plain);
    match course_lines {
        None => render_pipes_braille(s, chars.as_mut_slice(), paint.as_mut_slice(), cols, rows),
        Some(lines) => render_pipes_text(s, lines, chars.as_mut_slice(), paint.as_mut_slice(), cols, rows),
    }
    let ghost base = canvas_of(chars@, paint@);
    proof {
        assert(base == pipe_layer(*s, course_view(course_lines)));
        assert(sized(base, rows as int, cols as int));
    }
    overlay_text(s, chars.as_mut_slice(), paint.as_mut_slice(), s.cols, s.rows);
    let f = Frame { chars, paint };
    assert(f@ == canvas_of(f.chars@, f.paint@));
    f
}

/// The frame as plain text, one line per row.
pub fn scene_to_string(s: &Snapshot) -> (r: String)
    requires
        drawable(*s),
    ensures
        r@ == join_lines(frame_of(*s, None).0),
{
    render(s, None).to_text()
}

} // verus!
