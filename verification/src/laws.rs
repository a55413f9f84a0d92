//! Properties of the library that span functions or hold for every input,
//! each proved over the spec functions the contracts use.

use crate::course::{fnv_hash, has_ink, ink_lines, ink_lines_from, strip_cr, FNV_OFFSET, FNV_PRIME};
use crate::input::{action_of, event_input, Action, Input, KeyCode, KeyEventKind, TermEvent};
use crate::layout::{layout_of, Layout};
use crate::rules::{
    blocks, collides, newly_passed, scores_now, settled, Phase, PipeCell, Progress,
};
use crate::scene::{
    best_text, box_body, box_width, braille_cell, cell_mask, centered_start, course_view,
    dot_bit_of, dot_lit, drawable, fill_row, frame_of, gameover_box, ground_line, hud,
    lemma_fill_sized, lemma_mark_sized, lemma_put_rows_sized, lemma_put_sized, mask_upto, messages,
    live_bird, mark_bird, pipe_layer, put_row, put_rows, put_text, sat_sub, score_text, sized, version_text, Canvas, Paint, Snapshot, BIRD,
    BIRD_DEAD, GROUND, READY_HINT, READY_TITLE,
};
use crate::text::decimal;
use crate::term::{glyph_op, color_op, ops_from, tint_of, DrawOp, Tint};
use vstd::prelude::*;

verus! {

/// A bird collides with every pipe in its column whose wall covers its row,
/// wherever that pipe stands in the list, as well as with the ceiling row 0
/// and the ground row `rows - 1`.
pub proof fn lemma_collision_sees_every_pipe(
    pipes: Seq<PipeCell>,
    i: int,
    bird_row: int,
    bird_col: int,
    rows: int,
    pipe_gap: int,
)
    requires
        0 <= i < pipes.len(),
        pipes[i].col == bird_col,
        (1 <= bird_row < pipes[i].gap_top) || (pipes[i].gap_top + pipe_gap <= bird_row <= rows - 2),
    ensures
        collides(pipes, bird_row, bird_col, rows, pipe_gap),
        collides(pipes, 0, bird_col, rows, pipe_gap),
        collides(pipes, rows - 1, bird_col, rows, pipe_gap),
{
    assert(blocks(pipes[i].gap_top as int, pipe_gap, rows, bird_row));
}

/// A bird in open air (between ceiling and ground, with no pipe of its column
/// blocking its row) does not collide.
pub proof fn lemma_open_air_is_safe(
    pipes: Seq<PipeCell>,
    bird_row: int,
    bird_col: int,
    rows: int,
    pipe_gap: int,
)
    requires
        1 <= bird_row < rows - 1,
        forall|i: int|
            0 <= i < pipes.len() && #[trigger] pipes[i].col == bird_col ==> pipes[i].gap_top <= bird_row
                < pipes[i].gap_top + pipe_gap,
    ensures
        !collides(pipes, bird_row, bird_col, rows, pipe_gap),
{
}

/// A scoring pass keeps every pipe's column and gap, and marks passed exactly
/// the pipes already passed or standing wholly left of the bird (`col < bird_col`).
pub proof fn lemma_scoring_marks_pipes_left_of_bird(pipes: Seq<PipeCell>, bird_col: int)
    ensures
        settled(pipes, bird_col).len() == pipes.len(),
        forall|i: int|
            0 <= i < pipes.len() ==> {
                &&& (#[trigger] settled(pipes, bird_col)[i]).col == pipes[i].col
                &&& settled(pipes, bird_col)[i].gap_top == pipes[i].gap_top
                &&& settled(pipes, bird_col)[i].passed == (pipes[i].passed || pipes[i].col < bird_col)
            },
{
}

/// The points a scoring pass gives are the number of pipes not yet passed that
/// stand wholly left of the bird: a pipe at or right of the bird's column
/// never scores.
pub proof fn lemma_points_count_pipes_left_of_bird(pipes: Seq<PipeCell>, bird_col: int)
    ensures
        newly_passed(pipes, bird_col) == pipes.filter(|p: PipeCell| !p.passed && p.col < bird_col).len(),
        (forall|i: int| 0 <= i < pipes.len() ==> (#[trigger] pipes[i]).col >= bird_col)
            ==> newly_passed(pipes, bird_col) == 0,
    decreases pipes.len(),
{
    let f = |p: PipeCell| !p.passed && p.col < bird_col;
    reveal(Seq::filter);
    if pipes.len() > 0 {
        lemma_points_count_pipes_left_of_bird(pipes.drop_last(), bird_col);
        assert(pipes.filter(f) == if f(pipes.last()) {
            pipes.drop_last().filter(f).push(pipes.last())
        } else {
            pipes.drop_last().filter(f)
        });
        if forall|i: int| 0 <= i < pipes.len() ==> (#[trigger] pipes[i]).col >= bird_col {
            assert forall|i: int| 0 <= i < pipes.drop_last().len() implies (
            #[trigger] pipes.drop_last()[i]).col >= bird_col by {
                assert(pipes.drop_last()[i] == pipes[i]);
            }
            assert(pipes.last() == pipes[pipes.len() - 1]);
        }
    }
}

/// The empty input hashes to the offset basis, and each further byte is
/// folded in by one FNV-1a step: xor the byte, then multiply by the prime
/// modulo 2^64. This holds for inputs of every length.
pub proof fn lemma_fnv_folds_every_byte(bytes: Seq<u8>, b: u8)
    ensures
        fnv_hash(Seq::empty()) == FNV_OFFSET,
        fnv_hash(bytes.push(b)) == vstd::wrapping::u64_specs::wrapping_mul(
            fnv_hash(bytes) ^ (b as u64),
            FNV_PRIME,
        ),
{
    assert(bytes.push(b).drop_last() =~= bytes);
}

/// Multiplying by the FNV prime modulo 2^64 loses nothing: the prime is odd,
/// and `0xce96_5057_aff6_957b` is its inverse.
proof fn lemma_prime_mul_injective(x: u64, y: u64)
    requires
        vstd::wrapping::u64_specs::wrapping_mul(x, FNV_PRIME) == vstd::wrapping::u64_specs::wrapping_mul(
            y,
            FNV_PRIME,
        ),
    ensures
        x == y,
{
    lemma_prime_mul_undone(x);
    lemma_prime_mul_undone(y);
}

proof fn lemma_prime_mul_undone(x: u64)
    ensures
        (vstd::wrapping::u64_specs::wrapping_mul(x, FNV_PRIME) as int) * 0xce96_5057_aff6_957b
            % 0x1_0000_0000_0000_0000 == x,
{
    let m: int = 0x1_0000_0000_0000_0000;
    let q: int = 0xce96_5057_aff6_957b;
    let xp: int = x * FNV_PRIME;
    assert(vstd::wrapping::u64_specs::wrapping_mul(x, FNV_PRIME) as int == xp % m);
    vstd::arithmetic::div_mod::lemma_mul_mod_noop_left(xp, q, m);
    assert(xp * q == m * (x * 887285111055int) + x) by (nonlinear_arith)
        requires
            xp == x * 0x0000_0100_0000_01b3int,
            q == 0xce96_5057_aff6_957b,
            m == 0x1_0000_0000_0000_0000,
    ;
    vstd::arithmetic::div_mod::lemma_mod_multiples_vanish(x * 887285111055int, x as int, m);
    vstd::arithmetic::div_mod::lemma_small_mod(x as nat, m as nat);
}

/// Changing any single byte of the input changes the hash, whatever comes
/// before or after it.
pub proof fn lemma_fnv_every_byte_counts(a: Seq<u8>, b1: u8, b2: u8, c: Seq<u8>)
    requires
        b1 != b2,
    ensures
        fnv_hash(a.push(b1) + c) != fnv_hash(a.push(b2) + c),
    decreases c.len(),
{
    if c.len() == 0 {
        assert(a.push(b1) + c =~= a.push(b1));
        assert(a.push(b2) + c =~= a.push(b2));
        lemma_fnv_folds_every_byte(a, b1);
        lemma_fnv_folds_every_byte(a, b2);
        let h = fnv_hash(a);
        assert((h ^ (b1 as u64)) != (h ^ (b2 as u64))) by (bit_vector)
            requires
                b1 != b2,
        ;
        if fnv_hash(a.push(b1)) == fnv_hash(a.push(b2)) {
            lemma_prime_mul_injective(h ^ (b1 as u64), h ^ (b2 as u64));
        }
    } else {
        let d = c.drop_last();
        let z = c.last();
        lemma_fnv_every_byte_counts(a, b1, b2, d);
        assert(a.push(b1) + c =~= (a.push(b1) + d).push(z));
        assert(a.push(b2) + c =~= (a.push(b2) + d).push(z));
        lemma_fnv_folds_every_byte(a.push(b1) + d, z);
        lemma_fnv_folds_every_byte(a.push(b2) + d, z);
        let h1 = fnv_hash(a.push(b1) + d);
        let h2 = fnv_hash(a.push(b2) + d);
        assert((h1 ^ (z as u64)) != (h2 ^ (z as u64))) by (bit_vector)
            requires
                h1 != h2,
        ;
        if fnv_hash(a.push(b1) + c) == fnv_hash(a.push(b2) + c) {
            lemma_prime_mul_injective(h1 ^ (z as u64), h2 ^ (z as u64));
        }
    }
}

/// Some lines written out, each followed by a line feed (`\n`), or by a
/// carriage return and a line feed (`\r\n`) when `crlf` holds.
pub open spec fn joined_lines(ls: Seq<Seq<char>>, crlf: bool) -> Seq<char>
    decreases ls.len(),
{
    if ls.len() == 0 {
        Seq::empty()
    } else {
        ls[0] + (if crlf {
            seq!['\r', '\n']
        } else {
            seq!['\n']
        }) + joined_lines(ls.drop_first(), crlf)
    }
}

/// A line as a command prints it: no line feed inside, no carriage return at its end.
pub open spec fn plain_line(line: Seq<char>) -> bool {
    &&& forall|i: int| 0 <= i < line.len() ==> #[trigger] line[i] != '\n'
    &&& (line.len() == 0 || line.last() != '\r')
}

proof fn lemma_read_through_line(line: Seq<char>, rest: Seq<char>, done: Seq<Seq<char>>, cur: Seq<char>)
    requires
        forall|i: int| 0 <= i < line.len() ==> #[trigger] line[i] != '\n',
    ensures
        ink_lines_from(line + rest, done, cur) == ink_lines_from(rest, done, cur + line),
    decreases line.len(),
{
    if line.len() == 0 {
        assert(line + rest =~= rest);
        assert(cur + line =~= cur);
    } else {
        assert((line + rest)[0] == line[0]);
        assert((line + rest).drop_first() =~= line.drop_first() + rest);
        lemma_read_through_line(line.drop_first(), rest, done, cur.push(line[0]));
        assert(cur.push(line[0]) + line.drop_first() =~= cur + line);
    }
}

proof fn lemma_ink_lines_of_joined(ls: Seq<Seq<char>>, crlf: bool, done: Seq<Seq<char>>)
    requires
        forall|k: int| 0 <= k < ls.len() ==> plain_line(#[trigger] ls[k]),
    ensures
        ink_lines_from(joined_lines(ls, crlf), done, Seq::empty()) == done + ls.filter(
            |l: Seq<char>| has_ink(l),
        ),
    decreases ls.len(),
{
    let f = |l: Seq<char>| has_ink(l);
    reveal_with_fuel(Seq::filter, 2);
    if ls.len() == 0 {
        assert(!has_ink(Seq::<char>::empty()));
        assert(done + ls.filter(f) =~= done);
    } else {
        let line = ls[0];
        let tail = ls.drop_first();
        assert(plain_line(line));
        assert forall|k: int| 0 <= k < tail.len() implies plain_line(#[trigger] tail[k]) by {
            assert(tail[k] == ls[k + 1]);
        }
        let done2 = if has_ink(line) {
            done.push(line)
        } else {
            done
        };
        let nl = seq!['\n'] + joined_lines(tail, crlf);
        assert(nl[0] == '\n');
        assert(nl.drop_first() =~= joined_lines(tail, crlf));
        if crlf {
            let cr_line = line.push('\r');
            assert(joined_lines(ls, crlf) =~= cr_line + nl);
            assert forall|i: int| 0 <= i < cr_line.len() implies #[trigger] cr_line[i] != '\n' by {
                if i < line.len() {
                    assert(cr_line[i] == line[i]);
                }
            }
            lemma_read_through_line(cr_line, nl, done, Seq::empty());
            assert(Seq::<char>::empty() + cr_line =~= cr_line);
            assert(cr_line.drop_last() =~= line);
            assert(strip_cr(cr_line) == line);
        } else {
            assert(joined_lines(ls, crlf) =~= line + nl);
            lemma_read_through_line(line, nl, done, Seq::empty());
            assert(Seq::<char>::empty() + line =~= line);
            assert(strip_cr(line) == line);
        }
        assert(ink_lines_from(joined_lines(ls, crlf), done, Seq::empty()) == ink_lines_from(
            joined_lines(tail, crlf),
            done2,
            Seq::empty(),
        ));
        lemma_ink_lines_of_joined(tail, crlf, done2);
        assert(ls =~= seq![line] + tail);
        Seq::filter_distributes_over_add(seq![line], tail, f);
        assert(seq![line].drop_last() =~= Seq::<Seq<char>>::empty());
        assert(Seq::<Seq<char>>::empty().filter(f) =~= Seq::<Seq<char>>::empty());
        if has_ink(line) {
            assert(seq![line].filter(f) =~= seq![line]);
            assert(done + ls.filter(f) =~= done2 + tail.filter(f));
        } else {
            assert(seq![line].filter(f) =~= Seq::<Seq<char>>::empty());
            assert(done + ls.filter(f) =~= done2 + tail.filter(f));
        }
    }
}

/// Splitting the text of some lines, each ended by a line feed (or by a
/// carriage return and a line feed), gives back exactly the lines that hold a
/// non-white-space character: all of them, in their order, none cut short and
/// none carrying the line ending, however many there are.
pub proof fn lemma_nonblank_lines_keep_every_inked_line(ls: Seq<Seq<char>>, crlf: bool)
    requires
        forall|k: int| 0 <= k < ls.len() ==> plain_line(#[trigger] ls[k]),
    ensures
        ink_lines(joined_lines(ls, crlf)) == ls.filter(|l: Seq<char>| has_ink(l)),
{
    lemma_ink_lines_of_joined(ls, crlf, Seq::empty());
    assert(Seq::<Seq<char>>::empty() + ls.filter(|l: Seq<char>| has_ink(l)) =~= ls.filter(
        |l: Seq<char>| has_ink(l),
    ));
}

/// Through a play without restart (a fresh game, then any flaps and settles,
/// each step kept by `keeps_play` as their contracts promise) the best score
/// equals the score at every step, and the score never falls.
pub proof fn lemma_play_without_restart(trace: Seq<Progress>)
    requires
        trace.len() >= 1,
        trace[0].score() == 0,
        trace[0].best() == 0,
        forall|i: int| 0 <= i < trace.len() - 1 ==> #[trigger] trace[i].keeps_play(trace[i + 1]),
    ensures
        forall|i: int| 0 <= i < trace.len() ==> #[trigger] trace[i].best() == trace[i].score(),
        forall|i: int, j: int|
            0 <= i <= j < trace.len() ==> #[trigger] trace[i].score() <= #[trigger] trace[j].score(),
    decreases trace.len(),
{
    if trace.len() > 1 {
        let head = trace.drop_last();
        assert forall|i: int| 0 <= i < head.len() - 1 implies #[trigger] head[i].keeps_play(
            head[i + 1],
        ) by {
            assert(trace[i].keeps_play(trace[i + 1]));
        }
        lemma_play_without_restart(head);
        let n = trace.len() - 1;
        let m = n - 1;
        assert(trace[m].keeps_play(trace[m + 1]));
        assert(head[m] == trace[m]);
        assert forall|i: int| 0 <= i < trace.len() implies #[trigger] trace[i].best()
            == trace[i].score() by {
            if i < n {
                assert(head[i] == trace[i]);
            }
        }
        assert forall|i: int, j: int| 0 <= i <= j < trace.len() implies #[trigger] trace[i].score()
            <= #[trigger] trace[j].score() by {
            if j < n {
                assert(head[i] == trace[i]);
                assert(head[j] == trace[j]);
            } else if i < n {
                assert(head[i] == trace[i]);
                assert(head[i].score() <= head[n - 1].score());
            }
        }
    }
}

/// For a gap that lies above the ground line, the gap rows
/// `[gap_top, gap_top + pipe_gap)`, the ceiling row 0 and the ground row
/// `rows - 1` are never pipe cells.
pub proof fn lemma_gap_and_bounds_are_open(gap_top: int, pipe_gap: int, rows: int, row: int)
    requires
        pipe_gap >= 0,
        gap_top >= 1,
        gap_top + pipe_gap <= rows - 1,
        (gap_top <= row < gap_top + pipe_gap) || row == 0 || row == rows - 1,
    ensures
        !blocks(gap_top, pipe_gap, rows, row),
{
}

/// A scoring pass leaves no pipe that could score again at the same bird
/// column: every pipe scores at most once.
pub proof fn lemma_pipe_scores_once(pipes: Seq<PipeCell>, bird_col: int)
    ensures
        newly_passed(settled(pipes, bird_col), bird_col) == 0,
    decreases pipes.len(),
{
    if pipes.len() > 0 {
        let s = settled(pipes, bird_col);
        assert(s.drop_last() =~= settled(pipes.drop_last(), bird_col));
        lemma_pipe_scores_once(pipes.drop_last(), bird_col);
        assert(!scores_now(s.last(), bird_col));
    }
}

/// A scoring pass adds at most one point per pipe, and exactly the number of
/// pipes that were unscored and left of the bird.
pub proof fn lemma_points_bounded_by_pipes(pipes: Seq<PipeCell>, bird_col: int)
    ensures
        newly_passed(pipes, bird_col) <= pipes.len(),
        newly_passed(pipes, bird_col) == pipes.filter(|p: PipeCell| scores_now(p, bird_col)).len(),
    decreases pipes.len(),
{
    reveal(Seq::filter);
    if pipes.len() > 0 {
        lemma_points_bounded_by_pipes(pipes.drop_last(), bird_col);
    }
}

/// Key repeats and releases never act; only presses do.
pub proof fn lemma_only_presses_act(code: KeyCode, kind: KeyEventKind)
    ensures
        kind != KeyEventKind::Press ==> event_input(TermEvent::Key { code, kind }) is None,
        event_input(TermEvent::Key { code: KeyCode::Char(' '), kind: KeyEventKind::Press }) == Some(
            Input::Primary,
        ),
        event_input(TermEvent::LeftClick) == Some(Input::Primary),
{
}

/// The primary input flaps unless the game is over, when it restarts;
/// restart and quit act the same in every phase.
pub proof fn lemma_routing(phase: Phase)
    ensures
        action_of(Input::Primary, phase) == if phase == Phase::GameOver {
            Action::Restart
        } else {
            Action::Flap
        },
        action_of(Input::Restart, phase) == Action::Restart,
        action_of(Input::Quit, phase) == Action::Quit,
{
}

/// The grid fits exactly when the terminal is at least as large; it is then
/// inside the terminal and centred to within one cell on each axis.
pub proof fn lemma_layout_centres(tw: u16, th: u16, gw: u16, gh: u16)
    ensures
        (layout_of(tw as int, th as int, gw as int, gh as int) is TooSmall) <==> (tw < gw || th < gh),
        layout_of(tw as int, th as int, gw as int, gh as int) matches Layout::Fit { ox, oy } ==> {
            &&& ox + gw <= tw
            &&& oy + gh <= th
            &&& 0 <= (tw - gw - ox) - ox <= 1
            &&& 0 <= (th - gh - oy) - oy <= 1
        },
{
}

proof fn lemma_ink_lines_from(text: Seq<char>, done: Seq<Seq<char>>, cur: Seq<char>)
    requires
        forall|i: int| 0 <= i < done.len() ==> has_ink(#[trigger] done[i]) && !done[i].contains('\n'),
        !cur.contains('\n'),
    ensures
        forall|i: int|
            0 <= i < ink_lines_from(text, done, cur).len() ==> has_ink(
                #[trigger] ink_lines_from(text, done, cur)[i],
            ) && !ink_lines_from(text, done, cur)[i].contains('\n'),
    decreases text.len(),
{
    if text.len() == 0 {
        let r = ink_lines_from(text, done, cur);
        assert forall|i: int| 0 <= i < r.len() implies has_ink(#[trigger] r[i]) && !r[i].contains('\n') by {
            if i < done.len() {
                assert(r[i] == done[i]);
            }
        }
    } else if text[0] == '\n' {
        let line = strip_cr(cur);
        assert(!line.contains('\n')) by {
            if line.contains('\n') {
                let k = choose|k: int| 0 <= k < line.len() && line[k] == '\n';
                assert(cur[k] == '\n');
            }
        }
        let d2 = if has_ink(line) {
            done.push(line)
        } else {
            done
        };
        assert forall|i: int| 0 <= i < d2.len() implies has_ink(#[trigger] d2[i]) && !d2[i].contains('\n') by {
            if i < done.len() {
                assert(d2[i] == done[i]);
            }
        }
        assert(!Seq::<char>::empty().contains('\n'));
        lemma_ink_lines_from(text.drop_first(), d2, Seq::empty());
        assert(ink_lines_from(text, done, cur) == ink_lines_from(text.drop_first(), d2, Seq::empty()));
    } else {
        let c2 = cur.push(text[0]);
        assert(!c2.contains('\n')) by {
            if c2.contains('\n') {
                let k = choose|k: int| 0 <= k < c2.len() && c2[k] == '\n';
                if k < cur.len() {
                    assert(cur[k] == '\n');
                }
            }
        }
        lemma_ink_lines_from(text.drop_first(), done, c2);
        assert(ink_lines_from(text, done, cur) == ink_lines_from(text.drop_first(), done, c2));
    }
}

/// Every line kept from command output holds a character other than white
/// space, and no line holds a line feed.
pub proof fn lemma_kept_lines_are_nonblank(text: Seq<char>)
    ensures
        forall|i: int|
            0 <= i < ink_lines(text).len() ==> has_ink(#[trigger] ink_lines(text)[i]) && !ink_lines(
                text,
            )[i].contains('\n'),
{
    assert(!Seq::<char>::empty().contains('\n'));
    lemma_ink_lines_from(text, Seq::empty(), Seq::empty());
}

/// The Braille mask of a cell: the left dot column sets bits `0x47`, the
/// right one bits `0xB8`; a cell is blank exactly when neither is raised.
pub proof fn lemma_cell_mask_values(left: bool, right: bool)
    ensures
        cell_mask(left, right) == if left && right {
            0xFFu8
        } else if left {
            0x47u8
        } else if right {
            0xB8u8
        } else {
            0u8
        },
        cell_mask(left, right) != 0 <==> (left || right),
{
    reveal_with_fuel(mask_upto, 9);
    assert(dot_bit_of(0, 0) == 0x01u8 && dot_bit_of(1, 0) == 0x08u8 && dot_bit_of(0, 1) == 0x02u8
        && dot_bit_of(1, 1) == 0x10u8 && dot_bit_of(0, 2) == 0x04u8 && dot_bit_of(1, 2) == 0x20u8
        && dot_bit_of(0, 3) == 0x40u8 && dot_bit_of(1, 3) == 0x80u8);
    assert(((((((((0u8 | 0x01u8) | 0x08u8) | 0x02u8) | 0x10u8) | 0x04u8) | 0x20u8) | 0x40u8) | 0x80u8)
        == 0xFFu8) by (bit_vector);
    assert(((((0u8 | 0x01u8) | 0x02u8) | 0x04u8) | 0x40u8) == 0x47u8) by (bit_vector);
    assert(((((0u8 | 0x08u8) | 0x10u8) | 0x20u8) | 0x80u8) == 0xB8u8) by (bit_vector);
}

/// A pipe drawn with Braille dots always paints its collision cell: when the
/// dot column `dot_x` (its x doubled, rounded) is within one dot of twice the
/// collision column `col` (its x, rounded), as rounding makes it, every row
/// the pipe blocks shows a pipe glyph in column `col`. So no collision
/// happens where no pipe is drawn.
pub proof fn lemma_pipe_drawn_on_collision_cell(s: Snapshot, i: int, r: int)
    requires
        0 <= i < s.pipes@.len(),
        0 <= s.pipes@[i].col < s.cols,
        2 * s.pipes@[i].col - 1 <= s.pipes@[i].dot_x <= 2 * s.pipes@[i].col + 1,
        blocks(s.pipes@[i].gap_top as int, s.pipe_gap as int, s.rows as int, r),
    ensures
        braille_cell(s, r, s.pipes@[i].col as int).1 == Paint::Pipe,
{
    let p = s.pipes@[i];
    let c = p.col as int;
    let left = dot_lit(s, r, 2 * c);
    let right = dot_lit(s, r, 2 * c + 1);
    if p.dot_x == 2 * c - 1 || p.dot_x == 2 * c {
        assert(left);
    } else {
        assert(right);
    }
    lemma_cell_mask_values(left, right);
}

proof fn lemma_overlay_sized(cv: Canvas, s: Snapshot)
    requires
        sized(cv, s.rows as int, s.cols as int),
        drawable(s),
    ensures
        sized(ground_line(hud(cv, s), s), s.rows as int, s.cols as int),
        sized(messages(ground_line(hud(cv, s), s), s), s.rows as int, s.cols as int),
{
    let rows = s.rows as int;
    let cols = s.cols as int;
    let a = fill_row(cv, 0, GROUND);
    lemma_fill_sized(cv, 0, GROUND, rows, cols);
    let a2 = put_row(a, 0, score_text(s.score), 1);
    lemma_put_sized(a, 0, score_text(s.score), 1, rows, cols);
    let bt = best_text(s.best);
    lemma_put_sized(a2, 0, bt, sat_sub(cols, bt.len() as int + 1), rows, cols);
    let h = hud(cv, s);
    let last = rows - 1;
    lemma_fill_sized(h, last, GROUND, rows, cols);
    let v = version_text();
    lemma_put_sized(fill_row(h, last, GROUND), last, v, sat_sub(cols, v.len() as int + 1), rows, cols);
    let g = ground_line(h, s);
    match s.phase {
        Phase::Ready => {
            let t = put_row(g, 3, READY_TITLE@, centered_start(cols, READY_TITLE@.len() as int));
            lemma_put_sized(g, 3, READY_TITLE@, centered_start(cols, READY_TITLE@.len() as int), rows, cols);
            lemma_put_sized(t, 8, READY_HINT@, centered_start(cols, READY_HINT@.len() as int), rows, cols);
        },
        Phase::GameOver => {
            lemma_put_rows_sized(g, box_body(s.score), 2, sat_sub(cols, box_width() + 2) / 2, 6, rows, cols);
            lemma_mark_sized(gameover_box(g, cols, s.score), s, BIRD_DEAD, Paint::BirdDead);
        },
        Phase::Playing => {},
    }
}

proof fn lemma_pipe_layer_sized(s: Snapshot, course_lines: Option<&[String]>)
    ensures
        sized(pipe_layer(s, course_view(course_lines)), s.rows as int, s.cols as int),
{
    let cv = pipe_layer(s, course_view(course_lines));
    assert forall|k: int| 0 <= k < s.rows implies (#[trigger] cv.0[k]).len() == s.cols && cv.1[k].len() == s.cols by {}
}

/// The living bird is drawn as its glyph on its own cell, moved from the
/// ceiling row 0 down to row 1, whatever lies under it.
pub proof fn lemma_live_bird_drawn(s: Snapshot, course_lines: Option<&[String]>)
    requires
        drawable(s),
        s.phase != Phase::GameOver,
        (if s.bird_row >= 1 { s.bird_row as int } else { 1 }) < s.rows,
        s.bird_col < s.cols,
    ensures
        ({
            let br = if s.bird_row >= 1 { s.bird_row as int } else { 1 };
            &&& frame_of(s, course_lines).0[br][s.bird_col as int] == BIRD
            &&& frame_of(s, course_lines).1[br][s.bird_col as int] == Paint::Bird
        }),
{
    lemma_pipe_layer_sized(s, course_lines);
    let base = pipe_layer(s, course_view(course_lines));
    lemma_overlay_sized(base, s);
    let m = messages(ground_line(hud(base, s), s), s);
    let br = if s.bird_row >= 1 { s.bird_row as int } else { 1 };
    assert(m.0[br].len() == s.cols && m.1[br].len() == s.cols);
}

/// After GameOver the dead bird is drawn as its glyph on its own cell, moved
/// from the ceiling row 0 down to row 1, over the GameOver box.
pub proof fn lemma_dead_bird_drawn(s: Snapshot, course_lines: Option<&[String]>)
    requires
        drawable(s),
        s.phase == Phase::GameOver,
        (if s.bird_row >= 1 { s.bird_row as int } else { 1 }) < s.rows,
        s.bird_col < s.cols,
    ensures
        ({
            let br = if s.bird_row >= 1 { s.bird_row as int } else { 1 };
            &&& frame_of(s, course_lines).0[br][s.bird_col as int] == BIRD_DEAD
            &&& frame_of(s, course_lines).1[br][s.bird_col as int] == Paint::BirdDead
        }),
{
    lemma_pipe_layer_sized(s, course_lines);
    let base = pipe_layer(s, course_view(course_lines));
    lemma_overlay_sized(base, s);
    let g = ground_line(hud(base, s), s);
    lemma_put_rows_sized(g, box_body(s.score), 2, sat_sub(s.cols as int, box_width() + 2) / 2, 6, s.rows as int, s.cols as int);
    let bx = gameover_box(g, s.cols as int, s.score);
    let br = if s.bird_row >= 1 { s.bird_row as int } else { 1 };
    assert(bx.0[br].len() == s.cols && bx.1[br].len() == s.cols);
}

proof fn lemma_put_rows_keeps_row(cv: Canvas, body: Seq<Seq<char>>, top: int, start: int, k: nat, r: int)
    requires
        0 <= r < top,
        r < cv.0.len(),
        cv.1.len() == cv.0.len(),
    ensures
        put_rows(cv, body, top, start, k).0.len() == cv.0.len(),
        put_rows(cv, body, top, start, k).1.len() == cv.1.len(),
        put_rows(cv, body, top, start, k).0[r] == cv.0[r],
        put_rows(cv, body, top, start, k).1[r] == cv.1[r],
    decreases k,
{
    if k > 0 {
        lemma_put_rows_keeps_row(cv, body, top, start, (k - 1) as nat, r);
    }
}

/// Row 0 of a frame is the ceiling line carrying the HUD: `SCORE n` from
/// column 1, `BEST m` (the snapshot's best score) ending one cell before the
/// right edge, the ceiling glyph in every other cell, whatever the phase and
/// whatever lies under it; the bird, the messages and the ground never reach it.
pub proof fn lemma_hud_shows_score_and_best(s: Snapshot, course_lines: Option<&[String]>)
    requires
        drawable(s),
        s.rows >= 2,
        ("SCORE "@ + decimal(s.score as nat)).len() + ("BEST "@ + decimal(s.best as nat)).len() + 2
            <= s.cols,
    ensures
        ({
            let row = frame_of(s, course_lines).0[0];
            let t = "SCORE "@ + decimal(s.score as nat);
            let b = "BEST "@ + decimal(s.best as nat);
            let start = s.cols - 1 - b.len();
            &&& row.len() == s.cols
            &&& row.subrange(1, 1 + t.len() as int) == t
            &&& row.subrange(start, s.cols - 1) == b
            &&& row[0] == GROUND
            &&& row[s.cols - 1] == GROUND
            &&& forall|j: int| 1 + t.len() <= j < start ==> #[trigger] row[j] == GROUND
        }),
{
    let rows = s.rows as int;
    let cols = s.cols as int;
    lemma_pipe_layer_sized(s, course_lines);
    let base = pipe_layer(s, course_view(course_lines));
    lemma_overlay_sized(base, s);
    let t = "SCORE "@ + decimal(s.score as nat);
    let b = "BEST "@ + decimal(s.best as nat);
    let start = cols - 1 - b.len();
    assert(score_text(s.score) == t);
    assert(best_text(s.best) == b);
    let c1 = fill_row(base, 0, GROUND);
    let c2 = put_row(c1, 0, t, 1);
    let h = hud(base, s);
    assert(sat_sub(cols, b.len() as int + 1) == start);
    assert(h == put_row(c2, 0, b, start));
    let r0 = h.0[0];
    assert(base.0[0].len() == cols);
    assert(r0 == put_text(put_text(Seq::new(cols as nat, |j: int| GROUND), t, 1), b, start));
    // Nothing written after the HUD reaches row 0.
    let g = ground_line(h, s);
    assert(g.0[0] == r0);
    let m = messages(g, s);
    match s.phase {
        Phase::Ready => {
            let t3 = put_row(g, 3, READY_TITLE@, centered_start(cols, READY_TITLE@.len() as int));
            assert(t3.0.len() == g.0.len());
            assert(t3.0[0] == r0);
            assert(m.0[0] == r0);
        },
        Phase::GameOver => {
            lemma_put_rows_keeps_row(g, box_body(s.score), 2, sat_sub(cols, box_width() + 2) / 2, 6, 0);
            assert(m.0[0] == r0);
        },
        Phase::Playing => {},
    }
    assert(m.0[0] == r0);
    assert(live_bird(m, s).0[0] == r0);
    assert(frame_of(s, course_lines) == live_bird(m, s));
    let row = frame_of(s, course_lines).0[0];
    assert(row.subrange(1, 1 + t.len() as int) =~= t);
    assert(row.subrange(start, cols - 1) =~= b);
}

/// What a terminal shows after some writes: each printed glyph with the
/// colour in effect when it was printed (`cur` at the start).
pub open spec fn shown(ops: Seq<DrawOp>, cur: Option<Tint>) -> Seq<(char, Option<Tint>)>
    decreases ops.len(),
{
    if ops.len() == 0 {
        Seq::empty()
    } else {
        match ops[0] {
            DrawOp::SetColor(c) => shown(ops.drop_first(), Some(c)),
            DrawOp::ResetColor => shown(ops.drop_first(), None),
            DrawOp::Glyph(ch) => seq![(ch, cur)] + shown(ops.drop_first(), cur),
        }
    }
}

/// The colour in effect after some writes.
pub open spec fn color_after(ops: Seq<DrawOp>, cur: Option<Tint>) -> Option<Tint>
    decreases ops.len(),
{
    if ops.len() == 0 {
        cur
    } else {
        match ops[0] {
            DrawOp::SetColor(c) => color_after(ops.drop_first(), Some(c)),
            DrawOp::ResetColor => color_after(ops.drop_first(), None),
            DrawOp::Glyph(ch) => color_after(ops.drop_first(), cur),
        }
    }
}

/// Each cell of a row with the colour of its paint tag.
pub open spec fn tinted_row(line: Seq<char>, paints: Seq<Paint>) -> Seq<(char, Option<Tint>)> {
    let n = if line.len() < paints.len() {
        line.len()
    } else {
        paints.len()
    };
    Seq::new(n, |i: int| (line[i], tint_of(paints[i])))
}

proof fn lemma_shown_step(x: DrawOp, rest: Seq<DrawOp>, cur: Option<Tint>)
    ensures
        shown(seq![x] + rest, cur) == match x {
            DrawOp::SetColor(c) => shown(rest, Some(c)),
            DrawOp::ResetColor => shown(rest, None),
            DrawOp::Glyph(ch) => seq![(ch, cur)] + shown(rest, cur),
        },
        color_after(seq![x] + rest, cur) == match x {
            DrawOp::SetColor(c) => color_after(rest, Some(c)),
            DrawOp::ResetColor => color_after(rest, None),
            DrawOp::Glyph(ch) => color_after(rest, cur),
        },
{
    assert((seq![x] + rest).drop_first() =~= rest);
}

/// Writing a row as `row_ops` does shows every cell's glyph in its paint's
/// colour, in order, and leaves the terminal in its default colour.
pub proof fn lemma_row_ops_show_row(line: Seq<char>, paints: Seq<Paint>, cur: Option<Tint>)
    ensures
        shown(ops_from(line, paints, cur), cur) == tinted_row(line, paints),
        color_after(ops_from(line, paints, cur), cur) is None,
    decreases line.len(),
{
    if line.len() == 0 || paints.len() == 0 {
        if cur is Some {
            lemma_shown_step(DrawOp::ResetColor, Seq::empty(), cur);
            assert(seq![DrawOp::ResetColor] + Seq::<DrawOp>::empty() =~= seq![DrawOp::ResetColor]);
        }
        assert(tinted_row(line, paints) =~= Seq::empty());
    } else {
        let want = tint_of(paints[0]);
        let rest = ops_from(line.drop_first(), paints.drop_first(), want);
        lemma_row_ops_show_row(line.drop_first(), paints.drop_first(), want);
        lemma_shown_step(glyph_op(line[0]), rest, want);
        if want != cur {
            lemma_shown_step(color_op(want), seq![glyph_op(line[0])] + rest, cur);
            assert(seq![color_op(want), glyph_op(line[0])] + rest =~= seq![color_op(want)] + (seq![glyph_op(line[0])] + rest));
        }
        assert(tinted_row(line, paints) =~= seq![(line[0], want)] + tinted_row(line.drop_first(), paints.drop_first()));
    }
}

} // verus!
