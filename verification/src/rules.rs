//! Cell-level game rules: which rows a pipe blocks, when the bird collides,
//! how pipes are scored, and how the phase moves between Ready, Playing and
//! GameOver. The continuous physics (positions and velocities) is rounded to
//! cells by the caller; everything decided on cells lives here.

use crate::rng::{range_value, next_state, Rng};
use vstd::prelude::*;

verus! {

/// The three states of a game.
#[derive(Debug, Clone, Copy, PartialEq, Eq, Structural)]
pub enum Phase {
    Ready,
    Playing,
    GameOver,
}

/// Whether a pipe with gap `[gap_top, gap_top + pipe_gap)` blocks `row`:
/// `1 <= row < gap_top` or `gap_top + pipe_gap <= row <= rows - 2`.
pub open spec fn blocks(gap_top: int, pipe_gap: int, rows: int, row: int) -> bool {
    (1 <= row && row < gap_top) || (gap_top + pipe_gap <= row && row <= rows - 2)
}

/// Whether a pipe blocks `row`; the single definition shared by collision and drawing.
pub fn pipe_blocks_row(gap_top: u16, pipe_gap: u16, rows: u16, row: i32) -> (r: bool)
    ensures
        r == blocks(gap_top as int, pipe_gap as int, rows as int, row as int),
{
    let top = gap_top as i32;
    let gap_bottom = top + pipe_gap as i32;
    let ground = rows as i32 - 2;
    (1 <= row && row < top) || (gap_bottom <= row && row <= ground)
}

/// A pipe seen at cell resolution: its rounded column, its gap, and whether it
/// has already been scored.
#[derive(Debug, Clone, Copy, PartialEq, Eq, Structural)]
pub struct PipeCell {
    pub col: i32,
    pub gap_top: u16,
    pub passed: bool,
}

/// The bird's cell is outside the play area (row 0 is the ceiling, `rows - 1` the ground).
pub open spec fn out_of_bounds(bird_row: int, rows: int) -> bool {
    bird_row < 1 || bird_row >= rows - 1
}

/// Some pipe stands in the bird's column and blocks the bird's row.
pub open spec fn hits_pipe(pipes: Seq<PipeCell>, bird_row: int, bird_col: int, rows: int, pipe_gap: int) -> bool {
    exists|i: int|
        0 <= i < pipes.len() && #[trigger] pipes[i].col == bird_col && blocks(
            pipes[i].gap_top as int,
            pipe_gap,
            rows,
            bird_row,
        )
}

/// The bird collides with the ceiling, the ground or a pipe.
pub open spec fn collides(pipes: Seq<PipeCell>, bird_row: int, bird_col: int, rows: int, pipe_gap: int) -> bool {
    out_of_bounds(bird_row, rows) || hits_pipe(pipes, bird_row, bird_col, rows, pipe_gap)
}

/// A pipe that is not yet scored and lies wholly left of the bird.
pub open spec fn scores_now(p: PipeCell, bird_col: int) -> bool {
    !p.passed && p.col < bird_col
}

/// The pipe after a scoring pass.
pub open spec fn settle_cell(p: PipeCell, bird_col: int) -> PipeCell {
    PipeCell { passed: p.passed || p.col < bird_col, ..p }
}

/// All pipes after a scoring pass.
pub open spec fn settled(pipes: Seq<PipeCell>, bird_col: int) -> Seq<PipeCell> {
    pipes.map_values(|p: PipeCell| settle_cell(p, bird_col))
}

/// Number of pipes that a scoring pass scores.
pub open spec fn newly_passed(pipes: Seq<PipeCell>, bird_col: int) -> nat
    decreases pipes.len(),
{
    if pipes.len() == 0 {
        0
    } else {
        newly_passed(pipes.drop_last(), bird_col) + if scores_now(pipes.last(), bird_col) {
            1nat
        } else {
            0nat
        }
    }
}

/// A prefix scores no more than the whole sequence.
pub proof fn lemma_newly_passed_prefix(pipes: Seq<PipeCell>, bird_col: int, k: int)
    requires
        0 <= k <= pipes.len(),
    ensures
        newly_passed(pipes.take(k), bird_col) <= newly_passed(pipes, bird_col),
    decreases pipes.len() - k,
{
    if k < pipes.len() {
        lemma_newly_passed_prefix(pipes, bird_col, k + 1);
        assert(pipes.take(k + 1).drop_last() =~= pipes.take(k));
    } else {
        assert(pipes.take(k) =~= pipes);
    }
}

pub open spec fn max_nat(a: int, b: int) -> int {
    if a >= b {
        a
    } else {
        b
    }
}

/// What a flap does in each phase: the next phase, and whether the upward
/// impulse is applied.
pub open spec fn flap_outcome(phase: Phase) -> (Phase, bool) {
    match phase {
        Phase::Ready => (Phase::Playing, true),
        Phase::Playing => (Phase::Playing, true),
        Phase::GameOver => (Phase::GameOver, false),
    }
}

/// Phase, score and best score of a game.
pub struct Progress {
    phase: Phase,
    score: u32,
    best: u32,
}

impl Progress {
    #[verifier::type_invariant]
    closed spec fn best_bounds_score(self) -> bool {
        self.score <= self.best
    }

    pub closed spec fn phase(&self) -> Phase {
        self.phase
    }

    pub closed spec fn score(&self) -> u32 {
        self.score
    }

    pub closed spec fn best(&self) -> u32 {
        self.best
    }

    /// What every flap and every settle keeps from `self` to `next`: the score
    /// does not fall, and a best that equalled the score still does.
    pub open spec fn keeps_play(self, next: Progress) -> bool {
        &&& next.score() >= self.score()
        &&& self.best() == self.score() ==> next.best() == next.score()
    }

    /// A fresh game: Ready, score and best 0. From here on, as long as only
    /// `flap` and `settle` are called, best equals score and score never falls
    /// (see `lemma_play_without_restart`); only `restart` sets score back.
    pub fn new() -> (r: Self)
        ensures
            r.phase() == Phase::Ready,
            r.score() == 0,
            r.best() == 0,
    {
        Progress { phase: Phase::Ready, score: 0, best: 0 }
    }

    pub fn get_phase(&self) -> (r: Phase)
        ensures
            r == self.phase(),
    {
        self.phase
    }

    pub fn get_score(&self) -> (r: u32)
        ensures
            r == self.score(),
    {
        self.score
    }

    /// The best score, never below the current score.
    pub fn get_best(&self) -> (r: u32)
        ensures
            r == self.best(),
            self.score() <= r,
    {
        proof {
            use_type_invariant(self);
        }
        self.best
    }

    /// A flap: Ready starts the game; Ready and Playing apply the upward
    /// impulse (returns `true`); GameOver ignores it.
    pub fn flap(&mut self) -> (kick: bool)
        ensures
            (final(self).phase(), kick) == flap_outcome(old(self).phase()),
            final(self).score() == old(self).score(),
            final(self).best() == old(self).best(),
            old(self).keeps_play(*final(self)),
    {
        proof {
            use_type_invariant(&*self);
        }
        if self.phase == Phase::Ready {
            *self = Progress { phase: Phase::Playing, score: self.score, best: self.best };
        }
        self.phase == Phase::Playing
    }

    /// The cell-level half of a physics step, after the bird and the pipes
    /// have moved: outside Playing nothing happens; a collision ends the game
    /// and scores nothing; otherwise every pipe left of the bird is marked
    /// passed, each newly passed pipe adds one point, and best follows score.
    pub fn settle(
        &mut self,
        bird_row: i32,
        bird_col: i32,
        rows: u16,
        pipe_gap: u16,
        pipes: &mut Vec<PipeCell>,
    ) -> (hit: bool)
        requires
            old(self).phase() == Phase::Playing && !collides(
                old(pipes)@,
                bird_row as int,
                bird_col as int,
                rows as int,
                pipe_gap as int,
            ) ==> old(self).score() + newly_passed(old(pipes)@, bird_col as int) <= u32::MAX,
        ensures
            old(self).keeps_play(*final(self)),
            old(self).phase() == Phase::Playing ==> forall|i: int|
                0 <= i < old(pipes)@.len() && #[trigger] old(pipes)@[i].col == bird_col && blocks(
                    old(pipes)@[i].gap_top as int,
                    pipe_gap as int,
                    rows as int,
                    bird_row as int,
                ) ==> hit,
            forall|i: int|
                0 <= i < old(pipes)@.len() && #[trigger] old(pipes)@[i].col >= bird_col
                    ==> final(pipes)@[i] == old(pipes)@[i],
            final(pipes)@.len() == old(pipes)@.len(),
            old(self).phase() != Phase::Playing ==> {
                &&& !hit
                &&& final(self).phase() == old(self).phase()
                &&& final(self).score() == old(self).score()
                &&& final(self).best() == old(self).best()
                &&& final(pipes)@ == old(pipes)@
            },
            old(self).phase() == Phase::Playing ==> {
                &&& hit == collides(
                    old(pipes)@,
                    bird_row as int,
                    bird_col as int,
                    rows as int,
                    pipe_gap as int,
                )
                &&& hit ==> {
                    &&& final(self).phase() == Phase::GameOver
                    &&& final(self).score() == old(self).score()
                    &&& final(self).best() == old(self).best()
                    &&& final(pipes)@ == old(pipes)@
                }
                &&& !hit ==> {
                    &&& final(self).phase() == Phase::Playing
                    &&& final(pipes)@ == settled(old(pipes)@, bird_col as int)
                    &&& final(self).score() == old(self).score() + newly_passed(
                        old(pipes)@,
                        bird_col as int,
                    )
                    &&& final(self).best() == max_nat(
                        old(self).best() as int,
                        final(self).score() as int,
                    )
                }
            },
    {
        proof {
            use_type_invariant(&*self);
        }
        if self.phase != Phase::Playing {
            return false;
        }
        let hit_bounds = bird_row < 1 || bird_row >= rows as i32 - 1;
        let mut hit_pipe = false;
        let n = pipes.len();
        let mut i: usize = 0;
        while i < n
            invariant
                n == pipes@.len(),
                i <= n,
                hit_pipe == exists|j: int|
                    0 <= j < i && #[trigger] pipes@[j].col == bird_col && blocks(
                        pipes@[j].gap_top as int,
                        pipe_gap as int,
                        rows as int,
                        bird_row as int,
                    ),
            decreases n - i,
        {
            let p = pipes[i];
            if p.col == bird_col && pipe_blocks_row(p.gap_top, pipe_gap, rows, bird_row) {
                hit_pipe = true;
            }
            i = i + 1;
        }
        if hit_bounds || hit_pipe {
            *self = Progress { phase: Phase::GameOver, score: self.score, best: self.best };
            return true;
        }
        let ghost before = pipes@;
        assert(!collides(before, bird_row as int, bird_col as int, rows as int, pipe_gap as int));
        let mut gained: u32 = 0;
        let mut k: usize = 0;
        while k < n
            invariant
                n == pipes@.len(),
                n == before.len(),
                k <= n,
                self.score + newly_passed(before, bird_col as int) <= u32::MAX,
                gained == newly_passed(before.take(k as int), bird_col as int),
                gained <= newly_passed(before, bird_col as int),
                forall|j: int| 0 <= j < k ==> pipes@[j] == settle_cell(before[j], bird_col as int),
                forall|j: int| k <= j < n ==> pipes@[j] == before[j],
            decreases n - k,
        {
            let p = pipes[k];
            assert(before.take(k + 1).drop_last() =~= before.take(k as int));
            proof {
                lemma_newly_passed_prefix(before, bird_col as int, k + 1);
            }
            if !p.passed && p.col < bird_col {
                pipes.set(k, PipeCell { col: p.col, gap_top: p.gap_top, passed: true });
                gained = gained + 1;
            } else {
                pipes.set(k, PipeCell { col: p.col, gap_top: p.gap_top, passed: p.passed });
            }
            k = k + 1;
        }
        assert(before.take(n as int) =~= before);
        assert(pipes@ =~= settled(before, bird_col as int));
        if gained > 0 {
            let score = self.score + gained;
            let best = if score > self.best {
                score
            } else {
                self.best
            };
            *self = Progress { phase: self.phase, score, best };
        }
        false
    }

    /// Back to Ready with score 0, keeping best.
    pub fn restart(&mut self)
        ensures
            final(self).phase() == Phase::Ready,
            final(self).score() == 0,
            final(self).best() == old(self).best(),
    {
        *self = Progress { phase: Phase::Ready, score: 0, best: self.best };
    }
}

/// Highest gap top that leaves the whole gap above the ground line.
pub open spec fn max_gap_top(rows: int, pipe_gap: int) -> int {
    rows - 1 - pipe_gap
}

/// Draws the gap top of a new pipe uniformly from `[1, rows - 1 - pipe_gap]`.
pub fn spawn_gap_top(rng: &mut Rng, rows: u16, pipe_gap: u16) -> (r: u16)
    requires
        pipe_gap + 2 <= rows,
    ensures
        final(rng).state() == next_state(old(rng).state()),
        r == range_value(old(rng).state(), 1, (rows - 1 - pipe_gap) as u16),
        1 <= r <= max_gap_top(rows as int, pipe_gap as int),
{
    rng.gen_range_inclusive(1, rows - 1 - pipe_gap)
}

/// The autopilot flaps when the bird's row lies below the middle of the
/// target gap: `bird_row > gap_top + pipe_gap / 2`.
pub fn autopilot_wants_flap(bird_row: u16, gap_top: u16, pipe_gap: u16) -> (r: bool)
    ensures
        r == (2 * bird_row > 2 * gap_top + pipe_gap),
{
    2 * (bird_row as u32) > 2 * (gap_top as u32) + pipe_gap as u32
}

} // verus!
