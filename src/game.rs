use vstd::prelude::*;

use crate::tetris::piece::{kind_of, stamped, Piece, Pos, KINDS};
use crate::tetris::{cleared, count_full, Tetris};

verus! {

/// Gravity period at the start of a game, in milliseconds.
pub const START_TICKRATE: u64 = 1000;

/// Shortest gravity period, in milliseconds.
pub const LOW_TICKRATE: u64 = 150;

/// How much shorter the gravity period gets for each cleared row, in
/// milliseconds.
pub const TICKRATE_STEP: u64 = 25;

/// Row and column of the anchor of each new falling piece.
pub const SPAWN_ROW: i8 = -2;
pub const SPAWN_COL: i8 = 3;

/// Row and column of the anchor of the piece shown as the next one.
pub const PREVIEW_ROW: i8 = 3;
pub const PREVIEW_COL: i8 = 13;

/// The score after `lines` rows are cleared at once: it grows by the square
/// of `lines`, up to the largest `u64`.
pub open spec fn score_after(score: u64, lines: u8) -> u64 {
    if score + lines * lines <= u64::MAX {
        (score + lines * lines) as u64
    } else {
        u64::MAX
    }
}

/// The gravity period after `lines` rows are cleared at once: unchanged for
/// none, else `TICKRATE_STEP` shorter for each row, down to its floor.
pub open spec fn tickrate_after(tickrate: u64, lines: u8) -> u64 {
    if lines == 0 {
        tickrate
    } else {
        floored(tickrate - lines * TICKRATE_STEP) as u64
    }
}

/// All the cells lie in or below the top row.
pub open spec fn below_top(cs: Seq<(int, int)>) -> bool {
    forall|i: int| 0 <= i < cs.len() ==> #[trigger] cs[i].0 >= 0
}

/// Score and speed of a game session.
pub struct Game {
    tickrate: u64,
    low_tickrate: u64,
    score: u64,
}

pub open spec fn floored(d: int) -> int {
    if d < LOW_TICKRATE {
        LOW_TICKRATE as int
    } else {
        d
    }
}

impl Game {
    pub closed spec fn score(&self) -> u64 {
        self.score
    }

    /// The gravity period, in milliseconds.
    pub closed spec fn tickrate(&self) -> u64 {
        self.tickrate
    }

    pub closed spec fn low_tickrate(&self) -> u64 {
        self.low_tickrate
    }

    /// The gravity period never falls under its floor.
    pub open spec fn wf(&self) -> bool {
        self.low_tickrate() == LOW_TICKRATE && self.tickrate() >= LOW_TICKRATE
    }

    /// A game with no score and the starting gravity period.
    pub fn new() -> (r: Game)
        ensures
            r.wf(),
            r.score() == 0,
            r.tickrate() == START_TICKRATE,
    {
        Game { tickrate: START_TICKRATE, low_tickrate: LOW_TICKRATE, score: 0 }
    }

    pub fn get_score(&self) -> (r: u64)
        ensures
            r == self.score(),
    {
        self.score
    }

    pub fn set_score(&mut self, value: u64)
        ensures
            final(self).score() == value,
            final(self).tickrate() == old(self).tickrate(),
            final(self).low_tickrate() == old(self).low_tickrate(),
    {
        self.score = value;
    }

    /// The gravity period, in milliseconds.
    pub fn get_tickrate(&self) -> (r: u64)
        ensures
            r == self.tickrate(),
    {
        self.tickrate
    }

    /// Sets the gravity period to `duration` milliseconds, or to the floor
    /// where `duration` is under it.
    pub fn set_tickrate(&mut self, duration: u64)
        ensures
            final(self).tickrate() == if duration < old(self).low_tickrate() {
                old(self).low_tickrate()
            } else {
                duration
            },
            final(self).score() == old(self).score(),
            final(self).low_tickrate() == old(self).low_tickrate(),
    {
        if duration < self.low_tickrate {
            self.tickrate = self.low_tickrate
        } else {
            self.tickrate = duration
        }
    }

    /// Counts `lines` rows cleared at once: the score grows by the square of
    /// `lines` (up to the largest `u64`), and the gravity period shrinks by
    /// `TICKRATE_STEP` for each row, down to its floor.
    pub fn add_lines(&mut self, lines: u8)
        requires
            old(self).wf(),
        ensures
            final(self).wf(),
            final(self).score() == score_after(old(self).score(), lines),
            final(self).tickrate() == tickrate_after(old(self).tickrate(), lines),
            final(self).score() >= old(self).score(),
            final(self).tickrate() <= old(self).tickrate(),
    {
        if lines == 0 {
            return;
        }
        let n = lines as u64;
        assert(n * n <= 255 * 255) by (nonlinear_arith)
            requires
                n <= 255,
        ;
        let score = self.get_score().saturating_add(n * n);
        self.set_score(score);
        let tickrate = self.get_tickrate().saturating_sub(n * TICKRATE_STEP);
        self.set_tickrate(tickrate);
    }

    /// One round of the rules between two moves. A piece that has died is
    /// written into the grid and the next piece takes its place at the spawn
    /// point, with a new next piece drawn at random; where the dead piece lies
    /// partly above the field, nothing is written and false is returned: the
    /// game is lost. Then the full rows are cleared and counted.
    pub fn update(&mut self, tetris: &mut Tetris, piece: &mut Piece, next: &mut Piece) -> (r: bool)
        requires
            old(self).wf(),
            old(tetris).wf(),
            old(piece).wf(),
            old(next).wf(),
        ensures
            final(self).wf(),
            final(tetris).wf(),
            final(piece).wf(),
            final(next).wf(),
            r == (old(piece).alive() || below_top(old(piece).bits())),
            !r ==> final(tetris)@ == old(tetris)@ && *final(self) == *old(self) && *final(next)
                == *old(next) && !final(piece).alive(),
            r && old(piece).alive() ==> *final(piece) == *old(piece) && *final(next) == *old(next),
            r && !old(piece).alive() ==> {
                &&& final(piece).rings() == old(next).rings()
                &&& final(piece).alive() == old(next).alive()
                &&& final(piece).anchor() == Pos(SPAWN_ROW, SPAWN_COL)
                &&& final(next).alive()
                &&& final(next).anchor() == Pos(PREVIEW_ROW, PREVIEW_COL)
                &&& exists|n: u8| n < KINDS && final(next).rings() == kind_of(n).rings()
            },
            r ==> {
                let g = if old(piece).alive() {
                    old(tetris)@
                } else {
                    stamped(old(tetris)@, old(piece).bits())
                };
                &&& final(tetris)@ == cleared(g)
                &&& final(self).score() == score_after(old(self).score(), count_full(g) as u8)
                &&& final(self).tickrate() == tickrate_after(
                    old(self).tickrate(),
                    count_full(g) as u8,
                )
            },
    {
        if !piece.is_alive() {
            if !piece.apply_to_grid(tetris) {
                return false;
            }
            let mut landed = Piece::random(Pos(PREVIEW_ROW, PREVIEW_COL));
            std::mem::swap(next, &mut landed);
            landed.set_pos(Pos(SPAWN_ROW, SPAWN_COL));
            *piece = landed;
        }
        let lines = tetris.check_lines();
        self.add_lines(lines);
        true
    }
}

} // verus!
