//! Scores of positions. A score counts tenths of a point, from White's side.

use vstd::prelude::*;
use crate::board::Player;

verus! {

/// Scores of this size and beyond stand for a forced win.
pub const FINITE_THRESHOLD: i32 = 5000;

/// The score of a game that is won now.
pub const WIN_BASELINE: i32 = 10000;

/// What one ply costs a forced win.
pub const PLY_COST: i32 = 10;

/// The worth of a position in tenths of a point: above zero where White is
/// ahead, below where Black is. A score below [`FINITE_THRESHOLD`] in size is
/// an estimate. One beyond says that a side wins by force, the sooner the
/// farther the score lies from zero.
#[derive(Clone, Copy, PartialEq, Eq, Structural, Hash, Debug)]
pub struct Score(pub i32);

impl Score {
    /// Whether the score lies within the range that a search can reach.
    pub open spec fn wf(self) -> bool {
        -WIN_BASELINE <= self.0 <= WIN_BASELINE
    }

    /// Whether the score is an estimate, not a forced win.
    pub open spec fn spec_is_finite(self) -> bool {
        -FINITE_THRESHOLD < self.0 < FINITE_THRESHOLD
    }

    /// The score of a game that `winner` has won.
    pub open spec fn spec_win_now(winner: Player) -> Score {
        match winner {
            Player::Black => Score(-10000i32),
            Player::White => Score(10000i32),
        }
    }

    /// The score seen from one ply earlier: a forced win moves one ply
    /// away, an estimate stays.
    pub open spec fn spec_propagate(self) -> Score {
        if self.spec_is_finite() {
            self
        } else if self.0 > 0 {
            Score((self.0 - PLY_COST) as i32)
        } else {
            Score((self.0 + PLY_COST) as i32)
        }
    }

    /// The better of two scores for White.
    pub open spec fn spec_max(self, other: Score) -> Score {
        if other.0 > self.0 {
            other
        } else {
            self
        }
    }

    /// The better of two scores for Black.
    pub open spec fn spec_min(self, other: Score) -> Score {
        if other.0 < self.0 {
            other
        } else {
            self
        }
    }

    /// Whether `self` is at least as good as `other` for the given side.
    pub open spec fn no_worse(self, other: Score, side: Player) -> bool {
        match side {
            Player::White => self.0 >= other.0,
            Player::Black => self.0 <= other.0,
        }
    }

    /// The score of a level position.
    pub fn even() -> (r: Score)
        ensures
            r == Score(0),
    {
        Score(0)
    }

    /// An estimate of the given worth, in tenths.
    pub fn finite(val: i32) -> (r: Score)
        requires
            -FINITE_THRESHOLD < val < FINITE_THRESHOLD,
        ensures
            r == Score(val),
            r.spec_is_finite(),
    {
        Score(val)
    }

    /// The score of a game that `winner` has won.
    pub fn win_now(winner: Player) -> (r: Score)
        ensures
            r == Score::spec_win_now(winner),
            !r.spec_is_finite(),
            r.wf(),
    {
        match winner {
            Player::Black => Score(-WIN_BASELINE),
            Player::White => Score(WIN_BASELINE),
        }
    }

    /// Whether the score is an estimate, not a forced win.
    pub fn is_finite(&self) -> (r: bool)
        ensures
            r == self.spec_is_finite(),
    {
        -FINITE_THRESHOLD < self.0 && self.0 < FINITE_THRESHOLD
    }

    /// `'+'` where the score is zero or favours White, `'-'` where it
    /// favours Black.
    pub fn sign_char(&self) -> (r: char)
        ensures
            r == if self.0 >= 0 {
                '+'
            } else {
                '-'
            },
    {
        if self.0 >= 0 {
            '+'
        } else {
            '-'
        }
    }

    /// Number of plies until a forced win is had, to the nearest whole.
    pub fn moves(&self) -> (r: u32)
        requires
            self.wf(),
            !self.spec_is_finite(),
        ensures
            r == (WIN_BASELINE - (if self.0 >= 0 {
                self.0 as int
            } else {
                -self.0
            }) + 5) / 10,
    {
        let size: i32 = if self.0 >= 0 {
            self.0
        } else {
            -self.0
        };
        ((WIN_BASELINE - size + 5) / 10) as u32
    }

    /// The score seen from one ply earlier.
    pub fn propagate(self) -> (r: Score)
        ensures
            r == self.spec_propagate(),
            self.wf() ==> r.wf(),
    {
        if self.is_finite() {
            self
        } else if self.0 > 0 {
            Score(self.0 - PLY_COST)
        } else {
            Score(self.0 + PLY_COST)
        }
    }

    /// The better of two scores for White.
    pub fn max(self, other: Score) -> (r: Score)
        ensures
            r == self.spec_max(other),
    {
        if other.0 > self.0 {
            other
        } else {
            self
        }
    }

    /// The better of two scores for Black.
    pub fn min(self, other: Score) -> (r: Score)
        ensures
            r == self.spec_min(other),
    {
        if other.0 < self.0 {
            other
        } else {
            self
        }
    }
}

/// What the search found at a node.
#[derive(Clone, Copy, PartialEq, Eq, Structural, Debug)]
pub struct EvalResult {
    /// The score of the node.
    pub score: Score,
    /// Number of nodes looked at below and at the node, cache hits counted
    /// once each; it stops at the largest `usize`.
    pub nodes: usize,
}

impl EvalResult {
    /// The result of a node that was not searched further.
    pub fn immediate(score: Score) -> (r: EvalResult)
        ensures
            r == (EvalResult { score, nodes: 1 }),
    {
        EvalResult { score, nodes: 1 }
    }
}

} // verus!
