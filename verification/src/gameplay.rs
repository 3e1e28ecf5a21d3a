//! What the players of a match decide, apart from how they are asked.

use vstd::prelude::*;
use crate::matches::ply_in;
use crate::tile::{Ply, Tile};

verus! {

/// What a player answers when it is asked for a move.
#[derive(Clone, Copy, PartialEq, Eq, Structural, Debug)]
pub enum Decision {
    Move(Ply),
    TakeBack,
}

/// Whether one of the moves starts from the cell.
pub open spec fn starts_from(moves: Seq<Ply>, from: Tile) -> bool {
    exists|k: int| 0 <= k < moves.len() && (#[trigger] moves[k]).from_tile == from
}

/// What a click on a cell does for a player who picks a move by its two
/// cells: the cell that is picked afterwards, and the answer if there is
/// one.
///
/// With a cell picked, a click on a cell to which the picked piece may move
/// answers with that move; a click elsewhere lets go of the cell. With no
/// cell picked, a click on a cell from which a move starts picks it.
pub open spec fn spec_click(moves: Seq<Ply>, selected: Option<Tile>, clicked: Tile) -> (
    Option<Tile>,
    Option<Decision>,
) {
    match selected {
        Some(from) => if moves.contains(Ply { from_tile: from, to_tile: clicked }) {
            (selected, Some(Decision::Move(Ply { from_tile: from, to_tile: clicked })))
        } else {
            (None, None)
        },
        None => if starts_from(moves, clicked) {
            (Some(clicked), None)
        } else {
            (None, None)
        },
    }
}

/// What a click on a cell does for a player who picks a move by its two
/// cells.
#[verifier::loop_isolation(false)]
pub fn click(moves: &Vec<Ply>, selected: Option<Tile>, clicked: Tile) -> (r: (
    Option<Tile>,
    Option<Decision>,
))
    ensures
        r == spec_click(moves@, selected, clicked),
{
    match selected {
        Some(from) => {
            let candidate = Ply { from_tile: from, to_tile: clicked };
            if ply_in(moves, candidate) {
                (selected, Some(Decision::Move(candidate)))
            } else {
                (None, None)
            }
        },
        None => {
            let mut k: usize = 0;
            while k < moves.len()
                invariant
                    k <= moves@.len(),
                    forall|j: int| 0 <= j < k ==> (#[trigger] moves@[j]).from_tile != clicked,
                decreases moves@.len() - k,
            {
                if moves[k].from_tile == clicked {
                    assert(moves@[k as int].from_tile == clicked);
                    assert(starts_from(moves@, clicked));
                    return (Some(clicked), None);
                }
                k += 1;
            }
            (None, None)
        },
    }
}

/// The depth to which a player searches that usually searches `depth` plies
/// deep and has lapsed `lapses` times: one ply less for each lapse, as far
/// as there are plies.
pub fn lapsed_depth(depth: usize, lapses: usize) -> (r: usize)
    ensures
        r == if lapses <= depth {
            depth - lapses
        } else {
            0
        },
{
    depth.saturating_sub(lapses)
}

/// Number of moves to take back so that the player who asks is to move
/// again: its own last move, and before it the reply of the other player
/// unless that player may take it back itself.
pub fn takeback_count(other_allows_takebacks: bool) -> (r: usize)
    ensures
        r == if other_allows_takebacks {
            1usize
        } else {
            2usize
        },
{
    if other_allows_takebacks {
        1
    } else {
        2
    }
}

/// Who plays a side: a person, or the engine at one of its strengths.
#[derive(Clone, Copy, PartialEq, Eq, Structural, Debug)]
pub enum GamerSpec {
    Human,
    Gibberish,
    Noob,
    Decent,
    Sharp,
    Tough,
    GrandMaster,
    Perfect { depth: usize },
}

impl GamerSpec {
    /// The depth to which the engine searches at this strength; `None` for
    /// a person.
    pub open spec fn spec_search_depth(self) -> Option<usize> {
        match self {
            GamerSpec::Human => None,
            GamerSpec::Gibberish => Some(0),
            GamerSpec::Noob => Some(1),
            GamerSpec::Decent => Some(2),
            GamerSpec::Sharp => Some(3),
            GamerSpec::Tough => Some(5),
            GamerSpec::GrandMaster => Some(6),
            GamerSpec::Perfect { depth } => Some(depth),
        }
    }

    /// How often in a hundred turns the engine lapses at this strength, and
    /// then again on top of a lapse.
    pub open spec fn spec_blunder_percent(self) -> u8 {
        match self {
            GamerSpec::Noob | GamerSpec::Decent | GamerSpec::GrandMaster => 20,
            GamerSpec::Sharp | GamerSpec::Tough => 40,
            _ => 0,
        }
    }

    /// The depth to which the engine searches at this strength; `None` for
    /// a person.
    pub fn search_depth(&self) -> (r: Option<usize>)
        ensures
            r == self.spec_search_depth(),
    {
        match self {
            GamerSpec::Human => None,
            GamerSpec::Gibberish => Some(0),
            GamerSpec::Noob => Some(1),
            GamerSpec::Decent => Some(2),
            GamerSpec::Sharp => Some(3),
            GamerSpec::Tough => Some(5),
            GamerSpec::GrandMaster => Some(6),
            GamerSpec::Perfect { depth } => Some(*depth),
        }
    }

    /// How often in a hundred turns the engine lapses at this strength.
    pub fn blunder_percent(&self) -> (r: u8)
        ensures
            r == self.spec_blunder_percent(),
    {
        match self {
            GamerSpec::Noob | GamerSpec::Decent | GamerSpec::GrandMaster => 20,
            GamerSpec::Sharp | GamerSpec::Tough => 40,
            _ => 0,
        }
    }

    /// Whether moves may be taken back against this player: against a
    /// person where the match allows it, never against the engine.
    pub fn allows_takebacks(&self, allow_takeback: bool) -> (r: bool)
        ensures
            r == (*self == GamerSpec::Human && allow_takeback),
    {
        match self {
            GamerSpec::Human => allow_takeback,
            _ => false,
        }
    }
}

} // verus!
