//! Plain searches through all lines of play: for a line that ends a game,
//! and for the line that serves Black best while Black moves flat pieces
//! only.

use vstd::prelude::*;
use crate::board::{Player, Species};
use crate::position::{lemma_valid_moves, Position};
use crate::score::Score;
use crate::tile::{Ply, Tile};

verus! {

/// The first line of `depth` plies from the position, in the order of
/// generation, that ends in a won position; its moves stand last first.
pub open spec fn shortest_line(state: Position, depth: nat) -> Option<Seq<Ply>>
    decreases depth, 1nat, 0nat,
{
    if depth == 0 {
        if state.spec_is_won() is Some {
            Some(Seq::empty())
        } else {
            None
        }
    } else {
        shortest_from(state, state.spec_valid_moves(), 0, depth)
    }
}

/// The first such line that begins with one of `moves` from the `i`-th on.
pub open spec fn shortest_from(state: Position, moves: Seq<Ply>, i: nat, depth: nat) -> Option<
    Seq<Ply>,
>
    decreases depth, 0nat, moves.len() - i,
{
    if i >= moves.len() || depth == 0 {
        None
    } else {
        match shortest_line(state.after(moves[i as int]), (depth - 1) as nat) {
            Some(line) => Some(line.push(moves[i as int])),
            None => shortest_from(state, moves, i + 1, depth),
        }
    }
}

/// The position to which a line leads whose moves stand last first.
pub open spec fn played(state: Position, line: Seq<Ply>) -> Position
    decreases line.len(),
{
    if line.len() == 0 {
        state
    } else {
        played(state.after(line.last()), line.drop_last())
    }
}

/// Whether each move of a line, whose moves stand last first, is legal where
/// it is played.
pub open spec fn playable(state: Position, line: Seq<Ply>) -> bool
    decreases line.len(),
{
    if line.len() == 0 {
        true
    } else {
        state.spec_valid_moves().contains(line.last()) && playable(
            state.after(line.last()),
            line.drop_last(),
        )
    }
}

/// A line that the search finds has the length asked for, can be played,
/// and ends in a won position.
pub proof fn lemma_shortest_line(state: Position, depth: nat)
    requires
        shortest_line(state, depth) is Some,
    ensures
        shortest_line(state, depth).unwrap().len() == depth,
        playable(state, shortest_line(state, depth).unwrap()),
        played(state, shortest_line(state, depth).unwrap()).spec_is_won() is Some,
    decreases depth, 1nat, 0nat,
{
    if depth > 0 {
        lemma_shortest_from(state, state.spec_valid_moves(), 0, depth);
    }
}

proof fn lemma_shortest_from(state: Position, moves: Seq<Ply>, i: nat, depth: nat)
    requires
        shortest_from(state, moves, i, depth) is Some,
        moves == state.spec_valid_moves(),
    ensures
        shortest_from(state, moves, i, depth).unwrap().len() == depth,
        playable(state, shortest_from(state, moves, i, depth).unwrap()),
        played(state, shortest_from(state, moves, i, depth).unwrap()).spec_is_won() is Some,
    decreases depth, 0nat, moves.len() - i,
{
    let m = moves[i as int];
    match shortest_line(state.after(m), (depth - 1) as nat) {
        Some(line) => {
            lemma_shortest_line(state.after(m), (depth - 1) as nat);
            let whole = line.push(m);
            assert(whole.drop_last() =~= line);
            assert(whole.last() == m);
            assert(moves.contains(m));
        },
        None => {
            lemma_shortest_from(state, moves, i + 1, depth);
        },
    }
}

/// Looks through the lines of `depth` plies for one that ends in a won
/// position. The moves of the line come last first.
pub fn search_shortest(state: Position, depth: usize) -> (r: Option<Vec<Ply>>)
    requires
        state.wf(),
    ensures
        r matches Some(line) ==> shortest_line(state, depth as nat) == Some(line@),
        r is None ==> shortest_line(state, depth as nat) is None,
    decreases depth,
{
    if depth == 0 {
        return if state.is_won().is_some() {
            Some(Vec::new())
        } else {
            None
        };
    }
    let plies = state.valid_moves();
    proof {
        lemma_valid_moves(state, state.to_play);
    }
    let mut i: usize = 0;
    while i < plies.len()
        invariant
            i <= plies@.len(),
            state.wf(),
            depth > 0,
            plies@ == state.spec_valid_moves(),
            forall|m: Ply|
                state.spec_valid_moves_for(state.to_play).contains(m) <==> state.can_move(
                    state.to_play,
                    m.from_tile,
                    m.to_tile,
                ),
            shortest_line(state, depth as nat) == shortest_from(
                state,
                plies@,
                i as nat,
                depth as nat,
            ),
        decreases plies@.len() - i,
    {
        let ply = plies[i];
        assert(state.spec_valid_moves_for(state.to_play).contains(ply));
        let mut copy = state;
        copy.apply_move(ply);
        match search_shortest(copy, depth - 1) {
            Some(mut winning_match) => {
                winning_match.push(ply);
                return Some(winning_match);
            },
            None => {},
        }
        i += 1;
    }
    None
}

/// Whether a line of `depth` plies may still end with a flat piece of White
/// on Black's corner once a move has led to `next`: after a move of White,
/// its foremost flat piece must have come far enough for the moves that it
/// has left.
pub open spec fn promising(next: Position, depth: nat) -> bool {
    next.to_play == Player::Black || {
        let remaining = (depth - 1) / 2;
        if exists|t: Tile| next.white_flat_on(t) {
            exists|t: Tile| next.white_flat_on(t) && Position::hor(t) >= 4 - remaining
        } else {
            -6 >= 4 - remaining
        }
    }
}

/// The first line of `depth` plies that ends in a won position, among the
/// lines of which every move is promising.
pub open spec fn shortest_path(state: Position, depth: nat) -> Option<Seq<Ply>>
    decreases depth, 1nat, 0nat,
{
    if depth == 0 {
        if state.spec_is_won() is Some {
            Some(Seq::empty())
        } else {
            None
        }
    } else {
        shortest_path_from(state, state.spec_valid_moves(), 0, depth)
    }
}

/// The first such line that begins with one of `moves` from the `i`-th on.
pub open spec fn shortest_path_from(
    state: Position,
    moves: Seq<Ply>,
    i: nat,
    depth: nat,
) -> Option<Seq<Ply>>
    decreases depth, 0nat, moves.len() - i,
{
    if i >= moves.len() || depth == 0 {
        None
    } else {
        let next = state.after(moves[i as int]);
        if promising(next, depth) {
            match shortest_path(next, (depth - 1) as nat) {
                Some(line) => Some(line.push(moves[i as int])),
                None => shortest_path_from(state, moves, i + 1, depth),
            }
        } else {
            shortest_path_from(state, moves, i + 1, depth)
        }
    }
}

/// Looks through the promising lines of `depth` plies for one that ends in
/// a won position. The moves of the line come last first.
pub fn search_shortest_path(state: Position, depth: usize) -> (r: Option<Vec<Ply>>)
    requires
        state.wf(),
    ensures
        r matches Some(line) ==> shortest_path(state, depth as nat) == Some(line@),
        r is None ==> shortest_path(state, depth as nat) is None,
    decreases depth,
{
    if depth == 0 {
        return if state.is_won().is_some() {
            Some(Vec::new())
        } else {
            None
        };
    }
    let plies = state.valid_moves();
    proof {
        lemma_valid_moves(state, state.to_play);
    }
    let mut i: usize = 0;
    while i < plies.len()
        invariant
            i <= plies@.len(),
            state.wf(),
            depth > 0,
            plies@ == state.spec_valid_moves(),
            forall|m: Ply|
                state.spec_valid_moves_for(state.to_play).contains(m) <==> state.can_move(
                    state.to_play,
                    m.from_tile,
                    m.to_tile,
                ),
            shortest_path(state, depth as nat) == shortest_path_from(
                state,
                plies@,
                i as nat,
                depth as nat,
            ),
        decreases plies@.len() - i,
    {
        let ply = plies[i];
        assert(state.spec_valid_moves_for(state.to_play).contains(ply));
        let mut copy = state;
        copy.apply_move(ply);
        let good = match copy.to_play() {
            Player::Black => true,
            Player::White => {
                let remaining_moves: usize = (depth - 1) / 2;
                let foremost = copy.max_white_flat_hor();
                let good = match foremost {
                    Some(hor) => remaining_moves >= 200 || hor as i64 >= 4
                        - remaining_moves as i64,
                    None => remaining_moves >= 10,
                };
                proof {
                    let remaining = (depth - 1) / 2;
                    match foremost {
                        Some(hor) => {
                            let t = choose|t: Tile|
                                copy.white_flat_on(t) && Position::hor(t) == hor;
                            assert(copy.white_flat_on(t));
                            if good {
                                assert(Position::hor(t) >= 4 - remaining);
                            } else {
                                assert forall|u: Tile| copy.white_flat_on(u) implies !(
                                Position::hor(u) >= 4 - remaining) by {
                                    assert(Position::hor(u) <= hor);
                                }
                            }
                        },
                        None => {},
                    }
                }
                good
            },
        };
        assert(good == promising(copy, depth as nat));
        if good {
            match search_shortest_path(copy, depth - 1) {
                Some(mut winning_match) => {
                    winning_match.push(ply);
                    return Some(winning_match);
                },
                None => {},
            }
        }
        i += 1;
    }
    None
}

/// Whether the search for Black's best line follows the move: every move of
/// White, and of Black the moves of flat pieces.
pub open spec fn followed(state: Position, ply: Ply) -> bool {
    state.to_play == Player::White || state.spec_moved_piece(ply) == Species::Flat
}

/// The lowest static score that a line of `depth` plies reaches, with the
/// first line in the order of generation that reaches it, its moves last
/// first. Where no move is followed, White counts as the winner.
pub open spec fn min_line(state: Position, depth: nat) -> (Score, Seq<Ply>)
    decreases depth, 1nat, 0nat,
{
    if depth == 0 {
        (state.spec_eval_heuristic(), Seq::empty())
    } else {
        match min_scan(state, state.spec_valid_moves(), 0, depth, None) {
            Some(found) => found,
            None => (Score::spec_win_now(Player::White), Seq::empty()),
        }
    }
}

/// The best of `best` and the lines that begin with one of `moves` from the
/// `i`-th on. Of two lines with one score the earlier stays.
pub open spec fn min_scan(
    state: Position,
    moves: Seq<Ply>,
    i: nat,
    depth: nat,
    best: Option<(Score, Seq<Ply>)>,
) -> Option<(Score, Seq<Ply>)>
    decreases depth, 0nat, moves.len() - i,
{
    if i >= moves.len() || depth == 0 {
        best
    } else if !followed(state, moves[i as int]) {
        min_scan(state, moves, i + 1, depth, best)
    } else {
        let sub = min_line(state.after(moves[i as int]), (depth - 1) as nat);
        let candidate = (sub.0, sub.1.push(moves[i as int]));
        min_scan(
            state,
            moves,
            i + 1,
            depth,
            match best {
                Some(b) => if candidate.0.0 < b.0.0 {
                    Some(candidate)
                } else {
                    best
                },
                None => Some(candidate),
            },
        )
    }
}

/// Looks through the lines of `depth` plies in which Black moves flat pieces
/// only, for the one with the lowest static score at its end.
pub fn search_min(state: Position, depth: usize) -> (r: (Score, Vec<Ply>))
    requires
        state.wf(),
    ensures
        (r.0, r.1@) == min_line(state, depth as nat),
    decreases depth,
{
    if depth == 0 {
        return (state.eval_heuristic(), Vec::new());
    }
    let plies = state.valid_moves();
    proof {
        lemma_valid_moves(state, state.to_play);
    }
    let mut best: Option<(Score, Vec<Ply>)> = None;
    let mut i: usize = 0;
    while i < plies.len()
        invariant
            i <= plies@.len(),
            state.wf(),
            depth > 0,
            plies@ == state.spec_valid_moves(),
            forall|m: Ply|
                state.spec_valid_moves_for(state.to_play).contains(m) <==> state.can_move(
                    state.to_play,
                    m.from_tile,
                    m.to_tile,
                ),
            min_scan(state, plies@, 0, depth as nat, None) == min_scan(
                state,
                plies@,
                i as nat,
                depth as nat,
                match best {
                    Some(b) => Some((b.0, b.1@)),
                    None => None,
                },
            ),
        decreases plies@.len() - i,
    {
        let ply = plies[i];
        assert(state.spec_valid_moves_for(state.to_play).contains(ply));
        let follows = match state.to_play() {
            Player::White => true,
            Player::Black => {
                let mut probe = state;
                probe.pull_moving_piece(state.to_play(), ply.from_tile) == Species::Flat
            },
        };
        assert(follows == followed(state, ply));
        if follows {
            let mut copy = state;
            copy.apply_move(ply);
            let (score, mut game) = search_min(copy, depth - 1);
            game.push(ply);
            let better = match &best {
                Some(b) => score.0 < b.0.0,
                None => true,
            };
            if better {
                best = Some((score, game));
            }
        }
        i += 1;
    }
    match best {
        Some(found) => found,
        None => (Score::win_now(Player::White), Vec::new()),
    }
}

} // verus!
