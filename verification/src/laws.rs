//! What holds of the rules as a whole, proved from the contracts of the
//! functions.

use vstd::prelude::*;
use crate::bitboards::steps_to;
use crate::board::{in_bounds, on_board, Player, Species};
use crate::piecemap::{lemma_pull, lemma_put_at, lemma_without_at, PieceMap};
use crate::position::{black_at_setup, lemma_can_translate, lemma_valid_moves, Position};
use crate::ranking::lemma_best_is_unique;
use crate::score::{EvalResult, Score};
use crate::search::{is_ranking, scored_moves};
use crate::tile::{Ply, Tile};

verus! {

/// The coordinates of a cell sum to zero, lie on the board, and lead back
/// to the cell.
pub proof fn lemma_coordinates(t: Tile)
    requires
        t.wf(),
    ensures
        t.spec_x() + t.spec_y() + t.spec_z() == 0,
        in_bounds(t.spec_x(), t.spec_y(), t.spec_z()),
        Tile::spec_from_xyz(t.spec_x(), t.spec_y(), t.spec_z()) == Some(t),
{
}

/// Half a turn about the centre takes cells to cells, and taken twice it
/// takes each cell to itself.
pub proof fn lemma_antipode(t: Tile)
    requires
        t.wf(),
    ensures
        t.spec_antipode().wf(),
        t.spec_antipode().spec_antipode() == t,
        t.spec_antipode().spec_x() == -t.spec_x(),
        t.spec_antipode().spec_y() == -t.spec_y(),
{
}

impl Position {
    /// Whether the pieces of the two sides mirror each other through the
    /// centre of the board.
    pub open spec fn symmetric(self) -> bool {
        forall|i: int| #[trigger] self.white.spec_at(i) == self.black.spec_at(54 - i)
    }
}

/// In a position whose sides mirror each other, a move is legal for White
/// exactly where the mirrored move is legal for Black.
pub proof fn lemma_mirrored_moves(pos: Position, ply: Ply)
    requires
        pos.symmetric(),
        ply.from_tile.wf(),
        ply.to_tile.wf(),
    ensures
        pos.can_move(Player::White, ply.from_tile, ply.to_tile) <==> pos.can_move(
            Player::Black,
            ply.mirrored().from_tile,
            ply.mirrored().to_tile,
        ),
        pos.spec_valid_moves_for(Player::White).contains(ply) <==> pos.spec_valid_moves_for(
            Player::Black,
        ).contains(ply.mirrored()),
{
    let from = ply.from_tile;
    let to = ply.to_tile;
    let mfrom = from.spec_antipode();
    let mto = to.spec_antipode();
    assert(pos.white.spec_at(from.0 as int) == pos.black.spec_at(54 - from.0));
    assert(pos.white.spec_at(to.0 as int) == pos.black.spec_at(54 - to.0));
    assert(pos.white.spec_at(54 - to.0) == pos.black.spec_at(54 - (54 - to.0)));
    assert(pos.white.spec_at(54 - from.0) == pos.black.spec_at(54 - (54 - from.0)));
    assert(forall|sp: Species|
        steps_to(Player::White, sp, from.0 as int, to.0 as int) == steps_to(
            Player::Black,
            sp,
            mfrom.0 as int,
            mto.0 as int,
        ));
    lemma_valid_moves(pos, Player::White);
    lemma_valid_moves(pos, Player::Black);
}

/// A move captures exactly the pieces of the other side that stand, once
/// the piece has been carried over, on a cell which two pieces of the mover
/// threaten. A piece that one piece threatens stays.
pub proof fn lemma_capture(pos: Position, ply: Ply, c: int)
    requires
        pos.wf(),
        pos.can_move(pos.to_play, ply.from_tile, ply.to_tile),
    ensures
        pos.after(ply).to_play == pos.to_play.other(),
        pos.after(ply).spec_pieces(pos.to_play) == pos.translated(ply).spec_pieces(pos.to_play),
        pos.translated(ply).spec_pieces(pos.to_play.other()) == pos.spec_pieces(
            pos.to_play.other(),
        ),
        pos.after(ply).spec_pieces(pos.to_play.other()).spec_at(c) == if pos.translated(
            ply,
        ).attacked_twice(pos.to_play).contains(c) {
            None::<Species>
        } else {
            pos.spec_pieces(pos.to_play.other()).spec_at(c)
        },
{
    let mid = pos.translated(ply);
    let others = mid.spec_pieces(pos.to_play.other());
    let hit = mid.attacked_twice(pos.to_play);
    lemma_without_at(others, hit);
}

/// An upright piece that lands on a flat piece of its side makes a stack
/// and empties the cell from which it came, but for a flat piece on which
/// it rode. Picked up again from the stack, it leaves the flat piece alone.
pub proof fn lemma_stacking(pm: PieceMap, from: Tile, to: Tile)
    requires
        from.0 < 64,
        to.0 < 64,
        from != to,
        pm.spec_get(from) is Some,
        !(pm.spec_get(from) == Some(Species::Flat)),
        pm.spec_get(to) == Some(Species::Flat),
    ensures
        ({
            let piece = pm.spec_get(from).unwrap().lone();
            let moved = pm.spec_pull(from).spec_toss(to, piece);
            &&& piece matches Species::Lone(tall) && moved.spec_get(to) == Some(
                Species::Stack(tall),
            )
            &&& moved.spec_get(from) == if pm.spec_get(from).unwrap() is Stack {
                Some(Species::Flat)
            } else {
                None::<Species>
            }
            &&& moved.spec_get(to).unwrap().lone() == piece
            &&& moved.spec_pull(to).spec_get(to) == Some(Species::Flat)
        }),
{
    let piece = pm.spec_get(from).unwrap().lone();
    let pulled = pm.spec_pull(from);
    lemma_pull(pm, from);
    assert(pulled.spec_at(to.0 as int) == pm.spec_at(to.0 as int));
    let moved = pulled.spec_toss(to, piece);
    lemma_put_at(pulled, to.0 as int, Some(pulled.landed(to, piece)));
    assert(moved.spec_at(to.0 as int) == Some(pulled.landed(to, piece)));
    assert(moved.spec_at(from.0 as int) == pulled.spec_at(from.0 as int));
    lemma_pull(moved, to);
}

/// A flat piece of Black on White's home corner wins for Black, whatever
/// moves White has. Where no flat piece stands on a home corner of the
/// other side and the side to move has no legal move, the other side wins.
pub proof fn lemma_terminal(pos: Position)
    ensures
        pos.black.spec_get(Tile::spec_corner(Player::White)) == Some(Species::Flat)
            ==> pos.spec_is_won() == Some(Player::Black),
        pos.spec_is_won_home() is None && pos.spec_valid_moves().len() == 0 ==> pos.spec_is_won()
            == Some(pos.to_play.other()),
        pos.spec_is_won_home() is None && pos.spec_valid_moves().len() > 0 ==> pos.spec_is_won()
            is None,
{
}

/// Two runs of the ranking of the moves of one position, to one depth and
/// on one table, begin with the same score, whatever order each gave to
/// moves of equal score.
pub proof fn lemma_same_best_score(
    pos: Position,
    depth: usize,
    cache: Map<u64, (usize, Score)>,
    first: Seq<(Ply, EvalResult)>,
    second: Seq<(Ply, EvalResult)>,
)
    requires
        is_ranking(first, scored_moves(pos, depth, cache).0, pos.to_play),
        is_ranking(second, scored_moves(pos, depth, cache).0, pos.to_play),
    ensures
        first.len() == second.len(),
        first.len() > 0 ==> first[0].1.score == second[0].1.score,
{
    lemma_best_is_unique(first, second, pos.to_play);
}

/// The position from which the game begins has sides that mirror each
/// other, so that a move is legal for White there exactly where the
/// mirrored move is legal for Black.
pub proof fn lemma_setup_symmetry(pos: Position, ply: Ply)
    requires
        pos.is_setup(),
        ply.from_tile.wf(),
        ply.to_tile.wf(),
    ensures
        pos.symmetric(),
        pos.spec_valid_moves_for(Player::White).contains(ply) <==> pos.spec_valid_moves_for(
            Player::Black,
        ).contains(ply.mirrored()),
{
    assert forall|i: int| #[trigger] pos.white.spec_at(i) == pos.black.spec_at(54 - i) by {
        assert(pos.white.spec_at(i) == black_at_setup(54 - i));
        assert(pos.black.spec_at(54 - i) == black_at_setup(54 - i));
    }
    lemma_mirrored_moves(pos, ply);
}

/// No move lands on a piece of the other side, and none leaves the board:
/// pieces are taken by threat alone.
pub proof fn lemma_no_displacement(pos: Position, ply: Ply)
    requires
        pos.spec_valid_moves().contains(ply),
    ensures
        ply.from_tile.wf(),
        ply.to_tile.wf(),
        ply.from_tile != ply.to_tile,
        pos.spec_pieces(pos.to_play).spec_get(ply.from_tile) is Some,
        pos.spec_pieces(pos.to_play.other()).spec_get(ply.to_tile) is None,
{
    lemma_valid_moves(pos, pos.to_play);
    lemma_can_translate(pos, ply);
}

/// A legal move keeps the position sound: after it every piece stands on a
/// cell and no cell holds pieces of both sides.
pub proof fn lemma_moves_keep_soundness(pos: Position, ply: Ply)
    requires
        pos.wf(),
        pos.can_move(pos.to_play, ply.from_tile, ply.to_tile),
    ensures
        pos.after(ply).wf(),
{
    let own = pos.spec_pieces(pos.to_play);
    let others = pos.spec_pieces(pos.to_play.other());
    let piece = own.spec_get(ply.from_tile).unwrap().lone();
    let pulled = own.spec_pull(ply.from_tile);
    lemma_pull(own, ply.from_tile);
    lemma_put_at(pulled, ply.to_tile.0 as int, Some(pulled.landed(ply.to_tile, piece)));
    let moved = pulled.spec_toss(ply.to_tile, piece);
    let mid = pos.translated(ply);
    let hit = mid.attacked_twice(pos.to_play);
    lemma_without_at(others, hit);
    let rest = others.without(hit);
    let next = pos.after(ply);
    assert(next.spec_pieces(pos.to_play) == moved);
    assert(next.spec_pieces(pos.to_play.other()) == rest);
    assert forall|i: int| !on_board(i) implies #[trigger] moved.spec_at(i) is None by {
        assert(own.spec_at(i) is None);
        assert(pulled.spec_at(i) == own.spec_at(i));
    }
    assert forall|i: int| !on_board(i) implies #[trigger] rest.spec_at(i) is None by {
        assert(others.spec_at(i) is None);
    }
    assert forall|i: int| !(#[trigger] moved.spec_at(i) is Some && rest.spec_at(i) is Some) by {
        assert(!(pos.white.spec_at(i) is Some && pos.black.spec_at(i) is Some));
        assert(pulled.spec_at(i) is Some ==> own.spec_at(i) is Some);
        assert(rest.spec_at(i) is Some ==> others.spec_at(i) is Some);
    }
    assert forall|i: int|
        !(#[trigger] next.white.spec_at(i) is Some && next.black.spec_at(i) is Some) by {
        assert(!(moved.spec_at(i) is Some && rest.spec_at(i) is Some));
    }
}

} // verus!
