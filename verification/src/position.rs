//! A position of the game and its rules: which moves are legal, what a move
//! does, and when the game is won.

use std::collections::hash_map::DefaultHasher;
use std::hash::Hasher;
use vstd::bytes::{spec_u64_to_le_bytes, u64_to_le_bytes};
use vstd::prelude::*;
use vstd::std_specs::hash::DefaultHasherAdditionalSpecFns;
use crate::bitboards::{
    cells,
    cells_below,
    lemma_cells_below,
    lemma_cells_below_card,
    lemma_cells_below_len,
    lemma_cells_len,
    lemma_view_bounds,
    steps_to,
    BitSet,
    DoubleCounterBitset,
};
use crate::board::{in_bounds, on_board, Piece, Player, Species, Tall, BOARD_RADIUS};
use crate::piecemap::{lemma_entries, lemma_pull, lemma_put, PieceMap};
use crate::tile::{Ply, Tile};

verus! {

/// The pieces of both sides and the side that is to move.
#[derive(Clone, Copy, PartialEq, Eq, Structural, Debug)]
pub struct Position {
    pub to_play: Player,
    pub white: PieceMap,
    pub black: PieceMap,
}

/// What a move did besides moving the piece.
#[derive(Clone, Copy, PartialEq, Eq, Structural, Debug)]
pub struct MoveApplyReport {
    pub has_captured: bool,
}

impl Position {
    /// The pieces of a side.
    pub open spec fn spec_pieces(self, color: Player) -> PieceMap {
        match color {
            Player::White => self.white,
            Player::Black => self.black,
        }
    }

    /// Every piece stands on a cell, and no cell holds pieces of both sides.
    pub open spec fn wf(self) -> bool {
        &&& self.white.wf()
        &&& self.black.wf()
        &&& forall|i: int| !(#[trigger] self.white.spec_at(i) is Some && self.black.spec_at(i) is Some)
    }

    /// Whether the piece of `active` on `from` may move to `to`: the piece
    /// steps there, no piece of the other side stands there, and of the
    /// side's own pieces at most a flat one, on which only an upright piece
    /// may land.
    pub open spec fn can_move(self, active: Player, from: Tile, to: Tile) -> bool {
        let own = self.spec_pieces(active);
        let other = self.spec_pieces(active.other());
        &&& from.wf()
        &&& to.wf()
        &&& own.spec_get(from) is Some
        &&& steps_to(active, own.spec_get(from).unwrap(), from.0 as int, to.0 as int)
        &&& other.spec_get(to) is None
        &&& own.may_land(to, own.spec_get(from).unwrap().lone())
    }

    /// The positions to which the piece of `active` on `from` may move.
    pub open spec fn targets(self, active: Player, from: Tile) -> Set<int> {
        Set::new(|d: int| 0 <= d < 64 && self.can_move(active, from, Tile(d as u8)))
    }

    /// The moves of the piece of `active` on `from`, in ascending order of
    /// the codes of their destinations.
    pub open spec fn moves_from(self, active: Player, from: Tile) -> Seq<Ply> {
        let tiles = cells_below(self.targets(active, from), 64);
        Seq::new(tiles.len(), |j: int| Ply { from_tile: from, to_tile: tiles[j] })
    }

    /// The moves of the first `k` pieces of `active`, the pieces taken in
    /// ascending order of the codes of their cells.
    pub open spec fn moves_upto(self, active: Player, k: nat) -> Seq<Ply>
        decreases k,
    {
        if k == 0 {
            Seq::empty()
        } else {
            self.moves_upto(active, (k - 1) as nat) + self.moves_from(
                active,
                self.spec_pieces(active).spec_entries()[k - 1].0,
            )
        }
    }

    /// The legal moves of `active`, ordered by origin and then by
    /// destination.
    pub open spec fn spec_valid_moves_for(self, active: Player) -> Seq<Ply> {
        self.moves_upto(active, self.spec_pieces(active).spec_entries().len())
    }

    /// The legal moves of the side that is to move.
    pub open spec fn spec_valid_moves(self) -> Seq<Ply> {
        self.spec_valid_moves_for(self.to_play)
    }

    /// The pieces of a side.
    pub fn get_pieces(&self, color: Player) -> (r: &PieceMap)
        ensures
            *r == self.spec_pieces(color),
    {
        match color {
            Player::White => &self.white,
            Player::Black => &self.black,
        }
    }

    /// The side that is to move.
    pub fn to_play(&self) -> (r: Player)
        ensures
            r == self.to_play,
    {
        self.to_play
    }

    /// The legal moves of the side that is to move.
    pub fn valid_moves(&self) -> (r: Vec<Ply>)
        ensures
            r@ == self.spec_valid_moves(),
    {
        self.valid_moves_for(self.to_play)
    }

    /// The legal moves of `active`, whether or not it is to move.
    pub fn valid_moves_for(&self, active: Player) -> (r: Vec<Ply>)
        ensures
            r@ == self.spec_valid_moves_for(active),
    {
        let active_pieces = *self.get_pieces(active);
        let opponent_pieces = *self.get_pieces(active.flip());
        let opponent_free = opponent_pieces.occupied().complement();
        let viable_destinations_talls = opponent_free.intersection(
            active_pieces.viable_tall_destinations(),
        );
        let viable_destinations_flats = opponent_free.intersection(
            active_pieces.occupied().complement(),
        );
        let entries = active_pieces.into_iter();
        let mut out: Vec<Ply> = Vec::new();
        let mut k: usize = 0;
        proof {
            lemma_entries(active_pieces);
        }
        while k < entries.len()
            invariant
                k <= entries@.len(),
                active_pieces == self.spec_pieces(active),
                opponent_pieces == self.spec_pieces(active.other()),
                entries@ == active_pieces.spec_entries(),
                forall|j: int|
                    0 <= j < entries@.len() ==> {
                        let e = #[trigger] entries@[j];
                        e.0.wf() && active_pieces.spec_get(e.0) == Some(e.1)
                    },
                viable_destinations_talls@ == Set::new(
                    |i: int|
                        0 <= i < 64 && opponent_pieces.spec_at(i) is None && (
                        active_pieces.spec_at(i) is None || active_pieces.spec_at(i) == Some(
                            Species::Flat,
                        )),
                ),
                viable_destinations_flats@ == Set::new(
                    |i: int|
                        0 <= i < 64 && opponent_pieces.spec_at(i) is None
                            && active_pieces.spec_at(i) is None,
                ),
                out@ == self.moves_upto(active, k as nat),
            decreases entries@.len() - k,
        {
            let (from_tile, species) = entries[k];
            let reach = BitSet::move_destinations_from_tile(from_tile, active, species);
            let dests = reach.intersection(
                match species {
                    Species::Flat => viable_destinations_flats,
                    _ => viable_destinations_talls,
                },
            );
            proof {
                assert forall|d: int| dests@.contains(d) == self.targets(
                    active,
                    from_tile,
                ).contains(d) by {
                    if 0 <= d < 64 {
                        let to = Tile(d as u8);
                        assert(to.0 as int == d);
                    }
                }
                assert(dests@ =~= self.targets(active, from_tile));
            }
            let tiles = dests.into_iter();
            let ghost base = out@;
            let mut j: usize = 0;
            while j < tiles.len()
                invariant
                    j <= tiles@.len(),
                    tiles@ == cells_below(self.targets(active, from_tile), 64),
                    out@ == base + self.moves_from(active, from_tile).take(j as int),
                decreases tiles@.len() - j,
            {
                out.push(Ply { from_tile, to_tile: tiles[j] });
                proof {
                    let all = self.moves_from(active, from_tile);
                    assert(all.take(j + 1) =~= all.take(j as int).push(all[j as int]));
                    assert(out@ =~= base + all.take(j + 1));
                }
                j += 1;
            }
            proof {
                let all = self.moves_from(active, from_tile);
                assert(all.take(j as int) =~= all);
            }
            k += 1;
        }
        out
    }
}

impl Position {
    /// The cells to which the piece of `active` on `from_tile`, of the given
    /// species, may move.
    pub fn targets_from(&self, active: Player, from_tile: Tile, species: Species) -> (r: BitSet)
        requires
            from_tile.wf(),
            self.spec_pieces(active).spec_get(from_tile) == Some(species),
        ensures
            r@ == self.targets(active, from_tile),
    {
        let active_pieces = *self.get_pieces(active);
        let opponent_pieces = *self.get_pieces(active.flip());
        let opponent_free = opponent_pieces.occupied().complement();
        let viable = match species {
            Species::Flat => opponent_free.intersection(active_pieces.occupied().complement()),
            _ => opponent_free.intersection(active_pieces.viable_tall_destinations()),
        };
        let reach = BitSet::move_destinations_from_tile(from_tile, active, species);
        let dests = reach.intersection(viable);
        proof {
            assert forall|d: int| dests@.contains(d) == self.targets(active, from_tile).contains(
                d,
            ) by {
                if 0 <= d < 64 {
                    let to = Tile(d as u8);
                    assert(to.0 as int == d);
                }
            }
            assert(dests@ =~= self.targets(active, from_tile));
        }
        dests
    }
}

/// A piece has as many moves as it has cells to move to.
pub proof fn lemma_moves_from_len(pos: Position, active: Player, from: Tile)
    ensures
        pos.targets(active, from).subset_of(cells()),
        pos.targets(active, from).finite(),
        pos.moves_from(active, from).len() == pos.targets(active, from).len(),
        pos.moves_from(active, from).len() <= 29,
{
    let targets = pos.targets(active, from);
    assert forall|d: int| targets.contains(d) implies cells().contains(d) by {
        assert(Tile(d as u8).0 == d);
    }
    lemma_cells_len(targets);
    lemma_cells_below_card(targets, 64);
    assert(targets.intersect(cells()) =~= targets);
}

/// A side has at most 29 moves for each of its pieces, of which it has at
/// most 29.
pub proof fn lemma_moves_upto_len(pos: Position, active: Player, k: nat)
    requires
        k <= pos.spec_pieces(active).spec_entries().len(),
    ensures
        pos.moves_upto(active, k).len() <= 29 * k,
        pos.spec_pieces(active).spec_entries().len() <= 29,
    decreases k,
{
    lemma_cells_below_len(pos.spec_pieces(active).spec_occupied_mask()@);
    if k > 0 {
        lemma_moves_upto_len(pos, active, (k - 1) as nat);
        lemma_moves_from_len(pos, active, pos.spec_pieces(active).spec_entries()[k - 1].0);
    }
}

/// What is known of the legal moves: the list holds exactly the moves that
/// [`Position::can_move`] accepts, each once.
pub proof fn lemma_valid_moves(pos: Position, active: Player)
    ensures
        forall|ply: Ply|
            pos.spec_valid_moves_for(active).contains(ply) <==> pos.can_move(
                active,
                ply.from_tile,
                ply.to_tile,
            ),
        pos.spec_valid_moves_for(active).no_duplicates(),
{
    let entries = pos.spec_pieces(active).spec_entries();
    lemma_entries(pos.spec_pieces(active));
    lemma_moves_upto(pos, active, entries.len());
    let moves = pos.spec_valid_moves_for(active);
    assert forall|ply: Ply| pos.can_move(active, ply.from_tile, ply.to_tile) implies moves.contains(
        ply,
    ) by {
        let t = ply.from_tile;
        let k = choose|k: int|
            0 <= k < entries.len() && #[trigger] entries[k] == (
                t,
                pos.spec_pieces(active).spec_get(t).unwrap(),
            );
        assert(entries[k].0 == ply.from_tile);
    }
}

/// The moves of the first `k` pieces are the legal moves of those pieces,
/// each once.
proof fn lemma_moves_upto(pos: Position, active: Player, k: nat)
    requires
        k <= pos.spec_pieces(active).spec_entries().len(),
    ensures
        forall|ply: Ply|
            #[trigger] pos.moves_upto(active, k).contains(ply) <==> pos.can_move(
                active,
                ply.from_tile,
                ply.to_tile,
            ) && exists|j: int|
                0 <= j < k && (#[trigger] pos.spec_pieces(active).spec_entries()[j]).0
                    == ply.from_tile,
        pos.moves_upto(active, k).no_duplicates(),
    decreases k,
{
    let entries = pos.spec_pieces(active).spec_entries();
    lemma_entries(pos.spec_pieces(active));
    if k > 0 {
        lemma_moves_upto(pos, active, (k - 1) as nat);
        let prev = pos.moves_upto(active, (k - 1) as nat);
        let from = entries[k - 1].0;
        let here = pos.moves_from(active, from);
        let all = pos.moves_upto(active, k);
        lemma_moves_from(pos, active, from);
        assert(all == prev + here);
        assert forall|ply: Ply| #[trigger] all.contains(ply) implies pos.can_move(
            active,
            ply.from_tile,
            ply.to_tile,
        ) && exists|j: int| 0 <= j < k && (#[trigger] entries[j]).0 == ply.from_tile by {
            let i = choose|i: int| 0 <= i < all.len() && all[i] == ply;
            if i < prev.len() {
                assert(prev[i] == ply);
                assert(prev.contains(ply));
                let j = choose|j: int| 0 <= j < k - 1 && (#[trigger] entries[j]).0 == ply.from_tile;
                assert(0 <= j < k);
            } else {
                assert(here[i - prev.len()] == ply);
                assert(here.contains(ply));
                assert(entries[k - 1].0 == ply.from_tile);
            }
        }
        assert forall|ply: Ply|
            pos.can_move(active, ply.from_tile, ply.to_tile) && (exists|j: int|
                0 <= j < k && (#[trigger] entries[j]).0 == ply.from_tile) implies #[trigger] all.contains(
            ply,
        ) by {
            let j = choose|j: int| 0 <= j < k && (#[trigger] entries[j]).0 == ply.from_tile;
            if j < k - 1 {
                assert(prev.contains(ply));
                let i = choose|i: int| 0 <= i < prev.len() && prev[i] == ply;
                assert(all[i] == ply);
            } else {
                assert(here.contains(ply));
                let i = choose|i: int| 0 <= i < here.len() && here[i] == ply;
                assert(all[prev.len() + i] == ply);
            }
        }
        assert forall|a: int, b: int| 0 <= a < b < all.len() implies all[a] != all[b] by {
            if b < prev.len() {
            } else if a >= prev.len() {
                assert(here[a - prev.len()] != here[b - prev.len()]);
            } else {
                assert(prev.contains(all[a]));
                assert(here.contains(here[b - prev.len()]));
                let j = choose|j: int|
                    0 <= j < k - 1 && (#[trigger] entries[j]).0 == all[a].from_tile;
                assert(entries[j].0.0 < entries[k - 1].0.0);
            }
        }
    }
}

/// The moves from one cell are the legal moves from it, each once.
proof fn lemma_moves_from(pos: Position, active: Player, from: Tile)
    ensures
        forall|ply: Ply|
            #[trigger] pos.moves_from(active, from).contains(ply) <==> ply.from_tile == from
                && pos.can_move(active, from, ply.to_tile),
        pos.moves_from(active, from).no_duplicates(),
{
    let targets = pos.targets(active, from);
    let tiles = cells_below(targets, 64);
    let here = pos.moves_from(active, from);
    lemma_cells_below(targets, 64);
    assert forall|ply: Ply| #[trigger] here.contains(ply) implies ply.from_tile == from
        && pos.can_move(active, from, ply.to_tile) by {
        let i = choose|i: int| 0 <= i < here.len() && here[i] == ply;
        assert(targets.contains(tiles[i].0 as int));
    }
    assert forall|ply: Ply|
        ply.from_tile == from && pos.can_move(active, from, ply.to_tile) implies #[trigger] here.contains(
        ply,
    ) by {
        let to = ply.to_tile;
        assert(Tile(to.0 as int as u8) == to);
        assert(targets.contains(to.0 as int));
        assert(tiles.contains(to));
        let i = choose|i: int| 0 <= i < tiles.len() && tiles[i] == to;
        assert(here[i] == ply);
    }
    assert forall|a: int, b: int| 0 <= a < b < here.len() implies here[a] != here[b] by {
        assert(tiles[a].0 < tiles[b].0);
    }
}

impl Position {
    /// Whether a piece of `attacker` on position `from` threatens position
    /// `c`. A piece threatens the positions to which it steps.
    pub open spec fn attacks(self, attacker: Player, from: int, c: int) -> bool {
        &&& on_board(from)
        &&& self.spec_pieces(attacker).spec_at(from) is Some
        &&& steps_to(attacker, self.spec_pieces(attacker).spec_at(from).unwrap(), from, c)
    }

    /// The cells that at least two pieces of `attacker` threaten.
    pub open spec fn attacked_twice(self, attacker: Player) -> Set<int> {
        Set::new(
            |c: int|
                on_board(c) && exists|f: int, g: int|
                    f != g && #[trigger] self.attacks(attacker, f, c) && #[trigger] self.attacks(
                        attacker,
                        g,
                        c,
                    ),
        )
    }

    /// The position with the pieces of `color` replaced.
    pub open spec fn with_pieces(self, color: Player, pieces: PieceMap) -> Position {
        match color {
            Player::White => Position { white: pieces, ..self },
            Player::Black => Position { black: pieces, ..self },
        }
    }

    /// Whether the side to move may carry its piece from `ply.from_tile` to
    /// `ply.to_tile`, as far as its own pieces decide.
    pub open spec fn can_translate(self, ply: Ply) -> bool {
        let own = self.spec_pieces(self.to_play);
        &&& ply.from_tile.0 < 64
        &&& ply.to_tile.0 < 64
        &&& own.spec_get(ply.from_tile) is Some
        &&& own.spec_pull(ply.from_tile).may_land(
            ply.to_tile,
            own.spec_get(ply.from_tile).unwrap().lone(),
        )
    }

    /// The position once the moving piece has been carried over, before
    /// anything is captured.
    pub open spec fn translated(self, ply: Ply) -> Position {
        let own = self.spec_pieces(self.to_play);
        self.with_pieces(
            self.to_play,
            own.spec_pull(ply.from_tile).spec_toss(
                ply.to_tile,
                own.spec_get(ply.from_tile).unwrap().lone(),
            ),
        )
    }

    /// The position once `attacking` has taken every piece of the other side
    /// that stands on a cell which two of its pieces threaten.
    pub open spec fn scanned(self, attacking: Player) -> Position {
        self.with_pieces(
            attacking.other(),
            self.spec_pieces(attacking.other()).without(self.attacked_twice(attacking)),
        )
    }

    /// The position after the move: the piece is carried over, the mover
    /// captures, and the turn passes.
    pub open spec fn after(self, ply: Ply) -> Position {
        Position { to_play: self.to_play.other(), ..self.translated(ply).scanned(self.to_play) }
    }

    /// Whether the move captures a piece.
    pub open spec fn captures(self, ply: Ply) -> bool {
        let mid = self.translated(ply);
        exists|i: int|
            mid.attacked_twice(self.to_play).contains(i) && #[trigger] mid.spec_pieces(
                self.to_play.other(),
            ).spec_at(i) is Some
    }

    /// Picks up the piece of `color` that moves from the cell.
    pub fn pull_moving_piece(&mut self, color: Player, from_tile: Tile) -> (r: Species)
        requires
            from_tile.0 < 64,
            old(self).spec_pieces(color).spec_get(from_tile) is Some,
        ensures
            r == old(self).spec_pieces(color).spec_get(from_tile).unwrap().lone(),
            *final(self) == old(self).with_pieces(
                color,
                old(self).spec_pieces(color).spec_pull(from_tile),
            ),
    {
        match color {
            Player::White => self.white.pull_moving_piece(from_tile),
            Player::Black => self.black.pull_moving_piece(from_tile),
        }
    }

    /// The cells that at least two pieces of `attacking_player` threaten.
    pub fn double_attack_map(&self, attacking_player: Player) -> (r: BitSet)
        ensures
            r@ == self.attacked_twice(attacking_player),
    {
        let attacking_pieces = *self.get_pieces(attacking_player);
        let entries = attacking_pieces.into_iter();
        let mut double_attacks = DoubleCounterBitset::new();
        let mut k: usize = 0;
        proof {
            lemma_entries(attacking_pieces);
            assert(double_attacks.once() =~= self.attacked_by_first(attacking_player, 0));
            assert(double_attacks.twice() =~= self.attacked_twice_by_first(attacking_player, 0));
        }
        while k < entries.len()
            invariant
                k <= entries@.len(),
                attacking_pieces == self.spec_pieces(attacking_player),
                entries@ == attacking_pieces.spec_entries(),
                forall|j: int|
                    0 <= j < entries@.len() ==> {
                        let e = #[trigger] entries@[j];
                        e.0.wf() && attacking_pieces.spec_get(e.0) == Some(e.1)
                    },
                double_attacks.once() == self.attacked_by_first(attacking_player, k as int),
                double_attacks.twice() == self.attacked_twice_by_first(attacking_player, k as int),
            decreases entries@.len() - k,
        {
            let (t, species) = entries[k];
            let reach = BitSet::move_destinations_from_tile(t, attacking_player, species);
            let ghost once = double_attacks.once();
            let ghost twice = double_attacks.twice();
            double_attacks.add(reach);
            proof {
                let next_once = self.attacked_by_first(attacking_player, k + 1);
                let next_twice = self.attacked_twice_by_first(attacking_player, k + 1);
                assert forall|c: int| reach@.contains(c) == (on_board(c) && self.entry_attacks(
                    attacking_player,
                    k as int,
                    c,
                )) by {}
                assert forall|c: int| double_attacks.once().contains(c) == next_once.contains(
                    c,
                ) by {
                    if next_once.contains(c) {
                        let j = choose|j: int|
                            0 <= j < k + 1 && #[trigger] self.entry_attacks(attacking_player, j, c);
                        if j < k {
                            assert(once.contains(c));
                        }
                    }
                    if once.contains(c) {
                        let j = choose|j: int|
                            0 <= j < k && #[trigger] self.entry_attacks(attacking_player, j, c);
                        assert(0 <= j < k + 1);
                    }
                    if reach@.contains(c) {
                        assert(self.entry_attacks(attacking_player, k as int, c));
                    }
                }
                assert(double_attacks.once() =~= next_once);
                assert forall|c: int| double_attacks.twice().contains(c) == next_twice.contains(
                    c,
                ) by {
                    if next_twice.contains(c) {
                        let (i, j) = choose|i: int, j: int|
                            0 <= i < j < k + 1 && #[trigger] self.entry_attacks(
                                attacking_player,
                                i,
                                c,
                            ) && #[trigger] self.entry_attacks(attacking_player, j, c);
                        if j < k {
                            assert(twice.contains(c));
                        } else {
                            assert(once.contains(c));
                            assert(reach@.contains(c));
                        }
                    }
                    if twice.contains(c) {
                        let (i, j) = choose|i: int, j: int|
                            0 <= i < j < k && #[trigger] self.entry_attacks(attacking_player, i, c)
                                && #[trigger] self.entry_attacks(attacking_player, j, c);
                        assert(0 <= i < j < k + 1);
                    }
                    if once.contains(c) && reach@.contains(c) {
                        let i = choose|i: int|
                            0 <= i < k && #[trigger] self.entry_attacks(attacking_player, i, c);
                        assert(0 <= i < k < k + 1);
                        assert(self.entry_attacks(attacking_player, k as int, c));
                    }
                }
                assert(double_attacks.twice() =~= next_twice);
            }
            k += 1;
        }
        proof {
            lemma_attacked_twice(*self, attacking_player);
        }
        double_attacks.get_doubles()
    }

    /// Whether the `j`-th piece of `attacker`, in ascending order of the
    /// cells, threatens position `c`.
    pub open spec fn entry_attacks(self, attacker: Player, j: int, c: int) -> bool {
        let e = self.spec_pieces(attacker).spec_entries()[j];
        steps_to(attacker, e.1, e.0.0 as int, c)
    }

    /// The cells that one of the first `k` pieces of `attacker` threatens.
    pub open spec fn attacked_by_first(self, attacker: Player, k: int) -> Set<int> {
        Set::new(
            |c: int|
                on_board(c) && exists|j: int|
                    0 <= j < k && #[trigger] self.entry_attacks(attacker, j, c),
        )
    }

    /// The cells that two of the first `k` pieces of `attacker` threaten.
    pub open spec fn attacked_twice_by_first(self, attacker: Player, k: int) -> Set<int> {
        Set::new(
            |c: int|
                on_board(c) && exists|i: int, j: int|
                    0 <= i < j < k && #[trigger] self.entry_attacks(attacker, i, c)
                        && #[trigger] self.entry_attacks(attacker, j, c),
        )
    }
}

/// Two of all the pieces threaten a cell exactly where two distinct
/// positions hold pieces that threaten it.
proof fn lemma_attacked_twice(pos: Position, attacker: Player)
    ensures
        pos.attacked_twice_by_first(
            attacker,
            pos.spec_pieces(attacker).spec_entries().len() as int,
        ) == pos.attacked_twice(attacker),
{
    let pm = pos.spec_pieces(attacker);
    let entries = pm.spec_entries();
    let n = entries.len() as int;
    let lhs = pos.attacked_twice_by_first(attacker, n);
    let rhs = pos.attacked_twice(attacker);
    lemma_entries(pm);
    assert forall|c: int| lhs.contains(c) implies rhs.contains(c) by {
        let (i, j) = choose|i: int, j: int|
            0 <= i < j < n && #[trigger] pos.entry_attacks(attacker, i, c)
                && #[trigger] pos.entry_attacks(attacker, j, c);
        let f = entries[i].0.0 as int;
        let g = entries[j].0.0 as int;
        assert(entries[i].0.0 < entries[j].0.0);
        assert(pm.spec_get(entries[i].0) == Some(entries[i].1));
        assert(pm.spec_get(entries[j].0) == Some(entries[j].1));
        assert(pos.attacks(attacker, f, c) && pos.attacks(attacker, g, c));
    }
    assert forall|c: int| rhs.contains(c) implies lhs.contains(c) by {
        let (f, g) = choose|f: int, g: int|
            f != g && #[trigger] pos.attacks(attacker, f, c) && #[trigger] pos.attacks(
                attacker,
                g,
                c,
            );
        let tf = Tile(f as u8);
        let tg = Tile(g as u8);
        assert(tf.wf() && pm.spec_get(tf) is Some);
        assert(tg.wf() && pm.spec_get(tg) is Some);
        let i = choose|i: int|
            0 <= i < n && #[trigger] entries[i] == (tf, pm.spec_get(tf).unwrap());
        let j = choose|j: int|
            0 <= j < n && #[trigger] entries[j] == (tg, pm.spec_get(tg).unwrap());
        assert(pos.entry_attacks(attacker, i, c));
        assert(pos.entry_attacks(attacker, j, c));
        assert(i != j);
        if i < j {
            assert(0 <= i < j < n);
        } else {
            assert(0 <= j < i < n);
        }
    }
    assert(lhs =~= rhs);
}

impl Position {
    /// The winner by a flat piece on the other side's home corner, if there
    /// is one. Black's claim is looked at first.
    pub open spec fn spec_is_won_home(self) -> Option<Player> {
        if self.black.spec_get(Tile::spec_corner(Player::White)) == Some(Species::Flat) {
            Some(Player::Black)
        } else if self.white.spec_get(Tile::spec_corner(Player::Black)) == Some(Species::Flat) {
            Some(Player::White)
        } else {
            None
        }
    }

    /// The winner, if the game is over: the side with a flat piece on the
    /// other's home corner; failing that, the other side where the side to
    /// move has no legal move.
    pub open spec fn spec_is_won(self) -> Option<Player> {
        if self.spec_is_won_home() is Some {
            self.spec_is_won_home()
        } else if self.spec_valid_moves().len() == 0 {
            Some(self.to_play.other())
        } else {
            None
        }
    }

    /// The position with the cell repainted: emptied, and then given the
    /// piece of the brush, if there is one.
    pub open spec fn painted(self, location: Tile, brush: Option<Piece>) -> Position {
        Position {
            to_play: self.to_play,
            white: self.white.spec_put(
                location.0 as int,
                match brush {
                    Some(Piece { color: Player::White, species }) => Some(species),
                    _ => None,
                },
            ),
            black: self.black.spec_put(
                location.0 as int,
                match brush {
                    Some(Piece { color: Player::Black, species }) => Some(species),
                    _ => None,
                },
            ),
        }
    }

    /// Takes every piece of the other side that stands on a cell which two
    /// pieces of `attacking` threaten, and returns the pieces taken.
    pub fn stage_attack_scan(&mut self, attacking: Player) -> (r: PieceMap)
        ensures
            *final(self) == old(self).scanned(attacking),
            forall|i: int|
                #[trigger] r.spec_at(i) == if old(self).attacked_twice(attacking).contains(i) {
                    old(self).spec_pieces(attacking.other()).spec_at(i)
                } else {
                    None::<Species>
                },
            old(self).wf() ==> final(self).wf(),
    {
        let double_attacked_tiles = self.double_attack_map(attacking);
        match attacking {
            Player::White => self.black.kill(double_attacked_tiles),
            Player::Black => self.white.kill(double_attacked_tiles),
        }
    }

    /// Carries the piece of the side to move from one cell to the other.
    pub fn stage_translate(&mut self, ply: Ply)
        requires
            old(self).can_translate(ply),
        ensures
            *final(self) == old(self).translated(ply),
            old(self).wf() && old(self).can_move(old(self).to_play, ply.from_tile, ply.to_tile)
                ==> final(self).wf(),
    {
        let active = self.to_play;
        let moving_piece = self.pull_moving_piece(active, ply.from_tile);
        proof {
            lemma_pull(old(self).spec_pieces(active), ply.from_tile);
        }
        match active {
            Player::White => self.white.toss(ply.to_tile, moving_piece),
            Player::Black => self.black.toss(ply.to_tile, moving_piece),
        }
        proof {
            if old(self).wf() && old(self).can_move(active, ply.from_tile, ply.to_tile) {
                let own = old(self).spec_pieces(active);
                let pulled = own.spec_pull(ply.from_tile);
                assert forall|i: int| !on_board(i) implies #[trigger] pulled.spec_at(i) is None by {
                    assert(own.spec_at(i) is None);
                }
                assert(pulled.wf());
                assert forall|i: int|
                    !(#[trigger] self.white.spec_at(i) is Some && self.black.spec_at(
                        i,
                    ) is Some) by {
                    assert(!(old(self).white.spec_at(i) is Some && old(self).black.spec_at(
                        i,
                    ) is Some));
                    assert(pulled.spec_at(i) is Some ==> own.spec_at(i) is Some);
                }
            }
        }
    }

    /// Plays a legal move: carries the piece over, captures, and passes the
    /// turn.
    pub fn apply_move(&mut self, ply: Ply) -> (r: MoveApplyReport)
        requires
            old(self).wf(),
            old(self).can_move(old(self).to_play, ply.from_tile, ply.to_tile),
        ensures
            *final(self) == old(self).after(ply),
            r.has_captured == old(self).captures(ply),
            final(self).wf(),
    {
        proof {
            lemma_can_translate(*self, ply);
        }
        self.stage_translate(ply);
        let attacking_player = self.to_play;
        let ghost mid = *self;
        let kills = self.stage_attack_scan(attacking_player);
        let has_captured = kills.is_not_empty();
        proof {
            let hit = mid.attacked_twice(attacking_player);
            let others = mid.spec_pieces(attacking_player.other());
            if has_captured {
                let i = choose|i: int| #[trigger] kills.spec_at(i) is Some;
                assert(hit.contains(i) && others.spec_at(i) is Some);
            }
            if old(self).captures(ply) {
                let i = choose|i: int| hit.contains(i) && #[trigger] others.spec_at(i) is Some;
                assert(kills.spec_at(i) is Some);
            }
        }
        self.to_play = self.to_play.flip();
        MoveApplyReport { has_captured }
    }

    /// Empties the cell for both sides.
    pub fn clear_tile(&mut self, location: &Tile)
        requires
            location.0 < 64,
        ensures
            *final(self) == old(self).painted(*location, None),
            forall|i: int|
                i != location.0 ==> final(self).white.spec_at(i) == old(self).white.spec_at(i)
                    && final(self).black.spec_at(i) == old(self).black.spec_at(i),
            final(self).white.spec_get(*location) is None,
            final(self).black.spec_get(*location) is None,
            old(self).wf() ==> final(self).wf(),
    {
        self.white.clear_tile(*location);
        self.black.clear_tile(*location);
    }

    /// Repaints the cell: empties it, and puts the piece of the brush on it
    /// where there is one. No rule is looked at.
    pub fn paint(&mut self, location: &Tile, brush: Option<Piece>)
        requires
            location.0 < 64,
        ensures
            *final(self) == old(self).painted(*location, brush),
            old(self).wf() && location.wf() ==> final(self).wf(),
    {
        self.clear_tile(location);
        let ghost cleared = *self;
        if let Some(piece) = brush {
            match piece.color {
                Player::White => {
                    self.white.set(*location, piece.species);
                    proof {
                        assert forall|i: int|
                            #[trigger] self.white.spec_at(i) == if i == location.0 {
                                Some(piece.species)
                            } else {
                                old(self).white.spec_at(i)
                            } by {
                            if i != location.0 {
                                assert(cleared.white.spec_at(i) == old(self).white.spec_at(i));
                            }
                        }
                        lemma_put(
                            old(self).white,
                            location.0 as int,
                            Some(piece.species),
                            self.white,
                        );
                    }
                },
                Player::Black => {
                    self.black.set(*location, piece.species);
                    proof {
                        assert forall|i: int|
                            #[trigger] self.black.spec_at(i) == if i == location.0 {
                                Some(piece.species)
                            } else {
                                old(self).black.spec_at(i)
                            } by {
                            if i != location.0 {
                                assert(cleared.black.spec_at(i) == old(self).black.spec_at(i));
                            }
                        }
                        lemma_put(
                            old(self).black,
                            location.0 as int,
                            Some(piece.species),
                            self.black,
                        );
                    }
                },
            }
        }
        proof {
            if old(self).wf() && location.wf() {
                assert forall|i: int|
                    !(#[trigger] self.white.spec_at(i) is Some && self.black.spec_at(
                        i,
                    ) is Some) by {
                    if i != location.0 {
                        assert(cleared.white.spec_at(i) == old(self).white.spec_at(i));
                        assert(cleared.black.spec_at(i) == old(self).black.spec_at(i));
                        assert(!(old(self).white.spec_at(i) is Some && old(self).black.spec_at(
                            i,
                        ) is Some));
                    }
                }
            }
        }
    }

    /// Passes the turn without a move.
    pub fn flip_to_move(&mut self)
        ensures
            *final(self) == (Position { to_play: old(self).to_play.other(), ..*old(self) }),
    {
        self.to_play = self.to_play.flip();
    }

    /// The winner by a flat piece on the other side's home corner.
    pub fn is_won_home(&self) -> (r: Option<Player>)
        ensures
            r == self.spec_is_won_home(),
    {
        if let Some(species) = self.black.get(Tile::corner(Player::White)) {
            if species == Species::Flat {
                return Some(Player::Black);
            }
        }
        if let Some(species) = self.white.get(Tile::corner(Player::Black)) {
            if species == Species::Flat {
                return Some(Player::White);
            }
        }
        None
    }

    /// The winner, if the game is over.
    pub fn is_won(&self) -> (r: Option<Player>)
        ensures
            r == self.spec_is_won(),
    {
        if let Some(winner) = self.is_won_home() {
            return Some(winner);
        }
        if self.valid_moves().len() == 0 {
            return Some(self.to_play.flip());
        }
        None
    }
}

/// A legal move can be carried out.
pub proof fn lemma_can_translate(pos: Position, ply: Ply)
    requires
        pos.can_move(pos.to_play, ply.from_tile, ply.to_tile),
    ensures
        pos.can_translate(ply),
        ply.from_tile != ply.to_tile,
{
    let own = pos.spec_pieces(pos.to_play);
    let pulled = own.spec_pull(ply.from_tile);
    lemma_pull(own, ply.from_tile);
    assert(pulled.spec_at(ply.to_tile.0 as int) == own.spec_at(ply.to_tile.0 as int));
}

impl Position {
    /// The bytes that are hashed: the six planes, White's first and each in
    /// little-endian order, and one byte for the side to move.
    pub open spec fn hash_input(self) -> Seq<Seq<u8>> {
        seq![
            spec_u64_to_le_bytes(self.white.flats.0),
            spec_u64_to_le_bytes(self.white.tall0.0),
            spec_u64_to_le_bytes(self.white.tall1.0),
            spec_u64_to_le_bytes(self.black.flats.0),
            spec_u64_to_le_bytes(self.black.tall0.0),
            spec_u64_to_le_bytes(self.black.tall1.0),
            seq![
                match self.to_play {
                    Player::White => 0u8,
                    Player::Black => 1u8,
                },
            ],
        ]
    }

    /// The hash of the position: what the standard hasher makes of
    /// [`Position::hash_input`].
    pub open spec fn spec_hash(self) -> u64 {
        DefaultHasher::spec_finish(self.hash_input())
    }

    /// A hash of the pieces and the side to move.
    pub fn tabulation_hash(&self) -> (r: u64)
        ensures
            r == self.spec_hash(),
    {
        let mut s = DefaultHasher::new();
        s.write(u64_to_le_bytes(self.white.flats.0).as_slice());
        s.write(u64_to_le_bytes(self.white.tall0.0).as_slice());
        s.write(u64_to_le_bytes(self.white.tall1.0).as_slice());
        s.write(u64_to_le_bytes(self.black.flats.0).as_slice());
        s.write(u64_to_le_bytes(self.black.tall0.0).as_slice());
        s.write(u64_to_le_bytes(self.black.tall1.0).as_slice());
        let mut side: Vec<u8> = Vec::new();
        side.push(
            match self.to_play {
                Player::White => 0u8,
                Player::Black => 1u8,
            },
        );
        s.write(side.as_slice());
        assert(s@ =~~= self.hash_input());
        s.finish()
    }
}

/// What Black has on position `i` when the game begins.
pub open spec fn black_at_setup(i: int) -> Option<Species> {
    if i == 30 {
        Some(Species::Stack(Tall::Hand))
    } else if i == 41 {
        Some(Species::Stack(Tall::Star))
    } else if i == 29 || i == 18 {
        Some(Species::Stack(Tall::Blind))
    } else if i == 52 {
        Some(Species::Stack(Tall::Hand))
    } else if i == 6 {
        Some(Species::Flat)
    } else {
        None
    }
}

impl Position {
    /// Whether the position is the one from which the game begins: White
    /// to move, Black's six pieces about its home corner, and White's
    /// opposite to them through the centre.
    pub open spec fn is_setup(self) -> bool {
        &&& self.to_play == Player::White
        &&& forall|i: int| #[trigger] self.black.spec_at(i) == black_at_setup(i)
        &&& forall|i: int| #[trigger] self.white.spec_at(i) == black_at_setup(54 - i)
    }

    fn place(white: &mut PieceMap, black: &mut PieceMap, x: i8, y: i8, species: Species)
        requires
            in_bounds(x as int, y as int, -x - y),
            old(white).wf(),
            old(black).wf(),
        ensures
            final(white).wf(),
            final(black).wf(),
            forall|i: int|
                #[trigger] final(black).spec_at(i) == if i == Tile::at(x as int, y as int).0 {
                    Some(species)
                } else {
                    old(black).spec_at(i)
                },
            forall|i: int|
                #[trigger] final(white).spec_at(i) == if i == 54 - Tile::at(x as int, y as int).0 {
                    Some(species)
                } else {
                    old(white).spec_at(i)
                },
    {
        let t = Tile::from_xyz_unchecked(x, y, -x - y);
        black.set(t, species);
        white.set(t.antipode(), species);
    }

    /// The position from which the game begins.
    pub fn setup() -> (r: Position)
        ensures
            r.is_setup(),
            r.wf(),
    {
        let mut white_pieces = PieceMap::empty();
        let mut black_pieces = PieceMap::empty();
        let sbr: i8 = BOARD_RADIUS;
        Self::place(&mut white_pieces, &mut black_pieces, 0, sbr, Species::Stack(Tall::Hand));
        Self::place(&mut white_pieces, &mut black_pieces, 1, sbr - 1, Species::Stack(Tall::Star));
        Self::place(&mut white_pieces, &mut black_pieces, 0, sbr - 1, Species::Stack(Tall::Blind));
        Self::place(&mut white_pieces, &mut black_pieces, -1, sbr, Species::Stack(Tall::Blind));
        Self::place(&mut white_pieces, &mut black_pieces, 2, sbr - 2, Species::Stack(Tall::Hand));
        Self::place(&mut white_pieces, &mut black_pieces, -2, sbr, Species::Flat);
        let r = Position { to_play: Player::White, white: white_pieces, black: black_pieces };
        proof {
            assert forall|i: int| #[trigger] r.black.spec_at(i) == black_at_setup(i) by {}
            assert forall|i: int| #[trigger] r.white.spec_at(i) == black_at_setup(54 - i) by {}
        }
        r
    }

    /// How far a cell lies toward Black's side of the board.
    pub open spec fn hor(t: Tile) -> int {
        t.spec_x() + 2 * t.spec_y()
    }

    /// Whether White has a flat piece on the cell, alone or under a stack.
    pub open spec fn white_flat_on(self, t: Tile) -> bool {
        t.wf() && (self.white.spec_get(t) == Some(Species::Flat)
            || self.white.spec_get(t) matches Some(Species::Stack(_)))
    }

    /// How far White's foremost flat piece, alone or under a stack, has
    /// come toward Black's side.
    pub fn max_white_flat_hor(&self) -> (r: Option<i8>)
        ensures
            r is None <==> forall|t: Tile| !self.white_flat_on(t),
            r matches Some(m) ==> (exists|t: Tile| self.white_flat_on(t) && Position::hor(t) == m)
                && forall|t: Tile| self.white_flat_on(t) ==> Position::hor(t) <= m,
    {
        let entries = self.white.into_iter();
        let mut best: Option<i8> = None;
        let mut k: usize = 0;
        proof {
            lemma_entries(self.white);
        }
        while k < entries.len()
            invariant
                k <= entries@.len(),
                entries@ == self.white.spec_entries(),
                forall|j: int|
                    0 <= j < entries@.len() ==> {
                        let e = #[trigger] entries@[j];
                        e.0.wf() && self.white.spec_get(e.0) == Some(e.1)
                    },
                best is None <==> forall|j: int|
                    0 <= j < k ==> !self.white_flat_on((#[trigger] entries@[j]).0),
                best matches Some(m) ==> (exists|j: int|
                    0 <= j < k && self.white_flat_on((#[trigger] entries@[j]).0) && Position::hor(
                        entries@[j].0,
                    ) == m) && forall|j: int|
                    0 <= j < k && self.white_flat_on((#[trigger] entries@[j]).0) ==> Position::hor(
                        entries@[j].0,
                    ) <= m,
            decreases entries@.len() - k,
        {
            let (t, species) = entries[k];
            let counts = match species {
                Species::Flat | Species::Stack(..) => true,
                _ => false,
            };
            if counts {
                let here = t.x() + 2 * t.y();
                best = match best {
                    Some(m) => if here > m {
                        Some(here)
                    } else {
                        Some(m)
                    },
                    None => Some(here),
                };
            }
            k += 1;
        }
        proof {
            assert forall|t: Tile| self.white_flat_on(t) implies exists|j: int|
                0 <= j < entries@.len() && (#[trigger] entries@[j]).0 == t by {
                let j = choose|j: int|
                    0 <= j < entries@.len() && #[trigger] entries@[j] == (
                        t,
                        self.white.spec_get(t).unwrap(),
                    );
                assert(entries@[j].0 == t);
            }
        }
        best
    }
}

impl Position {
    /// Whether every piece stands on a cell and no cell holds pieces of both
    /// sides.
    pub fn is_sound(&self) -> (r: bool)
        ensures
            r == self.wf(),
    {
        let off_board = BitSet::board_mask().complement();
        let white = self.white.occupied();
        let black = self.black.occupied();
        let white_off = white.intersection(off_board).is_not_empty();
        let black_off = black.intersection(off_board).is_not_empty();
        let shared = white.intersection(black).is_not_empty();
        proof {
            lemma_view_bounds(white);
            lemma_view_bounds(black);
            if white_off {
                let i = choose|i: int| white@.intersect(off_board@).contains(i);
                assert(!on_board(i) && self.white.spec_at(i) is Some);
            } else {
                assert forall|i: int| !on_board(i) implies #[trigger] self.white.spec_at(
                    i,
                ) is None by {
                    if self.white.spec_at(i) is Some {
                        assert(white@.contains(i));
                        assert(white@.intersect(off_board@).contains(i));
                    }
                }
            }
            if black_off {
                let i = choose|i: int| black@.intersect(off_board@).contains(i);
                assert(!on_board(i) && self.black.spec_at(i) is Some);
            } else {
                assert forall|i: int| !on_board(i) implies #[trigger] self.black.spec_at(
                    i,
                ) is None by {
                    if self.black.spec_at(i) is Some {
                        assert(black@.contains(i));
                        assert(black@.intersect(off_board@).contains(i));
                    }
                }
            }
            if shared {
                let i = choose|i: int| white@.intersect(black@).contains(i);
                assert(self.white.spec_at(i) is Some && self.black.spec_at(i) is Some);
            } else {
                assert forall|i: int|
                    !(#[trigger] self.white.spec_at(i) is Some && self.black.spec_at(
                        i,
                    ) is Some) by {
                    if self.white.spec_at(i) is Some && self.black.spec_at(i) is Some {
                        assert(white@.intersect(black@).contains(i));
                    }
                }
            }
        }
        !white_off && !black_off && !shared
    }

    /// Whether the side to move may play the move.
    #[verifier::loop_isolation(false)]
    pub fn is_legal(&self, ply: Ply) -> (r: bool)
        ensures
            r == self.can_move(self.to_play, ply.from_tile, ply.to_tile),
    {
        let moves = self.valid_moves();
        proof {
            lemma_valid_moves(*self, self.to_play);
        }
        let mut k: usize = 0;
        while k < moves.len()
            invariant
                k <= moves@.len(),
                forall|j: int| 0 <= j < k ==> moves@[j] != ply,
            decreases moves@.len() - k,
        {
            if moves[k] == ply {
                assert(moves@.contains(ply));
                return true;
            }
            k += 1;
        }
        proof {
            if moves@.contains(ply) {
                let j = choose|j: int| 0 <= j < moves@.len() && moves@[j] == ply;
                assert(moves@[j] != ply);
            }
        }
        false
    }
}

} // verus!
