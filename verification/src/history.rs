//! The record of a move, as a list of moves shows it.

use vstd::prelude::*;
use crate::bitboards::lemma_cells_below_len;
use crate::board::{tally, Captured, Player, PlayerMap, Species, Tall};
use crate::notation::{string_of, tile_label};
use crate::piecemap::{lemma_entries, lemma_without, PieceMap};
use crate::position::{lemma_can_translate, lemma_valid_moves, Position};
use crate::tile::{Ply, Tile};

verus! {

/// A move with the positions before and after it and what it took.
#[derive(Clone, Debug)]
pub struct HistoryEntry {
    pub state_before: Position,
    pub state_after: Position,
    pub ply: Ply,
    /// The piece that moved: of a stack the upright piece.
    pub moved_piece: Species,
    /// Whether another piece of the same species could have moved to the
    /// same cell, so that the move must be written with its origin.
    pub disambiguate: bool,
    /// The pieces taken, with the cells on which they stood.
    pub kills: Vec<(Tile, Species)>,
    /// What each side has taken so far, this move counted.
    pub captured_after: PlayerMap<Captured>,
}

/// The species of a list of pieces on cells.
pub open spec fn species_of_entries(entries: Seq<(Tile, Species)>) -> Seq<Species> {
    Seq::new(entries.len(), |i: int| entries[i].1)
}

/// The letter that stands for a piece in a written move.
pub open spec fn piece_letter(moved: Species) -> char {
    match moved {
        Species::Flat => 'F',
        Species::Lone(Tall::Blind) => 'B',
        Species::Lone(Tall::Hand) => 'A',
        Species::Lone(Tall::Star) => 'S',
        Species::Stack(_) => '?',
    }
}

impl Position {
    /// The piece that a move carries.
    pub open spec fn spec_moved_piece(self, ply: Ply) -> Species {
        self.spec_pieces(self.to_play).spec_get(ply.from_tile).unwrap().lone()
    }

    /// The pieces that a move takes.
    pub open spec fn spec_killed(self, ply: Ply) -> PieceMap {
        let mid = self.translated(ply);
        let hit = mid.attacked_twice(self.to_play);
        mid.spec_pieces(self.to_play.other()).without(Set::new(|i: int| !hit.contains(i)))
    }

    /// Whether `m` is a move of a piece like the one that `ply` carries, to
    /// the same cell.
    pub open spec fn is_rival(self, ply: Ply, m: Ply) -> bool {
        m.to_tile == ply.to_tile && self.spec_pieces(self.to_play).spec_get(
            m.from_tile,
        ).unwrap().lone() == self.spec_moved_piece(ply)
    }

    /// Number of rivals of `ply` among the first `n` legal moves, `ply`
    /// itself counted.
    pub open spec fn rivals_upto(self, ply: Ply, n: nat) -> nat
        decreases n,
    {
        if n == 0 {
            0
        } else {
            self.rivals_upto(ply, (n - 1) as nat) + if self.is_rival(
                ply,
                self.spec_valid_moves()[n - 1],
            ) {
                1nat
            } else {
                0nat
            }
        }
    }

    /// Whether another piece of the species that `ply` carries may move to
    /// the same cell.
    pub open spec fn ambiguous(self, ply: Ply) -> bool {
        exists|other: Tile|
            other != ply.from_tile && #[trigger] self.can_move(self.to_play, other, ply.to_tile)
                && self.spec_pieces(self.to_play).spec_get(other).unwrap().lone()
                == self.spec_moved_piece(ply)
    }

    /// The record of a legal move from this position. `captured_before`
    /// says what each side had taken before the move.
    pub fn compute_history_entry(&self, ply: Ply, captured_before: PlayerMap<Captured>) -> (e:
        HistoryEntry)
        requires
            self.wf(),
            self.can_move(self.to_play, ply.from_tile, ply.to_tile),
            self.spec_captures_fit(ply, captured_before.spec_index(self.to_play)),
        ensures
            e.state_before == *self,
            e.state_after == self.after(ply),
            e.ply == ply,
            e.moved_piece == self.spec_moved_piece(ply),
            e.disambiguate == self.ambiguous(ply),
            e.kills@ == self.spec_killed(ply).spec_entries(),
            e.captured_after.spec_index(self.to_play.other()) == captured_before.spec_index(
                self.to_play.other(),
            ),
            e.captured_after.spec_index(self.to_play)@.len() == 7,
            forall|c: int|
                0 <= c < 7 ==> e.captured_after.spec_index(self.to_play)@[c]
                    == captured_before.spec_index(self.to_play)@[c] + #[trigger] tally(
                    species_of_entries(e.kills@),
                    c,
                    e.kills@.len(),
                ),
    {
        let state_before = *self;
        let active = state_before.to_play();
        let moves = state_before.valid_moves();
        let own = *self.get_pieces(active);
        proof {
            lemma_can_translate(*self, ply);
            lemma_valid_moves(*self, active);
        }
        let mut probe = state_before;
        let moved_piece = probe.pull_moving_piece(active, ply.from_tile);
        let mut state_simulate_kills = state_before;
        state_simulate_kills.stage_translate(ply);
        let ghost mid = state_simulate_kills;
        let killmap = state_simulate_kills.stage_attack_scan(active);
        proof {
            let hit = mid.attacked_twice(active);
            lemma_without(
                mid.spec_pieces(active.other()),
                Set::new(|i: int| !hit.contains(i)),
                killmap,
            );
        }
        let kills = killmap.into_iter();
        let mut kill_species: Vec<Species> = Vec::new();
        let mut k: usize = 0;
        while k < kills.len()
            invariant
                k <= kills@.len(),
                kill_species@.len() == k,
                forall|j: int| 0 <= j < k ==> #[trigger] kill_species@[j] == kills@[j].1,
            decreases kills@.len() - k,
        {
            kill_species.push(kills[k].1);
            k += 1;
        }
        assert(kill_species@ =~= species_of_entries(kills@));
        assert(killmap == self.spec_killed(ply));
        assert forall|c: int| 0 <= c < 7 implies captured_before.spec_index(active)@[c]
            + #[trigger] tally(kill_species@, c, kill_species@.len()) <= u8::MAX by {
            assert(captured_before.spec_index(self.to_play)@[c] + tally(
                species_of_entries(self.spec_killed(ply).spec_entries()),
                c,
                self.spec_killed(ply).spec_entries().len(),
            ) <= u8::MAX);
        }
        let mut captured_after = captured_before;
        match active {
            Player::White => captured_after.white.extend(&kill_species),
            Player::Black => captured_after.black.extend(&kill_species),
        }
        let mut count: usize = 0;
        let mut i: usize = 0;
        while i < moves.len()
            invariant
                i <= moves@.len(),
                moves@ == self.spec_valid_moves(),
                own == self.spec_pieces(self.to_play),
                active == self.to_play,
                moved_piece == self.spec_moved_piece(ply),
                forall|m: Ply|
                    self.spec_valid_moves_for(active).contains(m) <==> self.can_move(
                        active,
                        m.from_tile,
                        m.to_tile,
                    ),
                count == self.rivals_upto(ply, i as nat),
                count <= i,
            decreases moves@.len() - i,
        {
            let av = moves[i];
            assert(self.spec_valid_moves_for(active).contains(av));
            if av.to_tile == ply.to_tile {
                match own.get(av.from_tile) {
                    Some(species) => {
                        if species.to_lone() == moved_piece {
                            count += 1;
                        }
                    },
                    None => {},
                }
            }
            i += 1;
        }
        proof {
            lemma_rivals(*self, ply);
        }
        let disambiguate = count >= 2;
        let mut state_after = state_before;
        state_after.apply_move(ply);
        HistoryEntry {
            ply,
            state_before,
            state_after,
            moved_piece,
            disambiguate,
            kills,
            captured_after,
        }
    }
}

/// Whether one, and whether two, of the first `n` legal moves are rivals of
/// `ply`.
proof fn lemma_rivals_upto(pos: Position, ply: Ply, n: nat)
    requires
        n <= pos.spec_valid_moves().len(),
    ensures
        pos.rivals_upto(ply, n) >= 1 <==> exists|i: int|
            0 <= i < n && pos.is_rival(ply, #[trigger] pos.spec_valid_moves()[i]),
        pos.rivals_upto(ply, n) >= 2 <==> exists|i: int, j: int|
            0 <= i < j < n && pos.is_rival(ply, #[trigger] pos.spec_valid_moves()[i])
                && pos.is_rival(ply, #[trigger] pos.spec_valid_moves()[j]),
    decreases n,
{
    let moves = pos.spec_valid_moves();
    if n > 0 {
        lemma_rivals_upto(pos, ply, (n - 1) as nat);
        let prev = pos.rivals_upto(ply, (n - 1) as nat);
        let last = pos.is_rival(ply, moves[n - 1]);
        if pos.rivals_upto(ply, n) >= 1 {
            if last {
                assert(pos.is_rival(ply, moves[n - 1]));
            } else {
                let i = choose|i: int| 0 <= i < n - 1 && pos.is_rival(ply, #[trigger] moves[i]);
                assert(0 <= i < n);
            }
        }
        if exists|i: int| 0 <= i < n && pos.is_rival(ply, #[trigger] moves[i]) {
            let i = choose|i: int| 0 <= i < n && pos.is_rival(ply, #[trigger] moves[i]);
            if i < n - 1 {
                assert(prev >= 1);
            }
        }
        if pos.rivals_upto(ply, n) >= 2 {
            if prev >= 2 {
                let (i, j) = choose|i: int, j: int|
                    0 <= i < j < n - 1 && pos.is_rival(ply, #[trigger] moves[i]) && pos.is_rival(
                        ply,
                        #[trigger] moves[j],
                    );
                assert(0 <= i < j < n);
            } else {
                assert(last && prev >= 1);
                let i = choose|i: int| 0 <= i < n - 1 && pos.is_rival(ply, #[trigger] moves[i]);
                assert(0 <= i < n - 1 < n && pos.is_rival(ply, moves[n - 1]));
            }
        }
        if exists|i: int, j: int|
            0 <= i < j < n && pos.is_rival(ply, #[trigger] moves[i]) && pos.is_rival(
                ply,
                #[trigger] moves[j],
            ) {
            let (i, j) = choose|i: int, j: int|
                0 <= i < j < n && pos.is_rival(ply, #[trigger] moves[i]) && pos.is_rival(
                    ply,
                    #[trigger] moves[j],
                );
            if j < n - 1 {
                assert(prev >= 2);
            } else {
                assert(0 <= i < n - 1);
                assert(prev >= 1);
            }
        }
    }
}

/// A legal move has two rivals, itself counted, exactly where another piece
/// of its species may move to the same cell.
proof fn lemma_rivals(pos: Position, ply: Ply)
    requires
        pos.can_move(pos.to_play, ply.from_tile, ply.to_tile),
    ensures
        pos.rivals_upto(ply, pos.spec_valid_moves().len()) >= 2 <==> pos.ambiguous(ply),
{
    let moves = pos.spec_valid_moves();
    let n = moves.len();
    lemma_rivals_upto(pos, ply, n);
    lemma_valid_moves(pos, pos.to_play);
    assert(moves.contains(ply));
    let p = choose|p: int| 0 <= p < n && moves[p] == ply;
    if pos.rivals_upto(ply, n) >= 2 {
        let (i, j) = choose|i: int, j: int|
            0 <= i < j < n && pos.is_rival(ply, #[trigger] moves[i]) && pos.is_rival(
                ply,
                #[trigger] moves[j],
            );
        let q = if i == p {
            j
        } else {
            i
        };
        assert(moves[q] != ply);
        assert(moves.contains(moves[q]));
        assert(pos.can_move(pos.to_play, moves[q].from_tile, ply.to_tile));
    }
    if pos.ambiguous(ply) {
        let other = choose|other: Tile|
            other != ply.from_tile && #[trigger] pos.can_move(pos.to_play, other, ply.to_tile)
                && pos.spec_pieces(pos.to_play).spec_get(other).unwrap().lone()
                == pos.spec_moved_piece(ply);
        let m = Ply { from_tile: other, to_tile: ply.to_tile };
        assert(moves.contains(m));
        let q = choose|q: int| 0 <= q < n && moves[q] == m;
        assert(pos.is_rival(ply, moves[q]));
        assert(pos.is_rival(ply, moves[p]));
        if p < q {
            assert(0 <= p < q < n);
        } else {
            assert(0 <= q < p < n);
        }
    }
}

impl HistoryEntry {
    /// The characters of the written move: the letter of the piece, the
    /// destination, with the origin before it where the move is ambiguous,
    /// and a star for each piece taken.
    pub open spec fn spec_label(self) -> Seq<char> {
        seq![piece_letter(self.moved_piece)] + (if self.disambiguate {
            tile_label(self.ply.from_tile)
        } else {
            Seq::<char>::empty()
        }) + tile_label(self.ply.to_tile) + Seq::new(self.kills@.len(), |i: int| '*')
    }

    /// The written move.
    pub fn to_string(&self) -> (r: String)
        requires
            self.ply.from_tile.wf(),
            self.ply.to_tile.wf(),
        ensures
            r@ == self.spec_label(),
    {
        let mut chars: Vec<char> = Vec::new();
        chars.push(
            match self.moved_piece {
                Species::Flat => 'F',
                Species::Lone(tall) => match tall {
                    Tall::Blind => 'B',
                    Tall::Hand => 'A',
                    Tall::Star => 'S',
                },
                Species::Stack(..) => '?',
            },
        );
        if self.disambiguate {
            let mut from = self.ply.from_tile.label();
            chars.append(&mut from);
        }
        let mut to = self.ply.to_tile.label();
        chars.append(&mut to);
        let ghost head = chars@;
        let mut k: usize = 0;
        while k < self.kills.len()
            invariant
                k <= self.kills@.len(),
                chars@ == head + Seq::new(k as nat, |i: int| '*'),
            decreases self.kills@.len() - k,
        {
            chars.push('*');
            assert(chars@ =~= head + Seq::new((k + 1) as nat, |i: int| '*'));
            k += 1;
        }
        assert(chars@ =~= self.spec_label());
        string_of(&chars)
    }
}

impl Position {
    /// Whether the counts of `captured` have room for the pieces that the
    /// move takes.
    pub open spec fn spec_captures_fit(self, ply: Ply, captured: Captured) -> bool {
        forall|c: int|
            0 <= c < 7 ==> captured@[c] + #[trigger] tally(
                species_of_entries(self.spec_killed(ply).spec_entries()),
                c,
                self.spec_killed(ply).spec_entries().len(),
            ) <= u8::MAX
    }

    /// Whether the counts of `captured` have room for the pieces that the
    /// legal move `ply` takes.
    #[verifier::loop_isolation(false)]
    pub fn captures_fit(&self, ply: Ply, captured: &Captured) -> (r: bool)
        requires
            self.wf(),
            self.can_move(self.to_play, ply.from_tile, ply.to_tile),
        ensures
            r == self.spec_captures_fit(ply, *captured),
    {
        proof {
            lemma_can_translate(*self, ply);
        }
        let mut simulated = *self;
        simulated.stage_translate(ply);
        let ghost mid = simulated;
        let killmap = simulated.stage_attack_scan(self.to_play);
        proof {
            let hit = mid.attacked_twice(self.to_play);
            lemma_without(
                mid.spec_pieces(self.to_play.other()),
                Set::new(|i: int| !hit.contains(i)),
                killmap,
            );
            lemma_entries(killmap);
            lemma_cells_below_len(killmap.spec_occupied_mask()@);
        }
        let kills = killmap.into_iter();
        let ghost species = species_of_entries(kills@);
        assert(killmap == self.spec_killed(ply));
        let mut extra: [u8; 7] = [0, 0, 0, 0, 0, 0, 0];
        let mut k: usize = 0;
        while k < kills.len()
            invariant
                k <= kills@.len(),
                kills@.len() <= 29,
                species == species_of_entries(kills@),
                forall|c: int| 0 <= c < 7 ==> #[trigger] extra@[c] == tally(species, c, k as nat),
                forall|c: int| 0 <= c < 7 ==> #[trigger] extra@[c] <= k,
            decreases kills@.len() - k,
        {
            let code = kills[k].1.code() as usize;
            let ghost before = extra@;
            let count = extra[code];
            extra[code] = count + 1;
            proof {
                assert forall|c: int| 0 <= c < 7 implies #[trigger] extra@[c] == tally(
                    species,
                    c,
                    (k + 1) as nat,
                ) by {
                    assert(before[c] == tally(species, c, k as nat));
                    assert(species[k as int] == kills@[k as int].1);
                }
                assert forall|c: int| 0 <= c < 7 implies #[trigger] extra@[c] <= k + 1 by {
                    assert(before[c] <= k);
                }
            }
            k += 1;
        }
        let mut fits = true;
        let mut c: usize = 0;
        while c < 7
            invariant
                c <= 7,
                k == kills@.len(),
                forall|d: int|
                    0 <= d < 7 ==> #[trigger] extra@[d] == tally(species, d, kills@.len()),
                fits == forall|d: int|
                    0 <= d < c ==> captured@[d] + #[trigger] tally(species, d, kills@.len())
                        <= u8::MAX,
            decreases 7 - c,
        {
            let total: u16 = captured.0[c] as u16 + extra[c] as u16;
            proof {
                assert(extra@[c as int] == tally(species, c as int, kills@.len()));
            }
            if total > 255 {
                fits = false;
            }
            c += 1;
        }
        fits
    }
}

} // verus!
