//! The static estimate of a position.

use vstd::prelude::*;
use vstd::set_lib::lemma_set_disjoint_lens;
use crate::bitboards::{cells, destinations, lemma_cells_len, BitSet};
use crate::board::{Player, Species};
use crate::piecemap::{lemma_entries, lemma_without, PieceMap};
use crate::position::{lemma_moves_from_len, lemma_moves_upto_len, Position};
use crate::score::Score;
use crate::tile::Tile;

verus! {

/// The distance that stands for "no flat piece comes through".
pub const MAX_FLAT_DIST: u8 = 8;

/// The farthest distance that is looked for.
pub const FLAT_HORIZON: u8 = 5;

/// What the side to move gets for having the move, in tenths.
pub const TEMPO_BONUS: i32 = 5;

/// Worth of the pieces of a map: each species' worth times the number of
/// cells that hold it, summed over the first `n` species.
pub open spec fn material_upto(pm: PieceMap, n: nat) -> int
    decreases n,
{
    if n == 0 {
        0
    } else {
        material_upto(pm, (n - 1) as nat) + Species::all()[n - 1].spec_value() * pm.located(
            Species::all()[n - 1],
        ).len()
    }
}

/// The positions that hold one of the first `n` species.
pub open spec fn located_upto(pm: PieceMap, n: nat) -> Set<int> {
    Set::new(|i: int| exists|k: int| 0 <= k < n && pm.spec_at(i) == Some(#[trigger] Species::all()[k]))
}

proof fn lemma_material_upto(pm: PieceMap, n: nat)
    requires
        pm.wf(),
        n <= 7,
    ensures
        located_upto(pm, n).subset_of(cells()),
        located_upto(pm, n).finite(),
        0 <= material_upto(pm, n) <= 48 * located_upto(pm, n).len(),
    decreases n,
{
    let u = located_upto(pm, n);
    assert forall|i: int| u.contains(i) implies cells().contains(i) by {
        assert(pm.spec_at(i) is Some);
    }
    lemma_cells_len(u);
    if n == 0 {
    } else {
        lemma_material_upto(pm, (n - 1) as nat);
        let prev = located_upto(pm, (n - 1) as nat);
        let s = Species::all()[n - 1];
        let here = pm.located(s);
        assert forall|i: int| here.contains(i) implies cells().contains(i) by {
            assert(pm.spec_at(i) is Some);
        }
        lemma_cells_len(here);
        assert(prev.disjoint(here)) by {
            assert forall|i: int| !(prev.contains(i) && here.contains(i)) by {
                if prev.contains(i) {
                    let k = choose|k: int|
                        0 <= k < n - 1 && pm.spec_at(i) == Some(#[trigger] Species::all()[k]);
                    assert(Species::all()[k] != s);
                }
            }
        }
        assert(u =~= prev + here) by {
            assert forall|i: int| u.contains(i) == (prev + here).contains(i) by {
                if u.contains(i) {
                    let k = choose|k: int|
                        0 <= k < n && pm.spec_at(i) == Some(#[trigger] Species::all()[k]);
                    if k < n - 1 {
                        assert(prev.contains(i));
                    }
                }
                if prev.contains(i) {
                    let k = choose|k: int|
                        0 <= k < n - 1 && pm.spec_at(i) == Some(#[trigger] Species::all()[k]);
                    assert(0 <= k < n);
                }
                if here.contains(i) {
                    assert(pm.spec_at(i) == Some(Species::all()[n - 1]));
                }
            }
        }
        lemma_set_disjoint_lens(prev, here);
        assert(0 <= s.spec_value() <= 48);
        assert(s.spec_value() * here.len() <= 48 * here.len()) by (nonlinear_arith)
            requires
                0 <= s.spec_value() <= 48,
                0 <= here.len(),
        ;
        assert(0 <= s.spec_value() * here.len()) by (nonlinear_arith)
            requires
                0 <= s.spec_value(),
                0 <= here.len(),
        ;
    }
}

/// The pieces of a side are worth between nothing and 29 times the dearest.
pub proof fn lemma_material_bound(pm: PieceMap)
    requires
        pm.wf(),
    ensures
        0 <= material_upto(pm, 7) <= 1392,
{
    lemma_material_upto(pm, 7);
    lemma_cells_len(located_upto(pm, 7));
}

impl Position {
    /// Number of legal moves that `color` has, or would have if it were
    /// to move.
    pub open spec fn spec_mobility(self, color: Player) -> nat {
        self.spec_valid_moves_for(color).len()
    }

    /// Worth of the pieces of `color` that the other side does not threaten
    /// twice, in tenths.
    pub open spec fn spec_material(self, color: Player) -> int {
        material_upto(
            self.spec_pieces(color).without(self.attacked_twice(color.other())),
            7,
        )
    }

    /// The positions through which a flat piece of `player` may pass on its
    /// way to the other side's home corner: those that hold no piece of the
    /// other side, and the corner itself.
    pub open spec fn walkable(self, player: Player) -> Set<int> {
        Set::new(
            |i: int|
                0 <= i < 64 && (self.spec_pieces(player.other()).spec_at(i) is None || i
                    == Tile::spec_corner(player.other()).0),
        )
    }

    /// The positions that the flat pieces of `player` have reached when the
    /// two fronts are compared for the `d`-th time. The flat pieces advance
    /// after each even comparison.
    pub open spec fn flat_front(self, player: Player, d: nat) -> Set<int>
        decreases d,
    {
        if d == 0 {
            self.spec_pieces(player).located(Species::Flat)
        } else if (d - 1) % 2 == 0 {
            destinations(self.flat_front(player, (d - 1) as nat), player, Species::Flat).intersect(
                self.walkable(player),
            )
        } else {
            self.flat_front(player, (d - 1) as nat)
        }
    }

    /// The positions from which the other side's home corner is reached, as
    /// far as the search back from the corner has come when the two fronts
    /// are compared for the `d`-th time. It goes back after each odd
    /// comparison.
    pub open spec fn house_front(self, player: Player, d: nat) -> Set<int>
        decreases d,
    {
        if d == 0 {
            set![Tile::spec_corner(player.other()).0 as int]
        } else if (d - 1) % 2 == 1 {
            destinations(
                self.house_front(player, (d - 1) as nat),
                player.other(),
                Species::Flat,
            ).intersect(self.walkable(player))
        } else {
            self.house_front(player, (d - 1) as nat)
        }
    }

    /// The first comparison from the `d`-th on at which the two fronts
    /// meet; [`MAX_FLAT_DIST`] where they do not meet within the horizon.
    pub open spec fn first_meeting(self, player: Player, d: nat) -> int
        decreases 6 - d,
    {
        if d > 5 {
            8
        } else if !self.flat_front(player, d).disjoint(self.house_front(player, d)) {
            d as int
        } else {
            self.first_meeting(player, d + 1)
        }
    }

    /// Number of steps that a lone flat piece of `player` needs to the other
    /// side's home corner, as far as the horizon shows it.
    pub open spec fn spec_passed_flat_distance(self, player: Player) -> int {
        if self.spec_pieces(player).located(Species::Flat) == Set::<int>::empty() {
            8
        } else {
            self.first_meeting(player, 0)
        }
    }

    /// What a distance of a flat piece to the corner is worth, in tenths.
    /// The side to move gets more for the same distance.
    pub open spec fn spec_passed_flat_score(self, player: Player) -> int {
        let distance = self.spec_passed_flat_distance(player);
        if self.to_play == player {
            if distance == 0 {
                2000
            } else if distance == 1 {
                2000
            } else if distance == 2 {
                300
            } else if distance == 3 {
                100
            } else if distance == 4 {
                50
            } else if distance == 5 {
                10
            } else {
                0
            }
        } else {
            if distance == 0 {
                2000
            } else if distance == 1 {
                1000
            } else if distance == 2 {
                250
            } else if distance == 3 {
                70
            } else if distance == 4 {
                30
            } else if distance == 5 {
                5
            } else {
                0
            }
        }
    }

    /// The estimate where neither side has won: pieces, freedom of
    /// movement, flat pieces that come through, and the move.
    pub open spec fn spec_estimate(self) -> int {
        self.spec_material(Player::White) - self.spec_material(Player::Black) + (
        self.spec_mobility(Player::White) - self.spec_mobility(Player::Black))
            + self.spec_passed_flat_score(Player::White) - self.spec_passed_flat_score(
            Player::Black,
        ) + match self.to_play {
            Player::White => 5int,
            Player::Black => -5int,
        }
    }

    /// The static score of the position: a win where the game is over, else
    /// the estimate.
    pub open spec fn spec_eval_heuristic(self) -> Score {
        if self.spec_is_won() is Some {
            Score::spec_win_now(self.spec_is_won().unwrap())
        } else {
            Score(self.spec_estimate() as i32)
        }
    }

    /// Number of legal moves that `color` has, or would have if it were
    /// to move.
    pub fn mobility(&self, color: Player) -> (r: u32)
        ensures
            r == self.spec_mobility(color),
            r <= 841,
    {
        let pieces = *self.get_pieces(color);
        let entries = pieces.into_iter();
        let mut total: u32 = 0;
        let mut k: usize = 0;
        proof {
            lemma_entries(pieces);
            lemma_moves_upto_len(*self, color, entries@.len());
        }
        while k < entries.len()
            invariant
                k <= entries@.len(),
                entries@.len() <= 29,
                pieces == self.spec_pieces(color),
                entries@ == pieces.spec_entries(),
                forall|j: int|
                    0 <= j < entries@.len() ==> {
                        let e = #[trigger] entries@[j];
                        e.0.wf() && pieces.spec_get(e.0) == Some(e.1)
                    },
                total == self.moves_upto(color, k as nat).len(),
                total <= 29 * k,
            decreases entries@.len() - k,
        {
            let (t, species) = entries[k];
            let dests = self.targets_from(color, t, species);
            proof {
                lemma_moves_from_len(*self, color, t);
            }
            total = total + dests.count();
            k += 1;
        }
        total
    }

    /// Worth of the pieces of `color` that the other side does not threaten
    /// twice, in tenths.
    pub fn material(&self, color: Player) -> (r: i32)
        requires
            self.spec_pieces(color).wf(),
        ensures
            r == self.spec_material(color),
            0 <= r <= 1392,
    {
        let double_attacked = self.double_attack_map(color.flip());
        let masked_pieces = self.get_pieces(color).mask(double_attacked.complement());
        proof {
            lemma_without(
                self.spec_pieces(color),
                self.attacked_twice(color.other()),
                masked_pieces,
            );
            lemma_material_bound(masked_pieces);
        }
        let mut total: i32 = 0;
        let mut c: u8 = 0;
        while c < 7
            invariant
                c <= 7,
                masked_pieces.wf(),
                total == material_upto(masked_pieces, c as nat),
                0 <= total <= 3072 * (c as int),
            decreases 7 - c,
        {
            let species = Species::from_code(c);
            let instances = masked_pieces.locate_species(species);
            if instances.is_not_empty() {
                let count: i32 = instances.count() as i32;
                let worth: i32 = species.value();
                assert(0 <= worth * count <= 3072) by (nonlinear_arith)
                    requires
                        0 <= worth <= 48,
                        0 <= count <= 64,
                ;
                total = total + worth * count;
            }
            c += 1;
        }
        total
    }

    /// Number of steps that a lone flat piece of `player` needs to the other
    /// side's home corner, counted by letting the flat pieces advance and
    /// the corner's approaches go back in turn.
    pub fn passed_flat_distance(&self, player: Player) -> (r: u8)
        ensures
            r == self.spec_passed_flat_distance(player),
            r <= 5 || r == 8,
    {
        let opponent_house = Tile::corner(player.flip());
        let opponent_pieces = self.get_pieces(player.flip());
        let active_pieces = self.get_pieces(player);
        let mut target_diffusion = BitSet::tile_mask(&opponent_house);
        let walkable = opponent_pieces.occupied().complement().union(target_diffusion);
        let mut flats_diffusion = active_pieces.locate_lone_flats();
        if !flats_diffusion.is_not_empty() {
            return MAX_FLAT_DIST;
        }
        assert(walkable@ =~= self.walkable(player));
        let mut current_distance: u8 = 0;
        while current_distance <= 5
            invariant
                current_distance <= 6,
                walkable@ == self.walkable(player),
                self.spec_pieces(player).located(Species::Flat) != Set::<int>::empty(),
                flats_diffusion@ == self.flat_front(player, current_distance as nat),
                target_diffusion@ == self.house_front(player, current_distance as nat),
                self.first_meeting(player, 0) == self.first_meeting(player, current_distance as nat),
            decreases 6 - current_distance,
        {
            let both = target_diffusion.intersection(flats_diffusion);
            if both.is_not_empty() {
                proof {
                    let i = choose|i: int| both@.contains(i);
                    assert(flats_diffusion@.contains(i) && target_diffusion@.contains(i));
                    assert(!flats_diffusion@.disjoint(target_diffusion@));
                    assert(self.first_meeting(player, current_distance as nat)
                        == current_distance);
                }
                return current_distance;
            }
            proof {
                assert(flats_diffusion@.disjoint(target_diffusion@)) by {
                    assert forall|i: int|
                        !(flats_diffusion@.contains(i) && target_diffusion@.contains(i)) by {
                        if flats_diffusion@.contains(i) && target_diffusion@.contains(i) {
                            assert(both@.contains(i));
                        }
                    }
                }
            }
            if current_distance % 2 == 0 {
                flats_diffusion = flats_diffusion.generate_move_destinations(
                    player,
                    Species::Flat,
                ).intersection(walkable);
            } else {
                target_diffusion = target_diffusion.generate_move_destinations(
                    player.flip(),
                    Species::Flat,
                ).intersection(walkable);
            }
            current_distance += 1;
        }
        MAX_FLAT_DIST
    }

    /// What the distance of a flat piece of `player` to the corner is
    /// worth, in tenths.
    pub fn passed_flat_score(&self, player: Player) -> (r: i32)
        ensures
            r == self.spec_passed_flat_score(player),
            0 <= r <= 2000,
    {
        let distance = self.passed_flat_distance(player);
        if self.to_play == player {
            match distance {
                0 => 2000,
                1 => 2000,
                2 => 300,
                3 => 100,
                4 => 50,
                5 => 10,
                _ => 0,
            }
        } else {
            match distance {
                0 => 2000,
                1 => 1000,
                2 => 250,
                3 => 70,
                4 => 30,
                5 => 5,
                _ => 0,
            }
        }
    }

    /// The static score of the position.
    pub fn eval_heuristic(&self) -> (r: Score)
        requires
            self.white.wf(),
            self.black.wf(),
        ensures
            r == self.spec_eval_heuristic(),
            r.wf(),
            r.spec_is_finite() <==> self.spec_is_won() is None,
    {
        if let Some(winner) = self.is_won_home() {
            return Score::win_now(winner);
        }
        let white_moves_count = self.mobility(Player::White);
        let black_moves_count = self.mobility(Player::Black);
        match self.to_play {
            Player::White => {
                if white_moves_count == 0 {
                    return Score::win_now(Player::Black);
                }
            },
            Player::Black => {
                if black_moves_count == 0 {
                    return Score::win_now(Player::White);
                }
            },
        }
        let mobility_score: i32 = white_moves_count as i32 - black_moves_count as i32;
        let finite_score: i32 = self.material(Player::White) - self.material(Player::Black);
        let passed_flat_score: i32 = self.passed_flat_score(Player::White) - self.passed_flat_score(
            Player::Black,
        );
        let tempo_bonus_score: i32 = match self.to_play {
            Player::White => TEMPO_BONUS,
            Player::Black => -TEMPO_BONUS,
        };
        Score::finite(finite_score + mobility_score + passed_flat_score + tempo_bonus_score)
    }
}

} // verus!
