//! The pieces of one side: which species stands on which cell, held in three
//! bit planes.

use vstd::prelude::*;
use crate::bitboards::{
    lemma_cells_below,
    lemma_mask_below,
    lemma_view_and,
    lemma_view_bounds,
    lemma_view_empty,
    lemma_view_injective,
    lemma_view_not,
    lemma_view_or,
    lemma_view_single,
    positions,
    BitSet,
};
use crate::board::{on_board, Species, Tall};
use crate::tile::Tile;

verus! {

/// The upright piece that two plane bits stand for.
pub open spec fn tall_of(tall0: bool, tall1: bool) -> Option<Tall> {
    match (tall0, tall1) {
        (false, false) => None,
        (false, true) => Some(Tall::Hand),
        (true, false) => Some(Tall::Blind),
        (true, true) => Some(Tall::Star),
    }
}

/// The species that three plane bits stand for; `None` where all are zero.
pub open spec fn species_of(flat: bool, tall0: bool, tall1: bool) -> Option<Species> {
    match tall_of(tall0, tall1) {
        Some(tall) => if flat {
            Some(Species::Stack(tall))
        } else {
            Some(Species::Lone(tall))
        },
        None => if flat {
            Some(Species::Flat)
        } else {
            None
        },
    }
}

/// The two plane bits of an upright piece.
pub open spec fn tall_bits(tall: Tall) -> (bool, bool) {
    match tall {
        Tall::Hand => (false, true),
        Tall::Blind => (true, false),
        Tall::Star => (true, true),
    }
}

/// The three plane bits of a species.
pub open spec fn species_bits(species: Species) -> (bool, bool, bool) {
    match species {
        Species::Flat => (true, false, false),
        Species::Lone(tall) => (false, tall_bits(tall).0, tall_bits(tall).1),
        Species::Stack(tall) => (true, tall_bits(tall).0, tall_bits(tall).1),
    }
}

/// The pieces of one side. A cell holds a flat piece where `flats` has it;
/// `tall0` and `tall1` together say which upright piece it holds, if any.
#[derive(Clone, Copy, PartialEq, Eq, Structural, Hash, Debug)]
pub struct PieceMap {
    pub flats: BitSet,
    pub tall0: BitSet,
    pub tall1: BitSet,
}

impl View for PieceMap {
    type V = Map<Tile, Species>;

    /// The species on each occupied cell.
    open spec fn view(&self) -> Map<Tile, Species> {
        Map::new(|t: Tile| t.wf() && self.spec_get(t) is Some, |t: Tile| self.spec_get(t).unwrap())
    }
}

impl PieceMap {
    /// What the planes hold at position `i`.
    pub open spec fn spec_at(self, i: int) -> Option<Species> {
        species_of(self.flats@.contains(i), self.tall0@.contains(i), self.tall1@.contains(i))
    }

    /// What stands on the cell.
    pub open spec fn spec_get(self, t: Tile) -> Option<Species> {
        self.spec_at(t.0 as int)
    }

    /// Whether every piece stands on a cell of the board.
    pub open spec fn wf(self) -> bool {
        forall|i: int| !on_board(i) ==> #[trigger] self.spec_at(i) is None
    }

    /// The positions that hold a piece.
    pub open spec fn spec_occupied(self) -> Set<int> {
        Set::new(|i: int| self.spec_at(i) is Some)
    }

    /// The positions that hold exactly the given species.
    pub open spec fn located(self, species: Species) -> Set<int> {
        Set::new(|i: int| self.spec_at(i) == Some(species))
    }

    /// The positions that hold the given upright piece, alone or on a stack.
    pub open spec fn located_tall(self, tall: Tall) -> Set<int> {
        Set::new(
            |i: int|
                self.spec_at(i) == Some(Species::Lone(tall)) || self.spec_at(i) == Some(
                    Species::Stack(tall),
                ),
        )
    }

    /// The occupied cells with their species, in ascending order of the
    /// cells' codes.
    pub open spec fn spec_entries(self) -> Seq<(Tile, Species)> {
        let tiles = self.spec_occupied_mask().spec_tiles();
        Seq::new(tiles.len(), |k: int| (tiles[k], self.spec_get(tiles[k]).unwrap()))
    }

    /// The mask of the positions that hold a piece.
    pub open spec fn spec_occupied_mask(self) -> BitSet {
        BitSet(self.flats.0 | self.tall0.0 | self.tall1.0)
    }

    /// The planes with the pieces outside `keep` taken away.
    pub open spec fn masked(self, keep: BitSet) -> PieceMap {
        PieceMap {
            flats: BitSet(self.flats.0 & keep.0),
            tall0: BitSet(self.tall0.0 & keep.0),
            tall1: BitSet(self.tall1.0 & keep.0),
        }
    }

    /// The map that holds `what` at position `at` and agrees with this one
    /// everywhere else.
    pub open spec fn spec_put(self, at: int, what: Option<Species>) -> PieceMap {
        choose|p: PieceMap| self.differs_at(p, at, what)
    }

    /// Whether `p` holds `what` at position `at` and agrees with this map
    /// everywhere else.
    pub open spec fn differs_at(self, p: PieceMap, at: int, what: Option<Species>) -> bool {
        forall|i: int|
            #[trigger] p.spec_at(i) == if i == at {
                what
            } else {
                self.spec_at(i)
            }
    }

    /// Whether `p` is this map without the pieces on the positions of
    /// `gone`.
    pub open spec fn lacks(self, p: PieceMap, gone: Set<int>) -> bool {
        forall|i: int|
            #[trigger] p.spec_at(i) == if gone.contains(i) {
                None::<Species>
            } else {
                self.spec_at(i)
            }
    }

    /// The map without the pieces on the positions of `gone`.
    pub open spec fn without(self, gone: Set<int>) -> PieceMap {
        choose|p: PieceMap| self.lacks(p, gone)
    }

    /// The map once the piece that moves from the cell has been picked up:
    /// a stack leaves its flat piece behind.
    pub open spec fn spec_pull(self, location: Tile) -> PieceMap {
        self.spec_put(
            location.0 as int,
            if self.spec_get(location) matches Some(Species::Stack(_)) {
                Some(Species::Flat)
            } else {
                None::<Species>
            },
        )
    }

    /// The map once the piece has landed on the cell.
    pub open spec fn spec_toss(self, location: Tile, piece: Species) -> PieceMap {
        self.spec_put(location.0 as int, Some(self.landed(location, piece)))
    }

    /// The three plane bits of a species.
    pub fn encode_species(species: Species) -> (r: (bool, bool, bool))
        ensures
            r == species_bits(species),
            species_of(r.0, r.1, r.2) == Some(species),
    {
        let flat = match species {
            Species::Flat | Species::Stack(..) => true,
            Species::Lone(..) => false,
        };
        let (t0, t1) = match species {
            Species::Flat => (false, false),
            Species::Lone(tall) | Species::Stack(tall) => Self::encode_tall(tall),
        };
        (flat, t0, t1)
    }

    /// The upright piece that two plane bits stand for.
    pub fn decode_tall(tall0: bool, tall1: bool) -> (r: Option<Tall>)
        ensures
            r == tall_of(tall0, tall1),
    {
        match (tall0, tall1) {
            (false, false) => None,
            (false, true) => Some(Tall::Hand),
            (true, false) => Some(Tall::Blind),
            (true, true) => Some(Tall::Star),
        }
    }

    /// The two plane bits of an upright piece.
    pub fn encode_tall(tall: Tall) -> (r: (bool, bool))
        ensures
            r == tall_bits(tall),
            tall_of(r.0, r.1) == Some(tall),
    {
        match tall {
            Tall::Hand => (false, true),
            Tall::Blind => (true, false),
            Tall::Star => (true, true),
        }
    }

    /// The species that three plane bits stand for.
    pub fn decode_species(flat: bool, tall0: bool, tall1: bool) -> (r: Option<Species>)
        ensures
            r == species_of(flat, tall0, tall1),
    {
        let tall = Self::decode_tall(tall0, tall1);
        if flat {
            if let Some(tall) = tall {
                Some(Species::Stack(tall))
            } else {
                Some(Species::Flat)
            }
        } else {
            if let Some(tall) = tall {
                Some(Species::Lone(tall))
            } else {
                None
            }
        }
    }

    /// The map without pieces.
    pub fn empty() -> (r: PieceMap)
        ensures
            r.wf(),
            r@ == Map::<Tile, Species>::empty(),
            forall|i: int| r.spec_at(i) is None,
    {
        let r = PieceMap { flats: BitSet::empty(), tall0: BitSet::empty(), tall1: BitSet::empty() };
        assert(r@ =~= Map::<Tile, Species>::empty());
        r
    }

    /// The positions that hold a piece.
    pub fn occupied(&self) -> (r: BitSet)
        ensures
            r@ == self.spec_occupied(),
            r == self.spec_occupied_mask(),
    {
        let r = self.flats.union(self.tall0).union(self.tall1);
        assert(r@ =~= self.spec_occupied());
        r
    }

    /// Number of occupied positions.
    pub fn count(&self) -> (r: u32)
        ensures
            r == self.spec_occupied().len(),
    {
        self.occupied().count()
    }

    /// The positions that hold a flat piece and nothing on it.
    pub fn locate_lone_flats(&self) -> (r: BitSet)
        ensures
            r@ == self.located(Species::Flat),
    {
        let r = self.flats.intersection(self.tall0.union(self.tall1).complement());
        proof {
            lemma_view_bounds(self.flats);
            assert(r@ =~= self.located(Species::Flat));
        }
        r
    }

    /// The positions on which an upright piece of this side may land, as far
    /// as this side's own pieces decide: those without an upright piece.
    pub fn viable_tall_destinations(&self) -> (r: BitSet)
        ensures
            r@ == Set::new(
                |i: int|
                    0 <= i < 64 && (self.spec_at(i) is None || self.spec_at(i) == Some(
                        Species::Flat,
                    )),
            ),
    {
        let r = self.tall0.union(self.tall1).complement();
        assert(r@ =~= Set::new(
            |i: int|
                0 <= i < 64 && (self.spec_at(i) is None || self.spec_at(i) == Some(Species::Flat)),
        ));
        r
    }

    /// The occupied cells with their species, in ascending order of the
    /// cells' codes.
    pub fn into_iter(self) -> (r: Vec<(Tile, Species)>)
        ensures
            r@ == self.spec_entries(),
    {
        let tiles = self.occupied().into_iter();
        let mut out: Vec<(Tile, Species)> = Vec::new();
        let mut k: usize = 0;
        proof {
            lemma_cells_below(self.spec_occupied_mask()@, 64);
        }
        while k < tiles.len()
            invariant
                k <= tiles@.len(),
                tiles@ == self.spec_occupied_mask().spec_tiles(),
                self.spec_occupied_mask()@ == self.spec_occupied(),
                forall|j: int|
                    0 <= j < tiles@.len() ==> (#[trigger] tiles@[j]).0 < 64
                        && self.spec_occupied().contains(tiles@[j].0 as int),
                out@.len() == k,
                forall|j: int|
                    0 <= j < k ==> #[trigger] out@[j] == (
                        tiles@[j],
                        self.spec_get(tiles@[j]).unwrap(),
                    ),
            decreases tiles@.len() - k,
        {
            let t = tiles[k];
            match self.get(t) {
                Some(species) => {
                    out.push((t, species));
                },
                None => {
                    assert(false);
                },
            }
            k += 1;
        }
        assert(out@ =~= self.spec_entries());
        out
    }

    /// What stands on the cell.
    pub fn get(&self, location: Tile) -> (r: Option<Species>)
        requires
            location.0 < 64,
        ensures
            r == self.spec_get(location),
    {
        let flat = self.flats.get(&location);
        let tall0 = self.tall0.get(&location);
        let tall1 = self.tall1.get(&location);
        Self::decode_species(flat, tall0, tall1)
    }
}

impl PieceMap {
    /// Whether the cell may take the piece: it is empty, or the piece is an
    /// upright one and the cell holds a flat piece alone. A stack is never
    /// put down as a whole.
    pub open spec fn may_land(self, location: Tile, piece: Species) -> bool {
        match piece {
            Species::Flat => self.spec_get(location) is None,
            Species::Lone(_) => self.spec_get(location) is None || self.spec_get(location) == Some(
                Species::Flat,
            ),
            Species::Stack(_) => false,
        }
    }

    /// What the cell holds once the piece has landed on it.
    pub open spec fn landed(self, location: Tile, piece: Species) -> Species {
        match (piece, self.spec_get(location)) {
            (Species::Lone(tall), Some(Species::Flat)) => Species::Stack(tall),
            _ => piece,
        }
    }

    /// Puts the species on the cell, in place of what stood there.
    pub fn set(&mut self, location: Tile, species: Species)
        requires
            location.0 < 64,
        ensures
            *final(self) == old(self).spec_put(location.0 as int, Some(species)),
            final(self).spec_get(location) == Some(species),
            forall|i: int| i != location.0 ==> final(self).spec_at(i) == old(self).spec_at(i),
            location.wf() ==> final(self)@ == old(self)@.insert(location, species),
            old(self).wf() && location.wf() ==> final(self).wf(),
    {
        let (sf, st0, st1) = Self::encode_species(species);
        let mask = BitSet::tile_mask(&location);
        self.flats.set_mask_bool(sf, mask);
        self.tall0.set_mask_bool(st0, mask);
        self.tall1.set_mask_bool(st1, mask);
        proof {
            assert(forall|i: int| i != location.0 ==> self.spec_at(i) == old(self).spec_at(i));
            assert(self.spec_get(location) == Some(species));
            if location.wf() {
                assert(self@ =~= old(self)@.insert(location, species));
            }
            lemma_put(*old(self), location.0 as int, Some(species), *self);
        }
    }

    /// Whether the cell holds a piece.
    pub fn contains_key(&self, key: &Tile) -> (r: bool)
        requires
            key.0 < 64,
        ensures
            r == (self.spec_get(*key) is Some),
    {
        let mask = BitSet::tile_mask(key);
        let both = self.occupied().intersection(mask);
        let r = both.is_not_empty();
        proof {
            if self.spec_get(*key) is Some {
                assert(both@.contains(key.0 as int));
            } else {
                assert(both@ =~= Set::<int>::empty());
            }
        }
        r
    }

    /// The positions that hold the given upright piece, alone or on a stack.
    pub fn locate_talls(&self, tall: Tall) -> (r: BitSet)
        ensures
            r@ == self.located_tall(tall),
    {
        let (tall0, tall1) = Self::encode_tall(tall);
        let r = if tall0 {
            if tall1 {
                self.tall0.intersection(self.tall1)
            } else {
                self.tall0.intersection(self.tall1.complement())
            }
        } else {
            self.tall0.complement().intersection(self.tall1)
        };
        proof {
            lemma_view_bounds(self.tall0);
            lemma_view_bounds(self.tall1);
            assert(r@ =~= self.located_tall(tall));
        }
        r
    }

    /// The positions that hold exactly the given species.
    pub fn locate_species(&self, species: Species) -> (r: BitSet)
        ensures
            r@ == self.located(species),
    {
        match species {
            Species::Flat => self.locate_lone_flats(),
            Species::Lone(tall) => {
                let r = self.locate_talls(tall).intersection(self.flats.complement());
                proof {
                    lemma_view_bounds(self.tall0);
                    lemma_view_bounds(self.tall1);
                    assert(r@ =~= self.located(species));
                }
                r
            },
            Species::Stack(tall) => {
                let r = self.locate_talls(tall).intersection(self.flats);
                assert(r@ =~= self.located(species));
                r
            },
        }
    }

    /// Picks up the piece that moves from the cell: of a stack the upright
    /// piece, which leaves the flat one behind; else all that stands there.
    pub fn pull_moving_piece(&mut self, location: Tile) -> (r: Species)
        requires
            location.0 < 64,
            old(self).spec_get(location) is Some,
        ensures
            r == old(self).spec_get(location).unwrap().lone(),
            *final(self) == old(self).spec_pull(location),
            final(self).spec_get(location) == if old(self).spec_get(location).unwrap() is Stack {
                Some(Species::Flat)
            } else {
                None::<Species>
            },
            forall|i: int| i != location.0 ==> final(self).spec_at(i) == old(self).spec_at(i),
            location.wf() ==> final(self)@ == if old(self).spec_get(location).unwrap() is Stack {
                old(self)@.insert(location, Species::Flat)
            } else {
                old(self)@.remove(location)
            },
            old(self).wf() ==> final(self).wf(),
    {
        let mask = BitSet::tile_mask(&location);
        let orig_flat = self.flats.intersection(mask).is_not_empty();
        let bit0 = self.tall0.intersection(mask).is_not_empty();
        let bit1 = self.tall1.intersection(mask).is_not_empty();
        proof {
            let i = location.0 as int;
            assert(orig_flat == self.flats@.contains(i)) by {
                if self.flats@.contains(i) {
                    assert(self.flats@.intersect(mask@).contains(i));
                } else {
                    assert(self.flats@.intersect(mask@) =~= Set::<int>::empty());
                }
            }
            assert(bit0 == self.tall0@.contains(i)) by {
                if self.tall0@.contains(i) {
                    assert(self.tall0@.intersect(mask@).contains(i));
                } else {
                    assert(self.tall0@.intersect(mask@) =~= Set::<int>::empty());
                }
            }
            assert(bit1 == self.tall1@.contains(i)) by {
                if self.tall1@.contains(i) {
                    assert(self.tall1@.intersect(mask@).contains(i));
                } else {
                    assert(self.tall1@.intersect(mask@) =~= Set::<int>::empty());
                }
            }
        }
        let orig_tall = Self::decode_tall(bit0, bit1);
        let pulled = match orig_tall {
            Some(tall) => {
                self.tall0.set_mask_bool(false, mask);
                self.tall1.set_mask_bool(false, mask);
                Species::Lone(tall)
            },
            None => {
                self.flats.set_mask_bool(false, mask);
                Species::Flat
            },
        };
        proof {
            assert(forall|i: int| i != location.0 ==> self.spec_at(i) == old(self).spec_at(i));
            if location.wf() {
                if old(self).spec_get(location).unwrap() is Stack {
                    assert(self@ =~= old(self)@.insert(location, Species::Flat));
                } else {
                    assert(self@ =~= old(self)@.remove(location));
                }
            }
            lemma_put(
                *old(self),
                location.0 as int,
                if old(self).spec_get(location) matches Some(Species::Stack(_)) {
                    Some(Species::Flat)
                } else {
                    None::<Species>
                },
                *self,
            );
        }
        pulled
    }

    /// The pieces on the positions of `mask`.
    pub fn mask(&self, mask: BitSet) -> (r: PieceMap)
        ensures
            r == self.masked(mask),
            forall|i: int|
                #[trigger] r.spec_at(i) == if mask@.contains(i) {
                    self.spec_at(i)
                } else {
                    None::<Species>
                },
            self.wf() ==> r.wf(),
    {
        let r = PieceMap {
            flats: self.flats.intersection(mask),
            tall0: self.tall0.intersection(mask),
            tall1: self.tall1.intersection(mask),
        };
        proof {
            assert forall|i: int|
                #[trigger] r.spec_at(i) == if mask@.contains(i) {
                    self.spec_at(i)
                } else {
                    None::<Species>
                } by {}
            if self.wf() {
                assert forall|i: int| !on_board(i) implies #[trigger] r.spec_at(i) is None by {
                    assert(self.spec_at(i) is None);
                }
            }
        }
        r
    }

    /// Takes the pieces on the positions of `mask` away, and returns them.
    pub fn kill(&mut self, mask: BitSet) -> (r: PieceMap)
        ensures
            r == old(self).masked(mask),
            *final(self) == old(self).without(mask@),
            forall|i: int|
                #[trigger] r.spec_at(i) == if mask@.contains(i) {
                    old(self).spec_at(i)
                } else {
                    None::<Species>
                },
            forall|i: int|
                #[trigger] final(self).spec_at(i) == if mask@.contains(i) {
                    None::<Species>
                } else {
                    old(self).spec_at(i)
                },
            old(self).wf() ==> r.wf() && final(self).wf(),
    {
        let kills_masked = self.mask(mask);
        let rest = self.mask(mask.complement());
        proof {
            lemma_view_bounds(self.flats);
            lemma_view_bounds(self.tall0);
            lemma_view_bounds(self.tall1);
            assert forall|i: int|
                #[trigger] rest.spec_at(i) == if mask@.contains(i) {
                    None::<Species>
                } else {
                    self.spec_at(i)
                } by {}
            lemma_without(*self, mask@, rest);
        }
        *self = rest;
        kills_masked
    }

    /// Whether any position holds a piece.
    pub fn is_not_empty(&self) -> (r: bool)
        ensures
            r == exists|i: int| #[trigger] self.spec_at(i) is Some,
    {
        let a = self.flats.is_not_empty();
        let b = self.tall0.is_not_empty();
        let c = self.tall1.is_not_empty();
        proof {
            if a {
                let i = choose|i: int| self.flats@.contains(i);
                assert(self.spec_at(i) is Some);
            } else if b {
                let i = choose|i: int| self.tall0@.contains(i);
                assert(self.spec_at(i) is Some);
            } else if c {
                let i = choose|i: int| self.tall1@.contains(i);
                assert(self.spec_at(i) is Some);
            } else {
                assert(forall|i: int| #[trigger] self.spec_at(i) is None);
            }
        }
        a || b || c
    }

    /// Puts a piece down on a cell that may take it. An upright piece that
    /// lands on a flat one makes a stack.
    pub fn toss(&mut self, location: Tile, piece: Species)
        requires
            location.0 < 64,
            old(self).may_land(location, piece),
        ensures
            *final(self) == old(self).spec_toss(location, piece),
            final(self).spec_get(location) == Some(old(self).landed(location, piece)),
            forall|i: int| i != location.0 ==> final(self).spec_at(i) == old(self).spec_at(i),
            location.wf() ==> final(self)@ == old(self)@.insert(
                location,
                old(self).landed(location, piece),
            ),
            old(self).wf() && location.wf() ==> final(self).wf(),
    {
        let mask = BitSet::tile_mask(&location);
        match piece {
            Species::Flat => {
                self.flats.set_mask_bool(true, mask);
            },
            Species::Lone(tall) => {
                let (tall0, tall1) = Self::encode_tall(tall);
                self.tall0.set_mask_bool(tall0, mask);
                self.tall1.set_mask_bool(tall1, mask);
            },
            Species::Stack(..) => {},
        }
        proof {
            assert(forall|i: int| i != location.0 ==> self.spec_at(i) == old(self).spec_at(i));
            assert(self.spec_get(location) == Some(old(self).landed(location, piece)));
            if location.wf() {
                assert(self@ =~= old(self)@.insert(location, old(self).landed(location, piece)));
            }
            lemma_put(
                *old(self),
                location.0 as int,
                Some(old(self).landed(location, piece)),
                *self,
            );
        }
    }

    /// The three plane bits at a position as a number: one for a flat piece,
    /// two and four for the planes of the upright piece.
    pub fn get_3bit(&self, bit: u8) -> (r: u8)
        requires
            bit < 64,
        ensures
            r <= 7,
            r == (if self.flats@.contains(bit as int) {
                1int
            } else {
                0int
            }) + (if self.tall0@.contains(bit as int) {
                2int
            } else {
                0int
            }) + (if self.tall1@.contains(bit as int) {
                4int
            } else {
                0int
            }),
    {
        let flat = self.flats.get_at_bit(bit);
        let tall0 = self.tall0.get_at_bit(bit);
        let tall1 = self.tall1.get_at_bit(bit);
        let a: u8 = if flat {
            1
        } else {
            0
        };
        let b: u8 = if tall0 {
            2
        } else {
            0
        };
        let c: u8 = if tall1 {
            4
        } else {
            0
        };
        a + b + c
    }

    /// Empties the cell.
    pub fn clear_tile(&mut self, tile: Tile)
        requires
            tile.0 < 64,
        ensures
            *final(self) == old(self).spec_put(tile.0 as int, None::<Species>),
            final(self).spec_get(tile) is None,
            forall|i: int| i != tile.0 ==> final(self).spec_at(i) == old(self).spec_at(i),
            final(self)@ == old(self)@.remove(tile),
            old(self).wf() ==> final(self).wf(),
    {
        let mask = BitSet::tile_mask(&tile).complement();
        self.flats = self.flats.intersection(mask);
        self.tall0 = self.tall0.intersection(mask);
        self.tall1 = self.tall1.intersection(mask);
        proof {
            lemma_view_bounds(old(self).flats);
            lemma_view_bounds(old(self).tall0);
            lemma_view_bounds(old(self).tall1);
            assert(forall|i: int| i != tile.0 ==> self.spec_at(i) == old(self).spec_at(i));
            assert(self@ =~= old(self)@.remove(tile));
            lemma_put(*old(self), tile.0 as int, None::<Species>, *self);
        }
    }
}

/// Two maps that hold the same at every position are the same map.
pub proof fn lemma_piecemap_ext(a: PieceMap, b: PieceMap)
    requires
        forall|i: int| a.spec_at(i) == b.spec_at(i),
    ensures
        a == b,
{
    assert forall|i: int| a.flats@.contains(i) == b.flats@.contains(i) by {
        assert(a.spec_at(i) == b.spec_at(i));
    }
    assert forall|i: int| a.tall0@.contains(i) == b.tall0@.contains(i) by {
        assert(a.spec_at(i) == b.spec_at(i));
    }
    assert forall|i: int| a.tall1@.contains(i) == b.tall1@.contains(i) by {
        assert(a.spec_at(i) == b.spec_at(i));
    }
    assert(a.flats@ =~= b.flats@);
    assert(a.tall0@ =~= b.tall0@);
    assert(a.tall1@ =~= b.tall1@);
    lemma_view_injective(a.flats, b.flats);
    lemma_view_injective(a.tall0, b.tall0);
    lemma_view_injective(a.tall1, b.tall1);
}

/// A map that differs from `pm` at one position only is `pm.spec_put(..)`.
pub proof fn lemma_put(pm: PieceMap, at: int, what: Option<Species>, r: PieceMap)
    requires
        forall|i: int|
            #[trigger] r.spec_at(i) == if i == at {
                what
            } else {
                pm.spec_at(i)
            },
    ensures
        r == pm.spec_put(at, what),
{
    assert(pm.differs_at(r, at, what));
    let p = pm.spec_put(at, what);
    assert(pm.differs_at(p, at, what));
    assert forall|i: int| r.spec_at(i) == p.spec_at(i) by {
        assert(r.spec_at(i) == if i == at {
            what
        } else {
            pm.spec_at(i)
        });
    }
    lemma_piecemap_ext(r, p);
}

/// A map that lacks the pieces on `gone` and is `pm` elsewhere is
/// `pm.without(gone)`.
pub proof fn lemma_without(pm: PieceMap, gone: Set<int>, r: PieceMap)
    requires
        forall|i: int|
            #[trigger] r.spec_at(i) == if gone.contains(i) {
                None::<Species>
            } else {
                pm.spec_at(i)
            },
    ensures
        r == pm.without(gone),
{
    assert(pm.lacks(r, gone));
    let p = pm.without(gone);
    assert(pm.lacks(p, gone));
    assert forall|i: int| r.spec_at(i) == p.spec_at(i) by {
        assert(r.spec_at(i) == if gone.contains(i) {
            None::<Species>
        } else {
            pm.spec_at(i)
        });
    }
    lemma_piecemap_ext(r, p);
}

/// What is known of [`PieceMap::spec_entries`]: it lists exactly the occupied
/// cells, each once with its species, in ascending order of the codes.
pub proof fn lemma_entries(pm: PieceMap)
    ensures
        forall|k: int|
            0 <= k < pm.spec_entries().len() ==> {
                let e = #[trigger] pm.spec_entries()[k];
                e.0.wf() && pm.spec_get(e.0) == Some(e.1)
            },
        forall|t: Tile|
            t.wf() && pm.spec_get(t) is Some ==> exists|k: int|
                0 <= k < pm.spec_entries().len() && #[trigger] pm.spec_entries()[k] == (
                    t,
                    pm.spec_get(t).unwrap(),
                ),
        forall|j: int, k: int|
            0 <= j < k < pm.spec_entries().len() ==> (#[trigger] pm.spec_entries()[j]).0.0 < (
            #[trigger] pm.spec_entries()[k]).0.0,
        pm.spec_entries().len() <= 64,
{
    let occ = pm.spec_occupied_mask();
    let tiles = occ.spec_tiles();
    lemma_view_or(pm.flats.0, pm.tall0.0);
    lemma_view_or(pm.flats.0 | pm.tall0.0, pm.tall1.0);
    assert(occ@ =~= pm.spec_occupied());
    lemma_cells_below(occ@, 64);
    assert forall|t: Tile| t.wf() && pm.spec_get(t) is Some implies exists|k: int|
        0 <= k < pm.spec_entries().len() && #[trigger] pm.spec_entries()[k] == (
            t,
            pm.spec_get(t).unwrap(),
        ) by {
        assert(occ@.contains(t.0 as int));
        assert(tiles.contains(t));
        let k = choose|k: int| 0 <= k < tiles.len() && tiles[k] == t;
        assert(pm.spec_entries()[k] == (t, pm.spec_get(t).unwrap()));
    }
}

/// No piece stands strictly between two neighbours of
/// [`PieceMap::spec_entries`], before the first or after the last.
pub proof fn lemma_entries_gap(pm: PieceMap, k: int, c: int)
    requires
        pm.wf(),
        0 <= k <= pm.spec_entries().len(),
        k == 0 || pm.spec_entries()[k - 1].0.0 < c,
        k == pm.spec_entries().len() || c < pm.spec_entries()[k].0.0,
    ensures
        pm.spec_at(c) is None,
{
    lemma_entries(pm);
    if pm.spec_at(c) is Some {
        assert(on_board(c));
        let u = Tile(c as u8);
        assert(u.wf());
        assert(pm.spec_get(u) is Some);
        let j = choose|j: int|
            0 <= j < pm.spec_entries().len() && #[trigger] pm.spec_entries()[j] == (
                u,
                pm.spec_get(u).unwrap(),
            );
        if j < k - 1 {
            assert(pm.spec_entries()[j].0.0 < pm.spec_entries()[k - 1].0.0);
        } else if j > k {
            assert(pm.spec_entries()[k].0.0 < pm.spec_entries()[j].0.0);
        }
    }
}

impl PieceMap {
    /// The pieces turned by half a turn about the centre of the board.
    pub fn flip(self) -> (r: PieceMap)
        requires
            self.wf(),
        ensures
            r.wf(),
            forall|i: int| #[trigger] r.spec_at(i) == self.spec_at(54 - i),
            forall|t: Tile| t.wf() ==> #[trigger] r.spec_get(t) == self.spec_get(t.spec_antipode()),
    {
        let entries = self.into_iter();
        let mut flipped = PieceMap::empty();
        let mut k: usize = 0;
        proof {
            lemma_entries(self);
            assert forall|i: int|
                #[trigger] flipped.spec_at(i) == if 0 < entries@.len() && 54 - i
                    >= entries@[0].0.0 {
                    None::<Species>
                } else {
                    self.spec_at(54 - i)
                } by {
                if !(0 < entries@.len() && 54 - i >= entries@[0].0.0) {
                    lemma_entries_gap(self, 0, 54 - i);
                }
            }
        }
        while k < entries.len()
            invariant
                k <= entries@.len(),
                entries@ == self.spec_entries(),
                self.wf(),
                flipped.wf(),
                forall|j: int|
                    0 <= j < entries@.len() ==> {
                        let e = #[trigger] entries@[j];
                        e.0.wf() && self.spec_get(e.0) == Some(e.1)
                    },
                forall|i: int|
                    #[trigger] flipped.spec_at(i) == if k < entries@.len() && 54 - i
                        >= entries@[k as int].0.0 {
                        None::<Species>
                    } else {
                        self.spec_at(54 - i)
                    },
            decreases entries@.len() - k,
        {
            let (t, p) = entries[k];
            let ghost before = flipped;
            flipped.set(t.antipode(), p);
            proof {
                let c = t.0 as int;
                assert forall|i: int|
                    #[trigger] flipped.spec_at(i) == if k + 1 < entries@.len() && 54 - i
                        >= entries@[k + 1].0.0 {
                        None::<Species>
                    } else {
                        self.spec_at(54 - i)
                    } by {
                    if k + 1 < entries@.len() {
                        lemma_entries(self);
                        assert(entries@[k as int].0.0 < entries@[k + 1].0.0);
                    }
                    if 54 - i == c {
                    } else if 54 - i < c {
                        assert(before.spec_at(i) == self.spec_at(54 - i));
                    } else {
                        assert(before.spec_at(i) is None);
                        if !(k + 1 < entries@.len() && 54 - i >= entries@[k + 1].0.0) {
                            lemma_entries_gap(self, k + 1, 54 - i);
                        }
                    }
                }
            }
            k += 1;
        }
        proof {
            assert forall|t: Tile| t.wf() implies #[trigger] flipped.spec_get(t) == self.spec_get(
                t.spec_antipode(),
            ) by {
                assert(flipped.spec_at(t.0 as int) == self.spec_at(54 - t.0));
            }
        }
        flipped
    }
}

/// What [`PieceMap::without`] holds at each position.
pub proof fn lemma_without_at(pm: PieceMap, gone: Set<int>)
    ensures
        pm.lacks(pm.without(gone), gone),
{
    let keep = lemma_mask_below(
        positions().difference(gone),
        64,
    );
    let w = pm.masked(keep);
    lemma_view_and(pm.flats.0, keep.0);
    lemma_view_and(pm.tall0.0, keep.0);
    lemma_view_and(pm.tall1.0, keep.0);
    lemma_view_bounds(pm.flats);
    lemma_view_bounds(pm.tall0);
    lemma_view_bounds(pm.tall1);
    assert(pm.lacks(w, gone));
}

/// What [`PieceMap::spec_pull`] holds at each position.
pub proof fn lemma_pull(pm: PieceMap, from: Tile)
    ensures
        forall|i: int|
            #[trigger] pm.spec_pull(from).spec_at(i) == if i == from.0 {
                if pm.spec_get(from) matches Some(Species::Stack(_)) {
                    Some(Species::Flat)
                } else {
                    None::<Species>
                }
            } else {
                pm.spec_at(i)
            },
{
    let what = if pm.spec_get(from) matches Some(Species::Stack(_)) {
        Some(Species::Flat)
    } else {
        None::<Species>
    };
    lemma_put_at(pm, from.0 as int, what);
}

/// What [`PieceMap::spec_put`] holds at each position, where the position
/// written to is one of a word.
pub proof fn lemma_put_at(pm: PieceMap, at: int, what: Option<Species>)
    requires
        0 <= at < 64 || what is None,
    ensures
        pm.differs_at(pm.spec_put(at, what), at, what),
{
    let bits = match what {
        Some(s) => species_bits(s),
        None => (false, false, false),
    };
    let single = if 0 <= at < 64 {
        BitSet(1u64 << (at as u64))
    } else {
        BitSet(0)
    };
    if 0 <= at < 64 {
        lemma_view_single(at as u64);
    } else {
        lemma_view_empty();
    }
    let w = PieceMap {
        flats: plane_with(pm.flats, single, bits.0),
        tall0: plane_with(pm.tall0, single, bits.1),
        tall1: plane_with(pm.tall1, single, bits.2),
    };
    lemma_plane_with(pm.flats, single, bits.0);
    lemma_plane_with(pm.tall0, single, bits.1);
    lemma_plane_with(pm.tall1, single, bits.2);
    assert(pm.differs_at(w, at, what));
}

/// The plane with the members of `mask` added or taken away.
pub open spec fn plane_with(plane: BitSet, mask: BitSet, bit: bool) -> BitSet {
    if bit {
        BitSet(plane.0 | mask.0)
    } else {
        BitSet(plane.0 & !mask.0)
    }
}

proof fn lemma_plane_with(plane: BitSet, mask: BitSet, bit: bool)
    ensures
        plane_with(plane, mask, bit)@ == if bit {
            plane@.union(mask@)
        } else {
            plane@.difference(mask@)
        },
{
    if bit {
        lemma_view_or(plane.0, mask.0);
    } else {
        lemma_view_and(plane.0, !mask.0);
        lemma_view_not(mask.0);
        lemma_view_bounds(plane);
        assert(plane_with(plane, mask, bit)@ =~= plane@.difference(mask@));
    }
}

} // verus!
