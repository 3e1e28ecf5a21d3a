//! Sets of cells held as 64-bit masks, and the moves of the pieces as shifts
//! of such masks.

use vstd::prelude::*;
use vstd::set_lib::lemma_set_subset_finite;
use vstd::std_specs::bits::{axiom_u64_trailing_zeros, u64_trailing_zeros};
use crate::bits::{
    bit_set,
    lemma_bit_and,
    lemma_bit_not,
    lemma_bit_or,
    lemma_bit_shl,
    lemma_bit_shr,
    lemma_bit_single,
    lemma_bit_zero,
    ones_below,
};
use crate::board::{on_board, Player, Species, Tall, BOARD_RADIUS};
use crate::tile::Tile;

verus! {

/// The codes of the cells, in ascending order.
pub const BOARD_BITS: [u8; 29] = [
    2, 3, 4, 5, 6,
    13, 14, 15, 16, 17, 18,
    24, 25, 26, 27, 28, 29, 30,
    36, 37, 38, 39, 40, 41,
    48, 49, 50, 51, 52,
];

/// The mask with a one at the code of each cell.
pub const BOARD_WORD: u64 = 0x1f03f07f07e07c;

/// The bit positions of a word.
pub open spec fn positions() -> Set<int> {
    Set::new(|i: int| 0 <= i < 64)
}

/// The codes of the cells.
pub open spec fn cells() -> Set<int> {
    Set::new(|i: int| on_board(i))
}

/// The bit position that stands for a cell.
pub fn tile_to_bit(tile: &Tile) -> (r: u8)
    ensures
        r == tile.0,
{
    tile.to_bit()
}

/// The cell that a bit position stands for.
pub fn bit_to_tile(bit: u8) -> (r: Tile)
    ensures
        r == Tile(bit),
{
    Tile::from_bit_unchecked(bit)
}

/// Number of ones in the binary form of `v`, as `u64::count_ones` documents
/// it: the positions below 64 at which `v` has a one, counted.
pub assume_specification[ <u64>::count_ones ](v: u64) -> (r: u32)
    ensures
        r == ones_below(v, 64),
;

/// A set of bit positions below 64. Cells are the positions that
/// [`on_board`] accepts; a set may hold others besides.
#[derive(Clone, Copy, PartialEq, Eq, Structural, Hash, Debug)]
pub struct BitSet(pub u64);

impl View for BitSet {
    type V = Set<int>;

    open spec fn view(&self) -> Set<int> {
        Set::new(|i: int| holds(self.0, i))
    }
}

/// Whether position `i` is one of the ones of `m`.
pub open spec fn holds(m: u64, i: int) -> bool {
    0 <= i < 64 && bit_set(m, i as u64)
}

/// The members of `s` below `n` that are cells, in ascending order.
pub open spec fn cells_below(s: Set<int>, n: nat) -> Seq<Tile>
    decreases n,
{
    if n == 0 {
        Seq::empty()
    } else if on_board(n - 1) && s.contains(n - 1) {
        cells_below(s, (n - 1) as nat).push(Tile((n - 1) as u8))
    } else {
        cells_below(s, (n - 1) as nat)
    }
}

/// The steps of a species, as differences of codes, for White. Black's are
/// the negatives.
pub open spec fn steps(species: Species) -> Seq<int> {
    match species {
        Species::Flat => seq![1, 12, -11],
        Species::Lone(tall) | Species::Stack(tall) => match tall {
            Tall::Hand => seq![2, -12, 11, -1],
            Tall::Blind => seq![24, -22, -12, 11, -2],
            Tall::Star => seq![-23, 23, 13, -13, 10, -10],
        },
    }
}

/// Whether a piece of the given side and species on position `from` steps to
/// position `to`, the edges of the board left aside.
pub open spec fn steps_to(color: Player, species: Species, from: int, to: int) -> bool {
    steps(species).contains((to - from) * color.sign())
}

/// The cells to which a piece of the given side and species steps from some
/// position in `origins`.
pub open spec fn destinations(origins: Set<int>, color: Player, species: Species) -> Set<int> {
    Set::new(
        |d: int|
            on_board(d) && exists|o: int| #[trigger]
                origins.contains(o) && steps_to(color, species, o, d),
    )
}

/// The positions of `s`, each moved up by `by`, as far as they stay below 64.
pub open spec fn moved(s: Set<int>, by: int) -> Set<int> {
    Set::new(|i: int| 0 <= i < 64 && s.contains(i - by))
}

/// A set of a mask is finite and holds positions of a word only.
pub proof fn lemma_view_bounds(b: BitSet)
    ensures
        b@.subset_of(positions()),
        b@.finite(),
        positions().finite(),
        positions().len() == 64,
{
    vstd::set_lib::lemma_int_range(0, 64);
    assert(positions() =~= vstd::set_lib::set_int_range(0, 64));
    lemma_set_subset_finite(positions(), b@);
}

/// Two sets with the same members are the same set.
pub proof fn lemma_view_injective(a: BitSet, b: BitSet)
    requires
        a@ == b@,
    ensures
        a == b,
{
    let p = a.0;
    let q = b.0;
    let x = p ^ q;
    if x != 0 {
        axiom_u64_trailing_zeros(x);
        let t = u64_trailing_zeros(x) as u64;
        assert(bit_set(p, t) != bit_set(q, t)) by (bit_vector)
            requires
                t < 64,
                ((p ^ q) >> t) & 1 == 1,
        ;
        assert(holds(p, t as int) != holds(q, t as int));
        assert(a@.contains(t as int) == holds(p, t as int));
        assert(b@.contains(t as int) == holds(q, t as int));
    } else {
        assert(p == q) by (bit_vector)
            requires
                p ^ q == 0,
        ;
    }
}

/// The mask zero holds nothing.
pub proof fn lemma_view_empty()
    ensures
        BitSet(0)@ == Set::<int>::empty(),
{
    assert forall|i: int| !holds(0u64, i) by {
        if 0 <= i < 64 {
            lemma_bit_zero(i as u64);
        }
    }
    assert(BitSet(0)@ =~= Set::<int>::empty());
}

/// A mask holds a position exactly where it is not zero.
pub proof fn lemma_view_nonzero(m: u64)
    ensures
        (m != 0) == (BitSet(m)@.len() > 0),
        (m != 0) == (BitSet(m)@ != Set::<int>::empty()),
{
    lemma_view_bounds(BitSet(m));
    if m != 0 {
        axiom_u64_trailing_zeros(m);
        let t = u64_trailing_zeros(m) as u64;
        assert(BitSet(m)@.contains(t as int));
        if BitSet(m)@.len() == 0 {
            BitSet(m)@.lemma_len0_is_empty();
        }
    } else {
        lemma_view_empty();
    }
}

/// The mask with one bit holds the position of that bit.
pub proof fn lemma_view_single(bit: u64)
    requires
        bit < 64,
    ensures
        BitSet(1u64 << bit)@ == set![bit as int],
{
    assert forall|i: int| holds(1u64 << bit, i) == (i == bit) by {
        if 0 <= i < 64 {
            lemma_bit_single(bit, i as u64);
        }
    }
    assert(BitSet(1u64 << bit)@ =~= set![bit as int]);
}

/// The bitwise or of two masks holds what either holds.
pub proof fn lemma_view_or(a: u64, b: u64)
    ensures
        BitSet(a | b)@ == BitSet(a)@.union(BitSet(b)@),
{
    assert forall|i: int| holds(a | b, i) == (holds(a, i) || holds(b, i)) by {
        if 0 <= i < 64 {
            lemma_bit_or(a, b, i as u64);
        }
    }
    assert(BitSet(a | b)@ =~= BitSet(a)@.union(BitSet(b)@));
}

/// The bitwise and of two masks holds what both hold.
pub proof fn lemma_view_and(a: u64, b: u64)
    ensures
        BitSet(a & b)@ == BitSet(a)@.intersect(BitSet(b)@),
{
    assert forall|i: int| holds(a & b, i) == (holds(a, i) && holds(b, i)) by {
        if 0 <= i < 64 {
            lemma_bit_and(a, b, i as u64);
        }
    }
    assert(BitSet(a & b)@ =~= BitSet(a)@.intersect(BitSet(b)@));
}

/// The complement of a mask holds the positions that the mask lacks.
pub proof fn lemma_view_not(a: u64)
    ensures
        BitSet(!a)@ == positions().difference(BitSet(a)@),
{
    assert forall|i: int| 0 <= i < 64 implies holds(!a, i) == !holds(a, i) by {
        lemma_bit_not(a, i as u64);
    }
    assert(BitSet(!a)@ =~= positions().difference(BitSet(a)@));
}

/// A shift to the left moves each member up.
pub proof fn lemma_view_shl(m: u64, s: u64)
    requires
        s < 64,
    ensures
        BitSet(m << s)@ == moved(BitSet(m)@, s as int),
{
    assert forall|i: int| holds(m << s, i) == (0 <= i < 64 && holds(m, i - s)) by {
        if 0 <= i < 64 {
            lemma_bit_shl(m, s, i as u64);
        }
    }
    assert(BitSet(m << s)@ =~= moved(BitSet(m)@, s as int));
}

/// A shift to the right moves each member down.
pub proof fn lemma_view_shr(m: u64, s: u64)
    requires
        s < 64,
    ensures
        BitSet(m >> s)@ == moved(BitSet(m)@, -(s as int)),
{
    assert forall|i: int| holds(m >> s, i) == (0 <= i < 64 && holds(m, i + s)) by {
        if 0 <= i < 64 {
            lemma_bit_shr(m, s, i as u64);
        }
    }
    assert(BitSet(m >> s)@ =~= moved(BitSet(m)@, -(s as int)));
}

proof fn lemma_board_word(i: u64)
    by (bit_vector)
    requires
        i < 64,
    ensures
        bit_set(0x1f03f07f07e07cu64, i) == (i / 12 <= 4 && i % 12 <= 6 && 2 <= i / 12 + i % 12 && i
            / 12 + i % 12 <= 8),
{
}

/// The mask of the board holds the cells.
pub proof fn lemma_view_board()
    ensures
        BitSet(BOARD_WORD)@ == cells(),
{
    assert forall|i: int| holds(BOARD_WORD, i) == on_board(i) by {
        if 0 <= i < 64 {
            lemma_board_word(i as u64);
        }
    }
    assert(BitSet(BOARD_WORD)@ =~= cells());
}

/// The members of a set below `n`.
pub open spec fn below(s: Set<int>, n: int) -> Set<int> {
    Set::new(|i: int| 0 <= i < n && s.contains(i))
}

proof fn lemma_ones_below_len(m: u64, n: nat)
    requires
        n <= 64,
    ensures
        below(BitSet(m)@, n as int).finite(),
        below(BitSet(m)@, n as int).len() == ones_below(m, n),
    decreases n,
{
    let s = BitSet(m)@;
    if n == 0 {
        assert(below(s, 0) =~= Set::<int>::empty());
    } else {
        lemma_ones_below_len(m, (n - 1) as nat);
        if bit_set(m, (n - 1) as u64) {
            assert(below(s, n as int) =~= below(s, n - 1).insert(n - 1));
        } else {
            assert(below(s, n as int) =~= below(s, n - 1));
        }
    }
}

/// A mask holds as many positions as it has ones.
pub proof fn lemma_view_len(m: u64)
    ensures
        BitSet(m)@.finite(),
        BitSet(m)@.len() == ones_below(m, 64),
        BitSet(m)@.len() <= 64,
{
    lemma_ones_below_len(m, 64);
    assert(below(BitSet(m)@, 64) =~= BitSet(m)@);
    lemma_view_bounds(BitSet(m));
    vstd::set_lib::lemma_len_subset(BitSet(m)@, positions());
}

impl BitSet {
    /// The members that are cells, in ascending order of their codes.
    pub open spec fn spec_tiles(self) -> Seq<Tile> {
        cells_below(self@, 64)
    }

    /// Whether the cell is a member.
    pub open spec fn has(self, tile: Tile) -> bool {
        self@.contains(tile.0 as int)
    }

    /// The set without members.
    pub fn empty() -> (r: BitSet)
        ensures
            r@ == Set::<int>::empty(),
            r == BitSet(0),
    {
        proof {
            lemma_view_empty();
        }
        BitSet(0)
    }

    /// Number of members.
    pub fn count(&self) -> (r: u32)
        ensures
            r == self@.len(),
            r <= 64,
    {
        proof {
            lemma_view_len(self.0);
        }
        self.0.count_ones()
    }

    fn bit_mask(bit: u8) -> (r: BitSet)
        requires
            bit < 64,
        ensures
            r@ == set![bit as int],
            r == BitSet(1u64 << bit),
    {
        proof {
            lemma_view_single(bit as u64);
            assert(1u64 << (bit as u64) == 1u64 << bit) by (bit_vector);
        }
        BitSet(1u64 << bit)
    }

    /// The set that holds the one cell.
    pub fn tile_mask(tile: &Tile) -> (r: BitSet)
        requires
            tile.0 < 64,
        ensures
            r@ == set![tile.0 as int],
    {
        Self::bit_mask(tile_to_bit(tile))
    }

    /// The members of both sets.
    pub fn intersection(self, other: BitSet) -> (r: BitSet)
        ensures
            r@ == self@.intersect(other@),
            r == BitSet(self.0 & other.0),
    {
        proof {
            lemma_view_and(self.0, other.0);
        }
        BitSet(self.0 & other.0)
    }

    /// The members of either set.
    pub fn union(self, other: BitSet) -> (r: BitSet)
        ensures
            r@ == self@.union(other@),
            r == BitSet(self.0 | other.0),
    {
        proof {
            lemma_view_or(self.0, other.0);
        }
        BitSet(self.0 | other.0)
    }

    /// The positions that are not members.
    pub fn complement(self) -> (r: BitSet)
        ensures
            r@ == positions().difference(self@),
            r == BitSet(!self.0),
    {
        proof {
            lemma_view_not(self.0);
        }
        BitSet(!self.0)
    }

    /// Puts the cell into the set.
    pub fn set(&mut self, location: &Tile)
        requires
            location.0 < 64,
        ensures
            final(self)@ == old(self)@.insert(location.0 as int),
    {
        let mask = Self::tile_mask(location);
        *self = self.union(mask);
        assert(self@ =~= old(self)@.insert(location.0 as int));
    }

    /// Whether the cell is a member.
    pub fn get(&self, location: &Tile) -> (r: bool)
        requires
            location.0 < 64,
        ensures
            r == self.has(*location),
    {
        let both = self.intersection(Self::tile_mask(location));
        let r = both.is_not_empty();
        proof {
            if self.has(*location) {
                assert(both@.contains(location.0 as int));
            } else {
                assert(both@ =~= Set::<int>::empty());
            }
        }
        r
    }

    /// Whether the position is a member. Positions from 64 on never are.
    pub fn get_at_bit(&self, bit: u8) -> (r: bool)
        ensures
            r == self@.contains(bit as int),
    {
        if bit < 64 {
            self.get(&Tile(bit))
        } else {
            false
        }
    }

    /// Takes the cell out of the set.
    pub fn unset(&mut self, location: &Tile)
        requires
            location.0 < 64,
        ensures
            final(self)@ == old(self)@.remove(location.0 as int),
    {
        let mask = Self::tile_mask(location);
        *self = self.intersection(mask.complement());
        assert(self@ =~= old(self)@.remove(location.0 as int)) by {
            lemma_view_bounds(*old(self));
        }
    }

    /// Adds the members of `mask` where `flag` holds, and removes them
    /// where it does not.
    pub fn set_mask_bool(&mut self, flag: bool, mask: BitSet)
        ensures
            final(self)@ == if flag {
                old(self)@.union(mask@)
            } else {
                old(self)@.difference(mask@)
            },
    {
        if flag {
            *self = self.union(mask);
        } else {
            *self = self.intersection(mask.complement());
            assert(self@ =~= old(self)@.difference(mask@)) by {
                lemma_view_bounds(*old(self));
            }
        }
    }

    /// Takes the cell out of the set, and says whether it was a member.
    pub fn remove(&mut self, location: &Tile) -> (r: bool)
        requires
            location.0 < 64,
        ensures
            r == old(self).has(*location),
            final(self)@ == old(self)@.remove(location.0 as int),
    {
        let removed = self.get(location);
        self.unset(location);
        removed
    }

    /// The set of all cells.
    pub fn board_mask() -> (r: BitSet)
        ensures
            r@ == cells(),
            r == BitSet(BOARD_WORD),
    {
        proof {
            lemma_view_board();
        }
        BitSet(BOARD_WORD)
    }

    /// The members that are cells, in ascending order of their codes.
    pub fn into_iter(self) -> (r: Vec<Tile>)
        ensures
            r@ == self.spec_tiles(),
    {
        let mut out: Vec<Tile> = Vec::new();
        let mut i: usize = 0;
        proof {
            lemma_board_bits(0);
            lemma_cells_below_skip(self@, 0, 2);
        }
        while i < 29
            invariant
                i <= 29,
                out@ == cells_below(self@, board_bit(i as int) as nat),
            decreases 29 - i,
        {
            let bit = BOARD_BITS[i];
            proof {
                lemma_board_bits(i as int);
                lemma_cells_below_skip(self@, (bit + 1) as nat, board_bit(i + 1) as nat);
            }
            if self.get_at_bit(bit) {
                out.push(bit_to_tile(bit));
            }
            assert(out@ == cells_below(self@, (bit + 1) as nat));
            i += 1;
        }
        proof {
            lemma_board_bits(28);
            lemma_cells_below_skip(self@, 53, 64);
        }
        out
    }

    /// Whether the set has a member.
    pub fn is_not_empty(&self) -> (r: bool)
        ensures
            r == (self@ != Set::<int>::empty()),
            r == (self@.len() > 0),
            r == exists|i: int| self@.contains(i),
    {
        proof {
            lemma_view_nonzero(self.0);
            if !(exists|i: int| self@.contains(i)) {
                assert(self@ =~= Set::<int>::empty());
            }
        }
        self.0 > 0
    }
}

/// The code of the cell that comes `i`-th in ascending order; 53, one past
/// the last code, for `i = 29`.
pub open spec fn board_bit(i: int) -> int {
    if i < 5 {
        2 + i
    } else if i < 11 {
        13 + (i - 5)
    } else if i < 18 {
        24 + (i - 11)
    } else if i < 24 {
        36 + (i - 18)
    } else {
        48 + (i - 24)
    }
}

/// [`BOARD_BITS`] lists the cells in ascending order, and no position
/// between two entries is a cell.
pub proof fn lemma_board_bits(i: int)
    requires
        0 <= i < 29,
    ensures
        BOARD_BITS[i] == board_bit(i),
        on_board(board_bit(i)),
        board_bit(i) < board_bit(i + 1) <= 53,
        forall|c: int| board_bit(i) < c < board_bit(i + 1) ==> !on_board(c),
        forall|c: int| 0 <= c < board_bit(0) ==> !on_board(c),
        forall|c: int| 53 <= c ==> !on_board(c),
{
}

/// Positions that are not cells add nothing to [`cells_below`].
pub proof fn lemma_cells_below_skip(s: Set<int>, lo: nat, hi: nat)
    requires
        lo <= hi,
        forall|c: int| lo <= c < hi ==> !on_board(c),
    ensures
        cells_below(s, hi) == cells_below(s, lo),
    decreases hi - lo,
{
    if lo < hi {
        lemma_cells_below_skip(s, lo, (hi - 1) as nat);
    }
}

/// The positions below 64 to which one of the first `n` steps of a species
/// leads from some position in `origins`.
pub open spec fn reached(origins: Set<int>, color: Player, species: Species, n: int) -> Set<int> {
    Set::new(
        |d: int|
            0 <= d < 64 && exists|j: int|
                0 <= j < n && origins.contains(d - color.sign() * #[trigger] steps(species)[j]),
    )
}

proof fn lemma_reached_all(origins: Set<int>, color: Player, species: Species)
    requires
        origins.subset_of(positions()),
    ensures
        reached(origins, color, species, steps(species).len() as int).intersect(cells())
            == destinations(origins, color, species),
{
    let n = steps(species).len() as int;
    let lhs = reached(origins, color, species, n).intersect(cells());
    let rhs = destinations(origins, color, species);
    assert forall|d: int| lhs.contains(d) implies rhs.contains(d) by {
        let j = choose|j: int|
            0 <= j < n && origins.contains(d - color.sign() * #[trigger] steps(species)[j]);
        let o = d - color.sign() * steps(species)[j];
        assert((d - o) * color.sign() == steps(species)[j]);
        assert(origins.contains(o) && steps_to(color, species, o, d));
    }
    assert forall|d: int| rhs.contains(d) implies lhs.contains(d) by {
        let o = choose|o: int| #[trigger] origins.contains(o) && steps_to(color, species, o, d);
        let k = (d - o) * color.sign();
        let j = choose|j: int| 0 <= j < n && steps(species)[j] == k;
        assert(d - color.sign() * steps(species)[j] == o);
    }
    assert(lhs =~= rhs);
}

impl BitSet {
    /// The steps of a species, for White.
    fn step_list(species: Species) -> (r: Vec<i32>)
        ensures
            r@.len() == steps(species).len(),
            forall|j: int| 0 <= j < r@.len() ==> r@[j] == #[trigger] steps(species)[j],
            forall|j: int| 0 <= j < r@.len() ==> -64 < #[trigger] r@[j] < 64,
    {
        match species {
            Species::Flat => vec![1, 12, -11],
            Species::Lone(tall) | Species::Stack(tall) => match tall {
                Tall::Hand => vec![2, -12, 11, -1],
                Tall::Blind => vec![24, -22, -12, 11, -2],
                Tall::Star => vec![-23, 23, 13, -13, 10, -10],
            },
        }
    }

    /// The members, each moved up by `by` positions; those that leave the
    /// word are dropped.
    fn shifted(self, by: i32) -> (r: BitSet)
        requires
            -64 < by < 64,
        ensures
            r@ == moved(self@, by as int),
    {
        if by >= 0 {
            let s: u64 = by as u64;
            proof {
                lemma_view_shl(self.0, s);
            }
            BitSet(self.0 << s)
        } else {
            let s: u64 = (-by) as u64;
            proof {
                lemma_view_shr(self.0, s);
            }
            BitSet(self.0 >> s)
        }
    }

    /// The cells to which a piece of the given side and species steps from
    /// some member of the set. A step is a fixed leap: nothing in between
    /// can block it.
    pub fn generate_move_destinations(&self, color: Player, species: Species) -> (r: BitSet)
        ensures
            r@ == destinations(self@, color, species),
    {
        let shifts = Self::step_list(species);
        let mut buffer = BitSet::empty();
        let mut idx: usize = 0;
        assert(buffer@ =~= reached(self@, color, species, 0));
        while idx < shifts.len()
            invariant
                idx <= shifts@.len(),
                shifts@.len() == steps(species).len(),
                forall|j: int| 0 <= j < shifts@.len() ==> shifts@[j] == #[trigger] steps(species)[j],
                forall|j: int| 0 <= j < shifts@.len() ==> -64 < #[trigger] shifts@[j] < 64,
                buffer@ == reached(self@, color, species, idx as int),
            decreases shifts@.len() - idx,
        {
            let shift = shifts[idx];
            let by = match color {
                Player::White => shift,
                Player::Black => -shift,
            };
            let ghost before = buffer@;
            buffer = buffer.union(self.shifted(by));
            proof {
                assert(by == color.sign() * steps(species)[idx as int]);
                let after = reached(self@, color, species, idx + 1);
                assert forall|d: int| buffer@.contains(d) implies after.contains(d) by {
                    if before.contains(d) {
                        let j = choose|j: int|
                            0 <= j < idx && self@.contains(
                                d - color.sign() * #[trigger] steps(species)[j],
                            );
                        assert(0 <= j < idx + 1);
                    } else {
                        assert(self@.contains(d - color.sign() * steps(species)[idx as int]));
                    }
                }
                assert forall|d: int| after.contains(d) implies buffer@.contains(d) by {
                    let j = choose|j: int|
                        0 <= j < idx + 1 && self@.contains(
                            d - color.sign() * #[trigger] steps(species)[j],
                        );
                    if j < idx {
                        assert(before.contains(d));
                    } else {
                        assert(moved(self@, by as int).contains(d));
                    }
                }
                assert(buffer@ =~= after);
            }
            idx += 1;
        }
        proof {
            lemma_view_bounds(*self);
            lemma_reached_all(self@, color, species);
        }
        buffer.intersection(Self::board_mask())
    }

    /// The cells to which a piece of the given side and species steps from
    /// the given cell.
    pub fn move_destinations_from_tile(from_tile: Tile, color: Player, species: Species) -> (r:
        BitSet)
        requires
            from_tile.0 < 64,
        ensures
            r@ == destinations(set![from_tile.0 as int], color, species),
            forall|d: int|
                r@.contains(d) <==> on_board(d) && steps_to(color, species, from_tile.0 as int, d),
    {
        let r = Self::tile_mask(&from_tile).generate_move_destinations(color, species);
        proof {
            let origins = set![from_tile.0 as int];
            assert forall|d: int| r@.contains(d) implies steps_to(
                color,
                species,
                from_tile.0 as int,
                d,
            ) by {
                let o = choose|o: int| #[trigger]
                    origins.contains(o) && steps_to(color, species, o, d);
            }
            assert forall|d: int|
                on_board(d) && steps_to(color, species, from_tile.0 as int, d) implies r@.contains(
                d,
            ) by {
                assert(origins.contains(from_tile.0 as int));
            }
        }
        r
    }
}

/// What is known of [`cells_below`]: it lists exactly the members that are
/// cells, each once, in ascending order.
pub proof fn lemma_cells_below(s: Set<int>, n: nat)
    requires
        n <= 64,
    ensures
        forall|k: int|
            0 <= k < cells_below(s, n).len() ==> {
                let t = #[trigger] cells_below(s, n)[k];
                t.wf() && t.0 < n && s.contains(t.0 as int)
            },
        forall|t: Tile|
            t.wf() && t.0 < n && s.contains(t.0 as int) ==> #[trigger] cells_below(s, n).contains(
                t,
            ),
        forall|j: int, k: int|
            0 <= j < k < cells_below(s, n).len() ==> (#[trigger] cells_below(s, n)[j]).0 < (
            #[trigger] cells_below(s, n)[k]).0,
        cells_below(s, n).len() <= n,
    decreases n,
{
    if n > 0 {
        let prev = cells_below(s, (n - 1) as nat);
        lemma_cells_below(s, (n - 1) as nat);
        let cur = cells_below(s, n);
        if on_board(n - 1) && s.contains(n - 1) {
            let last = Tile((n - 1) as u8);
            assert(cur == prev.push(last));
            assert forall|t: Tile|
                t.wf() && t.0 < n && s.contains(t.0 as int) implies #[trigger] cur.contains(t) by {
                if t.0 < n - 1 {
                    assert(prev.contains(t));
                    let k = choose|k: int| 0 <= k < prev.len() && prev[k] == t;
                    assert(cur[k] == t);
                } else {
                    assert(cur[prev.len() as int] == t);
                }
            }
        } else {
            assert(cur == prev);
        }
    }
}

/// Counts how often a position was named, up to two.
pub struct DoubleCounterBitset {
    bitplane1: BitSet,
    bitplane0: BitSet,
}

impl DoubleCounterBitset {
    /// The positions named at least once.
    pub closed spec fn once(self) -> Set<int> {
        self.bitplane0@
    }

    /// The positions named at least twice.
    pub closed spec fn twice(self) -> Set<int> {
        self.bitplane1@
    }

    /// A counter that has seen nothing.
    pub fn new() -> (r: Self)
        ensures
            r.once() == Set::<int>::empty(),
            r.twice() == Set::<int>::empty(),
    {
        Self { bitplane0: BitSet::empty(), bitplane1: BitSet::empty() }
    }

    /// Names each member of `mask` once more.
    pub fn add(&mut self, mask: BitSet)
        ensures
            final(self).once() == old(self).once().union(mask@),
            final(self).twice() == old(self).twice().union(old(self).once().intersect(mask@)),
    {
        let carry = self.bitplane0.intersection(mask);
        self.bitplane1 = self.bitplane1.union(carry);
        self.bitplane0 = self.bitplane0.union(mask);
    }

    /// The positions named at least twice.
    pub fn get_doubles(&self) -> (r: BitSet)
        ensures
            r@ == self.twice(),
    {
        self.bitplane1
    }
}

/// Number of cells with a code below `n`.
pub open spec fn cells_before(n: nat) -> nat
    decreases n,
{
    if n == 0 {
        0
    } else {
        cells_before((n - 1) as nat) + if on_board(n - 1) {
            1nat
        } else {
            0nat
        }
    }
}

proof fn lemma_cells_before_rows()
    ensures
        cells_before(12) == 5,
        cells_before(24) == 11,
        cells_before(36) == 18,
        cells_before(48) == 24,
        cells_before(64) == 29,
{
    reveal_with_fuel(cells_before, 13);
    assert(cells_before(12) == 5);
    assert(cells_before(24) == 11);
    assert(cells_before(36) == 18);
    assert(cells_before(48) == 24);
    assert(cells_before(56) == 29);
    assert(cells_before(64) == 29);
}

proof fn lemma_cells_count(n: nat)
    ensures
        below(cells(), n as int).finite(),
        below(cells(), n as int).len() == cells_before(n),
    decreases n,
{
    if n == 0 {
        assert(below(cells(), 0) =~= Set::<int>::empty());
    } else {
        lemma_cells_count((n - 1) as nat);
        if on_board(n - 1) {
            assert(below(cells(), n as int) =~= below(cells(), n - 1).insert(n - 1));
        } else {
            assert(below(cells(), n as int) =~= below(cells(), n - 1));
        }
    }
}

/// The board has 29 cells, and no set of cells has more members.
pub proof fn lemma_cells_len(s: Set<int>)
    requires
        s.subset_of(cells()),
    ensures
        cells().finite(),
        cells().len() == 29,
        s.finite(),
        s.len() <= 29,
{
    lemma_cells_count(64);
    lemma_cells_before_rows();
    assert(below(cells(), 64) =~= cells());
    lemma_set_subset_finite(cells(), s);
    vstd::set_lib::lemma_len_subset(s, cells());
}

/// No list of cells in ascending order is longer than the board has cells.
pub proof fn lemma_cells_below_len(s: Set<int>)
    ensures
        cells_below(s, 64).len() <= 29,
{
    lemma_cells_below_count(s, 64);
    lemma_cells_before_rows();
}

proof fn lemma_cells_below_count(s: Set<int>, n: nat)
    ensures
        cells_below(s, n).len() <= cells_before(n),
    decreases n,
{
    if n > 0 {
        lemma_cells_below_count(s, (n - 1) as nat);
    }
}

/// A mask that holds the members of `s` below `n`.
pub proof fn lemma_mask_below(s: Set<int>, n: nat) -> (b: BitSet)
    requires
        n <= 64,
    ensures
        b@ == below(s, n as int),
    decreases n,
{
    if n == 0 {
        lemma_view_empty();
        assert(BitSet(0)@ =~= below(s, 0));
        BitSet(0)
    } else {
        let prev = lemma_mask_below(s, (n - 1) as nat);
        if s.contains(n - 1) {
            let bit = 1u64 << ((n - 1) as u64);
            lemma_view_single((n - 1) as u64);
            lemma_view_or(prev.0, bit);
            assert(BitSet(prev.0 | bit)@ =~= below(s, n as int));
            BitSet(prev.0 | bit)
        } else {
            assert(prev@ =~= below(s, n as int));
            prev
        }
    }
}

/// The cells of the board, in ascending order of their codes.
pub open spec fn all_cells() -> Seq<Tile> {
    cells_below(positions(), 64)
}

/// The pairs of the numbers from `lo` to `hi`, by `itertools`'
/// `cartesian_product` of the range with itself: the first number runs
/// slowest.
#[verifier::external_body]
fn grid(lo: i8, hi: i8) -> (r: Vec<(i8, i8)>)
    requires
        lo <= hi,
    ensures
        r@.len() == (hi - lo + 1) * (hi - lo + 1),
        forall|i: int|
            0 <= i < r@.len() ==> #[trigger] r@[i] == (
                (lo + i / (hi - lo + 1)) as i8,
                (lo + i % (hi - lo + 1)) as i8,
            ),
{
    itertools::Itertools::cartesian_product(lo..=hi, lo..=hi).collect()
}

/// The code up to which the cells are listed when the `i`-th pair of the
/// grid comes up.
spec fn grid_bound(i: int) -> int {
    if i < 7 {
        0
    } else {
        12 * (i / 7 - 1) + i % 7
    }
}

impl Tile {
    /// The cells of the board, in ascending order of their codes.
    pub fn all_tiles() -> (r: Vec<Tile>)
        ensures
            r@ == all_cells(),
    {
        let pairs = grid(-BOARD_RADIUS, BOARD_RADIUS);
        let mut out: Vec<Tile> = Vec::new();
        let mut i: usize = 0;
        assert(pairs@.len() == 49) by (nonlinear_arith)
            requires
                pairs@.len() == (3 - (-3) + 1) * (3 - (-3) + 1),
        ;
        while i < pairs.len()
            invariant
                i <= 49,
                pairs@.len() == 49,
                forall|k: int|
                    0 <= k < 49 ==> #[trigger] pairs@[k] == ((-3 + k / 7) as i8, (-3 + k % 7) as i8),
                out@ == cells_below(positions(), grid_bound(i as int) as nat),
            decreases 49 - i,
        {
            let (x, y) = pairs[i];
            let found = Tile::from_xyz(x, y, -x - y);
            proof {
                let c = 12 * (i as int / 7 - 1) + i as int % 7;
                assert(x == -3 + i as int / 7 && y == -3 + i as int % 7);
                if i >= 7 {
                    assert(found is Some == on_board(c));
                    if found is Some {
                        assert(found.unwrap() == Tile(c as u8));
                    }
                    lemma_cells_below_skip(
                        positions(),
                        (c + 1) as nat,
                        grid_bound(i as int + 1) as nat,
                    );
                } else {
                    assert(found is None);
                    if i == 6 {
                        assert(grid_bound(7) == 0);
                    }
                }
            }
            if let Some(t) = found {
                out.push(t);
            }
            i += 1;
        }
        proof {
            assert(grid_bound(49) == 72);
            lemma_cells_below_skip(positions(), 64, 72);
        }
        out
    }
}

impl core::ops::BitOr for BitSet {
    type Output = BitSet;

    fn bitor(self, rhs: Self) -> (r: BitSet) {
        self.union(rhs)
    }
}

impl vstd::std_specs::ops::BitOrSpecImpl for BitSet {
    open spec fn obeys_bitor_spec() -> bool {
        true
    }

    open spec fn bitor_req(self, rhs: Self) -> bool {
        true
    }

    open spec fn bitor_spec(self, rhs: Self) -> BitSet {
        BitSet(self.0 | rhs.0)
    }
}

impl core::ops::BitAnd for BitSet {
    type Output = BitSet;

    fn bitand(self, rhs: Self) -> (r: BitSet) {
        self.intersection(rhs)
    }
}

impl vstd::std_specs::ops::BitAndSpecImpl for BitSet {
    open spec fn obeys_bitand_spec() -> bool {
        true
    }

    open spec fn bitand_req(self, rhs: Self) -> bool {
        true
    }

    open spec fn bitand_spec(self, rhs: Self) -> BitSet {
        BitSet(self.0 & rhs.0)
    }
}

impl core::ops::Not for BitSet {
    type Output = BitSet;

    fn not(self) -> (r: BitSet) {
        self.complement()
    }
}

impl vstd::std_specs::ops::NotSpecImpl for BitSet {
    open spec fn obeys_not_spec() -> bool {
        true
    }

    open spec fn not_req(self) -> bool {
        true
    }

    open spec fn not_spec(self) -> BitSet {
        BitSet(!self.0)
    }
}

/// The list of the cells among the members of a set below `n` is as long
/// as the set has such members.
pub proof fn lemma_cells_below_card(s: Set<int>, n: nat)
    ensures
        below(s.intersect(cells()), n as int).finite(),
        cells_below(s, n).len() == below(s.intersect(cells()), n as int).len(),
        n >= 64 ==> below(s.intersect(cells()), n as int) == s.intersect(cells()),
    decreases n,
{
    let t = s.intersect(cells());
    if n == 0 {
        assert(below(t, 0) =~= Set::<int>::empty());
    } else {
        lemma_cells_below_card(s, (n - 1) as nat);
        if on_board(n - 1) && s.contains(n - 1) {
            assert(below(t, n as int) =~= below(t, n - 1).insert(n - 1));
        } else {
            assert(below(t, n as int) =~= below(t, n - 1));
        }
    }
    if n >= 64 {
        assert(below(t, n as int) =~= t);
    }
}

} // verus!
