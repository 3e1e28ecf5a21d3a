//! The cells of the board and the pieces that stand on them.

use vstd::prelude::*;

verus! {

/// Distance from the centre to the far corners, along the long axes.
pub const BOARD_RADIUS: i8 = 3;

/// Distance from the centre to the edge, along the short axis.
pub const BOARD_SHORT_RADIUS: i8 = 2;

/// Number of cells.
pub const BOARD_SIZE: usize = 29;

/// Distance between the codes of two cells that differ by one in `x` alone.
/// It is wide enough that no step of a piece carries from one row into the
/// valid part of another.
pub const ROW_OFFSET: u8 = 12;

/// Whether `code` names a cell: with `ux = code / 12` and `uy = code % 12`,
/// the point `(ux - 2, uy - 3, 5 - ux - uy)` lies within the bounds of the
/// board.
pub open spec fn on_board(code: int) -> bool {
    let ux = code / 12;
    let uy = code % 12;
    &&& 0 <= code
    &&& ux <= 4
    &&& uy <= 6
    &&& 2 <= ux + uy <= 8
}

/// Whether the axial point `(x, y, z)` lies on the board.
pub open spec fn in_bounds(x: int, y: int, z: int) -> bool {
    &&& x + y + z == 0
    &&& -2 <= x <= 2
    &&& -3 <= y <= 3
    &&& -3 <= z <= 3
}

/// One of the two sides.
#[derive(Clone, Copy, PartialEq, Eq, Structural, Hash, Debug)]
pub enum Player {
    White,
    Black,
}

impl Player {
    /// The opposing side.
    pub open spec fn other(self) -> Player {
        match self {
            Player::White => Player::Black,
            Player::Black => Player::White,
        }
    }

    /// `+1` for White and `-1` for Black: the direction in which a side's
    /// pieces advance along the codes of the cells.
    pub open spec fn sign(self) -> int {
        match self {
            Player::White => 1,
            Player::Black => -1,
        }
    }

    /// A length along White's direction of play, seen from this side: the
    /// length for White, its negative for Black.
    pub open spec fn toward(self, v: int) -> int {
        match self {
            Player::White => v,
            Player::Black => -v,
        }
    }

    /// The opposing side.
    pub fn flip(&self) -> (r: Player)
        ensures
            r == self.other(),
    {
        match self {
            Player::White => Player::Black,
            Player::Black => Player::White,
        }
    }
}

/// The three kinds of piece that stand upright.
#[derive(Clone, Copy, PartialEq, Eq, Structural, Hash, Debug)]
pub enum Tall {
    Hand,
    Blind,
    Star,
}

impl Tall {
    /// Worth of the piece, in tenths of a point.
    pub open spec fn spec_value(self) -> int {
        match self {
            Tall::Hand => 20,
            Tall::Blind => 30,
            Tall::Star => 30,
        }
    }

    /// Worth of the piece, in tenths of a point.
    pub fn value(&self) -> (r: i32)
        ensures
            r == self.spec_value(),
    {
        match self {
            Tall::Hand => 20,
            Tall::Blind => 30,
            Tall::Star => 30,
        }
    }
}

/// What stands on a cell: a flat piece, an upright one, or an upright one
/// riding on a flat one.
#[derive(Clone, Copy, PartialEq, Eq, Structural, Hash, Debug)]
pub enum Species {
    Flat,
    Lone(Tall),
    Stack(Tall),
}

impl Species {
    /// The seven species, in the order of their codes.
    pub open spec fn all() -> Seq<Species> {
        seq![
            Species::Flat,
            Species::Lone(Tall::Hand),
            Species::Lone(Tall::Blind),
            Species::Lone(Tall::Star),
            Species::Stack(Tall::Hand),
            Species::Stack(Tall::Blind),
            Species::Stack(Tall::Star),
        ]
    }

    /// Worth of the piece, in tenths of a point. A stack is worth a little
    /// less than its two parts.
    pub open spec fn spec_value(self) -> int {
        match self {
            Species::Flat => 20,
            Species::Lone(tall) => tall.spec_value(),
            Species::Stack(tall) => 20 + tall.spec_value() - 2,
        }
    }

    /// Worth of the piece, in tenths of a point.
    pub fn value(&self) -> (r: i32)
        ensures
            r == self.spec_value(),
    {
        match self {
            Species::Flat => 20,
            Species::Lone(tall) => tall.value(),
            Species::Stack(tall) => (20 + tall.value()) - 2,
        }
    }

    /// Position of the species in [`Species::all`].
    pub open spec fn spec_code(self) -> u8 {
        match self {
            Species::Flat => 0,
            Species::Lone(Tall::Hand) => 1,
            Species::Lone(Tall::Blind) => 2,
            Species::Lone(Tall::Star) => 3,
            Species::Stack(Tall::Hand) => 4,
            Species::Stack(Tall::Blind) => 5,
            Species::Stack(Tall::Star) => 6,
        }
    }

    /// Position of the species in [`Species::all`].
    pub fn code(&self) -> (r: u8)
        ensures
            r == self.spec_code(),
            r < 7,
            Species::all()[r as int] == *self,
    {
        match self {
            Species::Flat => 0,
            Species::Lone(tall) => match tall {
                Tall::Hand => 1,
                Tall::Blind => 2,
                Tall::Star => 3,
            },
            Species::Stack(tall) => match tall {
                Tall::Hand => 4,
                Tall::Blind => 5,
                Tall::Star => 6,
            },
        }
    }

    /// The species with the given code.
    pub fn from_code(code: u8) -> (r: Species)
        requires
            code < 7,
        ensures
            r == Species::all()[code as int],
            r.spec_code() == code,
    {
        match code {
            0 => Species::Flat,
            1 => Species::Lone(Tall::Hand),
            2 => Species::Lone(Tall::Blind),
            3 => Species::Lone(Tall::Star),
            4 => Species::Stack(Tall::Hand),
            5 => Species::Stack(Tall::Blind),
            _ => Species::Stack(Tall::Star),
        }
    }

    /// Weight of the piece's place on the board, in tenths.
    pub open spec fn spec_positional_weight(self) -> int {
        match self {
            Species::Flat => 10,
            Species::Lone(_) => 1,
            Species::Stack(_) => 11,
        }
    }

    /// Weight of the piece's place on the board, in tenths.
    pub fn positional_weight(&self) -> (r: i32)
        ensures
            r == self.spec_positional_weight(),
    {
        match self {
            Species::Flat => 10,
            Species::Lone(_) => 1,
            Species::Stack(_) => 11,
        }
    }

    /// The piece that moves when this one is picked up: of a stack only the
    /// upright piece.
    pub open spec fn lone(self) -> Species {
        match self {
            Species::Stack(tall) => Species::Lone(tall),
            _ => self,
        }
    }

    /// The piece that moves when this one is picked up.
    pub fn to_lone(&self) -> (r: Species)
        ensures
            r == self.lone(),
    {
        match self {
            Species::Flat => Species::Flat,
            Species::Lone(tall) => Species::Lone(*tall),
            Species::Stack(tall) => Species::Lone(*tall),
        }
    }

    /// The single pieces that make up this one, the flat one first.
    pub open spec fn parts(self) -> Seq<Species> {
        match self {
            Species::Stack(tall) => seq![Species::Flat, Species::Lone(tall)],
            _ => seq![self],
        }
    }

    /// The single pieces that make up this one, the flat one first.
    pub fn unstack(self) -> (r: Vec<Species>)
        ensures
            r@ == self.parts(),
    {
        let mut out: Vec<Species> = Vec::new();
        match self {
            Species::Stack(tall) => {
                out.push(Species::Flat);
                out.push(Species::Lone(tall));
            },
            _ => {
                out.push(self);
            },
        }
        out
    }
}

/// A piece with its owner.
#[derive(Clone, Copy, PartialEq, Eq, Structural, Hash, Debug)]
pub struct Piece {
    pub color: Player,
    pub species: Species,
}

impl Piece {
    /// The single pieces that make up this one, the flat one first.
    pub open spec fn parts(self) -> Seq<Piece> {
        Seq::new(
            self.species.parts().len(),
            |i: int| Piece { color: self.color, species: self.species.parts()[i] },
        )
    }

    /// The single pieces that make up this one, the flat one first.
    pub fn unstack(self) -> (r: Vec<Piece>)
        ensures
            r@ == self.parts(),
    {
        let color = self.color;
        let mut out: Vec<Piece> = Vec::new();
        match self.species {
            Species::Stack(tall) => {
                out.push(Piece { color, species: Species::Flat });
                out.push(Piece { color, species: Species::Lone(tall) });
            },
            _ => {
                out.push(self);
            },
        }
        out
    }

    /// Worth of the piece, in tenths of a point.
    pub fn value(&self) -> (r: i32)
        ensures
            r == self.species.spec_value(),
    {
        self.species.value()
    }
}

/// One value for each side.
#[derive(Clone, Debug, PartialEq, Eq, Hash)]
pub struct PlayerMap<T> {
    pub white: T,
    pub black: T,
}

impl<T> PlayerMap<T> {
    /// The value of a side.
    pub open spec fn spec_index(self, index: Player) -> T {
        match index {
            Player::White => self.white,
            Player::Black => self.black,
        }
    }

    /// A map with the given values.
    pub fn new(white: T, black: T) -> (r: PlayerMap<T>)
        ensures
            r.white == white,
            r.black == black,
    {
        PlayerMap { white, black }
    }

    /// A map in which `first_player` has `first_value` and the other side
    /// has `other_value`.
    pub fn new_on_player(first_player: Player, first_value: T, other_value: T) -> (r: Self)
        ensures
            r.spec_index(first_player) == first_value,
            r.spec_index(first_player.other()) == other_value,
    {
        match first_player {
            Player::White => Self::new(first_value, other_value),
            Player::Black => Self::new(other_value, first_value),
        }
    }

    /// The value of a side.
    pub fn index(&self, index: Player) -> (r: &T)
        ensures
            *r == self.spec_index(index),
    {
        match index {
            Player::White => &self.white,
            Player::Black => &self.black,
        }
    }

    /// Gives a side a new value.
    pub fn set(&mut self, index: Player, value: T)
        ensures
            final(self).spec_index(index) == value,
            final(self).spec_index(index.other()) == old(self).spec_index(index.other()),
    {
        match index {
            Player::White => {
                self.white = value;
            },
            Player::Black => {
                self.black = value;
            },
        }
    }

    /// The two sides with their values, White first.
    pub fn into_iter(&self) -> (r: [(Player, &T); 2])
        ensures
            r[0] == (Player::White, &self.white),
            r[1] == (Player::Black, &self.black),
    {
        [(Player::White, &self.white), (Player::Black, &self.black)]
    }
}

impl<T: Clone> PlayerMap<T> {
    /// A map in which Black has the value and White a clone of it.
    pub fn twin(value: T) -> (r: PlayerMap<T>)
        ensures
            r.black == value,
            cloned(value, r.white),
    {
        PlayerMap { white: value.clone(), black: value }
    }
}

/// How often each of `list`'s first `n` entries has the species with the
/// given code.
pub open spec fn tally(list: Seq<Species>, code: int, n: nat) -> nat
    decreases n,
{
    if n == 0 {
        0
    } else {
        tally(list, code, (n - 1) as nat) + if list[n - 1].spec_code() == code {
            1nat
        } else {
            0nat
        }
    }
}

/// The pieces that a side has taken: how many of each species.
#[derive(Clone, Copy, PartialEq, Eq, Debug)]
pub struct Captured(pub [u8; 7]);

impl View for Captured {
    type V = Seq<u8>;

    /// The number of pieces of each species, by the species' code.
    open spec fn view(&self) -> Seq<u8> {
        self.0@
    }
}

impl Captured {
    /// The species that occur among the first `n`, each with its number,
    /// in the order of their codes.
    pub open spec fn counts_upto(self, n: nat) -> Seq<(Species, u8)>
        decreases n,
    {
        if n == 0 {
            Seq::empty()
        } else if self@[n - 1] > 0 {
            self.counts_upto((n - 1) as nat).push((Species::all()[n - 1], self@[n - 1]))
        } else {
            self.counts_upto((n - 1) as nat)
        }
    }

    /// The pieces of the first `n` species, each species as often as it was
    /// taken, in the order of the codes.
    pub open spec fn pieces_upto(self, n: nat) -> Seq<Species>
        decreases n,
    {
        if n == 0 {
            Seq::empty()
        } else {
            self.pieces_upto((n - 1) as nat) + Seq::new(
                self@[n - 1] as nat,
                |i: int| Species::all()[n - 1],
            )
        }
    }

    /// Number of pieces of the first `n` species.
    pub open spec fn total_upto(self, n: nat) -> nat
        decreases n,
    {
        if n == 0 {
            0
        } else {
            self.total_upto((n - 1) as nat) + self@[n - 1] as nat
        }
    }

    /// Number of species among the first `n` of which a piece was taken.
    pub open spec fn kinds_upto(self, n: nat) -> nat
        decreases n,
    {
        if n == 0 {
            0
        } else {
            self.kinds_upto((n - 1) as nat) + if self@[n - 1] > 0 {
                1nat
            } else {
                0nat
            }
        }
    }

    /// Nothing taken.
    pub open spec fn spec_empty() -> Captured {
        Captured([0u8, 0u8, 0u8, 0u8, 0u8, 0u8, 0u8])
    }

    /// Nothing taken.
    pub fn empty() -> (r: Captured)
        ensures
            r == Captured::spec_empty(),
            r@ == Seq::new(7, |i: int| 0u8),
    {
        let r = Captured([0, 0, 0, 0, 0, 0, 0]);
        assert(r@ =~= Seq::new(7, |i: int| 0u8));
        r
    }

    /// Counts one more piece of the species.
    pub fn push(&mut self, pt: Species)
        requires
            old(self)@[pt.spec_code() as int] < u8::MAX,
        ensures
            final(self)@ == old(self)@.update(
                pt.spec_code() as int,
                (old(self)@[pt.spec_code() as int] + 1) as u8,
            ),
    {
        let idx = pt.code() as usize;
        let count = self.0[idx];
        self.0[idx] = count + 1;
    }

    /// The species of which a piece was taken, each with its number, in the
    /// order of their codes.
    pub fn iter_counts(&self) -> (r: Vec<(Species, u8)>)
        ensures
            r@ == self.counts_upto(7),
    {
        let mut out: Vec<(Species, u8)> = Vec::new();
        let mut code: u8 = 0;
        while code < 7
            invariant
                code <= 7,
                out@ == self.counts_upto(code as nat),
            decreases 7 - code,
        {
            let count = self.0[code as usize];
            if count > 0 {
                out.push((Species::from_code(code), count));
            }
            code += 1;
        }
        out
    }

    /// The pieces taken, in the order of the species' codes.
    pub fn iter(&self) -> (r: Vec<Species>)
        ensures
            r@ == self.pieces_upto(7),
    {
        let mut out: Vec<Species> = Vec::new();
        let mut code: u8 = 0;
        while code < 7
            invariant
                code <= 7,
                out@ == self.pieces_upto(code as nat),
            decreases 7 - code,
        {
            let count = self.0[code as usize];
            let pt = Species::from_code(code);
            let ghost base = out@;
            let mut i: u8 = 0;
            while i < count
                invariant
                    i <= count,
                    pt == Species::all()[code as int],
                    out@ == base + Seq::new(i as nat, |j: int| pt),
                decreases count - i,
            {
                out.push(pt);
                assert(out@ =~= base + Seq::new((i + 1) as nat, |j: int| pt));
                i += 1;
            }
            assert(out@ =~= self.pieces_upto((code + 1) as nat));
            code += 1;
        }
        out
    }

    /// Number of pieces taken.
    pub fn count(&self) -> (r: usize)
        ensures
            r == self.total_upto(7),
    {
        let mut total: usize = 0;
        let mut code: usize = 0;
        while code < 7
            invariant
                code <= 7,
                total == self.total_upto(code as nat),
                total <= 255 * code,
            decreases 7 - code,
        {
            total = total + self.0[code] as usize;
            code += 1;
        }
        total
    }

    /// Number of species of which a piece was taken.
    pub fn len(&self) -> (r: usize)
        ensures
            r == self.kinds_upto(7),
    {
        let mut kinds: usize = 0;
        let mut code: usize = 0;
        while code < 7
            invariant
                code <= 7,
                kinds == self.kinds_upto(code as nat),
                kinds <= code,
            decreases 7 - code,
        {
            if self.0[code] > 0 {
                kinds += 1;
            }
            code += 1;
        }
        kinds
    }

    /// Counts each piece of the list.
    pub fn extend(&mut self, pieces: &Vec<Species>)
        requires
            forall|c: int|
                0 <= c < 7 ==> old(self)@[c] + #[trigger] tally(pieces@, c, pieces@.len())
                    <= u8::MAX,
        ensures
            final(self)@.len() == 7,
            forall|c: int|
                0 <= c < 7 ==> final(self)@[c] == old(self)@[c] + #[trigger] tally(
                    pieces@,
                    c,
                    pieces@.len(),
                ),
    {
        let mut k: usize = 0;
        while k < pieces.len()
            invariant
                k <= pieces@.len(),
                self@.len() == 7,
                forall|c: int|
                    0 <= c < 7 ==> old(self)@[c] + #[trigger] tally(pieces@, c, pieces@.len())
                        <= u8::MAX,
                forall|c: int|
                    0 <= c < 7 ==> self@[c] == old(self)@[c] + #[trigger] tally(
                        pieces@,
                        c,
                        k as nat,
                    ),
            decreases pieces@.len() - k,
        {
            let pt = pieces[k];
            let ghost before = self@;
            proof {
                let c = pt.spec_code() as int;
                lemma_tally_grows(pieces@, c, (k + 1) as nat, pieces@.len());
                assert(before[c] == old(self)@[c] + tally(pieces@, c, k as nat));
                assert(old(self)@[c] + tally(pieces@, c, pieces@.len()) <= u8::MAX);
                assert(tally(pieces@, c, (k + 1) as nat) == tally(pieces@, c, k as nat) + 1);
            }
            self.push(pt);
            proof {
                assert forall|c: int| 0 <= c < 7 implies self@[c] == old(self)@[c]
                    + #[trigger] tally(pieces@, c, (k + 1) as nat) by {
                    assert(before[c] == old(self)@[c] + tally(pieces@, c, k as nat));
                }
            }
            k += 1;
        }
    }
}

/// A longer part of a list holds a species at least as often.
pub proof fn lemma_tally_grows(list: Seq<Species>, code: int, n: nat, m: nat)
    requires
        n <= m,
    ensures
        tally(list, code, n) <= tally(list, code, m),
    decreases m - n,
{
    if n < m {
        lemma_tally_grows(list, code, n, (m - 1) as nat);
    }
}

} // verus!
