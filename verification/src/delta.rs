//! Steps on the board in axial coordinates, and the cells that a piece
//! reaches by them.

use vstd::prelude::*;
use crate::bitboards::{destinations, steps, steps_to};
use crate::board::{on_board, Piece, Player, Species, Tall};
use crate::tile::Tile;

verus! {

/// The three low bits of `v` as a number from -4 to 3.
pub fn u3_to_i3(v: u8) -> (r: i8)
    ensures
        r == if v % 8 >= 4 {
            v % 8 - 8
        } else {
            (v % 8) as int
        },
{
    let low = v & 0b11;
    let high = v & 0b100;
    assert(low == v % 4 && (high != 0) == (v % 8 >= 4)) by (bit_vector)
        requires
            low == v & 0b11,
            high == v & 0b100,
    ;
    let low = low as i8;
    if high != 0 {
        low - 4
    } else {
        low
    }
}

/// A number from -4 to 3 in three bits, two's complement.
pub fn i3_to_u3(v: i8) -> (r: u8)
    ensures
        r == (v as int) % 8,
        r < 8,
{
    let r = (v as u8) & 0b111;
    assert(r == (v as int) % 8 && r < 8) by (bit_vector)
        requires
            r == (v as u8) & 0b111,
    ;
    r
}

/// A step on the board: `dx` in the three low bits and `dy` in the four
/// high bits, both in two's complement.
#[derive(Clone, Copy, PartialEq, Eq, Structural, Debug)]
pub struct Delta(pub u8);

impl Delta {
    /// Whether the step can be held: `dx` from -4 to 3, `dy` from -8 to 7.
    pub open spec fn fits(dx: int, dy: int) -> bool {
        -4 <= dx <= 3 && -8 <= dy <= 7
    }

    /// The step by `dx` and `dy`.
    pub open spec fn of(dx: int, dy: int) -> Delta {
        Delta(((dy % 16) * 16 + dx % 8) as u8)
    }

    /// The part of the step along `x`.
    pub open spec fn spec_dx(self) -> int {
        if self.0 % 8 >= 4 {
            self.0 % 8 - 8
        } else {
            (self.0 % 8) as int
        }
    }

    /// The part of the step along `y`.
    pub open spec fn spec_dy(self) -> int {
        if self.0 / 16 >= 8 {
            self.0 / 16 - 16
        } else {
            (self.0 / 16) as int
        }
    }

    /// The part of the step along `z`, which makes the three sum to zero.
    pub open spec fn spec_dz(self) -> int {
        -self.spec_dx() - self.spec_dy()
    }

    /// The step by `(dx, dy, dz)`.
    pub fn from_xyz(dx: i8, dy: i8, dz: i8) -> (r: Delta)
        requires
            dx + dy + dz == 0,
            Delta::fits(dx as int, dy as int),
        ensures
            r == Delta::of(dx as int, dy as int),
            r.spec_dx() == dx,
            r.spec_dy() == dy,
            r.spec_dz() == dz,
    {
        let udx = i3_to_u3(dx);
        let udy = dy as u8;
        let packed = (udy << 4) | udx;
        assert(packed == ((dy as int) % 16) * 16 + udx) by (bit_vector)
            requires
                udx < 8,
                udy == dy as u8,
                packed == (udy << 4) | udx,
        ;
        Delta(packed)
    }

    /// The part of the step along `x`.
    pub fn dx(&self) -> (r: i8)
        ensures
            r == self.spec_dx(),
    {
        u3_to_i3(self.0)
    }

    /// The part of the step along `y`.
    pub fn dy(&self) -> (r: i8)
        ensures
            r == self.spec_dy(),
    {
        let packed = self.0;
        let r = (packed as i8) >> 4;
        assert(r == if packed / 16 >= 8 {
            packed / 16 - 16
        } else {
            (packed / 16) as int
        }) by (bit_vector)
            requires
                r == (packed as i8) >> 4,
        ;
        r
    }

    /// The part of the step along `z`.
    pub fn dz(&self) -> (r: i8)
        ensures
            r == self.spec_dz(),
    {
        -self.dx() - self.dy()
    }
}

impl Delta {
    /// One cell ahead for White.
    pub fn wh_forward() -> (r: Delta)
        ensures
            r.spec_dx() == 0,
            r.spec_dy() == 1,
    {
        Delta::from_xyz(0, 1, -1)
    }

    /// One cell ahead and up for White.
    pub fn wh_frontup() -> (r: Delta)
        ensures
            r.spec_dx() == -1,
            r.spec_dy() == 1,
    {
        Delta::from_xyz(-1, 1, 0)
    }

    /// One cell ahead and down for White.
    pub fn wh_frontdown() -> (r: Delta)
        ensures
            r.spec_dx() == 1,
            r.spec_dy() == 0,
    {
        Delta::from_xyz(1, 0, -1)
    }

    /// One cell back for White.
    pub fn wh_backward() -> (r: Delta)
        ensures
            r.spec_dx() == 0,
            r.spec_dy() == -1,
    {
        Delta::wh_forward().mirror()
    }

    /// One cell back and up for White.
    pub fn wh_backup() -> (r: Delta)
        ensures
            r.spec_dx() == -1,
            r.spec_dy() == 0,
    {
        Delta::wh_frontup().mirror()
    }

    /// One cell back and down for White.
    pub fn wh_backdown() -> (r: Delta)
        ensures
            r.spec_dx() == 1,
            r.spec_dy() == -1,
    {
        Delta::wh_frontdown().mirror()
    }

    /// The long step across a corner.
    pub fn wh_diag() -> (r: Delta)
        ensures
            r.spec_dx() == 2,
            r.spec_dy() == -1,
    {
        Delta::from_xyz(2, -1, -1)
    }

    /// The step back.
    pub fn flip(self) -> (r: Delta)
        requires
            Delta::fits(-self.spec_dx(), -self.spec_dy()),
        ensures
            r.spec_dx() == -self.spec_dx(),
            r.spec_dy() == -self.spec_dy(),
    {
        Delta::from_xyz(-self.dx(), -self.dy(), -self.dz())
    }

    /// The step with `dy` and `dz` exchanged.
    pub fn mirror(self) -> (r: Delta)
        requires
            Delta::fits(self.spec_dx(), self.spec_dz()),
        ensures
            r.spec_dx() == self.spec_dx(),
            r.spec_dy() == self.spec_dz(),
    {
        Delta::from_xyz(self.dx(), self.dz(), self.dy())
    }

    /// The step taken `factor` times.
    pub fn scale(self, factor: i8) -> (r: Delta)
        requires
            -4 <= factor <= 4,
            Delta::fits(self.spec_dx() * factor, self.spec_dy() * factor),
        ensures
            r.spec_dx() == self.spec_dx() * factor,
            r.spec_dy() == self.spec_dy() * factor,
    {
        let dx = self.dx();
        let dy = self.dy();
        let dz = self.dz();
        assert(dz * factor == -(dx * factor) - dy * factor) by (nonlinear_arith)
            requires
                dz == -dx - dy,
        ;
        assert(-48 <= dz * factor <= 48) by (nonlinear_arith)
            requires
                -10 <= dz <= 12,
                -4 <= factor <= 4,
        ;
        Delta::from_xyz(dx * factor, dy * factor, dz * factor)
    }

    /// The step turned by a third of a turn.
    pub fn cycle(self) -> (r: Delta)
        requires
            Delta::fits(self.spec_dy(), self.spec_dz()),
        ensures
            r.spec_dx() == self.spec_dy(),
            r.spec_dy() == self.spec_dz(),
    {
        Delta::from_xyz(self.dy(), self.dz(), self.dx())
    }
}

/// The steps of a species for White, as differences of `x` and `y`, in the
/// order in which [`neighbours_move`] lists the cells.
pub open spec fn white_steps(species: Species) -> Seq<(int, int)> {
    match species {
        Species::Flat => seq![(0, 1), (1, 0), (-1, 1)],
        Species::Lone(tall) | Species::Stack(tall) => match tall {
            Tall::Hand => seq![(0, 2), (-1, 0), (1, -1), (0, -1)],
            Tall::Blind => seq![(-2, 2), (-1, 0), (0, -2), (1, -1), (2, 0)],
            Tall::Star => seq![(2, -1), (-1, -1), (-1, 2), (-2, 1), (1, 1), (1, -2)],
        },
    }
}

/// The cell to which the `i`-th step of the piece leads from `tile`; `None`
/// where the piece has no such step or the step leaves the board.
pub open spec fn neighbour(tile: Tile, piece: Piece, i: int) -> Option<Tile> {
    if 0 <= i < white_steps(piece.species).len() {
        let step = white_steps(piece.species)[i];
        let x = tile.spec_x() + piece.color.toward(step.0);
        let y = tile.spec_y() + piece.color.toward(step.1);
        Tile::spec_from_xyz(x, y, -x - y)
    } else {
        None
    }
}

impl Tile {
    /// The cell that lies the step away, if the board has one there.
    pub fn shift(self, delta: Delta) -> (r: Option<Tile>)
        ensures
            r == Tile::spec_from_xyz(
                self.spec_x() + delta.spec_dx(),
                self.spec_y() + delta.spec_dy(),
                self.spec_z() + delta.spec_dz(),
            ),
    {
        Tile::from_xyz(self.x() + delta.dx(), self.y() + delta.dy(), self.z() + delta.dz())
    }

    fn shift_for(self, color: Player, delta: Delta) -> (r: Option<Tile>)
        requires
            Delta::fits(-delta.spec_dx(), -delta.spec_dy()),
        ensures
            r == Tile::spec_from_xyz(
                self.spec_x() + color.toward(delta.spec_dx()),
                self.spec_y() + color.toward(delta.spec_dy()),
                -(self.spec_x() + color.toward(delta.spec_dx())) - (self.spec_y() + color.toward(
                    delta.spec_dy(),
                )),
            ),
    {
        match color {
            Player::White => self.shift(delta),
            Player::Black => self.shift(delta.flip()),
        }
    }

    fn flat_neighbours(self, c: Player) -> (r: [Option<Tile>; 6])
        ensures
            forall|i: int|
                0 <= i < 6 ==> #[trigger] r[i] == neighbour(
                    self,
                    Piece { color: c, species: Species::Flat },
                    i,
                ),
    {
        let a = self.shift_for(c, Delta::wh_forward());
        let b = self.shift_for(c, Delta::wh_frontdown());
        let d = self.shift_for(c, Delta::wh_frontup());
        [a, b, d, None, None, None]
    }

    fn hand_neighbours(self, c: Player) -> (r: [Option<Tile>; 6])
        ensures
            forall|i: int|
                0 <= i < 6 ==> #[trigger] r[i] == neighbour(
                    self,
                    Piece { color: c, species: Species::Lone(Tall::Hand) },
                    i,
                ),
    {
        let a = self.shift_for(c, Delta::wh_forward().scale(2));
        let b = self.shift_for(c, Delta::wh_backup());
        let d = self.shift_for(c, Delta::wh_backdown());
        let e = self.shift_for(c, Delta::wh_backward());
        [a, b, d, e, None, None]
    }

    fn blind_neighbours(self, c: Player) -> (r: [Option<Tile>; 6])
        ensures
            forall|i: int|
                0 <= i < 6 ==> #[trigger] r[i] == neighbour(
                    self,
                    Piece { color: c, species: Species::Lone(Tall::Blind) },
                    i,
                ),
    {
        let a = self.shift_for(c, Delta::wh_frontup().scale(2));
        let b = self.shift_for(c, Delta::wh_backup());
        let d = self.shift_for(c, Delta::wh_backward().scale(2));
        let e = self.shift_for(c, Delta::wh_backdown());
        let f = self.shift_for(c, Delta::wh_frontdown().scale(2));
        [a, b, d, e, f, None]
    }

    fn star_neighbours(self, c: Player) -> (r: [Option<Tile>; 6])
        ensures
            forall|i: int|
                0 <= i < 6 ==> #[trigger] r[i] == neighbour(
                    self,
                    Piece { color: c, species: Species::Lone(Tall::Star) },
                    i,
                ),
    {
        let a = self.shift_for(c, Delta::wh_diag());
        let b = self.shift_for(c, Delta::wh_diag().cycle());
        let d = self.shift_for(c, Delta::wh_diag().cycle().cycle());
        let e = self.shift_for(c, Delta::wh_diag().flip());
        let f = self.shift_for(c, Delta::wh_diag().flip().cycle());
        let g = self.shift_for(c, Delta::wh_diag().flip().cycle().cycle());
        [a, b, d, e, f, g]
    }

    /// The cells to which the piece steps from this one, in the order of
    /// its steps; `None` where a step leaves the board, and for the places
    /// beyond the piece's last step.
    pub fn move_neighbours(&self, kind: &Piece) -> (r: [Option<Tile>; 6])
        ensures
            forall|i: int| 0 <= i < 6 ==> #[trigger] r[i] == neighbour(*self, *kind, i),
    {
        let c = kind.color;
        match kind.species {
            Species::Flat => self.flat_neighbours(c),
            Species::Lone(tall) | Species::Stack(tall) => match tall {
                Tall::Hand => self.hand_neighbours(c),
                Tall::Blind => self.blind_neighbours(c),
                Tall::Star => self.star_neighbours(c),
            },
        }
    }
}

/// The cells to which the piece steps from the cell.
pub fn neighbours_move(tile: Tile, piece: Piece) -> (r: [Option<Tile>; 6])
    ensures
        forall|i: int| 0 <= i < 6 ==> #[trigger] r[i] == neighbour(tile, piece, i),
{
    tile.move_neighbours(&piece)
}

/// The cells that the piece threatens from the cell: those to which it
/// steps.
pub fn neighbours_attack(tile: Tile, piece: Piece) -> (r: [Option<Tile>; 6])
    ensures
        forall|i: int| 0 <= i < 6 ==> #[trigger] r[i] == neighbour(tile, piece, i),
{
    neighbours_move(tile, piece)
}

/// A short step in coordinates is a step in codes: the row stride keeps the
/// rows apart.
pub proof fn lemma_step_code(tile: Tile, dx: int, dy: int)
    requires
        tile.wf(),
        -2 <= dx <= 2,
        -2 <= dy <= 2,
    ensures
        Tile::spec_from_xyz(
            tile.spec_x() + dx,
            tile.spec_y() + dy,
            -(tile.spec_x() + dx) - (tile.spec_y() + dy),
        ) == if on_board(tile.0 + 12 * dx + dy) {
            Some(Tile((tile.0 + 12 * dx + dy) as u8))
        } else {
            None::<Tile>
        },
{
    let ux = tile.0 as int / 12;
    let uy = tile.0 as int % 12;
    let code = tile.0 + 12 * dx + dy;
    assert(code == 12 * (ux + dx) + (uy + dy));
    if uy + dy >= 0 {
        if ux + dx >= 0 {
            assert(code / 12 == ux + dx && code % 12 == uy + dy);
        } else {
            assert(code < 0);
        }
    } else {
        if code >= 0 {
            assert(code == 12 * (ux + dx - 1) + (uy + dy + 12));
            assert(code % 12 == uy + dy + 12);
        }
    }
}

/// The two ways of finding a piece's steps agree: the cells that
/// [`neighbours_move`] lists are the cells that the shifted masks of
/// [`destinations`] hold.
pub proof fn lemma_neighbours_are_destinations(tile: Tile, piece: Piece, d: int)
    requires
        tile.wf(),
    ensures
        destinations(set![tile.0 as int], piece.color, piece.species).contains(d) <==> exists|
            i: int,
        |
            0 <= i < 6 && #[trigger] neighbour(tile, piece, i) == Some(Tile(d as u8)) && 0 <= d
                < 64,
{
    let origins = set![tile.0 as int];
    let dest = destinations(origins, piece.color, piece.species);
    let ws = white_steps(piece.species);
    let st = steps(piece.species);
    assert forall|i: int| 0 <= i < ws.len() implies -2 <= (#[trigger] ws[i]).0 <= 2 && -2
        <= ws[i].1 <= 2 && st.contains(12 * ws[i].0 + ws[i].1) by {
        lemma_white_steps(piece.species, i);
    }
    assert forall|j: int| 0 <= j < st.len() implies exists|i: int|
        0 <= i < ws.len() && #[trigger] st[j] == 12 * ws[i].0 + ws[i].1 by {
        lemma_steps_white(piece.species, j);
    }
    if dest.contains(d) {
        let o = choose|o: int| #[trigger]
            origins.contains(o) && steps_to(piece.color, piece.species, o, d);
        let k = (d - tile.0) * piece.color.sign();
        let j = choose|j: int| 0 <= j < st.len() && st[j] == k;
        let i = choose|i: int| 0 <= i < ws.len() && st[j] == 12 * ws[i].0 + ws[i].1;
        lemma_step_code(tile, piece.color.toward(ws[i].0), piece.color.toward(ws[i].1));
        assert(neighbour(tile, piece, i) == Some(Tile(d as u8)));
    }
    if exists|i: int|
        0 <= i < 6 && #[trigger] neighbour(tile, piece, i) == Some(Tile(d as u8)) && 0 <= d < 64 {
        let i = choose|i: int|
            0 <= i < 6 && #[trigger] neighbour(tile, piece, i) == Some(Tile(d as u8)) && 0 <= d
                < 64;
        lemma_step_code(tile, piece.color.toward(ws[i].0), piece.color.toward(ws[i].1));
        let k = 12 * ws[i].0 + ws[i].1;
        assert(d == tile.0 + piece.color.toward(k));
        assert((d - tile.0) * piece.color.sign() == k);
        assert(origins.contains(tile.0 as int));
        assert(steps_to(piece.color, piece.species, tile.0 as int, d));
    }
}

proof fn lemma_white_steps(species: Species, i: int)
    requires
        0 <= i < white_steps(species).len(),
    ensures
        -2 <= white_steps(species)[i].0 <= 2,
        -2 <= white_steps(species)[i].1 <= 2,
        steps(species).contains(12 * white_steps(species)[i].0 + white_steps(species)[i].1),
{
    let st = steps(species);
    let k = 12 * white_steps(species)[i].0 + white_steps(species)[i].1;
    assert(exists|j: int| 0 <= j < st.len() && st[j] == k) by {
        if st.len() > 0 && st[0] == k {
        } else if st.len() > 1 && st[1] == k {
        } else if st.len() > 2 && st[2] == k {
        } else if st.len() > 3 && st[3] == k {
        } else if st.len() > 4 && st[4] == k {
        } else if st.len() > 5 && st[5] == k {
        } else {
            assert(false);
        }
    }
}

proof fn lemma_steps_white(species: Species, j: int)
    requires
        0 <= j < steps(species).len(),
    ensures
        exists|i: int|
            0 <= i < white_steps(species).len() && #[trigger] steps(species)[j] == 12
                * white_steps(species)[i].0 + white_steps(species)[i].1,
{
    let ws = white_steps(species);
    let k = steps(species)[j];
    if ws.len() > 0 && k == 12 * ws[0].0 + ws[0].1 {
    } else if ws.len() > 1 && k == 12 * ws[1].0 + ws[1].1 {
    } else if ws.len() > 2 && k == 12 * ws[2].0 + ws[2].1 {
    } else if ws.len() > 3 && k == 12 * ws[3].0 + ws[3].1 {
    } else if ws.len() > 4 && k == 12 * ws[4].0 + ws[4].1 {
    } else if ws.len() > 5 && k == 12 * ws[5].0 + ws[5].1 {
    } else {
        assert(false);
    }
}

} // verus!
