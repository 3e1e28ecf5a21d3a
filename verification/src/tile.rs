//! Cells of the board, named by a code that doubles as a bit position.

use vstd::prelude::*;
use crate::board::{in_bounds, on_board, Player, BOARD_RADIUS, BOARD_SHORT_RADIUS};

verus! {

/// A cell of the board. The code is `(x + 2) * 12 + (y + 3)` for the axial
/// point `(x, y, z)` of the cell, with `z = -x - y`.
#[derive(Clone, Copy, PartialEq, Eq, Structural, Hash, Debug)]
pub struct Tile(pub u8);

impl Tile {
    /// Whether the code names one of the 29 cells.
    pub open spec fn wf(self) -> bool {
        on_board(self.0 as int)
    }

    /// The row of the cell, counted from zero.
    pub open spec fn spec_ux(self) -> u8 {
        self.0 / 12
    }

    /// The place of the cell along `y`, counted from zero.
    pub open spec fn spec_uy(self) -> u8 {
        self.0 % 12
    }

    /// The first axial coordinate, from -2 to 2.
    pub open spec fn spec_x(self) -> int {
        self.0 / 12 - 2
    }

    /// The second axial coordinate, from -3 to 3.
    pub open spec fn spec_y(self) -> int {
        self.0 % 12 - 3
    }

    /// The third axial coordinate, which makes the three sum to zero.
    pub open spec fn spec_z(self) -> int {
        -self.spec_x() - self.spec_y()
    }

    /// The cell at an axial point of the board.
    pub open spec fn at(x: int, y: int) -> Tile {
        Tile(((x + 2) * 12 + (y + 3)) as u8)
    }

    /// The cell at `(x, y, z)`, where that point lies on the board.
    pub open spec fn spec_from_xyz(x: int, y: int, z: int) -> Option<Tile> {
        if in_bounds(x, y, z) {
            Some(Tile::at(x, y))
        } else {
            None
        }
    }

    /// The cell opposite to this one through the centre.
    pub open spec fn spec_antipode(self) -> Tile {
        Tile((54 - self.0) as u8)
    }

    /// The cell with `y` and `z` exchanged.
    pub open spec fn spec_mirror(self) -> Tile {
        Tile::at(self.spec_x(), self.spec_z())
    }

    /// The home corner of a side.
    pub open spec fn spec_corner(color: Player) -> Tile {
        match color {
            Player::Black => Tile(30),
            Player::White => Tile(24),
        }
    }

    /// The bit position that stands for the cell.
    pub fn to_bit(&self) -> (r: u8)
        ensures
            r == self.0,
    {
        self.0
    }

    /// The cell that a bit position stands for. Nothing is checked: the
    /// result is a cell only where `on_board(bit)`.
    pub fn from_bit_unchecked(bit: u8) -> (r: Tile)
        ensures
            r == Tile(bit),
    {
        Tile(bit)
    }

    /// The cell with the given code, if it is one.
    pub fn new(value: u8) -> (r: Option<Tile>)
        ensures
            r == if on_board(value as int) {
                Some(Tile(value))
            } else {
                None::<Tile>
            },
    {
        let ux = value / 12;
        let uy = value % 12;
        if ux <= 4 && uy <= 6 && 2 <= ux + uy && ux + uy <= 8 {
            Some(Tile(value))
        } else {
            None
        }
    }

    /// The cell in row `ux` at place `uy`.
    pub fn from_uxy(ux: u8, uy: u8) -> (r: Tile)
        requires
            ux * 12 + uy <= u8::MAX,
        ensures
            r == Tile((ux * 12 + uy) as u8),
    {
        Tile(ux * 12 + uy)
    }

    /// The code of the cell.
    pub fn code(&self) -> (r: u8)
        ensures
            r == self.0,
    {
        self.0
    }

    /// The cell with the given code. Nothing is looked at: the result is a
    /// cell only where `on_board(code)`.
    pub fn from_code(code: u8) -> (r: Tile)
        ensures
            r == Tile(code),
    {
        Tile(code)
    }
    /// The row of the cell, counted from zero.
    pub fn ux(&self) -> (r: u8)
        ensures
            r == self.spec_ux(),
    {
        self.0 / 12
    }
    /// The first axial coordinate.
    pub fn x(&self) -> (r: i8)
        ensures
            r == self.spec_x(),
    {
        (self.ux() as i8) - 2
    }
    /// The place of the cell along `y`, counted from zero.
    pub fn uy(&self) -> (r: u8)
        ensures
            r == self.spec_uy(),
    {
        self.0 % 12
    }
    /// The second axial coordinate.
    pub fn y(&self) -> (r: i8)
        ensures
            r == self.spec_y(),
    {
        (self.uy() as i8) - 3
    }
    /// The third axial coordinate.
    pub fn z(&self) -> (r: i8)
        ensures
            r == self.spec_z(),
    {
        -self.x() - self.y()
    }

    /// The cell at `(x, y, z)`, or `None` where the point is off the board.
    pub fn from_xyz(x: i8, y: i8, z: i8) -> (r: Option<Tile>)
        requires
            x + y + z == 0,
        ensures
            r == Tile::spec_from_xyz(x as int, y as int, z as int),
            r matches Some(t) ==> t.wf() && t.spec_x() == x && t.spec_y() == y && t.spec_z() == z,
    {
        let in_range = -BOARD_SHORT_RADIUS <= x && x <= BOARD_SHORT_RADIUS && -BOARD_RADIUS <= y
            && y <= BOARD_RADIUS && -BOARD_RADIUS <= z && z <= BOARD_RADIUS;
        if in_range {
            let ys = (y + 3) as u8;
            let xs = (x + 2) as u8;
            Some(Tile::from_uxy(xs, ys))
        } else {
            None
        }
    }

    /// The cell at `(x, y, z)`, a point of the board.
    pub fn from_xyz_unchecked(x: i8, y: i8, z: i8) -> (r: Tile)
        requires
            in_bounds(x as int, y as int, z as int),
        ensures
            r == Tile::at(x as int, y as int),
            r.wf(),
            r.spec_x() == x,
            r.spec_y() == y,
            r.spec_z() == z,
    {
        match Tile::from_xyz(x, y, z) {
            Some(tile) => tile,
            None => Tile(0),
        }
    }

    /// The cell opposite to this one through the centre.
    pub fn antipode(&self) -> (r: Tile)
        requires
            self.wf(),
        ensures
            r == self.spec_antipode(),
            r.wf(),
            r.spec_x() == -self.spec_x(),
            r.spec_y() == -self.spec_y(),
            r.spec_z() == -self.spec_z(),
    {
        Tile::from_xyz_unchecked(-self.x(), -self.y(), -self.z())
    }

    /// The cell with `y` and `z` exchanged.
    pub fn mirror(&self) -> (r: Tile)
        requires
            self.wf(),
        ensures
            r == self.spec_mirror(),
            r.wf(),
            r.spec_x() == self.spec_x(),
            r.spec_y() == self.spec_z(),
            r.spec_z() == self.spec_y(),
    {
        Tile::from_xyz_unchecked(self.x(), -self.y() - self.x(), -self.z() - self.x())
    }

    /// The six cells around this one; `None` where the board ends.
    pub fn adjacent(&self) -> (r: [Option<Tile>; 6])
        ensures
            r[0] == Tile::spec_from_xyz(self.spec_x() + 1, self.spec_y() - 1, self.spec_z()),
            r[1] == Tile::spec_from_xyz(self.spec_x(), self.spec_y() + 1, self.spec_z() - 1),
            r[2] == Tile::spec_from_xyz(self.spec_x() - 1, self.spec_y(), self.spec_z() + 1),
            r[3] == Tile::spec_from_xyz(self.spec_x() - 1, self.spec_y() + 1, self.spec_z()),
            r[4] == Tile::spec_from_xyz(self.spec_x(), self.spec_y() - 1, self.spec_z() + 1),
            r[5] == Tile::spec_from_xyz(self.spec_x() + 1, self.spec_y(), self.spec_z() - 1),
    {
        let x = self.x();
        let y = self.y();
        let z = self.z();
        [
            Tile::from_xyz(x + 1, y - 1, z),
            Tile::from_xyz(x, y + 1, z - 1),
            Tile::from_xyz(x - 1, y, z + 1),
            Tile::from_xyz(x - 1, y + 1, z),
            Tile::from_xyz(x, y - 1, z + 1),
            Tile::from_xyz(x + 1, y, z - 1),
        ]
    }

    /// `x - y` modulo three: the colour class of the cell.
    pub fn mod3(&self) -> (r: u8)
        ensures
            r == (self.spec_x() - self.spec_y()) % 3,
    {
        (self.ux() + 37 - self.uy()) % 3
    }

    /// The home corner of a side.
    pub fn corner(color: Player) -> (r: Tile)
        ensures
            r == Tile::spec_corner(color),
            r.wf(),
            r.spec_x() == 0,
            r.spec_y() == color.sign() * -3,
    {
        match color {
            Player::Black => Tile::from_xyz_unchecked(0, 3, -3),
            Player::White => Tile::from_xyz_unchecked(0, -3, 3),
        }
    }

    /// Whether the cell lies on the rim of the board.
    pub open spec fn spec_is_border(self) -> bool {
        let x = self.spec_x();
        let y = self.spec_y();
        let z = self.spec_z();
        x == -2 || x == 2 || y == -3 || y == 3 || z == -3 || z == 3
    }

    /// Whether the cell lies on the rim of the board.
    pub fn is_border(&self) -> (r: bool)
        requires
            self.wf(),
        ensures
            r == self.spec_is_border(),
    {
        let ux = self.ux();
        let uy = self.uy();
        match ux {
            0 | 4 => true,
            1 => uy == 6 || uy == 1,
            2 => uy == 6 || uy == 0,
            _ => uy == 5 || uy == 0,
        }
    }
}

/// One move of one piece: from a cell to a cell.
#[derive(Clone, Copy, PartialEq, Eq, Structural, Hash, Debug)]
pub struct Ply {
    pub from_tile: Tile,
    pub to_tile: Tile,
}

impl Ply {
    /// The move as the other side sees it: both cells turned by half a turn.
    pub open spec fn mirrored(self) -> Ply {
        Ply { from_tile: self.from_tile.spec_antipode(), to_tile: self.to_tile.spec_antipode() }
    }
}

impl Tile {
    /// Whether the code names one of the cells of the board.
    pub fn is_cell(&self) -> (r: bool)
        ensures
            r == self.wf(),
    {
        Tile::new(self.0).is_some()
    }
}

} // verus!
