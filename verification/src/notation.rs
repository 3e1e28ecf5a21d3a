//! The written form of cells and moves: a row letter from `a` to `e` and
//! the place in the row, counted from one.

use vstd::prelude::*;
use crate::board::in_bounds;
use crate::tile::{Ply, Tile};

verus! {

/// A text that names no cell.
#[derive(Clone, Copy, PartialEq, Eq, Structural, Debug)]
pub struct TileParseError;

/// A text that names no move.
#[derive(Clone, Copy, PartialEq, Eq, Structural, Debug)]
pub enum PlyParseError {
    /// One of the two halves names no cell.
    Tile(TileParseError),
    /// The text does not have four characters.
    Other,
}

impl From<TileParseError> for PlyParseError {
    fn from(value: TileParseError) -> (r: Self) {
        PlyParseError::Tile(value)
    }
}

impl vstd::std_specs::convert::FromSpecImpl<TileParseError> for PlyParseError {
    open spec fn obeys_from_spec() -> bool {
        true
    }

    open spec fn from_spec(value: TileParseError) -> Self {
        PlyParseError::Tile(value)
    }
}

/// The letter of the row with the given `x`.
pub open spec fn row_letter(x: int) -> char {
    if x == -2 {
        'a'
    } else if x == -1 {
        'b'
    } else if x == 0 {
        'c'
    } else if x == 1 {
        'd'
    } else {
        'e'
    }
}

/// The `x` of the row with the given letter.
pub open spec fn letter_row(c: char) -> Option<int> {
    if c == 'a' {
        Some(-2)
    } else if c == 'b' {
        Some(-1)
    } else if c == 'c' {
        Some(0)
    } else if c == 'd' {
        Some(1)
    } else if c == 'e' {
        Some(2)
    } else {
        None
    }
}

/// The `y` of the place before the first of the row with the given `x`:
/// places are counted against `y`.
pub open spec fn row_base(x: int) -> int {
    if x <= 0 {
        4
    } else if x == 1 {
        3
    } else {
        2
    }
}

/// The character for a number below ten.
pub open spec fn digit_char(n: int) -> char {
    if n == 0 {
        '0'
    } else if n == 1 {
        '1'
    } else if n == 2 {
        '2'
    } else if n == 3 {
        '3'
    } else if n == 4 {
        '4'
    } else if n == 5 {
        '5'
    } else if n == 6 {
        '6'
    } else if n == 7 {
        '7'
    } else if n == 8 {
        '8'
    } else {
        '9'
    }
}

/// The number that a decimal digit stands for.
pub open spec fn digit_value(c: char) -> Option<int> {
    if c == '0' {
        Some(0)
    } else if c == '1' {
        Some(1)
    } else if c == '2' {
        Some(2)
    } else if c == '3' {
        Some(3)
    } else if c == '4' {
        Some(4)
    } else if c == '5' {
        Some(5)
    } else if c == '6' {
        Some(6)
    } else if c == '7' {
        Some(7)
    } else if c == '8' {
        Some(8)
    } else if c == '9' {
        Some(9)
    } else {
        None
    }
}

/// The written form of a cell.
pub open spec fn tile_label(t: Tile) -> Seq<char> {
    seq![row_letter(t.spec_x()), digit_char(row_base(t.spec_x()) - t.spec_y())]
}

/// The cell that a letter and a digit name, if they name one.
pub open spec fn tile_named(letter: char, number: char) -> Option<Tile> {
    match (letter_row(letter), digit_value(number)) {
        (Some(x), Some(n)) => Tile::spec_from_xyz(x, row_base(x) - n, -x - (row_base(x) - n)),
        _ => None,
    }
}

/// The cell that a text names: the text has two characters, a row letter
/// and a digit, and the row has that place.
pub open spec fn parse_tile(s: Seq<char>) -> Option<Tile> {
    if s.len() != 2 {
        None
    } else {
        tile_named(s[0], s[1])
    }
}

/// The written form of a move: that of its two cells.
pub open spec fn ply_label(p: Ply) -> Seq<char> {
    tile_label(p.from_tile) + tile_label(p.to_tile)
}

/// What a text is read as: a move where it has four characters of which
/// each pair names a cell.
pub open spec fn parse_ply(s: Seq<char>) -> Result<Ply, PlyParseError> {
    if s.len() != 4 {
        Err(PlyParseError::Other)
    } else {
        match (tile_named(s[0], s[1]), tile_named(s[2], s[3])) {
            (Some(from_tile), Some(to_tile)) => Ok(Ply { from_tile, to_tile }),
            _ => Err(PlyParseError::Tile(TileParseError)),
        }
    }
}

/// The written form of a cell names that cell.
pub proof fn lemma_tile_round_trip(t: Tile)
    requires
        t.wf(),
    ensures
        parse_tile(tile_label(t)) == Some(t),
{
    let x = t.spec_x();
    let n = row_base(x) - t.spec_y();
    assert(1 <= n <= 7);
    assert(letter_row(row_letter(x)) == Some(x));
    assert(digit_value(digit_char(n)) == Some(n));
    assert(in_bounds(x, t.spec_y(), t.spec_z()));
    assert(Tile::at(x, t.spec_y()) == t);
}

/// The written form of a move between two cells names that move.
pub proof fn lemma_ply_round_trip(p: Ply)
    requires
        p.from_tile.wf(),
        p.to_tile.wf(),
    ensures
        parse_ply(ply_label(p)) == Ok::<Ply, PlyParseError>(p),
{
    lemma_tile_round_trip(p.from_tile);
    lemma_tile_round_trip(p.to_tile);
}

/// Every text that names a cell is the written form of that cell.
pub proof fn lemma_parse_is_label(s: Seq<char>)
    requires
        parse_tile(s) is Some,
    ensures
        parse_tile(s).unwrap().wf(),
        tile_label(parse_tile(s).unwrap()) == s,
{
    let x = letter_row(s[0]).unwrap();
    let n = digit_value(s[1]).unwrap();
    let t = parse_tile(s).unwrap();
    assert(t.spec_x() == x);
    assert(t.spec_y() == row_base(x) - n);
    assert(tile_label(t) =~= s);
}

/// The text made of the given characters, by `String::from_iter`.
#[verifier::external_body]
pub(crate) fn string_of(chars: &Vec<char>) -> (r: String)
    ensures
        r@ == chars@,
{
    String::from_iter(chars.iter())
}

fn letter_of(x: i8) -> (r: char)
    ensures
        r == row_letter(x as int),
{
    if x == -2 {
        'a'
    } else if x == -1 {
        'b'
    } else if x == 0 {
        'c'
    } else if x == 1 {
        'd'
    } else {
        'e'
    }
}

fn digit_of(n: i8) -> (r: char)
    ensures
        r == digit_char(n as int),
{
    if n == 0 {
        '0'
    } else if n == 1 {
        '1'
    } else if n == 2 {
        '2'
    } else if n == 3 {
        '3'
    } else if n == 4 {
        '4'
    } else if n == 5 {
        '5'
    } else if n == 6 {
        '6'
    } else if n == 7 {
        '7'
    } else if n == 8 {
        '8'
    } else {
        '9'
    }
}

fn row_of(c: char) -> (r: Option<i8>)
    ensures
        r matches Some(x) ==> letter_row(c) == Some(x as int),
        r is None ==> letter_row(c) is None,
{
    if c == 'a' {
        Some(-2)
    } else if c == 'b' {
        Some(-1)
    } else if c == 'c' {
        Some(0)
    } else if c == 'd' {
        Some(1)
    } else if c == 'e' {
        Some(2)
    } else {
        None
    }
}

fn value_of(c: char) -> (r: Option<i8>)
    ensures
        r matches Some(n) ==> digit_value(c) == Some(n as int),
        r is None ==> digit_value(c) is None,
{
    if c == '0' {
        Some(0)
    } else if c == '1' {
        Some(1)
    } else if c == '2' {
        Some(2)
    } else if c == '3' {
        Some(3)
    } else if c == '4' {
        Some(4)
    } else if c == '5' {
        Some(5)
    } else if c == '6' {
        Some(6)
    } else if c == '7' {
        Some(7)
    } else if c == '8' {
        Some(8)
    } else if c == '9' {
        Some(9)
    } else {
        None
    }
}

fn base_of(x: i8) -> (r: i8)
    ensures
        r == row_base(x as int),
{
    if x <= 0 {
        4
    } else if x == 1 {
        3
    } else {
        2
    }
}

/// The cell that a letter and a digit name, if they name one.
pub fn tile_from_chars(letter: char, number: char) -> (r: Option<Tile>)
    ensures
        r == tile_named(letter, number),
        r matches Some(t) ==> t.wf(),
{
    match (row_of(letter), value_of(number)) {
        (Some(x), Some(n)) => {
            let y = base_of(x) - n;
            Tile::from_xyz(x, y, -x - y)
        },
        _ => None,
    }
}

impl Tile {
    /// The characters of the written form of the cell.
    pub fn label(&self) -> (r: Vec<char>)
        requires
            self.wf(),
        ensures
            r@ == tile_label(*self),
    {
        let row = self.x();
        let tile_nr = base_of(row) - self.y();
        let mut out: Vec<char> = Vec::new();
        out.push(letter_of(row));
        out.push(digit_of(tile_nr));
        assert(out@ =~= tile_label(*self));
        out
    }

    /// The written form of the cell.
    pub fn to_string(&self) -> (r: String)
        requires
            self.wf(),
        ensures
            r@ == tile_label(*self),
    {
        string_of(&self.label())
    }

    /// Reads the written form of a cell.
    pub fn from_str(s: &str) -> (r: Result<Tile, TileParseError>)
        ensures
            r == match parse_tile(s@) {
                Some(t) => Ok::<Tile, TileParseError>(t),
                None => Err::<Tile, TileParseError>(TileParseError),
            },
            r matches Ok(t) ==> t.wf(),
    {
        if s.unicode_len() != 2 {
            return Err(TileParseError);
        }
        match tile_from_chars(s.get_char(0), s.get_char(1)) {
            Some(t) => Ok(t),
            None => Err(TileParseError),
        }
    }
}

impl Ply {
    /// The written form of the move.
    pub fn to_string(&self) -> (r: String)
        requires
            self.from_tile.wf(),
            self.to_tile.wf(),
        ensures
            r@ == ply_label(*self),
    {
        let mut chars = self.from_tile.label();
        let mut tail = self.to_tile.label();
        chars.append(&mut tail);
        string_of(&chars)
    }

    /// Reads the written form of a move.
    pub fn from_str(s: &str) -> (r: Result<Ply, PlyParseError>)
        ensures
            r == parse_ply(s@),
            r matches Ok(p) ==> p.from_tile.wf() && p.to_tile.wf(),
    {
        if s.unicode_len() != 4 {
            return Err(PlyParseError::Other);
        }
        let from_tile = match tile_from_chars(s.get_char(0), s.get_char(1)) {
            Some(t) => t,
            None => {
                return Err(PlyParseError::from(TileParseError));
            },
        };
        let to_tile = match tile_from_chars(s.get_char(2), s.get_char(3)) {
            Some(t) => t,
            None => {
                return Err(PlyParseError::from(TileParseError));
            },
        };
        Ok(Ply { from_tile, to_tile })
    }
}

} // verus!
