use vstd::prelude::*;

verus! {

/// What a board position holds: nothing, or a block left by one of the seven pieces.
/// The same values name the piece kinds, where `Empty` stands for "no piece".
#[derive(Copy, Clone, PartialEq, Eq, Structural, Debug)]
pub enum Tile {
    I,
    O,
    T,
    S,
    Z,
    J,
    L,
    Empty,
}

/// A pair of board coordinates: the column first, then the row, counted from the
/// top left corner. Both are signed, so that a candidate placement may lie off the board.
#[derive(Copy, Clone, PartialEq, Eq, Structural, Debug)]
pub struct Point(pub i8, pub i8);

impl View for Point {
    type V = (int, int);

    open spec fn view(&self) -> (int, int) {
        (self.0 as int, self.1 as int)
    }
}

/// The three turns a piece can make.
#[derive(Copy, Clone, PartialEq, Eq, Structural, Debug)]
pub enum Direction {
    Left,
    Right,
    Double,
}

/// The character that stands for a tile on the screen.
pub open spec fn tile_symbol(tile: Tile) -> char {
    match tile {
        Tile::I => 'I',
        Tile::O => 'O',
        Tile::T => 'T',
        Tile::S => 'S',
        Tile::Z => 'Z',
        Tile::J => 'J',
        Tile::L => 'L',
        Tile::Empty => ' ',
    }
}

/// The letter of a piece kind, and a blank for an empty position.
pub fn tile_to_char(tetrimino: &Tile) -> (c: char)
    ensures
        c == tile_symbol(*tetrimino),
{
    match tetrimino {
        Tile::I => 'I',
        Tile::O => 'O',
        Tile::T => 'T',
        Tile::S => 'S',
        Tile::Z => 'Z',
        Tile::J => 'J',
        Tile::L => 'L',
        Tile::Empty => ' ',
    }
}

} // verus!
