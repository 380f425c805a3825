//! What the repair droid finds on a square.

use vstd::prelude::*;

verus! {

/// The content of a square of the area.
#[derive(Debug, Clone, Copy, PartialEq, Eq)]
pub enum Tile {
    /// Nothing is known.
    Space,
    /// Where the droid set out.
    Start,
    /// The droid itself.
    Droid,
    /// The oxygen system.
    Oxy,
    /// A wall: the droid cannot enter.
    Wall,
    /// Open floor.
    Path,
}

impl Tile {
    /// Whether `val` is a status code that stands for a tile.
    pub open spec fn is_code(val: int) -> bool {
        -1 <= val <= 2
    }

    /// The tile that the status code `val` stands for.
    pub open spec fn of(val: int) -> Tile
        recommends
            Tile::is_code(val),
    {
        if val == -1 {
            Tile::Start
        } else if val == 0 {
            Tile::Wall
        } else if val == 1 {
            Tile::Path
        } else {
            Tile::Oxy
        }
    }

    /// The character that shows the tile on a printed chart.
    pub open spec fn glyph(self) -> char {
        match self {
            Tile::Start => 'S',
            Tile::Space => ' ',
            Tile::Droid => 'D',
            Tile::Oxy => 'O',
            Tile::Wall => '#',
            Tile::Path => '.',
        }
    }

    /// Reads a status code: -1 is the start, 0 a wall, 1 open floor, 2 the
    /// oxygen system. No other number is a status code.
    pub fn new(val: i64) -> (tile: Tile)
        requires
            Tile::is_code(val as int),
        ensures
            tile == Tile::of(val as int),
    {
        match val {
            -1 => Tile::Start,
            0 => Tile::Wall,
            1 => Tile::Path,
            _ => Tile::Oxy,
        }
    }

    /// The character that shows the tile on a printed chart.
    pub fn char(&self) -> (c: char)
        ensures
            c == self.glyph(),
    {
        match self {
            Tile::Start => 'S',
            Tile::Space => ' ',
            Tile::Droid => 'D',
            Tile::Oxy => 'O',
            Tile::Wall => '#',
            Tile::Path => '.',
        }
    }
}

} // verus!
