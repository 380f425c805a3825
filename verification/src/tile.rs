//! The tiles of a camera picture that a machine prints as character codes.

use vstd::prelude::*;

verus! {

/// One character code of the picture, sorted by what it shows.
#[derive(Debug, Clone, Copy, PartialEq, Eq)]
pub enum Tile {
    /// Code 35, `#`.
    Scaffold,
    /// Code 46, `.`.
    Space,
    /// Code 10, the end of a row.
    NewLine,
    /// The robot, facing one way: code 118, 60, 61 or 94.
    Robot(u8),
    /// Any other code: part of a message.
    Message(u8),
}

/// Whether `val` is one of the four codes that show the robot.
pub open spec fn is_robot(val: u8) -> bool {
    val == 118 || val == 60 || val == 61 || val == 94
}

impl Tile {
    /// The tile that the code `val` stands for.
    pub open spec fn of(val: u8) -> Tile {
        if val == 10 {
            Tile::NewLine
        } else if val == 46 {
            Tile::Space
        } else if val == 35 {
            Tile::Scaffold
        } else if is_robot(val) {
            Tile::Robot(val)
        } else {
            Tile::Message(val)
        }
    }

    /// The character that shows the tile.
    pub open spec fn glyph(self) -> char {
        match self {
            Tile::Scaffold => '#',
            Tile::Space => '.',
            Tile::NewLine => '\n',
            Tile::Robot(i) => i as char,
            Tile::Message(i) => i as char,
        }
    }

    /// Sorts the code `val`.
    pub fn new(val: u8) -> (tile: Tile)
        ensures
            tile == Tile::of(val),
    {
        match val {
            10 => Tile::NewLine,
            46 => Tile::Space,
            35 => Tile::Scaffold,
            118 | 60 | 61 | 94 => Tile::Robot(val),
            _ => Tile::Message(val),
        }
    }

    /// The character that shows the tile.
    #[allow(non_snake_case)]
    pub fn toChar(&self) -> (c: char)
        ensures
            c == self.glyph(),
    {
        match self {
            Tile::Scaffold => '#',
            Tile::Space => '.',
            Tile::NewLine => '\n',
            Tile::Robot(i) => *i as char,
            Tile::Message(i) => *i as char,
        }
    }
}

/// Sorting a code and showing the tile gives back the character with that
/// code: nothing of the picture is lost.
pub proof fn theorem_tile_keeps_code(val: u8)
    ensures
        Tile::of(val).glyph() == val as char,
{
}

} // verus!
