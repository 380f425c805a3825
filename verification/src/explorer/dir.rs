//! The four ways the droid can move.

use vstd::prelude::*;

verus! {

/// A direction on the chart. North is towards larger `y`, east towards larger
/// `x`.
#[derive(Debug, Clone, Copy, PartialEq, Eq)]
pub enum Dir {
    N,
    S,
    E,
    W,
}

impl Dir {
    /// Whether `val` is a movement command.
    pub open spec fn is_code(val: int) -> bool {
        1 <= val <= 4
    }

    /// The direction that the movement command `val` stands for.
    pub open spec fn of(val: int) -> Dir
        recommends
            Dir::is_code(val),
    {
        if val == 1 {
            Dir::N
        } else if val == 2 {
            Dir::S
        } else if val == 3 {
            Dir::W
        } else {
            Dir::E
        }
    }

    /// The movement command for the direction.
    pub open spec fn command(self) -> int {
        match self {
            Dir::N => 1,
            Dir::S => 2,
            Dir::W => 3,
            Dir::E => 4,
        }
    }

    /// The opposite direction.
    pub open spec fn opposite(self) -> Dir {
        match self {
            Dir::N => Dir::S,
            Dir::S => Dir::N,
            Dir::W => Dir::E,
            Dir::E => Dir::W,
        }
    }

    /// The square next to `coor` in this direction, in whole numbers.
    pub open spec fn moved(self, coor: (int, int)) -> (int, int) {
        match self {
            Dir::N => (coor.0, coor.1 + 1),
            Dir::S => (coor.0, coor.1 - 1),
            Dir::W => (coor.0 - 1, coor.1),
            Dir::E => (coor.0 + 1, coor.1),
        }
    }

    /// Whether the square next to `coor` in this direction has coordinates
    /// that can be written down.
    pub open spec fn can_go(self, coor: (usize, usize)) -> bool {
        let (x, y) = self.moved((coor.0 as int, coor.1 as int));
        0 <= x <= usize::MAX && 0 <= y <= usize::MAX
    }

    /// Reads a movement command: 1 north, 2 south, 3 west, 4 east.
    pub fn new(val: i64) -> (dir: Dir)
        requires
            Dir::is_code(val as int),
        ensures
            dir == Dir::of(val as int),
    {
        match val {
            1 => Dir::N,
            2 => Dir::S,
            3 => Dir::W,
            _ => Dir::E,
        }
    }

    /// The square next to `coor` in this direction.
    pub fn go(&self, coor: (usize, usize)) -> (next: (usize, usize))
        requires
            self.can_go(coor),
        ensures
            (next.0 as int, next.1 as int) == self.moved((coor.0 as int, coor.1 as int)),
    {
        match self {
            Dir::N => (coor.0, coor.1 + 1),
            Dir::S => (coor.0, coor.1 - 1),
            Dir::W => (coor.0 - 1, coor.1),
            Dir::E => (coor.0 + 1, coor.1),
        }
    }

    /// The movement command for the direction.
    pub fn code(&self) -> (val: i64)
        ensures
            val == self.command(),
    {
        match self {
            Dir::N => 1,
            Dir::S => 2,
            Dir::W => 3,
            Dir::E => 4,
        }
    }

    /// The opposite direction.
    pub fn rev(&self) -> (dir: Dir)
        ensures
            dir == self.opposite(),
    {
        match self {
            Dir::N => Dir::S,
            Dir::S => Dir::N,
            Dir::W => Dir::E,
            Dir::E => Dir::W,
        }
    }
}

/// A direction and its command stand for each other, turning round twice
/// changes nothing, and a move followed by the opposite move leads back.
pub proof fn theorem_directions(dir: Dir, val: int, coor: (int, int))
    ensures
        Dir::is_code(dir.command()),
        Dir::of(dir.command()) == dir,
        Dir::is_code(val) ==> Dir::of(val).command() == val,
        dir.opposite().opposite() == dir,
        dir.opposite().moved(dir.moved(coor)) == coor,
{
}

} // verus!
