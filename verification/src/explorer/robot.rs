//! The droid as seen from outside: movement commands go in, status codes come
//! out.

use vstd::prelude::*;
use vstd::pervasive::unreached;
use crate::explorer::dir::Dir;
use crate::explorer::tile::Tile;
use crate::intcoder::{IntResponse, Intcode};
use crate::model::Machine;

verus! {

/// Whether the machine answers the movement command `command` as a droid
/// does: offered the command it reaches a suspend point, and the event there
/// is the output of a status code.
pub open spec fn answers(m: Machine, command: i64) -> bool {
    &&& m.supply(command).suspends()
    &&& m.start(command).1 matches IntResponse::Output(status)
    &&& Tile::is_code(status as int)
}

/// The tile that the machine reports for the movement command `command`.
pub open spec fn reply(m: Machine, command: i64) -> Tile
    recommends
        answers(m, command),
{
    Tile::of(m.start(command).1->Output_0 as int)
}

/// The machine after it has answered the movement command `command`.
pub open spec fn moved(m: Machine, command: i64) -> Machine
    recommends
        answers(m, command),
{
    m.start(command).0
}

/// Tries one direction: the droid is told to go there, and to come back if it
/// did not run into a wall. Gives the machine afterwards and what lies in
/// that direction; `None` where the machine does not answer as a droid does,
/// or reports a tile that is neither wall, floor nor oxygen system.
pub open spec fn probed(m: Machine, dir: Dir) -> Option<(Machine, Tile)> {
    if !answers(m, dir.command() as i64) {
        None
    } else {
        let tile = reply(m, dir.command() as i64);
        let there = moved(m, dir.command() as i64);
        if tile == Tile::Wall {
            Some((there, tile))
        } else if tile == Tile::Oxy || tile == Tile::Path {
            if answers(there, dir.opposite().command() as i64) {
                Some((moved(there, dir.opposite().command() as i64), tile))
            } else {
                None
            }
        } else {
            None
        }
    }
}

/// Tries the first `count` directions in the order of their commands, north,
/// south, west, east: the machine afterwards and the tiles found, in that
/// order.
pub open spec fn surveyed(m: Machine, count: int) -> Option<(Machine, Seq<Tile>)>
    decreases count,
{
    if count <= 0 {
        Some((m, Seq::empty()))
    } else {
        match surveyed(m, count - 1) {
            None => None,
            Some((before, tiles)) => match probed(before, Dir::of(count)) {
                None => None,
                Some((after, tile)) => Some((after, tiles.push(tile))),
            },
        }
    }
}

/// The droid: the machine that runs its program.
pub struct Robot<'a> {
    /// The machine. It goes back to its owner when the droid is dropped.
    pub icoder: &'a mut Intcode,
}

impl<'a> Robot<'a> {
    /// Takes charge of the machine that runs the droid's program.
    pub fn new(icoder: &'a mut Intcode) -> (robot: Robot<'a>)
        ensures
            robot.icoder@ == old(icoder)@,
            *final(icoder) == *final(robot.icoder),
    {
        Robot { icoder }
    }

    /// Tells the droid to move one square in direction `dir` and returns what
    /// it reports: a wall (it has not moved), floor or the oxygen system (it
    /// has).
    ///
    /// The caller owes a machine that answers the command with a status code.
    pub fn go(&mut self, dir: Dir) -> (tile: Tile)
        requires
            answers(old(self).icoder@, dir.command() as i64),
        ensures
            tile == reply(old(self).icoder@, dir.command() as i64),
            final(self).icoder@ == moved(old(self).icoder@, dir.command() as i64),
            *final(final(self).icoder) == *final(old(self).icoder),
    {
        self.icoder.input(dir.code());
        match self.icoder.run() {
            IntResponse::Output(i) => Tile::new(i),
            _ => unreached(),
        }
    }

    /// Finds out what lies next to the droid: tries each direction, north,
    /// south, west and east, and steps back wherever the droid did move. The
    /// droid ends where it began.
    ///
    /// The caller owes a machine that answers every one of these commands
    /// with wall, floor or oxygen system.
    pub fn explore(&mut self) -> (tiles: [Tile; 4])
        requires
            surveyed(old(self).icoder@, 4) is Some,
        ensures
            Some((final(self).icoder@, tiles@)) == surveyed(old(self).icoder@, 4),
            *final(final(self).icoder) == *final(old(self).icoder),
    {
        let mut tiles = [Tile::Space;4];
        let mut i: i64 = 1;
        proof {
            reveal_with_fuel(surveyed, 5);
        }
        while i < 5
            invariant
                1 <= i <= 5,
                surveyed(old(self).icoder@, 4) is Some,
                surveyed(old(self).icoder@, i - 1) is Some,
                surveyed(old(self).icoder@, i - 1)->Some_0.0 == self.icoder@,
                surveyed(old(self).icoder@, i - 1)->Some_0.1 =~= tiles@.subrange(0, i - 1),
                *final(self.icoder) == *final(old(self).icoder),
            decreases 5 - i,
        {
            proof {
                Self::lemma_surveyed_prefix(old(self).icoder@, i as int, 4);
            }
            let dir = Dir::new(i);
            let tile = self.go(dir);
            match &tile {
                Tile::Wall => {},
                Tile::Oxy | Tile::Path => {
                    self.go(dir.rev());
                },
                _ => unreached(),
            }
            tiles[(i - 1) as usize] = tile;
            assert(tiles@.subrange(0, i as int) =~= tiles@.subrange(0, i - 1).push(tile));
            i = i + 1;
        }
        assert(tiles@.subrange(0, 4) =~= tiles@);
        tiles
    }

    /// A survey that succeeds has succeeded for every smaller number of
    /// directions.
    proof fn lemma_surveyed_prefix(m: Machine, count: int, total: int)
        requires
            count <= total,
            surveyed(m, total) is Some,
        ensures
            surveyed(m, count) is Some,
        decreases total - count,
    {
        if count < total {
            Self::lemma_surveyed_prefix(m, count + 1, total);
        }
    }
}

} // verus!
