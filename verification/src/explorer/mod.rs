//! The repair droid: a machine that is steered through an unknown area while
//! a chart of the area is drawn.

pub mod chart;
pub mod dir;
pub mod robot;
pub mod tile;

use vstd::prelude::*;
use crate::explorer::chart::{Area, Chart};
use crate::explorer::dir::Dir;
use crate::explorer::robot::{answers, moved, reply, surveyed, Robot};
use crate::explorer::tile::Tile;
use crate::intcoder::Intcode;
use crate::model::Machine;

verus! {

/// The number of rows and columns of the chart that an explorer draws.
pub const CHART_SIZE: usize = 50;

/// An exploration under way, as a mathematical value.
pub struct Quest {
    /// The machine that runs the droid.
    pub machine: Machine,
    /// The chart so far.
    pub area: Area,
    /// The moves that led from the starting point to where the droid is.
    pub path: Seq<Dir>,
    /// The length of the longest way seen so far.
    pub longest: nat,
    /// Whether the chart's visits were forgotten at the oxygen system.
    pub has_reset: bool,
}

/// What one round of an exploration leads to.
pub enum Progress {
    /// The exploration goes on from here.
    Going(Quest),
    /// The exploration is over: where it ended and its result.
    Done(Quest, nat),
}

/// The first direction, in the order north, south, west, east, in which the
/// square next to the droid is worth a visit.
pub open spec fn first_open(area: Area) -> Option<Dir> {
    if area.open_way(Dir::N) {
        Some(Dir::N)
    } else if area.open_way(Dir::S) {
        Some(Dir::S)
    } else if area.open_way(Dir::W) {
        Some(Dir::W)
    } else if area.open_way(Dir::E) {
        Some(Dir::E)
    } else {
        None
    }
}

/// The chart after the four tiles found round the droid, north, south, west
/// and east, were written down.
pub open spec fn charted(area: Area, tiles: Seq<Tile>) -> Area {
    area.noted(Dir::N, tiles[0]).noted(Dir::S, tiles[1]).noted(Dir::W, tiles[2]).noted(
        Dir::E,
        tiles[3],
    )
}

/// One round of an exploration. The droid looks round and the chart is
/// brought up to date. Then it enters the first square that is worth a visit;
/// if there is none it goes back one move along its path; if it is back at
/// the starting point, the exploration is over and its result is the length
/// of the longest way seen.
///
/// Arriving at the oxygen system ends an exploration that only looks for it,
/// with the length of the path as the result. One that measures from there
/// (`oxy_trace`) forgets, the first time, all visits and its path and goes
/// on.
///
/// `None` where the machine does not answer as a droid does, or where the way
/// back would leave the chart.
#[verifier::opaque]
pub open spec fn advanced(q: Quest, oxy_trace: bool) -> Option<Progress> {
    match surveyed(q.machine, 4) {
        None => None,
        Some((looked, tiles)) => {
            let area = charted(q.area, tiles);
            let longest = if q.path.len() > q.longest {
                q.path.len()
            } else {
                q.longest
            };
            match first_open(area) {
                Some(dir) => if !answers(looked, dir.command() as i64) {
                    None
                } else {
                    let tile = reply(looked, dir.command() as i64);
                    let machine = moved(looked, dir.command() as i64);
                    let path = q.path.push(dir);
                    if tile == Tile::Oxy && oxy_trace && !q.has_reset {
                        Some(
                            Progress::Going(
                                Quest {
                                    machine,
                                    area: area.entered(dir).restarted(),
                                    path: Seq::empty(),
                                    longest: 0,
                                    has_reset: true,
                                },
                            ),
                        )
                    } else if tile == Tile::Oxy && !oxy_trace {
                        Some(
                            Progress::Done(
                                Quest { machine, area: area.entered(dir), path, longest, ..q },
                                path.len(),
                            ),
                        )
                    } else {
                        Some(
                            Progress::Going(
                                Quest { machine, area: area.entered(dir), path, longest, ..q },
                            ),
                        )
                    }
                },
                None => if q.path.len() > 0 {
                    let back = q.path.last().opposite();
                    if !answers(looked, back.command() as i64) || !area.inside(
                        back.moved(area.curr),
                    ) {
                        None
                    } else {
                        Some(
                            Progress::Going(
                                Quest {
                                    machine: moved(looked, back.command() as i64),
                                    area: area.entered(back),
                                    path: q.path.drop_last(),
                                    longest,
                                    ..q
                                },
                            ),
                        )
                    }
                } else {
                    Some(Progress::Done(Quest { machine: looked, area, longest, ..q }, longest))
                },
            }
        },
    }
}

/// An exploration of at most `limit` rounds: where it ends and its result.
/// `None` where it is not over by then or a round is not defined.
pub open spec fn explored_within(q: Quest, oxy_trace: bool, limit: nat) -> Option<(Quest, nat)>
    decreases limit,
{
    if limit == 0 {
        None
    } else {
        match advanced(q, oxy_trace) {
            None => None,
            Some(Progress::Done(end, result)) => Some((end, result)),
            Some(Progress::Going(next)) => explored_within(next, oxy_trace, (limit - 1) as nat),
        }
    }
}

/// Whether the exploration comes to an end, every round of it defined.
pub open spec fn completes(q: Quest, oxy_trace: bool) -> bool {
    exists|limit: nat| explored_within(q, oxy_trace, limit) is Some
}

/// Where the exploration ends, and its result.
pub open spec fn explored(q: Quest, oxy_trace: bool) -> (Quest, nat)
    recommends
        completes(q, oxy_trace),
{
    explored_within(
        q,
        oxy_trace,
        choose|limit: nat| explored_within(q, oxy_trace, limit) is Some,
    )->Some_0
}

/// A larger limit does not change where an exploration ends.
pub proof fn lemma_explored_stable(q: Quest, oxy_trace: bool, limit: nat, larger: nat)
    requires
        limit <= larger,
        explored_within(q, oxy_trace, limit) is Some,
    ensures
        explored_within(q, oxy_trace, larger) == explored_within(q, oxy_trace, limit),
    decreases limit,
{
    match advanced(q, oxy_trace) {
        Some(Progress::Going(next)) => {
            lemma_explored_stable(next, oxy_trace, (limit - 1) as nat, (larger - 1) as nat);
        },
        _ => {},
    }
}

/// An exploration that ends within some limit ends in `explored`.
pub proof fn lemma_explored_is(q: Quest, oxy_trace: bool, limit: nat)
    requires
        explored_within(q, oxy_trace, limit) is Some,
    ensures
        completes(q, oxy_trace),
        explored_within(q, oxy_trace, limit) == Some(explored(q, oxy_trace)),
{
    let chosen = choose|chosen: nat| explored_within(q, oxy_trace, chosen) is Some;
    if chosen <= limit {
        lemma_explored_stable(q, oxy_trace, chosen, limit);
    } else {
        lemma_explored_stable(q, oxy_trace, limit, chosen);
    }
}

/// A droid and the chart it draws.
pub struct Explorer<'a> {
    /// The droid.
    pub robot: Robot<'a>,
    /// The chart.
    pub map: Chart,
}

impl<'a> Explorer<'a> {
    /// The exploration that is about to begin: the droid at the chart's
    /// starting point, no way gone yet.
    pub open spec fn quest(&self) -> Quest {
        Quest {
            machine: self.robot.icoder@,
            area: self.map@,
            path: Seq::empty(),
            longest: 0,
            has_reset: false,
        }
    }

    /// An explorer for the droid that `icoder` runs, with a blank chart.
    pub fn new(icoder: &'a mut Intcode) -> (explorer: Explorer<'a>)
        ensures
            explorer.robot.icoder@ == old(icoder)@,
            explorer.map@ == Area::blank(CHART_SIZE as int),
            explorer.map@.wf(),
            *final(icoder) == *final(explorer.robot.icoder),
    {
        Explorer { robot: Robot::new(icoder), map: Chart::new(CHART_SIZE) }
    }

    /// The chart as rows of characters, row 0 first, with `D` where the droid
    /// stands.
    pub fn rows(&self) -> (rows: Vec<Vec<char>>)
        requires
            self.map@.wf(),
        ensures
            rows@.len() == self.map@.size(),
            forall|y: int|
                0 <= y < self.map@.size() ==> (#[trigger] rows@[y])@.len() == self.map@.size(),
            forall|x: int, y: int|
                0 <= x < self.map@.size() && 0 <= y < self.map@.size() ==> (
                #[trigger] rows@[y]@[x]) == self.map@.shown((x, y)),
    {
        self.map.rows()
    }

    /// The exploration as it stands, with the path gone, the longest way seen
    /// and whether the visits were forgotten already.
    pub open spec fn state(&self, path: Seq<Dir>, longest: nat, has_reset: bool) -> Quest {
        Quest { machine: self.robot.icoder@, area: self.map@, path, longest, has_reset }
    }

    /// Lets the droid look round and writes what it finds on the chart.
    fn look(&mut self)
        requires
            old(self).map@.wf(),
            surveyed(old(self).robot.icoder@, 4) is Some,
        ensures
            final(self).robot.icoder@ == surveyed(old(self).robot.icoder@, 4)->Some_0.0,
            final(self).map@ == charted(old(self).map@, surveyed(old(self).robot.icoder@, 4)->Some_0.1),
            final(self).map@.wf(),
            *final(final(self).robot.icoder) == *final(old(self).robot.icoder),
    {
        let tiles = self.robot.explore();
        self.map.set(Dir::N, &tiles[0]);
        self.map.set(Dir::S, &tiles[1]);
        self.map.set(Dir::W, &tiles[2]);
        self.map.set(Dir::E, &tiles[3]);
    }

    /// One round of the exploration. Returns the result if the exploration is
    /// over.
    fn advance(
        &mut self,
        path: &mut Vec<Dir>,
        longest: &mut usize,
        has_reset: &mut bool,
        oxy_trace: bool,
    ) -> (done: Option<usize>)
        requires
            old(self).map@.wf(),
            advanced(old(self).state(old(path)@, *old(longest) as nat, *old(has_reset)), oxy_trace)
                is Some,
        ensures
            final(self).map@.wf(),
            *final(final(self).robot.icoder) == *final(old(self).robot.icoder),
            advanced(old(self).state(old(path)@, *old(longest) as nat, *old(has_reset)), oxy_trace)
                == Some(
                match done {
                    None => Progress::Going(
                        final(self).state(final(path)@, *final(longest) as nat, *final(has_reset)),
                    ),
                    Some(result) => Progress::Done(
                        final(self).state(final(path)@, *final(longest) as nat, *final(has_reset)),
                        result as nat,
                    ),
                },
            ),
    {
        reveal(advanced);
        self.look();
        if path.len() > *longest {
            *longest = path.len();
        }
        match self.decide() {
            Some(dir) => {
                let tile = self.robot.go(dir);
                self.map.go(dir);
                path.push(dir);
                if let Tile::Oxy = tile {
                    if oxy_trace && !*has_reset {
                        self.map.reset();
                        path.clear();
                        *longest = 0;
                        *has_reset = true;
                    } else if !oxy_trace {
                        return Some(path.len());
                    }
                }
                None
            },
            None => match path.pop() {
                Some(dir) => {
                    assert(old(path)@.last() == dir);
                    assert(path@ == old(path)@.drop_last());
                    self.robot.go(dir.rev());
                    self.map.go(dir.rev());
                    None
                },
                None => Some(*longest),
            },
        }
    }

    /// Explores the area and returns a length of way.
    ///
    /// With `oxy_trace` unset the droid looks for the oxygen system, and the
    /// result is the number of moves on its path when it arrives there (or
    /// the longest path seen, if it comes back without finding it). With
    /// `oxy_trace` set the droid goes to the oxygen system, forgets what it
    /// has visited and explores everything from there: the result is the
    /// length of the longest path away from the oxygen system.
    ///
    /// The caller owes a machine with which this comes to an end: one that
    /// answers every command as a droid does, in an area that fits on the
    /// chart.
    pub fn run(&mut self, oxy_trace: bool) -> (result: usize)
        requires
            old(self).map@.wf(),
            completes(old(self).quest(), oxy_trace),
        ensures
            result == explored(old(self).quest(), oxy_trace).1,
            final(self).robot.icoder@ == explored(old(self).quest(), oxy_trace).0.machine,
            final(self).map@ == explored(old(self).quest(), oxy_trace).0.area,
            final(self).map@.wf(),
            *final(final(self).robot.icoder) == *final(old(self).robot.icoder),
    {
        let mut path: Vec<Dir> = Vec::new();
        let mut longest: usize = 0;
        let mut has_reset = false;
        let ghost mut left: nat = choose|limit: nat|
            explored_within(old(self).quest(), oxy_trace, limit) is Some;
        let ghost goal = explored(old(self).quest(), oxy_trace);
        proof {
            lemma_explored_is(old(self).quest(), oxy_trace, left);
        }
        loop
            invariant
                self.map@.wf(),
                goal == explored(old(self).quest(), oxy_trace),
                explored_within(self.state(path@, longest as nat, has_reset), oxy_trace, left)
                    == Some(goal),
                *final(self.robot.icoder) == *final(old(self).robot.icoder),
            decreases left,
        {
            assert(left > 0);
            match self.advance(&mut path, &mut longest, &mut has_reset, oxy_trace) {
                Some(result) => {
                    assert(goal.1 == result);
                    return result;
                },
                None => {},
            }
            proof {
                left = (left - 1) as nat;
            }
        }
    }

    /// The first direction, in the order north, south, west, east, in which a
    /// square worth a visit lies next to the droid.
    fn decide(&self) -> (dir: Option<Dir>)
        requires
            self.map@.wf(),
        ensures
            dir == first_open(self.map@),
    {
        let valids = self.map.explorable();
        let mut i: usize = 0;
        while i < 4
            invariant
                i <= 4,
                forall|k: int|
                    0 <= k < 4 ==> #[trigger] valids@[k] == self.map@.open_way(Dir::of(k + 1)),
                forall|k: int| 0 <= k < i ==> !#[trigger] valids@[k],
            decreases 4 - i,
        {
            if valids[i] {
                assert(valids@[0] == self.map@.open_way(Dir::of(0int + 1)));
                assert(valids@[1] == self.map@.open_way(Dir::of(1int + 1)));
                assert(valids@[2] == self.map@.open_way(Dir::of(2int + 1)));
                assert(valids@[3] == self.map@.open_way(Dir::of(3int + 1)));
                return Some(Dir::new((i + 1) as i64));
            }
            i = i + 1;
        }
        assert(!valids@[0] && !valids@[1] && !valids@[2] && !valids@[3]);
        None
    }
}

} // verus!
