//! The walk over the lines, and the moves that follow it.

use vstd::prelude::*;
use crate::board::graph::{
    find, graph_view, has_lines, lands, lemma_first_entry, lemma_wired_measured, lines_from,
    measured, span, Lines,
};
use crate::board::{Board, Coor, Edge};

verus! {

/// Among the first `count` of `edges`, the longest line that leads to a place
/// not in `visited`, the earliest such if several are as long; `None` if
/// every one of them has no length or leads to a place in `visited`.
pub open spec fn farthest(edges: Seq<Edge>, visited: Seq<Coor>, count: int) -> Option<Edge>
    decreases count,
{
    if count <= 0 {
        None
    } else {
        let best = farthest(edges, visited, count - 1);
        let edge = edges[count - 1];
        let most = match best {
            Some(b) => b.len,
            None => 0,
        };
        if !visited.contains(edge.to) && edge.len > most {
            Some(edge)
        } else {
            best
        }
    }
}

/// The lower end of the line between `from` and `to`: the smaller column and
/// the smaller row.
pub open spec fn low_end(from: Coor, to: Coor) -> (int, int) {
    (
        if from.x > to.x {
            to.x as int
        } else {
            from.x as int
        },
        if from.y > to.y {
            to.y as int
        } else {
            from.y as int
        },
    )
}

/// The place `steps` cells up the line from its lower end.
pub open spec fn along(from: Coor, to: Coor, steps: int) -> (int, int) {
    let (x, y) = low_end(from, to);
    if from.x == to.x {
        (x, y + steps)
    } else {
        (x + steps, y)
    }
}

/// The places with lines of their own among the first `steps` cells of the
/// line between `from` and `to`, counted from its lower end, which is not
/// one of them.
pub open spec fn passed(graph: Seq<Lines>, from: Coor, to: Coor, steps: int) -> Seq<Coor>
    decreases steps,
{
    if steps <= 0 {
        Seq::empty()
    } else {
        let before = passed(graph, from, to, steps - 1);
        let (x, y) = along(from, to, steps);
        let place = Coor { x: x as usize, y: y as usize };
        if has_lines(graph, place) {
            before.push(place)
        } else {
            before
        }
    }
}

/// The places of a walk of at most `legs` lines that begins at `curr` with
/// `visited` seen already. Each leg follows the longest line to a place not
/// seen (the first such of equal length); the place joins the places seen,
/// and so do the places with lines of their own inside that line. The walk
/// ends where no line leads to a place not seen.
pub open spec fn walked(graph: Seq<Lines>, curr: Coor, visited: Seq<Coor>, legs: nat) -> Seq<Coor>
    decreases legs,
{
    if legs == 0 || !has_lines(graph, curr) {
        visited
    } else {
        let edges = lines_from(graph, curr);
        match farthest(edges, visited, edges.len() as int) {
            None => visited,
            Some(edge) => walked(
                graph,
                edge.to,
                visited.push(edge.to) + passed(graph, curr, edge.to, edge.len - 1),
                (legs - 1) as nat,
            ),
        }
    }
}

/// How many of the first `count` of the places `corners` are not in
/// `visited`.
pub open spec fn unseen(corners: Seq<Coor>, visited: Seq<Coor>, count: int) -> nat
    decreases count,
{
    if count <= 0 {
        0
    } else if visited.contains(corners[count - 1]) {
        unseen(corners, visited, count - 1)
    } else {
        unseen(corners, visited, count - 1) + 1
    }
}

/// Seeing more places leaves no more places unseen, and fewer if one of the
/// places counted is among those newly seen.
pub proof fn lemma_unseen_shrinks(
    corners: Seq<Coor>,
    visited: Seq<Coor>,
    more: Seq<Coor>,
    count: int,
)
    requires
        count <= corners.len(),
        forall|c: Coor| visited.contains(c) ==> more.contains(c),
    ensures
        unseen(corners, more, count) <= unseen(corners, visited, count),
        (exists|k: int| 0 <= k < count && !visited.contains(corners[k]) && more.contains(corners[k]))
            ==> unseen(corners, more, count) < unseen(corners, visited, count),
    decreases count,
{
    if count > 0 {
        lemma_unseen_shrinks(corners, visited, more, count - 1);
        if exists|k: int|
            0 <= k < count && !visited.contains(corners[k]) && more.contains(corners[k]) {
            let k = choose|k: int|
                0 <= k < count && !visited.contains(corners[k]) && more.contains(corners[k]);
            if k < count - 1 {
                assert(0 <= k < count - 1 && !visited.contains(corners[k]) && more.contains(
                    corners[k],
                ));
            }
        }
    }
}

/// With every place seen, none is unseen; with none unseen, every place is
/// seen.
pub proof fn lemma_unseen_none(corners: Seq<Coor>, visited: Seq<Coor>, count: int)
    requires
        count <= corners.len(),
        unseen(corners, visited, count) == 0,
    ensures
        forall|k: int| 0 <= k < count ==> visited.contains(#[trigger] corners[k]),
    decreases count,
{
    if count > 0 {
        lemma_unseen_none(corners, visited, count - 1);
    }
}

/// The line that `farthest` picks is one of the lines given and leads to a
/// place not seen.
pub proof fn lemma_farthest(edges: Seq<Edge>, visited: Seq<Coor>, count: int)
    requires
        count <= edges.len(),
    ensures
        farthest(edges, visited, count) matches Some(edge) ==> !visited.contains(edge.to) && exists|
            j: int,
        |
            0 <= j < count && edges[j] == edge,
    decreases count,
{
    if count > 0 {
        lemma_farthest(edges, visited, count - 1);
        let best = farthest(edges, visited, count - 1);
        if farthest(edges, visited, count) == best {
            if best is Some {
                let j = choose|j: int| 0 <= j < count - 1 && edges[j] == best->Some_0;
                assert(0 <= j < count && edges[j] == best->Some_0);
            }
        } else {
            assert(edges[count - 1] == farthest(edges, visited, count)->Some_0);
        }
    }
}

/// A walk over lines that all end at places of `corners` is over after as
/// many legs as there are places unseen: further legs change nothing.
pub proof fn lemma_walk_ends(
    graph: Seq<Lines>,
    corners: Seq<Coor>,
    curr: Coor,
    visited: Seq<Coor>,
    legs: nat,
    more: nat,
)
    requires
        lands(graph, corners),
        legs >= unseen(corners, visited, corners.len() as int),
    ensures
        walked(graph, curr, visited, legs + more) == walked(graph, curr, visited, legs),
    decreases legs,
{
    if has_lines(graph, curr) {
        let edges = lines_from(graph, curr);
        let at = choose|i: int|
            0 <= i < graph.len() && (#[trigger] graph[i]).0 == curr && forall|j: int|
                0 <= j < i ==> (#[trigger] graph[j]).0 != curr;
        let first = lemma_first_entry(graph, curr);
        assert(first < graph.len()) by {
            let i = choose|i: int| 0 <= i < graph.len() && (#[trigger] graph[i]).0 == curr;
            if first == graph.len() {
                assert(graph[i].0 != curr);
            }
        }
        assert(0 <= first < graph.len() && graph[first].0 == curr && forall|j: int|
            0 <= j < first ==> (#[trigger] graph[j]).0 != curr);
        assert(edges == graph[at].1);
        lemma_farthest(edges, visited, edges.len() as int);
        match farthest(edges, visited, edges.len() as int) {
            None => {},
            Some(edge) => {
                let j = choose|j: int| 0 <= j < edges.len() && edges[j] == edge;
                assert(corners.contains(graph[at].1[j].to));
                let k = choose|k: int| 0 <= k < corners.len() && corners[k] == edge.to;
                let next = visited.push(edge.to) + passed(graph, curr, edge.to, edge.len - 1);
                assert(next[visited.len() as int] == edge.to);
                assert forall|c: Coor| visited.contains(c) implies next.contains(c) by {
                    let i = choose|i: int| 0 <= i < visited.len() && visited[i] == c;
                    assert(next[i] == c);
                }
                assert(0 <= k < corners.len() && !visited.contains(corners[k]) && next.contains(
                    corners[k],
                ));
                lemma_unseen_shrinks(corners, visited, next, corners.len() as int);
                if legs == 0 {
                    lemma_unseen_none(corners, visited, corners.len() as int);
                    assert(visited.contains(corners[k]));
                } else {
                    lemma_walk_ends(graph, corners, edge.to, next, (legs - 1) as nat, more);
                    assert(legs + more - 1 == (legs - 1) + more);
                }
            },
        }
    }
}

/// The four ways to face on the grid: `U` towards larger rows, `R` towards
/// larger columns.
#[derive(Debug, Clone, Copy, PartialEq, Eq)]
pub enum Heading {
    U,
    D,
    L,
    R,
}

/// What to do before moving on.
#[derive(Debug, Clone, Copy, PartialEq, Eq)]
pub enum Turn {
    /// Keep the heading.
    Ahead,
    /// Turn left once.
    Left,
    /// Turn right once.
    Right,
    /// Turn right twice.
    Back,
}

/// The heading of a move from `prev` to `next`: along the column if the two
/// share one, otherwise along the row; towards the larger number if `next`
/// has it, otherwise towards the smaller.
pub open spec fn heading_of(prev: Coor, next: Coor) -> Heading {
    if prev.x == next.x {
        if prev.y < next.y {
            Heading::U
        } else {
            Heading::D
        }
    } else {
        if prev.x < next.x {
            Heading::R
        } else {
            Heading::L
        }
    }
}

/// The turn that brings someone who faces `facing` to face `heading`.
pub open spec fn turn_of(facing: Heading, heading: Heading) -> Turn {
    match (facing, heading) {
        (Heading::U, Heading::U) => Turn::Ahead,
        (Heading::U, Heading::D) => Turn::Back,
        (Heading::U, Heading::R) => Turn::Right,
        (Heading::U, Heading::L) => Turn::Left,
        (Heading::D, Heading::U) => Turn::Back,
        (Heading::D, Heading::D) => Turn::Ahead,
        (Heading::D, Heading::R) => Turn::Left,
        (Heading::D, Heading::L) => Turn::Right,
        (Heading::L, Heading::U) => Turn::Right,
        (Heading::L, Heading::D) => Turn::Left,
        (Heading::L, Heading::R) => Turn::Back,
        (Heading::L, Heading::L) => Turn::Ahead,
        (Heading::R, Heading::U) => Turn::Left,
        (Heading::R, Heading::D) => Turn::Right,
        (Heading::R, Heading::R) => Turn::Ahead,
        (Heading::R, Heading::L) => Turn::Back,
    }
}

/// The `k`-th stop of a route that begins at `start` and goes on through
/// `stops`; the stop before the first is `start`.
pub open spec fn stop_at(start: Coor, stops: Seq<Coor>, k: int) -> Coor {
    if k < 0 {
        start
    } else {
        stops[k]
    }
}

/// The heading in which the `k`-th stop is reached. Before the first move
/// the heading is `R`.
pub open spec fn heading_at(start: Coor, stops: Seq<Coor>, k: int) -> Heading {
    if k < 0 {
        Heading::R
    } else {
        heading_of(stop_at(start, stops, k - 1), stop_at(start, stops, k))
    }
}

/// Whether `place` is in `list`.
pub(crate) fn listed(list: &Vec<Coor>, place: &Coor) -> (found: bool)
    ensures
        found == list@.contains(*place),
{
    let mut i: usize = 0;
    while i < list.len()
        invariant
            i <= list.len(),
            forall|k: int| 0 <= k < i ==> list@[k] != *place,
        decreases list.len() - i,
    {
        if list[i] == *place {
            return true;
        }
        i = i + 1;
    }
    false
}

impl Board {
    /// The index of the line that a walk follows next: the longest of `edges`
    /// that leads to a place not in `visited`, the first such if several are
    /// as long.
    fn pick(edges: &Vec<Edge>, visited: &Vec<Coor>) -> (best: Option<usize>)
        ensures
            match best {
                Some(i) => i < edges@.len() && farthest(edges@, visited@, edges@.len() as int)
                    == Some(edges@[i as int]),
                None => farthest(edges@, visited@, edges@.len() as int) is None,
            },
    {
        let mut max: usize = 0;
        let mut biggest: usize = 0;
        let mut k: usize = 0;
        while k < edges.len()
            invariant
                k <= edges.len(),
                max > 0 ==> biggest < k,
                farthest(edges@, visited@, k as int) == (if max > 0 {
                    Some(edges@[biggest as int])
                } else {
                    None
                }),
                max > 0 ==> edges@[biggest as int].len == max,
            decreases edges.len() - k,
        {
            if !listed(visited, &edges[k].to) && edges[k].len > max {
                max = edges[k].len;
                biggest = k;
            }
            k = k + 1;
        }
        if max > 0 {
            Some(biggest)
        } else {
            None
        }
    }

    /// Adds to `visited` the places with lines of their own that lie inside
    /// the line between `from` and `to`, which is `len` cells long, counted
    /// from the line's lower end.
    fn visited_push(&self, visited: &mut Vec<Coor>, from: &Coor, to: &Coor, len: usize)
        requires
            len <= span(*from, *to),
        ensures
            final(visited)@ == old(visited)@ + passed(self@.graph, *from, *to, len - 1),
    {
        let is_vertical = from.x == to.x;
        let mut x = from.x;
        let mut y = from.y;
        if x > to.x {
            x = to.x;
        }
        if y > to.y {
            y = to.y;
        }
        let mut i: usize = 1;
        assert(visited@ =~= old(visited)@ + passed(self@.graph, *from, *to, 0));
        while i < len
            invariant
                1 <= i,
                i <= len || i == 1,
                len <= span(*from, *to),
                is_vertical == (from.x == to.x),
                (x as int, y as int) == along(*from, *to, i - 1),
                visited@ == old(visited)@ + passed(self@.graph, *from, *to, i - 1),
            decreases len - i,
        {
            if is_vertical {
                y += 1;
            } else {
                x += 1;
            }
            let maybe = Coor { x, y };
            if find(&self.graph, &maybe).is_some() {
                visited.push(maybe);
            }
            assert(visited@ =~= old(visited)@ + passed(self@.graph, *from, *to, i as int));
            i = i + 1;
        }
        assert(passed(self@.graph, *from, *to, len - 1) =~= passed(self@.graph, *from, *to, i - 1));
    }

    /// One leg of a walk: from `curr` along the longest line to a place not
    /// in `visited`. Returns that place, which joins `visited` together with
    /// the places inside the line; `None`, with nothing changed, if no line
    /// leads on from `curr`.
    fn leg(&self, curr: &Coor, visited: &mut Vec<Coor>) -> (next: Option<Coor>)
        requires
            measured(self@.graph),
        ensures
            match next {
                None => final(visited)@ == old(visited)@ && (!has_lines(self@.graph, *curr)
                    || farthest(
                    lines_from(self@.graph, *curr),
                    old(visited)@,
                    lines_from(self@.graph, *curr).len() as int,
                ) is None),
                Some(to) => {
                    let edges = lines_from(self@.graph, *curr);
                    &&& has_lines(self@.graph, *curr)
                    &&& farthest(edges, old(visited)@, edges.len() as int) matches Some(edge)
                    &&& edge.to == to
                    &&& final(visited)@ == old(visited)@.push(to) + passed(
                        self@.graph,
                        *curr,
                        to,
                        edge.len - 1,
                    )
                },
            },
    {
        let at = match find(&self.graph, curr) {
            Some(at) => at,
            None => {
                return None;
            },
        };
        let edges = &self.graph[at].1;
        assert(graph_view(self.graph@)[at as int] == (self.graph@[at as int].0, edges@));
        match Board::pick(edges, visited) {
            None => None,
            Some(biggest) => {
                let to = edges[biggest].to.clone();
                let max = edges[biggest].len;
                assert(graph_view(self.graph@)[at as int].1[biggest as int].len == span(
                    graph_view(self.graph@)[at as int].0,
                    graph_view(self.graph@)[at as int].1[biggest as int].to,
                ));
                visited.push(to.clone());
                self.visited_push(visited, curr, &to, max);
                Some(to)
            },
        }
    }

    /// Walks from the start, from each place along the longest line to a
    /// place not seen before, until no such line is left, and returns the
    /// places seen in the order in which they were seen, the start left out.
    /// A place with lines of its own that lies inside a line counts as seen
    /// once the line was walked.
    pub fn route(&mut self) -> (visited: Vec<Coor>)
        requires
            old(self)@.wf(),
        ensures
            visited@ == old(self)@.route(),
            final(self)@ == old(self)@,
    {
        let mut visited: Vec<Coor> = Vec::new();
        visited.push(self.start.clone());
        let mut curr = self.start.clone();
        let mut legs = self.corners.len();
        let ghost whole = walked(self@.graph, self@.start, seq![self@.start], self@.corners.len());
        assert(visited@ =~= seq![self@.start]);
        proof {
            lemma_wired_measured(self@.corners, self@.corners.len() as int);
        }
        while legs > 0
            invariant
                measured(self@.graph),
                visited@.len() > 0,
                walked(self@.graph, curr, visited@, legs as nat) == whole,
            ensures
                visited@.len() > 0,
                visited@ == whole,
            decreases legs,
        {
            match self.leg(&curr, &mut visited) {
                None => {
                    break;
                },
                Some(to) => {
                    curr = to;
                    legs = legs - 1;
                },
            }
        }
        let ghost all = visited@;
        visited.remove(0);
        assert(visited@ =~= all.drop_first());
        visited
    }

    /// The heading of a move from `prev` to `next`.
    fn heading(prev: &Coor, next: &Coor) -> (heading: Heading)
        ensures
            heading == heading_of(*prev, *next),
    {
        let is_vertical = prev.x == next.x;
        let is_forward = if is_vertical {
            prev.y < next.y
        } else {
            prev.x < next.x
        };
        if is_forward && is_vertical {
            Heading::U
        } else if is_vertical {
            Heading::D
        } else if is_forward {
            Heading::R
        } else {
            Heading::L
        }
    }

    /// The turn that brings someone who faces `facing` to face `heading`.
    fn turn(facing: Heading, heading: Heading) -> (turn: Turn)
        ensures
            turn == turn_of(facing, heading),
    {
        match facing {
            Heading::U => match heading {
                Heading::U => Turn::Ahead,
                Heading::D => Turn::Back,
                Heading::R => Turn::Right,
                Heading::L => Turn::Left,
            },
            Heading::D => match heading {
                Heading::U => Turn::Back,
                Heading::D => Turn::Ahead,
                Heading::R => Turn::Left,
                Heading::L => Turn::Right,
            },
            Heading::L => match heading {
                Heading::U => Turn::Right,
                Heading::D => Turn::Left,
                Heading::R => Turn::Back,
                Heading::L => Turn::Ahead,
            },
            Heading::R => match heading {
                Heading::U => Turn::Left,
                Heading::D => Turn::Right,
                Heading::R => Turn::Ahead,
                Heading::L => Turn::Back,
            },
        }
    }

    /// The moves of a route that begins at the start, facing `R`, and stops
    /// at each of `visited` in turn: for each stop the turn to make and the
    /// number of cells to go.
    pub fn turns(&self, visited: &Vec<Coor>) -> (moves: Vec<(Turn, usize)>)
        ensures
            moves@.len() == visited@.len(),
            forall|k: int|
                0 <= k < moves@.len() ==> #[trigger] moves@[k] == (
                    turn_of(
                        heading_at(self@.start, visited@, k - 1),
                        heading_at(self@.start, visited@, k),
                    ),
                    span(
                        stop_at(self@.start, visited@, k - 1),
                        stop_at(self@.start, visited@, k),
                    ) as usize,
                ),
    {
        let mut moves: Vec<(Turn, usize)> = Vec::new();
        let mut facing = Heading::R;
        let mut k: usize = 0;
        while k < visited.len()
            invariant
                k <= visited.len(),
                moves@.len() == k,
                facing == heading_at(self@.start, visited@, k - 1),
                forall|m: int|
                    0 <= m < k ==> #[trigger] moves@[m] == (
                        turn_of(
                            heading_at(self@.start, visited@, m - 1),
                            heading_at(self@.start, visited@, m),
                        ),
                        span(
                            stop_at(self@.start, visited@, m - 1),
                            stop_at(self@.start, visited@, m),
                        ) as usize,
                    ),
            decreases visited.len() - k,
        {
            let prev = if k == 0 {
                &self.start
            } else {
                &visited[k - 1]
            };
            let next = &visited[k];
            let heading = Board::heading(prev, next);
            let len = Board::dist(&self.board, prev, next);
            moves.push((Board::turn(facing, heading), len));
            facing = heading;
            k = k + 1;
        }
        moves
    }
}

} // verus!
