//! A picture of scaffolding as a grid of cells, the places on it where a
//! turn can be made, and the straight lines between those places.

pub mod graph;
pub mod grid;
pub mod route;

use vstd::prelude::*;
use crate::board::graph::{graph_view, lemma_wired_lands, wired, Lines};
use crate::board::grid::{grid_view, lists_turning_places, parse, parsed};
use crate::board::route::{lemma_walk_ends, listed, unseen, walked};

verus! {

/// A place on the grid: column `x`, row `y`.
#[derive(Debug, PartialEq, Eq, Structural, Hash)]
pub struct Coor {
    /// The column, counted from the left.
    pub x: usize,
    /// The row, counted from the top.
    pub y: usize,
}

impl Coor {
    /// A copy of the place.
    pub fn clone(&self) -> (copy: Coor)
        ensures
            copy == *self,
    {
        Coor { x: self.x, y: self.y }
    }
}

/// A straight line from a turning place to another one.
#[derive(Debug, PartialEq, Eq, Structural, Hash)]
pub struct Edge {
    /// Where the line ends.
    pub to: Coor,
    /// How many cells long it is.
    pub len: usize,
}

/// A picture of scaffolding as a mathematical value.
pub struct Scaffold {
    /// The rows of cells; `true` is scaffold.
    pub grid: Seq<Seq<bool>>,
    /// The turning places, then the start and the end of the route.
    pub corners: Seq<Coor>,
    /// For each of these places, the straight lines from it to the others.
    pub graph: Seq<Lines>,
    /// Where the route begins.
    pub start: Coor,
    /// Where the route should end.
    pub end: Coor,
}

impl Scaffold {
    /// What holds of every picture: after the turning places of the grid come
    /// the start and the end, and the lines are those between all of these.
    pub open spec fn wf(self) -> bool {
        &&& self.corners.len() >= 2
        &&& lists_turning_places(self.grid, self.corners.subrange(0, self.corners.len() - 2))
        &&& self.corners[self.corners.len() - 2] == self.start
        &&& self.corners[self.corners.len() - 1] == self.end
        &&& self.graph == wired(self.corners, self.corners.len() as int)
    }

    /// The character that shows the cell in column `x` of row `y`: `e` for the
    /// end, `s` for the start, `o` for another turning place, `#` for
    /// scaffold, `.` for nothing.
    pub open spec fn mark(self, x: int, y: int) -> char {
        let c = Coor { x: x as usize, y: y as usize };
        if c == self.end {
            'e'
        } else if c == self.start {
            's'
        } else if self.corners.contains(c) {
            'o'
        } else if self.grid[y][x] {
            '#'
        } else {
            '.'
        }
    }

    /// The places of the route, the start left out: a walk from the start
    /// that follows, from each place, the longest line to a place not seen
    /// before. Such a walk has at most as many legs as there are places.
    pub open spec fn route(self) -> Seq<Coor> {
        walked(self.graph, self.start, seq![self.start], self.corners.len()).drop_first()
    }

    /// The route is a whole walk: it ends because no line leads on to a place
    /// not seen, never because the legs have run out. However many more legs
    /// a walk from the start is allowed, it is the same walk.
    pub proof fn theorem_route_is_whole(self, more: nat)
        requires
            self.wf(),
        ensures
            walked(self.graph, self.start, seq![self.start], self.corners.len() + more).drop_first()
                == self.route(),
    {
        lemma_wired_lands(self.corners, self.corners.len() as int);
        Self::lemma_unseen_at_most(self.corners, seq![self.start], self.corners.len() as int);
        lemma_walk_ends(
            self.graph,
            self.corners,
            self.start,
            seq![self.start],
            self.corners.len(),
            more,
        );
    }

    /// No more places are unseen than there are places.
    proof fn lemma_unseen_at_most(corners: Seq<Coor>, visited: Seq<Coor>, count: int)
        requires
            0 <= count,
        ensures
            unseen(corners, visited, count) <= count,
        decreases count,
    {
        if count > 0 {
            Self::lemma_unseen_at_most(corners, visited, count - 1);
        }
    }
}

/// The picture.
pub struct Board {
    board: Vec<Vec<bool>>,
    corners: Vec<Coor>,
    graph: Vec<(Coor, Vec<Edge>)>,
    start: Coor,
    end: Coor,
}

impl View for Board {
    type V = Scaffold;

    closed spec fn view(&self) -> Scaffold {
        Scaffold {
            grid: grid_view(self.board@),
            corners: self.corners@,
            graph: graph_view(self.graph@),
            start: self.start,
            end: self.end,
        }
    }
}

impl Board {
    /// Reads the picture `input`, one row of cells for each line of text and
    /// scaffold wherever the text has a `1`, finds the turning places, adds
    /// `start` and `end` (column, then row) to them and lists the straight
    /// lines between all these places.
    pub fn new(input: &str, start: (usize, usize), end: (usize, usize)) -> (b: Board)
        ensures
            b@.wf(),
            b@.grid == parsed(input@),
            b@.start == (Coor { x: start.0, y: start.1 }),
            b@.end == (Coor { x: end.0, y: end.1 }),
    {
        let board = parse(input);
        let mut corners = Board::corners(&board);
        let ghost places = corners@;
        corners.push(Coor { x: start.0, y: start.1 });
        corners.push(Coor { x: end.0, y: end.1 });
        assert(corners@.subrange(0, corners@.len() - 2) =~= places);
        let graph = Board::graph(&board, &corners);
        Board {
            board,
            corners,
            graph,
            start: Coor { x: start.0, y: start.1 },
            end: Coor { x: end.0, y: end.1 },
        }
    }

    /// The picture as rows of characters: `e` for the end, `s` for the
    /// start, `o` for another turning place, `#` for scaffold and `.` for
    /// nothing.
    pub fn rows(&self) -> (rows: Vec<Vec<char>>)
        ensures
            rows@.len() == self@.grid.len(),
            forall|y: int|
                0 <= y < rows@.len() ==> (#[trigger] rows@[y])@.len() == self@.grid[y].len(),
            forall|x: int, y: int|
                0 <= y < rows@.len() && 0 <= x < self@.grid[y].len() ==> (#[trigger] rows@[y]@[x])
                    == self@.mark(x, y),
    {
        let mut rows: Vec<Vec<char>> = Vec::new();
        let mut y: usize = 0;
        while y < self.board.len()
            invariant
                y <= self.board.len(),
                rows@.len() == y,
                forall|r: int| 0 <= r < y ==> (#[trigger] rows@[r])@.len() == self@.grid[r].len(),
                forall|c: int, r: int|
                    0 <= r < y && 0 <= c < self@.grid[r].len() ==> (#[trigger] rows@[r]@[c])
                        == self@.mark(c, r),
            decreases self.board.len() - y,
        {
            let mut row: Vec<char> = Vec::new();
            let mut x: usize = 0;
            assert(self@.grid[y as int] == self.board@[y as int]@);
            while x < self.board[y].len()
                invariant
                    y < self.board.len(),
                    x <= self.board@[y as int]@.len(),
                    self@.grid[y as int] == self.board@[y as int]@,
                    row@.len() == x,
                    forall|c: int| 0 <= c < x ==> #[trigger] row@[c] == self@.mark(c, y as int),
                decreases self.board@[y as int]@.len() - x,
            {
                let c = Coor { x, y };
                if c == self.end {
                    row.push('e');
                } else if c == self.start {
                    row.push('s');
                } else if listed(&self.corners, &c) {
                    row.push('o');
                } else if self.board[y][x] {
                    row.push('#');
                } else {
                    row.push('.');
                }
                x = x + 1;
            }
            rows.push(row);
            y = y + 1;
        }
        rows
    }
}

} // verus!
