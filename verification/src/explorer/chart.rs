//! The chart that is drawn while the droid explores: a square grid of
//! squares, the droid's position on it, and what is known of each square.

use vstd::prelude::*;
use crate::explorer::dir::Dir;
use crate::explorer::tile::Tile;

verus! {

/// One square of the chart.
#[derive(Debug, Clone, Copy, PartialEq, Eq)]
pub struct Space {
    /// The square's place: column, then row.
    pub coor: (usize, usize),
    /// What was found there, if anything.
    pub tile: Option<Tile>,
    /// Whether the droid has stood on the square.
    pub visited: bool,
}

impl Space {
    /// The character that shows the square: that of its tile, or a blank.
    pub open spec fn glyph(self) -> char {
        match self.tile {
            Some(t) => t.glyph(),
            None => ' ',
        }
    }

    /// Whether the square is worth a visit: nothing is known of it, or the
    /// droid has not stood on it and it is no wall.
    pub open spec fn is_unseen(self) -> bool {
        match self.tile {
            None => true,
            Some(t) => !self.visited && t != Tile::Wall,
        }
    }

    /// A square at column `x`, row `y`, of which nothing is known.
    pub fn new(x: usize, y: usize) -> (space: Space)
        ensures
            space == (Space { coor: (x, y), tile: None, visited: false }),
    {
        Space { coor: (x, y), tile: None, visited: false }
    }

    /// The character that shows the square.
    pub fn char(&self) -> (c: char)
        ensures
            c == self.glyph(),
    {
        match &self.tile {
            Some(t) => t.char(),
            None => ' ',
        }
    }

    /// Whether the square is worth a visit.
    pub fn unseen(&self) -> (unseen: bool)
        ensures
            unseen == self.is_unseen(),
    {
        match self.tile {
            None => true,
            Some(tile) => {
                let not_wall = match tile {
                    Tile::Wall => false,
                    _ => true,
                };
                !self.visited && not_wall
            },
        }
    }
}

/// A chart as a mathematical value.
pub struct Area {
    /// The rows of the chart, row `y` holding the squares `(0, y)`, `(1, y)`
    /// and so on.
    pub grid: Seq<Seq<Space>>,
    /// Where the droid is.
    pub curr: (int, int),
    /// Where the droid set out.
    pub start: (int, int),
}

impl Area {
    /// The number of rows, and of squares in each row.
    pub open spec fn size(self) -> int {
        self.grid.len() as int
    }

    /// Whether `c` is a square of the chart.
    pub open spec fn inside(self, c: (int, int)) -> bool {
        0 <= c.0 < self.size() && 0 <= c.1 < self.size()
    }

    /// The square at `c`.
    pub open spec fn cell(self, c: (int, int)) -> Space
        recommends
            self.inside(c),
    {
        self.grid[c.1][c.0]
    }

    /// What every chart satisfies: it is a square that is not empty, each
    /// square knows its own place, and the droid and its starting point are on
    /// it.
    pub open spec fn wf(self) -> bool {
        &&& self.size() > 0
        &&& forall|y: int| 0 <= y < self.size() ==> (#[trigger] self.grid[y]).len() == self.size()
        &&& forall|x: int, y: int|
            0 <= x < self.size() && 0 <= y < self.size() ==> (#[trigger] self.grid[y][x]).coor == (
                x as usize,
                y as usize,
            )
        &&& self.inside(self.curr)
        &&& self.inside(self.start)
    }

    /// The chart with the square at `c` replaced by `space`.
    pub open spec fn with_cell(self, c: (int, int), space: Space) -> Area {
        Area { grid: self.grid.update(c.1, self.grid[c.1].update(c.0, space)), ..self }
    }

    /// A chart of `size` rows of `size` squares of which nothing is known,
    /// but for the middle square, where the droid starts.
    pub open spec fn blank(size: int) -> Area {
        let middle = (size / 2, size / 2);
        Area {
            grid: Seq::new(
                size as nat,
                |y: int|
                    Seq::new(
                        size as nat,
                        |x: int|
                            if (x, y) == middle {
                                Space {
                                    coor: (x as usize, y as usize),
                                    tile: Some(Tile::Start),
                                    visited: true,
                                }
                            } else {
                                Space { coor: (x as usize, y as usize), tile: None, visited: false }
                            },
                    ),
            ),
            curr: middle,
            start: middle,
        }
    }

    /// The chart after the droid moved one square in direction `dir`: it
    /// stands there, and that square counts as visited.
    pub open spec fn entered(self, dir: Dir) -> Area
        recommends
            self.inside(dir.moved(self.curr)),
    {
        let next = dir.moved(self.curr);
        Area { curr: next, ..self.with_cell(next, Space { visited: true, ..self.cell(next) }) }
    }

    /// The chart after `tile` was found next to the droid in direction `dir`.
    /// A square off the chart, or one that the droid has stood on, keeps what
    /// it has.
    pub open spec fn noted(self, dir: Dir, tile: Tile) -> Area {
        let next = dir.moved(self.curr);
        if self.inside(next) && !self.cell(next).visited {
            self.with_cell(next, Space { tile: Some(tile), ..self.cell(next) })
        } else {
            self
        }
    }

    /// Whether the square next to the droid in direction `dir` is on the chart
    /// and worth a visit.
    pub open spec fn open_way(self, dir: Dir) -> bool {
        self.inside(dir.moved(self.curr)) && self.cell(dir.moved(self.curr)).is_unseen()
    }

    /// The chart with every visit forgotten but the one to the square on which
    /// the droid stands, which becomes the new starting point.
    pub open spec fn restarted(self) -> Area {
        Area {
            grid: Seq::new(
                self.grid.len(),
                |y: int|
                    Seq::new(
                        self.grid[y].len(),
                        |x: int| Space { visited: (x, y) == self.curr, ..self.grid[y][x] },
                    ),
            ),
            curr: self.curr,
            start: self.curr,
        }
    }

    /// What the chart shows at `c`: the droid where it stands, elsewhere the
    /// square.
    pub open spec fn shown(self, c: (int, int)) -> char {
        if c == self.curr {
            'D'
        } else {
            self.cell(c).glyph()
        }
    }
}

/// The chart of the area.
pub struct Chart {
    map: Vec<Vec<Space>>,
    curr: (usize, usize),
    start: (usize, usize),
}

impl View for Chart {
    type V = Area;

    closed spec fn view(&self) -> Area {
        Area {
            grid: Seq::new(self.map@.len(), |y: int| self.map@[y]@),
            curr: (self.curr.0 as int, self.curr.1 as int),
            start: (self.start.0 as int, self.start.1 as int),
        }
    }
}

impl Chart {
    /// A chart of `size` by `size` squares with the droid in the middle.
    pub fn new(size: usize) -> (chart: Chart)
        requires
            size > 0,
        ensures
            chart@ == Area::blank(size as int),
            chart@.wf(),
    {
        let mut map: Vec<Vec<Space>> = Vec::new();
        let mut i: usize = 0;
        while i < size
            invariant
                i <= size,
                map@.len() == i,
                forall|y: int|
                    0 <= y < i ==> (#[trigger] map@[y])@ =~= Seq::new(
                        size as nat,
                        |x: int| Space { coor: (x as usize, y as usize), tile: None, visited: false },
                    ),
            decreases size - i,
        {
            let mut row: Vec<Space> = Vec::new();
            let mut j: usize = 0;
            while j < size
                invariant
                    j <= size,
                    i < size,
                    row@.len() == j,
                    forall|x: int|
                        0 <= x < j ==> #[trigger] row@[x] == (Space {
                            coor: (x as usize, i),
                            tile: None,
                            visited: false,
                        }),
                decreases size - j,
            {
                row.push(Space::new(j, i));
                j = j + 1;
            }
            map.push(row);
            i = i + 1;
        }
        let middle = size / 2;
        map[middle][middle].visited = true;
        map[middle][middle].tile = Some(Tile::Start);
        let chart = Chart { map, curr: (middle, middle), start: (middle, middle) };
        proof {
            let target = Area::blank(size as int);
            assert(chart@.grid.len() == target.grid.len());
            assert forall|y: int| 0 <= y < size implies chart@.grid[y] == target.grid[y] by {
                assert(chart@.grid[y] =~= target.grid[y]);
            }
            assert(chart@.grid =~= target.grid);
        }
        chart
    }

    /// The number of rows, and of squares in each row.
    pub fn size(&self) -> (size: usize)
        ensures
            size == self@.size(),
    {
        self.map.len()
    }

    /// Where the droid is: column, then row.
    pub fn position(&self) -> (at: (usize, usize))
        ensures
            (at.0 as int, at.1 as int) == self@.curr,
    {
        self.curr
    }

    /// Where the droid set out: column, then row.
    pub fn start(&self) -> (at: (usize, usize))
        ensures
            (at.0 as int, at.1 as int) == self@.start,
    {
        self.start
    }

    /// The square next to the droid in direction `dir`, if it is on the chart.
    fn neighbor(&self, dir: Dir) -> (next: Option<(usize, usize)>)
        requires
            self@.wf(),
        ensures
            match next {
                Some(c) => self@.inside(dir.moved(self@.curr)) && (c.0 as int, c.1 as int)
                    == dir.moved(self@.curr),
                None => !self@.inside(dir.moved(self@.curr)),
            },
    {
        let (x, y) = self.curr;
        let size = self.map.len();
        let inside = match dir {
            Dir::N => y + 1 < size,
            Dir::S => y > 0,
            Dir::W => x > 0,
            Dir::E => x + 1 < size,
        };
        if inside {
            Some(dir.go(self.curr))
        } else {
            None
        }
    }

    /// Moves the droid one square in direction `dir` and marks that square as
    /// visited. The square must be on the chart.
    pub fn go(&mut self, dir: Dir)
        requires
            old(self)@.wf(),
            old(self)@.inside(dir.moved(old(self)@.curr)),
        ensures
            final(self)@ == old(self)@.entered(dir),
            final(self)@.wf(),
    {
        let next = self.neighbor(dir);
        let (x, y) = match next {
            Some(c) => c,
            None => self.curr,
        };
        assert(self.map@[y as int]@ == self@.grid[y as int]);
        self.curr = (x, y);
        self.map[y][x].visited = true;
        proof {
            let target = old(self)@.entered(dir);
            assert forall|row: int| 0 <= row < self@.grid.len() implies self@.grid[row]
                == target.grid[row] by {
                assert(old(self).map@[row]@ == old(self)@.grid[row]);
                assert(self@.grid[row] =~= target.grid[row]);
            }
            assert(self@.grid =~= target.grid);
            Chart::lemma_with_cell_wf(
                old(self)@,
                dir.moved(old(self)@.curr),
                Space { visited: true, ..old(self)@.cell(dir.moved(old(self)@.curr)) },
            );
        }
    }

    /// Writes down that `tile` was found next to the droid in direction
    /// `dir`. Nothing is written for a square off the chart or for one that
    /// the droid has stood on.
    pub fn set(&mut self, dir: Dir, tile: &Tile)
        requires
            old(self)@.wf(),
        ensures
            final(self)@ == old(self)@.noted(dir, *tile),
            final(self)@.wf(),
    {
        match self.neighbor(dir) {
            None => {},
            Some((x, y)) => {
                assert(self.map@[y as int]@ == self@.grid[y as int]);
                if !self.map[y][x].visited {
                    self.map[y][x].tile = Some(*tile);
                    proof {
                        let target = old(self)@.noted(dir, *tile);
                        assert forall|row: int| 0 <= row < self@.grid.len() implies self@.grid[row]
                            == target.grid[row] by {
                            assert(old(self).map@[row]@ == old(self)@.grid[row]);
                            assert(self@.grid[row] =~= target.grid[row]);
                        }
                        assert(self@.grid =~= target.grid);
                        Chart::lemma_with_cell_wf(
                            old(self)@,
                            dir.moved(old(self)@.curr),
                            Space { tile: Some(*tile), ..old(self)@.cell(dir.moved(old(self)@.curr)) },
                        );
                    }
                }
            },
        }
    }

    /// Replacing a square by one at the same place keeps a chart a chart.
    proof fn lemma_with_cell_wf(area: Area, c: (int, int), space: Space)
        requires
            area.wf(),
            area.inside(c),
            space.coor == area.cell(c).coor,
        ensures
            area.with_cell(c, space).wf(),
    {
        let after = area.with_cell(c, space);
        assert forall|y: int| 0 <= y < after.size() implies (#[trigger] after.grid[y]).len()
            == after.size() by {
            assert(area.grid[y].len() == area.size());
        }
        assert forall|x: int, y: int| 0 <= x < after.size() && 0 <= y < after.size() implies (
        #[trigger] after.grid[y][x]).coor == (x as usize, y as usize) by {
            assert(area.grid[y][x].coor == (x as usize, y as usize));
            assert(area.grid[y].len() == area.size());
        }
    }

    /// The squares next to the droid, north, south, west and east of it, in
    /// that order; `None` for one that is off the chart.
    fn neighbors(&self) -> (neighs: [Option<Space>; 4])
        requires
            self@.wf(),
        ensures
            forall|i: int|
                0 <= i < 4 ==> #[trigger] neighs@[i] == (if self@.inside(
                    Dir::of(i + 1).moved(self@.curr),
                ) {
                    Some(self@.cell(Dir::of(i + 1).moved(self@.curr)))
                } else {
                    None
                }),
    {
        let north = self.look(Dir::N);
        let south = self.look(Dir::S);
        let west = self.look(Dir::W);
        let east = self.look(Dir::E);
        [north, south, west, east]
    }

    /// The square next to the droid in direction `dir`, if it is on the chart.
    fn look(&self, dir: Dir) -> (space: Option<Space>)
        requires
            self@.wf(),
        ensures
            space == (if self@.inside(dir.moved(self@.curr)) {
                Some(self@.cell(dir.moved(self@.curr)))
            } else {
                None
            }),
    {
        match self.neighbor(dir) {
            None => None,
            Some((x, y)) => {
                assert(self.map@[y as int]@ == self@.grid[y as int]);
                Some(self.map[y][x])
            },
        }
    }

    /// For each direction, north, south, west and east in that order, whether
    /// the square next to the droid is on the chart and worth a visit.
    pub fn explorable(&self) -> (valids: [bool; 4])
        requires
            self@.wf(),
        ensures
            forall|i: int| 0 <= i < 4 ==> #[trigger] valids@[i] == self@.open_way(Dir::of(i + 1)),
    {
        let neighs = self.neighbors();
        let mut valids = [false; 4];
        let mut x: usize = 0;
        while x < 4
            invariant
                x <= 4,
                forall|i: int|
                    0 <= i < 4 ==> #[trigger] neighs@[i] == (if self@.inside(
                        Dir::of(i + 1).moved(self@.curr),
                    ) {
                        Some(self@.cell(Dir::of(i + 1).moved(self@.curr)))
                    } else {
                        None
                    }),
                forall|i: int|
                    0 <= i < x ==> #[trigger] valids@[i] == self@.open_way(Dir::of(i + 1)),
                forall|i: int| x <= i < 4 ==> #[trigger] valids@[i] == false,
            decreases 4 - x,
        {
            if let Some(space) = neighs[x] {
                valids[x] = space.unseen();
            }
            x = x + 1;
        }
        valids
    }

    /// Marks the square at column `here` of `row` as visited and every other
    /// square of the row as not visited.
    fn clear_row(row: &mut Vec<Space>, here: Option<usize>)
        ensures
            final(row)@.len() == old(row)@.len(),
            forall|x: int|
                0 <= x < old(row)@.len() ==> #[trigger] final(row)@[x] == (Space {
                    visited: here == Some(x as usize),
                    ..old(row)@[x]
                }),
    {
        let size = row.len();
        let mut x: usize = 0;
        while x < size
            invariant
                x <= size,
                size == row@.len(),
                size == old(row)@.len(),
                forall|col: int|
                    0 <= col < x ==> #[trigger] row@[col] == (Space {
                        visited: here == Some(col as usize),
                        ..old(row)@[col]
                    }),
                forall|col: int| x <= col < size ==> #[trigger] row@[col] == old(row)@[col],
            decreases size - x,
        {
            let visited = match here {
                Some(at) => at == x,
                None => false,
            };
            row[x].visited = visited;
            x = x + 1;
        }
    }

    /// Forgets every visit but the one to the square on which the droid
    /// stands, and makes that square the starting point. What was found on
    /// the squares stays.
    pub fn reset(&mut self)
        requires
            old(self)@.wf(),
        ensures
            final(self)@ == old(self)@.restarted(),
            final(self)@.wf(),
    {
        let size = self.map.len();
        let ghost target = old(self)@.restarted();
        let mut y: usize = 0;
        while y < size
            invariant
                y <= size,
                size == self.map@.len(),
                size == old(self).map@.len(),
                self.curr == old(self).curr,
                target == old(self)@.restarted(),
                forall|row: int| 0 <= row < y ==> (#[trigger] self.map@[row])@ == target.grid[row],
                forall|row: int|
                    y <= row < size ==> (#[trigger] self.map@[row])@ == old(self).map@[row]@,
            decreases size - y,
        {
            let here = if y == self.curr.1 {
                Some(self.curr.0)
            } else {
                None
            };
            let ghost before = self.map@[y as int]@;
            Chart::clear_row(&mut self.map[y], here);
            proof {
                assert(before == old(self)@.grid[y as int]);
                assert(before.len() == old(self).map@[y as int].len());
                assert(target.curr == (self.curr.0 as int, self.curr.1 as int));
                assert forall|x: int| 0 <= x < before.len() implies self.map@[y as int]@[x]
                    == target.grid[y as int][x] by {
                    assert((here == Some(x as usize)) == ((x, y as int) == target.curr));
                }
                assert(self.map@[y as int]@ =~= target.grid[y as int]);
            }
            y = y + 1;
        }
        self.start = self.curr;
        proof {
            assert forall|row: int| 0 <= row < size implies self@.grid[row] == target.grid[row] by {
                assert(self.map@[row]@ == target.grid[row]);
            }
            assert(self@.grid =~= target.grid);
            assert forall|row: int| 0 <= row < self@.size() implies (#[trigger] self@.grid[row]).len()
                == self@.size() by {
                assert(old(self)@.grid[row].len() == old(self)@.size());
            }
            assert forall|x: int, y: int|
                0 <= x < self@.size() && 0 <= y < self@.size() implies (
            #[trigger] self@.grid[y][x]).coor == (x as usize, y as usize) by {
                assert(old(self)@.grid[y].len() == old(self)@.size());
                assert(old(self)@.grid[y][x].coor == (x as usize, y as usize));
            }
        }
    }

    /// The chart as rows of characters, row 0 first: `D` where the droid
    /// stands, elsewhere the character of the square.
    pub fn rows(&self) -> (rows: Vec<Vec<char>>)
        requires
            self@.wf(),
        ensures
            rows@.len() == self@.size(),
            forall|y: int| 0 <= y < self@.size() ==> (#[trigger] rows@[y])@.len() == self@.size(),
            forall|x: int, y: int|
                0 <= x < self@.size() && 0 <= y < self@.size() ==> (#[trigger] rows@[y]@[x])
                    == self@.shown((x, y)),
    {
        let size = self.map.len();
        let mut rows: Vec<Vec<char>> = Vec::new();
        let mut y: usize = 0;
        while y < size
            invariant
                y <= size,
                size == self@.size(),
                self@.wf(),
                rows@.len() == y,
                forall|r: int| 0 <= r < y ==> (#[trigger] rows@[r])@.len() == size,
                forall|c: int, r: int|
                    0 <= c < size && 0 <= r < y ==> (#[trigger] rows@[r]@[c]) == self@.shown(
                        (c, r),
                    ),
            decreases size - y,
        {
            let mut row: Vec<char> = Vec::new();
            let mut x: usize = 0;
            assert(self.map@[y as int]@ == self@.grid[y as int]);
            while x < size
                invariant
                    x <= size,
                    y < size,
                    size == self@.size(),
                    self@.wf(),
                    self.map@[y as int]@ == self@.grid[y as int],
                    row@.len() == x,
                    forall|c: int| 0 <= c < x ==> #[trigger] row@[c] == self@.shown((c, y as int)),
                decreases size - x,
            {
                if x == self.curr.0 && y == self.curr.1 {
                    row.push('D');
                } else {
                    row.push(self.map[y][x].char());
                }
                x = x + 1;
            }
            rows.push(row);
            y = y + 1;
        }
        rows
    }
}

} // verus!
