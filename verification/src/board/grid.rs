//! The grid of cells: how text draws it, and where on it a turn can be made.

use vstd::prelude::*;
use crate::board::{Board, Coor};

verus! {

/// Whether the cell in column `x` of row `y` is scaffold. A cell that the
/// grid does not have is none.
pub open spec fn is_path(board: Seq<Seq<bool>>, x: int, y: int) -> bool {
    0 <= y < board.len() && 0 <= x < board[y].len() && board[y][x]
}

/// Whether a turn could be made at `(x, y)`: scaffold lies above or below
/// the cell, and scaffold lies left or right of it.
pub open spec fn is_turn(board: Seq<Seq<bool>>, x: int, y: int) -> bool {
    (is_path(board, x, y - 1) || is_path(board, x, y + 1)) && (is_path(board, x - 1, y) || is_path(
        board,
        x + 1,
        y,
    ))
}

/// Whether `c` is a scaffold cell at which a turn could be made.
pub open spec fn is_turning_place(board: Seq<Seq<bool>>, c: Coor) -> bool {
    is_path(board, c.x as int, c.y as int) && is_turn(board, c.x as int, c.y as int)
}

/// Whether `a` comes before `b` in reading order: in an earlier row, or
/// earlier in the same row.
pub open spec fn reads_before(a: Coor, b: Coor) -> bool {
    a.y < b.y || (a.y == b.y && a.x < b.x)
}

/// Whether `places` lists the scaffold cells of `grid` at which a turn could
/// be made, each once, in reading order.
pub open spec fn lists_turning_places(grid: Seq<Seq<bool>>, places: Seq<Coor>) -> bool {
    &&& forall|i: int| 0 <= i < places.len() ==> is_turning_place(grid, #[trigger] places[i])
    &&& forall|c: Coor| is_turning_place(grid, c) ==> places.contains(c)
    &&& forall|i: int, j: int|
        0 <= i < j < places.len() ==> reads_before(#[trigger] places[i], #[trigger] places[j])
}

/// A grid has one list of turning places only: two lists that both hold
/// every turning place, and nothing else, in reading order are the same.
pub proof fn lemma_turning_places_unique(grid: Seq<Seq<bool>>, a: Seq<Coor>, b: Seq<Coor>)
    requires
        lists_turning_places(grid, a),
        lists_turning_places(grid, b),
    ensures
        a == b,
{
    lemma_same_order(a, b);
}

/// Two lists in reading order that hold the same places are the same.
proof fn lemma_same_order(a: Seq<Coor>, b: Seq<Coor>)
    requires
        forall|i: int, j: int|
            0 <= i < j < a.len() ==> reads_before(#[trigger] a[i], #[trigger] a[j]),
        forall|i: int, j: int|
            0 <= i < j < b.len() ==> reads_before(#[trigger] b[i], #[trigger] b[j]),
        forall|c: Coor| a.contains(c) <==> b.contains(c),
    ensures
        a == b,
    decreases a.len(),
{
    if a.len() == 0 {
        if b.len() > 0 {
            assert(b.contains(b[0]));
        }
        assert(a =~= b);
    } else {
        assert(a.contains(a[0]));
        let j = choose|j: int| 0 <= j < b.len() && b[j] == a[0];
        assert(b.contains(b[0]));
        let i = choose|i: int| 0 <= i < a.len() && a[i] == b[0];
        if i > 0 {
            assert(reads_before(a[0], a[i]));
            if j > 0 {
                assert(reads_before(b[0], b[j]));
            }
        }
        assert(a[0] == b[0]);
        let rest_a = a.drop_first();
        let rest_b = b.drop_first();
        assert forall|c: Coor| rest_a.contains(c) <==> rest_b.contains(c) by {
            if rest_a.contains(c) {
                let k = choose|k: int| 0 <= k < rest_a.len() && rest_a[k] == c;
                assert(a[k + 1] == c);
                assert(reads_before(a[0], a[k + 1]));
                assert(a.contains(c));
                let l = choose|l: int| 0 <= l < b.len() && b[l] == c;
                assert(l > 0);
                assert(rest_b[l - 1] == c);
            }
            if rest_b.contains(c) {
                let k = choose|k: int| 0 <= k < rest_b.len() && rest_b[k] == c;
                assert(b[k + 1] == c);
                assert(reads_before(b[0], b[k + 1]));
                assert(b.contains(c));
                let l = choose|l: int| 0 <= l < a.len() && a[l] == c;
                assert(l > 0);
                assert(rest_a[l - 1] == c);
            }
        }
        assert forall|i: int, j: int| 0 <= i < j < rest_a.len() implies reads_before(
            #[trigger] rest_a[i],
            #[trigger] rest_a[j],
        ) by {
            assert(reads_before(a[i + 1], a[j + 1]));
        }
        assert forall|i: int, j: int| 0 <= i < j < rest_b.len() implies reads_before(
            #[trigger] rest_b[i],
            #[trigger] rest_b[j],
        ) by {
            assert(reads_before(b[i + 1], b[j + 1]));
        }
        lemma_same_order(rest_a, rest_b);
        assert(a =~= seq![a[0]] + rest_a);
        assert(b =~= seq![b[0]] + rest_b);
    }
}

/// The rows of cells as sequences.
pub open spec fn grid_view(board: Seq<Vec<bool>>) -> Seq<Seq<bool>> {
    board.map_values(|row: Vec<bool>| row@)
}

/// A line with a trailing carriage return taken off.
pub open spec fn trimmed(line: Seq<char>) -> Seq<char> {
    if line.len() > 0 && line.last() == '\r' {
        line.drop_last()
    } else {
        line
    }
}

/// The cells that a line of text stands for: scaffold for each `1`, nothing
/// for any other character.
pub open spec fn cells_of(line: Seq<char>) -> Seq<bool> {
    line.map_values(|c: char| c == '1')
}

/// What the first `count` characters of `text` hold: the rows that have
/// ended, and the characters of the row that has not. A row ends at a line
/// feed; a carriage return just before the line feed belongs to the line
/// ending.
pub open spec fn scanned(text: Seq<char>, count: int) -> (Seq<Seq<bool>>, Seq<char>)
    decreases count,
{
    if count <= 0 {
        (Seq::empty(), Seq::empty())
    } else {
        let (rows, line) = scanned(text, count - 1);
        if text[count - 1] == '\n' {
            (rows.push(cells_of(trimmed(line))), Seq::empty())
        } else {
            (rows, line.push(text[count - 1]))
        }
    }
}

/// The grid that `text` draws, one row for each line. The last line needs no
/// line feed, and a line feed at the very end begins no further row.
pub open spec fn parsed(text: Seq<char>) -> Seq<Seq<bool>> {
    let (rows, line) = scanned(text, text.len() as int);
    if line.len() > 0 {
        rows.push(cells_of(line))
    } else {
        rows
    }
}

/// Whether the cell in column `x` of row `y` is scaffold; a cell that the
/// grid does not have is none.
fn cell(board: &Vec<Vec<bool>>, x: usize, y: usize) -> (path: bool)
    ensures
        path == is_path(grid_view(board@), x as int, y as int),
{
    y < board.len() && x < board[y].len() && board[y][x]
}

/// Turns the first `count` characters of `line` into cells.
fn cells(line: &Vec<char>, count: usize) -> (row: Vec<bool>)
    requires
        count <= line.len(),
    ensures
        row@ == cells_of(line@.subrange(0, count as int)),
{
    let mut row: Vec<bool> = Vec::new();
    let mut i: usize = 0;
    while i < count
        invariant
            i <= count <= line.len(),
            row@.len() == i,
            forall|k: int| 0 <= k < i ==> #[trigger] row@[k] == (line@[k] == '1'),
        decreases count - i,
    {
        row.push(line[i] == '1');
        i = i + 1;
    }
    assert(row@ =~= cells_of(line@.subrange(0, count as int)));
    row
}

/// Reads the grid that `input` draws.
pub fn parse(input: &str) -> (board: Vec<Vec<bool>>)
    ensures
        grid_view(board@) == parsed(input@),
{
    let total = input.unicode_len();
    let mut board: Vec<Vec<bool>> = Vec::new();
    let mut line: Vec<char> = Vec::new();
    let mut i: usize = 0;
    assert(grid_view(board@) =~= Seq::empty());
    while i < total
        invariant
            i <= total,
            total == input@.len(),
            (grid_view(board@), line@) == scanned(input@, i as int),
        decreases total - i,
    {
        let c = input.get_char(i);
        if c == '\n' {
            let mut count = line.len();
            if count > 0 && line[count - 1] == '\r' {
                count = count - 1;
            }
            assert(line@.subrange(0, count as int) =~= trimmed(line@));
            let ghost before = grid_view(board@);
            let row = cells(&line, count);
            board.push(row);
            assert(grid_view(board@) =~= before.push(cells_of(trimmed(line@))));
            line = Vec::new();
        } else {
            line.push(c);
        }
        i = i + 1;
    }
    if line.len() > 0 {
        let ghost before = grid_view(board@);
        assert(line@.subrange(0, line@.len() as int) =~= line@);
        let row = cells(&line, line.len());
        board.push(row);
        assert(grid_view(board@) =~= before.push(cells_of(line@)));
    }
    board
}

impl Board {
    /// Whether a turn could be made at `(x, y)`.
    pub fn is_corner(board: &Vec<Vec<bool>>, x: usize, y: usize) -> (corner: bool)
        ensures
            corner == is_turn(grid_view(board@), x as int, y as int),
    {
        let mut prev_y = false;
        let mut next_y = false;
        let mut prev_x = false;
        let mut next_x = false;
        if y < board.len() {
            next_y = cell(board, x, y + 1);
        }
        if y != 0 {
            prev_y = cell(board, x, y - 1);
        }
        if y < board.len() && x < board[y].len() {
            next_x = cell(board, x + 1, y);
        }
        if x != 0 {
            prev_x = cell(board, x - 1, y);
        }
        let vertical = prev_y || next_y;
        let horizontal = prev_x || next_x;
        proof {
            let grid = grid_view(board@);
            assert(grid.len() == board@.len());
            if y < grid.len() {
                assert(grid[y as int].len() == board@[y as int]@.len());
            }
        }
        vertical && horizontal
    }

    /// The scaffold cells at which a turn could be made, in reading order.
    pub fn corners(board: &Vec<Vec<bool>>) -> (matches: Vec<Coor>)
        ensures
            lists_turning_places(grid_view(board@), matches@),
    {
        let ghost grid = grid_view(board@);
        let mut matches: Vec<Coor> = Vec::new();
        let mut y: usize = 0;
        while y < board.len()
            invariant
                y <= board.len(),
                grid == grid_view(board@),
                forall|i: int| 0 <= i < matches@.len() ==> is_turning_place(grid, #[trigger] matches@[i]),
                forall|i: int| 0 <= i < matches@.len() ==> (#[trigger] matches@[i]).y < y,
                forall|c: Coor| is_turning_place(grid, c) && c.y < y ==> matches@.contains(c),
                forall|i: int, j: int|
                    0 <= i < j < matches@.len() ==> reads_before(
                        #[trigger] matches@[i],
                        #[trigger] matches@[j],
                    ),
            decreases board.len() - y,
        {
            let mut x: usize = 0;
            while x < board[y].len()
                invariant
                    y < board.len(),
                    x <= board@[y as int]@.len(),
                    grid == grid_view(board@),
                    forall|i: int|
                        0 <= i < matches@.len() ==> is_turning_place(grid, #[trigger] matches@[i]),
                    forall|i: int|
                        0 <= i < matches@.len() ==> reads_before(
                            #[trigger] matches@[i],
                            Coor { x, y },
                        ),
                    forall|c: Coor|
                        is_turning_place(grid, c) && reads_before(c, Coor { x, y })
                            ==> matches@.contains(c),
                    forall|i: int, j: int|
                        0 <= i < j < matches@.len() ==> reads_before(
                            #[trigger] matches@[i],
                            #[trigger] matches@[j],
                        ),
                decreases board@[y as int]@.len() - x,
            {
                let ghost before = matches@;
                if board[y][x] && Board::is_corner(board, x, y) {
                    matches.push(Coor { x, y });
                    assert(matches@[before.len() as int] == Coor { x, y });
                }
                assert forall|c: Coor|
                    is_turning_place(grid, c) && reads_before(
                        c,
                        Coor { x: (x + 1) as usize, y },
                    ) implies matches@.contains(c) by {
                    if reads_before(c, Coor { x, y }) {
                        let i = choose|i: int| 0 <= i < before.len() && before[i] == c;
                        assert(matches@[i] == c);
                    } else {
                        assert(c == Coor { x, y });
                        assert(matches@[before.len() as int] == c);
                    }
                }
                x = x + 1;
            }
            assert forall|c: Coor| is_turning_place(grid, c) && c.y < y + 1 implies matches@.contains(
                c,
            ) by {
                if c.y == y {
                    assert(reads_before(c, Coor { x, y }));
                } else {
                    assert(reads_before(c, Coor { x, y }));
                }
            }
            y = y + 1;
        }
        assert forall|c: Coor| is_turning_place(grid, c) implies matches@.contains(c) by {
            assert(c.y < y);
        }
        matches
    }
}

} // verus!
