use intcode::board::grid::parse;
use intcode::board::route::Turn;
use intcode::board::{Board, Coor, Edge};

fn at(x: usize, y: usize) -> Coor {
    Coor { x, y }
}

fn line(x: usize, y: usize, len: usize) -> Edge {
    Edge { to: at(x, y), len }
}

const SMALL: &str = "11100\n00100\n00111\n00001";

#[test]
fn parse_reads_one_row_for_each_line() {
    assert_eq!(
        parse("101\n010"),
        vec![vec![true, false, true], vec![false, true, false]]
    );
    assert_eq!(parse("1"), vec![vec![true]]);
    assert_eq!(parse("x1 2"), vec![vec![false, true, false, false]]);
}

#[test]
fn parse_treats_line_endings_as_lines_does() {
    assert_eq!(parse(""), Vec::<Vec<bool>>::new());
    assert_eq!(parse("1\n"), vec![vec![true]]);
    assert_eq!(parse("1\n\n"), vec![vec![true], vec![]]);
    assert_eq!(parse("\n1"), vec![vec![], vec![true]]);
    assert_eq!(parse("1\r\n0\r\n"), vec![vec![true], vec![false]]);
    assert_eq!(parse("1\r"), vec![vec![true, false]]);
    assert_eq!(parse("1\r\r\n"), vec![vec![true, false]]);
    let text = "10\r\n01\n\n1\r";
    let expect: Vec<Vec<bool>> = text
        .lines()
        .map(|l| l.chars().map(|c| c == '1').collect())
        .collect();
    assert_eq!(parse(text), expect);
}

#[test]
fn coor_clone_copies_both_numbers() {
    let c = at(3, 9);
    assert_eq!(c.clone(), at(3, 9));
}

#[test]
fn dist_measures_along_the_shared_column_or_row() {
    let b = parse(SMALL);
    assert_eq!(Board::dist(&b, &at(2, 0), &at(2, 2)), 2);
    assert_eq!(Board::dist(&b, &at(2, 2), &at(2, 0)), 2);
    assert_eq!(Board::dist(&b, &at(0, 5), &at(7, 5)), 7);
    assert_eq!(Board::dist(&b, &at(7, 5), &at(0, 5)), 7);
    assert_eq!(Board::dist(&b, &at(1, 1), &at(4, 9)), 3);
    assert_eq!(Board::dist(&b, &at(4, 4), &at(4, 4)), 0);
}

#[test]
fn is_corner_needs_scaffold_both_ways() {
    let b = parse(SMALL);
    assert!(Board::is_corner(&b, 2, 0));
    assert!(Board::is_corner(&b, 2, 2));
    assert!(Board::is_corner(&b, 4, 2));
    assert!(!Board::is_corner(&b, 0, 0));
    assert!(!Board::is_corner(&b, 1, 0));
    assert!(!Board::is_corner(&b, 2, 1));
    assert!(!Board::is_corner(&b, 4, 3));
    assert!(Board::is_corner(&b, 3, 1));
    assert!(!Board::is_corner(&b, 9, 9));
}

#[test]
fn is_corner_on_a_ragged_grid() {
    let b = parse("1\n111\n1");
    assert!(Board::is_corner(&b, 0, 1));
    assert!(!Board::is_corner(&b, 1, 1));
    assert!(!Board::is_corner(&b, 2, 1));
}

#[test]
fn corners_come_in_reading_order() {
    let b = parse(SMALL);
    assert_eq!(Board::corners(&b), vec![at(2, 0), at(2, 2), at(4, 2)]);
    assert_eq!(Board::corners(&parse("111\n000")), Vec::<Coor>::new());
    assert_eq!(
        Board::corners(&parse("010\n111\n010")),
        vec![at(1, 1)]
    );
    assert_eq!(
        Board::corners(&parse("11\n11")),
        vec![at(0, 0), at(1, 0), at(0, 1), at(1, 1)]
    );
}

#[test]
fn graph_joins_places_in_one_column_or_row() {
    let b = parse(SMALL);
    let places = vec![at(2, 0), at(2, 2), at(4, 2), at(0, 0), at(4, 3)];
    let graph = Board::graph(&b, &places);
    assert_eq!(
        graph,
        vec![
            (at(2, 0), vec![line(2, 2, 2), line(0, 0, 2)]),
            (at(2, 2), vec![line(2, 0, 2), line(4, 2, 2)]),
            (at(4, 2), vec![line(2, 2, 2), line(4, 3, 1)]),
            (at(0, 0), vec![line(2, 0, 2)]),
            (at(4, 3), vec![line(4, 2, 1)]),
        ]
    );
}

#[test]
fn graph_leaves_out_a_place_without_lines() {
    let b = parse(SMALL);
    let places = vec![at(0, 0), at(5, 5), at(0, 3)];
    assert_eq!(
        Board::graph(&b, &places),
        vec![(at(0, 0), vec![line(0, 3, 3)]), (at(0, 3), vec![line(0, 0, 3)])]
    );
    assert_eq!(Board::graph(&b, &vec![at(1, 1)]), vec![]);
    assert_eq!(Board::graph(&b, &vec![]), vec![]);
}

#[test]
fn graph_lists_the_lines_of_a_repeated_place_twice() {
    let b = parse(SMALL);
    let places = vec![at(0, 0), at(0, 2), at(0, 0)];
    assert_eq!(
        Board::graph(&b, &places),
        vec![
            (
                at(0, 0),
                vec![line(0, 2, 2), line(0, 2, 2)]
            ),
            (at(0, 2), vec![line(0, 0, 2), line(0, 0, 2)]),
        ]
    );
}

#[test]
fn rows_mark_start_end_and_turning_places() {
    let b = Board::new(SMALL, (0, 0), (4, 3));
    let rows: Vec<String> = b.rows().iter().map(|r| r.iter().collect()).collect();
    assert_eq!(rows, vec!["s#o..", "..#..", "..o#o", "....e"]);
}

#[test]
fn rows_show_the_end_over_the_start() {
    let b = Board::new("11\n11", (1, 1), (1, 1));
    let rows: Vec<String> = b.rows().iter().map(|r| r.iter().collect()).collect();
    assert_eq!(rows, vec!["oo", "oe"]);
}

#[test]
fn route_follows_the_longest_line_to_a_new_place() {
    let mut b = Board::new(SMALL, (0, 0), (4, 3));
    let visited = b.route();
    assert_eq!(visited, vec![at(2, 0), at(2, 2), at(4, 2), at(4, 3)]);
}

#[test]
fn route_counts_places_inside_a_line_as_seen() {
    let mut b = Board::new("10101\n11111\n10101", (0, 1), (4, 1));
    let visited = b.route();
    assert_eq!(visited, vec![at(4, 1), at(2, 1)]);
}

#[test]
fn route_from_a_place_without_lines_is_empty() {
    let mut b = Board::new(SMALL, (0, 3), (9, 9));
    assert_eq!(b.route(), Vec::<Coor>::new());
}

#[test]
fn turns_name_the_turn_and_the_length_of_each_leg() {
    let mut b = Board::new(SMALL, (0, 0), (4, 3));
    let visited = b.route();
    assert_eq!(
        b.turns(&visited),
        vec![
            (Turn::Ahead, 2),
            (Turn::Left, 2),
            (Turn::Right, 2),
            (Turn::Left, 1)
        ]
    );
}

#[test]
fn turns_from_each_heading() {
    let b = Board::new("1", (5, 5), (5, 5));
    assert_eq!(
        b.turns(&vec![at(2, 5), at(2, 9), at(2, 1), at(8, 1), at(8, 0), at(0, 0), at(0, 4)]),
        vec![
            (Turn::Back, 3),
            (Turn::Right, 4),
            (Turn::Back, 8),
            (Turn::Left, 6),
            (Turn::Right, 1),
            (Turn::Right, 8),
            (Turn::Right, 4)
        ]
    );
    assert_eq!(b.turns(&vec![]), vec![]);
}

#[test]
fn board_test_read() {
    let string: &str = "000000000000000000000000000000000000000000000
000000000000000000000000000000000000000000000
000000000000000000000000000000000000000000000
000000000000000000000000000000000000000000000
000000000000000010000000000000000000000000000
000000000000000010000000000000000000000000000
000000000000000010000000111111111111100000000
000000000000000010000000100000000000100000000
000000000000000010000000100000000000100000000
000000000000000010000000100000000000100000000
000000000000000010111110100000111111111000000
000000000000000010100010100000100000101000000
000000000000001111111111101111111111101000000
000000000000001010100010001000100000001000000
000000000000001011111110001000100000001000000
000000000000001000100000001000100000001000000
000000001111111111101111111111100000001000000
000000001000001000001000001000000000001000000
100000111111111000001000001000000000001000000
100000001000000000001000001000000000001000000
000000001000000000001000001111111000001111111
000000001000000000001000000000001000000000001
000000001111111111111000000000001000000000001
000000000000000000000000000000001000000000001
000000000000000000000000000000001000000000001
000000000000000000000000000000001000000000001
000000000000000000000000000000001000000000001
000000000000000000000000000000001000000000001
000000000000000000000000000000001011111111111
000000000000000000000000000000001010000000000
000000000000000000000000000000001111111000000
000000000000000000000000000000000010001000000
000000000000000000000000000000000010001000000
000000000000000000000000000000000010001000000
000000000000000000000000000000000011111000000";

    let mut b = Board::new(string, (16, 4), (6, 17));

    let rows: Vec<String> = b.rows().iter().map(|r| r.iter().collect()).collect();
    assert_eq!(rows.len(), 35);
    assert!(rows.iter().all(|row| row.len() == 45));
    assert_eq!(rows[4], "................s............................");
    assert_eq!(rows[12], "..............o#o#o###o#o.o###o#####o.#......");
    assert_eq!(rows[17], "......e.#.....#.....#.....#...........#......");
    assert_eq!(rows[34], "..................................o###o......");

    let visited = b.route();
    let expect: Vec<Coor> = [
        (16, 14), (16, 12), (22, 14), (18, 14), (22, 10), (22, 12),
        (38, 10), (30, 10), (36, 10), (38, 34), (38, 20), (38, 30),
        (34, 34), (34, 28), (34, 30), (44, 28), (44, 20), (26, 20),
        (32, 20), (38, 20), (26, 12), (26, 16), (14, 12), (16, 12),
        (18, 12), (22, 12), (24, 12), (36, 12), (16, 12), (18, 12),
        (22, 12), (24, 12), (26, 12), (30, 12), (36, 6), (36, 10),
        (24, 6),
    ]
    .iter()
    .map(|p: &(usize, usize)| at(p.0, p.1))
    .collect();
    assert_eq!(visited, expect);

    let moves = b.turns(&visited);
    assert_eq!(moves.len(), 37);
    assert_eq!(moves[0], (Turn::Left, 10));
    assert_eq!(moves[1], (Turn::Back, 2));
    assert_eq!(moves[36], (Turn::Left, 12));
}
