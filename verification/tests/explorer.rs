use intcode::explorer::chart::{Chart, Space};
use intcode::explorer::dir::Dir;
use intcode::explorer::robot::Robot;
use intcode::explorer::tile::Tile;
use intcode::explorer::{Explorer, CHART_SIZE};
use intcode::intcoder::Intcode;

/// A droid in a corridor that runs north from the start for `length` squares,
/// with the oxygen system at its far end.
fn corridor(length: i64) -> Vec<i64> {
    vec![
        3, 59, 1008, 59, 1, 60, 1006, 60, 23, 1008, 61, length, 60, 1005, 60, 54, 1001, 61, 1, 61,
        1105, 1, 41, 1008, 59, 2, 60, 1006, 60, 54, 1008, 61, 0, 60, 1005, 60, 54, 1001, 61, -1,
        61, 1008, 61, length, 60, 1001, 60, 1, 60, 4, 60, 1105, 1, 0, 104, 0, 1105, 1, 0, 0, 0, 0,
    ]
}

fn text(rows: &Vec<Vec<char>>, xs: std::ops::Range<usize>, ys: std::ops::Range<usize>) -> Vec<String> {
    ys.map(|y| rows[y][xs.clone()].iter().collect()).collect()
}

#[test]
fn dir_new_reads_commands() {
    assert_eq!(Dir::new(1), Dir::N);
    assert_eq!(Dir::new(2), Dir::S);
    assert_eq!(Dir::new(3), Dir::W);
    assert_eq!(Dir::new(4), Dir::E);
}

#[test]
fn dir_code_is_the_command() {
    assert_eq!(Dir::N.code(), 1);
    assert_eq!(Dir::S.code(), 2);
    assert_eq!(Dir::W.code(), 3);
    assert_eq!(Dir::E.code(), 4);
    for val in 1..=4 {
        assert_eq!(Dir::new(val).code(), val);
    }
}

#[test]
fn dir_rev_is_the_opposite() {
    assert_eq!(Dir::N.rev(), Dir::S);
    assert_eq!(Dir::S.rev(), Dir::N);
    assert_eq!(Dir::W.rev(), Dir::E);
    assert_eq!(Dir::E.rev(), Dir::W);
}

#[test]
fn dir_go_moves_one_square() {
    assert_eq!(Dir::N.go((3, 7)), (3, 8));
    assert_eq!(Dir::S.go((3, 7)), (3, 6));
    assert_eq!(Dir::W.go((3, 7)), (2, 7));
    assert_eq!(Dir::E.go((3, 7)), (4, 7));
    assert_eq!(Dir::E.go((0, 0)), (1, 0));
    assert_eq!(Dir::W.go((usize::MAX, 1)), (usize::MAX - 1, 1));
    for val in 1..=4 {
        let dir = Dir::new(val);
        assert_eq!(dir.rev().go(dir.go((10, 10))), (10, 10));
    }
}

#[test]
fn tile_new_reads_status_codes() {
    assert_eq!(Tile::new(-1), Tile::Start);
    assert_eq!(Tile::new(0), Tile::Wall);
    assert_eq!(Tile::new(1), Tile::Path);
    assert_eq!(Tile::new(2), Tile::Oxy);
}

#[test]
fn tile_char_shows_each_tile() {
    assert_eq!(Tile::Start.char(), 'S');
    assert_eq!(Tile::Space.char(), ' ');
    assert_eq!(Tile::Droid.char(), 'D');
    assert_eq!(Tile::Oxy.char(), 'O');
    assert_eq!(Tile::Wall.char(), '#');
    assert_eq!(Tile::Path.char(), '.');
}

#[test]
fn space_new_knows_nothing() {
    let s = Space::new(4, 9);
    assert_eq!(s, Space { coor: (4, 9), tile: None, visited: false });
    assert_eq!(s.char(), ' ');
    assert!(s.unseen());
}

#[test]
fn space_unseen_needs_an_open_square_not_stood_on() {
    let mut s = Space::new(0, 0);
    s.visited = true;
    assert!(s.unseen());
    s.tile = Some(Tile::Path);
    assert!(!s.unseen());
    s.visited = false;
    assert!(s.unseen());
    assert_eq!(s.char(), '.');
    s.tile = Some(Tile::Wall);
    assert!(!s.unseen());
    assert_eq!(s.char(), '#');
    s.tile = Some(Tile::Oxy);
    assert!(s.unseen());
    s.tile = Some(Tile::Start);
    assert!(s.unseen());
}

#[test]
fn chart_new_puts_the_droid_in_the_middle() {
    let chart = Chart::new(5);
    assert_eq!(chart.size(), 5);
    assert_eq!(chart.position(), (2, 2));
    assert_eq!(chart.start(), (2, 2));
    assert_eq!(text(&chart.rows(), 0..5, 0..5), vec!["     ", "     ", "  D  ", "     ", "     "]);
    assert_eq!(chart.explorable(), [true, true, true, true]);
    let chart = Chart::new(4);
    assert_eq!(text(&chart.rows(), 0..4, 0..4), vec!["    ", "    ", "  D ", "    "]);
    let chart = Chart::new(1);
    assert_eq!(text(&chart.rows(), 0..1, 0..1), vec!["D"]);
    assert_eq!(chart.explorable(), [false, false, false, false]);
}

#[test]
fn chart_set_writes_next_to_the_droid() {
    let mut chart = Chart::new(5);
    chart.set(Dir::N, &Tile::Wall);
    chart.set(Dir::S, &Tile::Path);
    chart.set(Dir::W, &Tile::Oxy);
    chart.set(Dir::E, &Tile::Path);
    assert_eq!(text(&chart.rows(), 0..5, 0..5), vec!["     ", "  .  ", " OD. ", "  #  ", "     "]);
    assert_eq!(chart.explorable(), [false, true, true, true]);
}

#[test]
fn chart_go_moves_and_marks_the_square() {
    let mut chart = Chart::new(5);
    chart.set(Dir::E, &Tile::Path);
    chart.go(Dir::E);
    assert_eq!(chart.position(), (3, 2));
    assert_eq!(chart.start(), (2, 2));
    assert_eq!(text(&chart.rows(), 0..5, 0..5), vec!["     ", "     ", "  SD ", "     ", "     "]);
    chart.set(Dir::W, &Tile::Wall);
    chart.set(Dir::E, &Tile::Wall);
    assert_eq!(chart.explorable(), [true, true, false, false]);
    chart.go(Dir::W);
    assert_eq!(text(&chart.rows(), 0..5, 0..5), vec!["     ", "     ", "  D.#", "     ", "     "]);
    assert_eq!(chart.explorable(), [true, true, true, false]);
}

#[test]
fn chart_keeps_to_its_squares_at_the_edge() {
    let mut chart = Chart::new(3);
    chart.go(Dir::N);
    chart.go(Dir::E);
    assert_eq!(chart.explorable(), [false, true, true, false]);
    chart.set(Dir::N, &Tile::Path);
    chart.set(Dir::E, &Tile::Path);
    chart.set(Dir::S, &Tile::Wall);
    chart.set(Dir::W, &Tile::Path);
    assert_eq!(text(&chart.rows(), 0..3, 0..3), vec!["   ", " S#", "  D"]);
    assert_eq!(chart.explorable(), [false, false, true, false]);
}

#[test]
fn chart_reset_forgets_the_visits_only() {
    let mut chart = Chart::new(5);
    chart.set(Dir::N, &Tile::Path);
    chart.go(Dir::N);
    chart.set(Dir::N, &Tile::Wall);
    assert_eq!(chart.explorable(), [false, false, true, true]);
    chart.reset();
    assert_eq!(chart.position(), (2, 3));
    assert_eq!(chart.start(), (2, 3));
    assert_eq!(text(&chart.rows(), 0..5, 0..5), vec!["     ", "     ", "  S  ", "  D  ", "  #  "]);
    assert_eq!(chart.explorable(), [false, true, true, true]);
    chart.go(Dir::S);
    assert_eq!(chart.explorable(), [false, true, true, true]);
}

#[test]
fn robot_go_reports_what_the_machine_answers() {
    let mut icoder = Intcode::new(&corridor(2));
    let mut robot = Robot::new(&mut icoder);
    assert_eq!(robot.go(Dir::S), Tile::Wall);
    assert_eq!(robot.go(Dir::W), Tile::Wall);
    assert_eq!(robot.go(Dir::N), Tile::Path);
    assert_eq!(robot.go(Dir::E), Tile::Wall);
    assert_eq!(robot.go(Dir::N), Tile::Oxy);
    assert_eq!(robot.go(Dir::N), Tile::Wall);
    assert_eq!(robot.go(Dir::S), Tile::Path);
    assert_eq!(robot.go(Dir::S), Tile::Path);
    assert_eq!(robot.go(Dir::S), Tile::Wall);
}

#[test]
fn robot_explore_looks_round_and_comes_back() {
    let mut icoder = Intcode::new(&corridor(2));
    let mut robot = Robot::new(&mut icoder);
    assert_eq!(robot.explore(), [Tile::Path, Tile::Wall, Tile::Wall, Tile::Wall]);
    assert_eq!(robot.explore(), [Tile::Path, Tile::Wall, Tile::Wall, Tile::Wall]);
    assert_eq!(robot.go(Dir::N), Tile::Path);
    assert_eq!(robot.explore(), [Tile::Oxy, Tile::Path, Tile::Wall, Tile::Wall]);
    assert_eq!(robot.go(Dir::N), Tile::Oxy);
    assert_eq!(robot.explore(), [Tile::Wall, Tile::Path, Tile::Wall, Tile::Wall]);
}

#[test]
fn robot_hands_the_machine_back() {
    let mut icoder = Intcode::new(&corridor(2));
    {
        let mut robot = Robot::new(&mut icoder);
        robot.go(Dir::N);
    }
    assert_eq!(icoder.dump()[61], 1);
    assert_eq!(icoder.pending(), None);
}

#[test]
fn explorer_starts_with_a_blank_chart() {
    let mut icoder = Intcode::new(&corridor(2));
    let exp = Explorer::new(&mut icoder);
    let rows = exp.rows();
    assert_eq!(CHART_SIZE, 50);
    assert_eq!(rows.len(), 50);
    assert!(rows.iter().all(|row| row.len() == 50));
    for (y, row) in rows.iter().enumerate() {
        for (x, c) in row.iter().enumerate() {
            assert_eq!(*c, if (x, y) == (25, 25) { 'D' } else { ' ' });
        }
    }
}

#[test]
fn explorer_finds_the_way_to_the_oxygen_system() {
    let mut icoder = Intcode::new(&corridor(2));
    let mut exp = Explorer::new(&mut icoder);
    assert_eq!(exp.run(false), 2);
    assert_eq!(
        text(&exp.rows(), 23..28, 24..30),
        vec!["  #  ", " #S# ", " #.# ", "  D  ", "     ", "     "]
    );
    let mut icoder = Intcode::new(&corridor(3));
    let mut exp = Explorer::new(&mut icoder);
    assert_eq!(exp.run(false), 3);
}

#[test]
fn explorer_measures_the_longest_way_from_the_oxygen_system() {
    let mut icoder = Intcode::new(&corridor(2));
    let mut exp = Explorer::new(&mut icoder);
    assert_eq!(exp.run(true), 2);
    assert_eq!(
        text(&exp.rows(), 23..28, 24..30),
        vec!["  #  ", " #.# ", " #.# ", " #D# ", "  #  ", "     "]
    );
    let mut icoder = Intcode::new(&corridor(3));
    let mut exp = Explorer::new(&mut icoder);
    assert_eq!(exp.run(true), 3);
}
