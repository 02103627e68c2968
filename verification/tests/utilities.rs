//! The grid and direction utilities and the result containers.

use keypad_chain::day_output::DayOutput;
use keypad_chain::direction::Direction;
use keypad_chain::grid::{Grid, Row};
use keypad_chain::part_result::PartResult;

#[test]
fn go_shifts_one_step() {
    assert_eq!(Direction::go((3, 4), Direction::Up), (3, 3));
    assert_eq!(Direction::go((3, 4), Direction::Down), (3, 5));
    assert_eq!(Direction::go((3, 4), Direction::Left), (2, 4));
    assert_eq!(Direction::go((3, 4), Direction::Right), (4, 4));
}

#[test]
fn go_n_shifts_n_steps() {
    assert_eq!(Direction::go_n((0, 0), Direction::Right, 5), (5, 0));
    assert_eq!(Direction::go_n((2, 2), Direction::Up, -3), (2, 5));
    assert_eq!(Direction::go_n((7, 1), Direction::Left, 2), (5, 1));
}

#[test]
fn turns_compose_as_quarter_turns() {
    for d in [
        Direction::Up,
        Direction::Right,
        Direction::Down,
        Direction::Left,
    ] {
        assert_eq!(
            Direction::turn_right(Direction::turn_right(d)),
            Direction::turn_around(d)
        );
        assert_eq!(Direction::turn_left(Direction::turn_right(d)), d);
        assert_eq!(
            Direction::turn_around(Direction::turn_around(d)),
            d
        );
    }
}

#[test]
fn grid_at_reads_tiles_by_column_and_row() {
    let g = Grid {
        rows: vec![
            Row { tiles: vec![1u8, 2, 3] },
            Row { tiles: vec![4, 5, 6] },
        ],
    };
    assert_eq!(g.at((0, 0)), Some(1));
    assert_eq!(g.at((2, 1)), Some(6));
    assert_eq!(g.at((1, 0)), Some(2));
    assert_eq!(g.at((3, 0)), None);
    assert_eq!(g.at((0, 2)), None);
    assert_eq!(g.at((-1, 1)), None);
}

#[test]
fn day_output_records_each_part_once() {
    let mut out = DayOutput::new();
    assert!(out.get_part1().is_none());
    assert!(out.get_part2().is_none());
    out.part1(String::from("126384"));
    assert_eq!(out.get_part1().as_deref(), Some("126384"));
    assert!(out.get_part2().is_none());
    out.part2(String::from("154115708116294"));
    assert_eq!(out.get_part2().as_deref(), Some("154115708116294"));
}

#[test]
fn part_result_records_each_part_once() {
    let mut res = PartResult::new();
    assert_eq!(res.get_part1(), None);
    assert_eq!(res.get_part2(), None);
    res.part1(126384);
    assert_eq!(res.get_part1(), Some(126384));
    assert_eq!(res.get_part2(), None);
    res.part2(42);
    assert_eq!(res.get_part2(), Some(42));
}
