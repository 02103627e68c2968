//! Keypad layouts and the route enumerator: key positions round-trip, and
//! every route replays from source to destination without touching the gap.

use keypad_chain::direction::Direction;
use keypad_chain::grid::Grid;
use keypad_chain::keypad::{directional_keypad, numeric_keypad, DirPad, NumPad};
use keypad_chain::paths::{dir_routes, num_routes};

const DIR_KEYS: [DirPad; 5] = [
    DirPad::Up,
    DirPad::Right,
    DirPad::Down,
    DirPad::Left,
    DirPad::A,
];

const NUM_KEYS: [NumPad; 11] = [
    NumPad::D0,
    NumPad::D1,
    NumPad::D2,
    NumPad::D3,
    NumPad::D4,
    NumPad::D5,
    NumPad::D6,
    NumPad::D7,
    NumPad::D8,
    NumPad::D9,
    NumPad::A,
];

fn manhattan(a: (isize, isize), b: (isize, isize)) -> usize {
    ((a.0 - b.0).abs() + (a.1 - b.1).abs()) as usize
}

#[test]
fn directional_positions_round_trip() {
    for k in DIR_KEYS {
        assert_eq!(DirPad::at(k.pos()), Some(k));
    }
    assert_eq!(DirPad::at((0, 0)), None);
    assert_eq!(DirPad::at((3, 0)), None);
    assert_eq!(DirPad::at((0, -1)), None);
}

#[test]
fn numeric_positions_round_trip() {
    for k in NUM_KEYS {
        assert_eq!(NumPad::at(k.pos()), Some(k));
    }
    assert_eq!(NumPad::at((0, 3)), None);
    assert_eq!(NumPad::at((3, 1)), None);
}

#[test]
fn numeric_keypad_grid_matches_lookup() {
    let g = numeric_keypad();
    for y in 0..4isize {
        for x in 0..3isize {
            assert_eq!(g.at((x, y)), Some(NumPad::at((x, y))));
        }
    }
    assert_eq!(g.at((0, 3)), Some(None));
    assert_eq!(g.at((-1, 0)), None);
    assert_eq!(g.at((0, 4)), None);
}

#[test]
fn directional_keypad_grid_matches_lookup() {
    let g = directional_keypad();
    for y in 0..2isize {
        for x in 0..3isize {
            assert_eq!(g.at((x, y)), Some(DirPad::at((x, y))));
        }
    }
    assert_eq!(g.at((0, 0)), Some(None));
    assert_eq!(g.at((3, 1)), None);
}

#[test]
fn grid_lookup_out_of_bounds_is_none() {
    let g: Grid<u8> = Grid { rows: Vec::new() };
    assert_eq!(g.at((0, 0)), None);
    assert_eq!(g.at((-3, -7)), None);
}

#[test]
fn directional_routes_replay_to_destination_and_avoid_the_gap() {
    for s in DIR_KEYS {
        for t in DIR_KEYS {
            let routes = dir_routes(s, t);
            assert!(!routes.is_empty() && routes.len() <= 2);
            for route in &routes {
                assert_eq!(route.len(), manhattan(s.pos(), t.pos()));
                let mut pos = s.pos();
                for &m in route {
                    pos = Direction::go(pos, m);
                    assert!(DirPad::at(pos).is_some());
                }
                assert_eq!(pos, t.pos());
            }
        }
    }
}

#[test]
fn numeric_routes_replay_to_destination_and_avoid_the_gap() {
    for s in NUM_KEYS {
        for t in NUM_KEYS {
            let routes = num_routes(s, t);
            assert!(!routes.is_empty() && routes.len() <= 2);
            for route in &routes {
                assert_eq!(route.len(), manhattan(s.pos(), t.pos()));
                let mut pos = s.pos();
                for &m in route {
                    pos = Direction::go(pos, m);
                    assert!(NumPad::at(pos).is_some());
                }
                assert_eq!(pos, t.pos());
            }
        }
    }
}

#[test]
fn route_between_a_key_and_itself_is_empty() {
    for k in DIR_KEYS {
        let routes = dir_routes(k, k);
        assert!(!routes.is_empty());
        for route in &routes {
            assert!(route.is_empty());
        }
    }
}

#[test]
fn directional_keys_render_as_their_conventional_characters() {
    assert_eq!(DirPad::Up.to_char(), '^');
    assert_eq!(DirPad::Right.to_char(), '>');
    assert_eq!(DirPad::Down.to_char(), 'v');
    assert_eq!(DirPad::Left.to_char(), '<');
    assert_eq!(DirPad::A.to_char(), 'A');
}

#[test]
fn moves_convert_to_the_directional_keys_of_the_same_name() {
    assert_eq!(DirPad::convert(Direction::Up), DirPad::Up);
    assert_eq!(DirPad::convert(Direction::Right), DirPad::Right);
    assert_eq!(DirPad::convert(Direction::Down), DirPad::Down);
    assert_eq!(DirPad::convert(Direction::Left), DirPad::Left);
}

#[test]
fn digit_keys_carry_their_numerals() {
    let digits = [
        NumPad::D0,
        NumPad::D1,
        NumPad::D2,
        NumPad::D3,
        NumPad::D4,
        NumPad::D5,
        NumPad::D6,
        NumPad::D7,
        NumPad::D8,
        NumPad::D9,
    ];
    for (i, k) in digits.iter().enumerate() {
        assert_eq!(k.digit(), i as u64);
    }
    assert_eq!(NumPad::A.digit(), 0);
}

#[test]
fn gap_blocks_one_axis_order_on_the_numeric_keypad() {
    // From 0 (1,3) to 7 (0,0) the horizontal-first route would cross the
    // gap at (0,3), so only one candidate survives.
    let routes = num_routes(NumPad::D0, NumPad::D7);
    assert_eq!(routes.len(), 1);
    // From 5 (1,1) to 9 (2,0) both axis orders are legal.
    let routes = num_routes(NumPad::D5, NumPad::D9);
    assert_eq!(routes.len(), 2);
}
