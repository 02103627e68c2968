//! The cost oracle: base case, self-transitions, known small costs, depth
//! monotonicity and the depth cap.

use keypad_chain::cost::{CostTable, MAX_DEPTH};
use keypad_chain::keypad::{DirPad, NumPad};
use keypad_chain::solve::{num_pair_cost, total_complexity};

const KEYS: [DirPad; 5] = [
    DirPad::Up,
    DirPad::Right,
    DirPad::Down,
    DirPad::Left,
    DirPad::A,
];

#[test]
fn depth_zero_costs_one_for_every_transition() {
    let table = CostTable::new(0).unwrap();
    for s in KEYS {
        for t in KEYS {
            assert_eq!(table.cost(s, t, 0), 1);
        }
    }
}

#[test]
fn holding_a_key_costs_one_at_every_depth() {
    let table = CostTable::new(MAX_DEPTH).unwrap();
    for k in KEYS {
        for d in 0..=MAX_DEPTH {
            assert_eq!(table.cost(k, k, d), 1);
        }
    }
}

#[test]
fn known_costs_at_depth_one() {
    let table = CostTable::new(1).unwrap();
    // A (2,0) to Left (0,1): three moves and a press, all at cost 1.
    assert_eq!(table.cost(DirPad::A, DirPad::Left, 1), 4);
    assert_eq!(table.cost(DirPad::Left, DirPad::A, 1), 4);
    // A to Up: one move and a press.
    assert_eq!(table.cost(DirPad::A, DirPad::Up, 1), 2);
    // Up to Down: one move and a press.
    assert_eq!(table.cost(DirPad::Up, DirPad::Down, 1), 2);
}

#[test]
fn cost_is_monotone_in_depth() {
    let table = CostTable::new(MAX_DEPTH).unwrap();
    for s in KEYS {
        for t in KEYS {
            let mut last = 0u64;
            for d in 0..=MAX_DEPTH {
                let c = table.cost(s, t, d);
                assert!(c >= last);
                last = c;
            }
        }
    }
}

#[test]
fn repeated_lookups_return_the_same_cost() {
    let table = CostTable::new(3).unwrap();
    for s in KEYS {
        for t in KEYS {
            assert_eq!(table.cost(s, t, 3), table.cost(s, t, 3));
        }
    }
}

#[test]
fn depths_beyond_the_cap_are_rejected() {
    assert!(CostTable::new(MAX_DEPTH).is_some());
    assert!(CostTable::new(MAX_DEPTH + 1).is_none());
}

#[test]
fn numeric_transitions_at_depth_zero_cost_their_route_length_plus_one() {
    let table = CostTable::new(0).unwrap();
    // At depth 0 every directional press costs 1, so a numeric transition
    // costs its Manhattan distance plus the final press.
    assert_eq!(num_pair_cost(&table, NumPad::A, NumPad::D0), 2);
    assert_eq!(num_pair_cost(&table, NumPad::A, NumPad::A), 1);
    assert_eq!(num_pair_cost(&table, NumPad::D7, NumPad::A), 6);
}

#[test]
fn total_complexity_of_no_codes_is_zero() {
    let table = CostTable::new(2).unwrap();
    assert_eq!(total_complexity(&table, &Vec::new()), Some(0));
}

#[test]
fn press_cost_of_no_keys_is_zero() {
    let table = CostTable::new(2).unwrap();
    let keys: Vec<DirPad> = Vec::new();
    assert_eq!(table.press_cost(&keys, 2), Some(0));
}

#[test]
fn press_cost_sums_pairwise_costs_from_activate() {
    let table = CostTable::new(1).unwrap();
    // Pressing "< A" from A: A->Left is 4, Left->A is 4.
    let keys = vec![DirPad::Left, DirPad::A];
    assert_eq!(table.press_cost(&keys, 1), Some(8));
}
