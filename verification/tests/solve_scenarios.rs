//! End-to-end scenarios: known press counts and complexities.

use keypad_chain::code::{parse_line, Code, ParseError};
use keypad_chain::keypad::NumPad;
use keypad_chain::cost::CostTable;
use keypad_chain::solve::{code_complexity, code_press_cost, solve, SolveError};

#[test]
fn code_029a_press_cost_at_depth_2_is_68() {
    let table = CostTable::new(2).unwrap();
    let code = parse_line(b"029A").unwrap();
    assert_eq!(code_press_cost(&table, &code), Some(68));
}

#[test]
fn code_029a_complexity_at_depth_2_is_1972() {
    let table = CostTable::new(2).unwrap();
    let code = parse_line(b"029A").unwrap();
    assert_eq!(code.value(), 29);
    assert_eq!(code_complexity(&table, &code), Some(68 * 29));
}

#[test]
fn example_batch_sums_to_126384_at_depth_2() {
    let input = b"029A\n980A\n179A\n456A\n379A";
    let (part1, _) = solve(input).unwrap();
    assert_eq!(part1, 126384);
}

#[test]
fn example_batch_with_trailing_newline_gives_same_answer() {
    let input = b"029A\n980A\n179A\n456A\n379A\n";
    let (part1, _) = solve(input).unwrap();
    assert_eq!(part1, 126384);
}

#[test]
fn example_batch_known_per_code_costs() {
    // The five example codes need 68, 60, 68, 64 and 64 presses at depth 2.
    let table = CostTable::new(2).unwrap();
    let expected: [(&[u8], u64); 5] = [
        (b"029A", 68),
        (b"980A", 60),
        (b"179A", 68),
        (b"456A", 64),
        (b"379A", 64),
    ];
    for (line, presses) in expected {
        let code = parse_line(line).unwrap();
        assert_eq!(code_press_cost(&table, &code), Some(presses));
    }
}

#[test]
fn empty_input_solves_to_zero() {
    assert_eq!(solve(b""), Ok((0, 0)));
}

#[test]
fn solve_reports_first_parse_error() {
    let r = solve(b"029A\n0z9A\n980");
    assert_eq!(r, Err(SolveError::Parse(ParseError::InvalidCharacter)));
}

#[test]
fn complexity_at_depth_25_is_at_least_complexity_at_depth_2() {
    let t2 = CostTable::new(2).unwrap();
    let t25 = CostTable::new(25).unwrap();
    for line in [&b"029A"[..], b"980A", b"179A", b"456A", b"379A"] {
        let code = parse_line(line).unwrap();
        let shallow = code_complexity(&t2, &code).unwrap();
        let deep = code_complexity(&t25, &code).unwrap();
        assert!(deep >= shallow);
    }
}

#[test]
fn depth_25_part_of_example_batch_is_stable() {
    let input = b"029A\n980A\n179A\n456A\n379A";
    let r1 = solve(input).unwrap();
    let r2 = solve(input).unwrap();
    assert_eq!(r1, r2);
    assert!(r1.1 >= r1.0);
    assert_eq!(r1.1, 154115708116294);
}

#[test]
fn zero_value_code_contributes_nothing() {
    let table = CostTable::new(2).unwrap();
    let code = parse_line(b"000A").unwrap();
    assert_eq!(code.value(), 0);
    assert!(code_press_cost(&table, &code).unwrap() > 0);
    assert_eq!(code_complexity(&table, &code), Some(0));
    let (with_zero, _) = solve(b"029A\n000A").unwrap();
    let (without, _) = solve(b"029A").unwrap();
    assert_eq!(with_zero, without);
}

#[test]
fn bare_activate_code_has_value_zero_and_complexity_zero() {
    let table = CostTable::new(2).unwrap();
    let code = Code::from_keys(vec![NumPad::A]).unwrap();
    assert_eq!(code.value(), 0);
    assert_eq!(code_press_cost(&table, &code), Some(1));
    assert_eq!(code_complexity(&table, &code), Some(0));
}
