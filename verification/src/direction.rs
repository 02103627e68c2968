//! The four cardinal moves on a keypad grid.
//!
//! Positions are `(column, row)` pairs; the row coordinate grows downwards,
//! so `Up` decreases the row and `Down` increases it.

use vstd::prelude::*;

verus! {

#[derive(Debug, Copy, Clone, PartialEq, Eq, Structural)]
pub enum Direction {
    Up,
    Right,
    Down,
    Left,
}

/// Where one step (or `n` steps) in direction `d` leads, over unbounded
/// integers.
pub open spec fn go_spec(pos: (int, int), d: Direction, n: int) -> (int, int) {
    match d {
        Direction::Up => (pos.0, pos.1 - n),
        Direction::Right => (pos.0 + n, pos.1),
        Direction::Down => (pos.0, pos.1 + n),
        Direction::Left => (pos.0 - n, pos.1),
    }
}

impl Direction {
    /// Shift `pos` by one step in direction `d`.
    pub fn go(pos: (isize, isize), d: Direction) -> (r: (isize, isize))
        requires
            isize::MIN <= go_spec((pos.0 as int, pos.1 as int), d, 1).0 <= isize::MAX,
            isize::MIN <= go_spec((pos.0 as int, pos.1 as int), d, 1).1 <= isize::MAX,
        ensures
            (r.0 as int, r.1 as int) == go_spec((pos.0 as int, pos.1 as int), d, 1),
    {
        Direction::go_n(pos, d, 1)
    }

    /// Shift `pos` by `n` steps in direction `d`.
    pub fn go_n(pos: (isize, isize), d: Direction, n: isize) -> (r: (isize, isize))
        requires
            isize::MIN <= go_spec((pos.0 as int, pos.1 as int), d, n as int).0 <= isize::MAX,
            isize::MIN <= go_spec((pos.0 as int, pos.1 as int), d, n as int).1 <= isize::MAX,
        ensures
            (r.0 as int, r.1 as int) == go_spec((pos.0 as int, pos.1 as int), d, n as int),
    {
        let (x, y) = pos;
        match d {
            Direction::Up => (x, y - n),
            Direction::Right => (x + n, y),
            Direction::Down => (x, y + n),
            Direction::Left => (x - n, y),
        }
    }

    /// The direction a quarter turn clockwise from `d`.
    pub fn turn_right(d: Direction) -> (r: Direction)
        ensures
            r == (match d {
                Direction::Up => Direction::Right,
                Direction::Right => Direction::Down,
                Direction::Down => Direction::Left,
                Direction::Left => Direction::Up,
            }),
    {
        match d {
            Direction::Up => Direction::Right,
            Direction::Right => Direction::Down,
            Direction::Down => Direction::Left,
            Direction::Left => Direction::Up,
        }
    }

    /// The direction a quarter turn counterclockwise from `d`.
    pub fn turn_left(d: Direction) -> (r: Direction)
        ensures
            r == (match d {
                Direction::Up => Direction::Left,
                Direction::Right => Direction::Up,
                Direction::Down => Direction::Right,
                Direction::Left => Direction::Down,
            }),
    {
        match d {
            Direction::Up => Direction::Left,
            Direction::Right => Direction::Up,
            Direction::Down => Direction::Right,
            Direction::Left => Direction::Down,
        }
    }

    /// The direction opposite to `d`.
    pub fn turn_around(d: Direction) -> (r: Direction)
        ensures
            r == (match d {
                Direction::Up => Direction::Down,
                Direction::Right => Direction::Left,
                Direction::Down => Direction::Up,
                Direction::Left => Direction::Right,
            }),
    {
        match d {
            Direction::Up => Direction::Down,
            Direction::Right => Direction::Left,
            Direction::Down => Direction::Up,
            Direction::Left => Direction::Right,
        }
    }
}

} // verus!
