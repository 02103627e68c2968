//! The two fixed keypad layouts.
//!
//! The numeric keypad is 3 columns by 4 rows with a gap at the bottom left:
//! rows `[7 8 9]`, `[4 5 6]`, `[1 2 3]`, `[gap 0 A]`. The directional keypad
//! is 3 columns by 2 rows with a gap at the top left: rows `[gap Up A]`,
//! `[Left Down Right]`. Every key has a `(column, row)` position; the gap
//! cell belongs to no key and may never be occupied.

use vstd::prelude::*;

use crate::direction::Direction;
use crate::grid::{Grid, Row};

verus! {

/// A key of the directional keypad.
#[derive(Debug, Clone, Copy, PartialEq, Eq, Structural)]
pub enum DirPad {
    Up,
    Right,
    Down,
    Left,
    A,
}

/// A key of the numeric keypad: the digits and `Activate`.
#[derive(Debug, Clone, Copy, PartialEq, Eq, Structural)]
pub enum NumPad {
    D0,
    D1,
    D2,
    D3,
    D4,
    D5,
    D6,
    D7,
    D8,
    D9,
    A,
}

impl DirPad {
    /// The position of key `self` on the directional keypad.
    pub open spec fn pos_spec(self) -> (int, int) {
        match self {
            DirPad::Up => (1, 0),
            DirPad::Right => (2, 1),
            DirPad::Down => (1, 1),
            DirPad::Left => (0, 1),
            DirPad::A => (2, 0),
        }
    }

    /// The key at position `pos` on the directional keypad, or `None` for
    /// the gap cell and for cells outside the grid.
    pub open spec fn at_spec(pos: (int, int)) -> Option<DirPad> {
        if pos == (1int, 0int) {
            Some(DirPad::Up)
        } else if pos == (2int, 1int) {
            Some(DirPad::Right)
        } else if pos == (1int, 1int) {
            Some(DirPad::Down)
        } else if pos == (0int, 1int) {
            Some(DirPad::Left)
        } else if pos == (2int, 0int) {
            Some(DirPad::A)
        } else {
            None
        }
    }

    /// The position of key `self`.
    pub fn pos(self) -> (r: (isize, isize))
        ensures
            (r.0 as int, r.1 as int) == self.pos_spec(),
    {
        match self {
            DirPad::Up => (1, 0),
            DirPad::Right => (2, 1),
            DirPad::Down => (1, 1),
            DirPad::Left => (0, 1),
            DirPad::A => (2, 0),
        }
    }

    /// The key at position `pos`, or `None` off the keys.
    pub fn at(pos: (isize, isize)) -> (r: Option<DirPad>)
        ensures
            r == DirPad::at_spec((pos.0 as int, pos.1 as int)),
    {
        match pos {
            (1, 0) => Some(DirPad::Up),
            (2, 1) => Some(DirPad::Right),
            (1, 1) => Some(DirPad::Down),
            (0, 1) => Some(DirPad::Left),
            (2, 0) => Some(DirPad::A),
            _ => None,
        }
    }

    /// The directional key of the same name as the move `d`.
    pub open spec fn convert_spec(d: Direction) -> DirPad {
        match d {
            Direction::Up => DirPad::Up,
            Direction::Right => DirPad::Right,
            Direction::Down => DirPad::Down,
            Direction::Left => DirPad::Left,
        }
    }

    /// The directional key of the same name as the move `d`.
    pub fn convert(d: Direction) -> (r: DirPad)
        ensures
            r == DirPad::convert_spec(d),
    {
        match d {
            Direction::Up => DirPad::Up,
            Direction::Right => DirPad::Right,
            Direction::Down => DirPad::Down,
            Direction::Left => DirPad::Left,
        }
    }

    /// The conventional one-character rendering of key `self`.
    pub fn to_char(self) -> (r: char)
        ensures
            r == (match self {
                DirPad::Up => '^',
                DirPad::Right => '>',
                DirPad::Down => 'v',
                DirPad::Left => '<',
                DirPad::A => 'A',
            }),
    {
        match self {
            DirPad::Up => '^',
            DirPad::Right => '>',
            DirPad::Down => 'v',
            DirPad::Left => '<',
            DirPad::A => 'A',
        }
    }
}

impl NumPad {
    /// The position of key `self` on the numeric keypad.
    pub open spec fn pos_spec(self) -> (int, int) {
        match self {
            NumPad::D7 => (0, 0),
            NumPad::D8 => (1, 0),
            NumPad::D9 => (2, 0),
            NumPad::D4 => (0, 1),
            NumPad::D5 => (1, 1),
            NumPad::D6 => (2, 1),
            NumPad::D1 => (0, 2),
            NumPad::D2 => (1, 2),
            NumPad::D3 => (2, 2),
            NumPad::D0 => (1, 3),
            NumPad::A => (2, 3),
        }
    }

    /// The key at position `pos` on the numeric keypad, or `None` for the
    /// gap cell and for cells outside the grid.
    pub open spec fn at_spec(pos: (int, int)) -> Option<NumPad> {
        if pos == (0int, 0int) {
            Some(NumPad::D7)
        } else if pos == (1int, 0int) {
            Some(NumPad::D8)
        } else if pos == (2int, 0int) {
            Some(NumPad::D9)
        } else if pos == (0int, 1int) {
            Some(NumPad::D4)
        } else if pos == (1int, 1int) {
            Some(NumPad::D5)
        } else if pos == (2int, 1int) {
            Some(NumPad::D6)
        } else if pos == (0int, 2int) {
            Some(NumPad::D1)
        } else if pos == (1int, 2int) {
            Some(NumPad::D2)
        } else if pos == (2int, 2int) {
            Some(NumPad::D3)
        } else if pos == (1int, 3int) {
            Some(NumPad::D0)
        } else if pos == (2int, 3int) {
            Some(NumPad::A)
        } else {
            None
        }
    }

    /// The position of key `self`.
    pub fn pos(self) -> (r: (isize, isize))
        ensures
            (r.0 as int, r.1 as int) == self.pos_spec(),
    {
        match self {
            NumPad::D7 => (0, 0),
            NumPad::D8 => (1, 0),
            NumPad::D9 => (2, 0),
            NumPad::D4 => (0, 1),
            NumPad::D5 => (1, 1),
            NumPad::D6 => (2, 1),
            NumPad::D1 => (0, 2),
            NumPad::D2 => (1, 2),
            NumPad::D3 => (2, 2),
            NumPad::D0 => (1, 3),
            NumPad::A => (2, 3),
        }
    }

    /// The key at position `pos`, or `None` off the keys.
    pub fn at(pos: (isize, isize)) -> (r: Option<NumPad>)
        ensures
            r == NumPad::at_spec((pos.0 as int, pos.1 as int)),
    {
        match pos {
            (0, 0) => Some(NumPad::D7),
            (1, 0) => Some(NumPad::D8),
            (2, 0) => Some(NumPad::D9),
            (0, 1) => Some(NumPad::D4),
            (1, 1) => Some(NumPad::D5),
            (2, 1) => Some(NumPad::D6),
            (0, 2) => Some(NumPad::D1),
            (1, 2) => Some(NumPad::D2),
            (2, 2) => Some(NumPad::D3),
            (1, 3) => Some(NumPad::D0),
            (2, 3) => Some(NumPad::A),
            _ => None,
        }
    }

    /// The numeral a digit key stands for; the `Activate` key counts as 0.
    pub open spec fn digit_spec(self) -> nat {
        match self {
            NumPad::D0 => 0,
            NumPad::D1 => 1,
            NumPad::D2 => 2,
            NumPad::D3 => 3,
            NumPad::D4 => 4,
            NumPad::D5 => 5,
            NumPad::D6 => 6,
            NumPad::D7 => 7,
            NumPad::D8 => 8,
            NumPad::D9 => 9,
            NumPad::A => 0,
        }
    }

    /// The numeral a digit key stands for; the `Activate` key counts as 0.
    pub fn digit(self) -> (r: u64)
        ensures
            r == self.digit_spec(),
    {
        match self {
            NumPad::D0 => 0,
            NumPad::D1 => 1,
            NumPad::D2 => 2,
            NumPad::D3 => 3,
            NumPad::D4 => 4,
            NumPad::D5 => 5,
            NumPad::D6 => 6,
            NumPad::D7 => 7,
            NumPad::D8 => 8,
            NumPad::D9 => 9,
            NumPad::A => 0,
        }
    }
}

/// Positions of directional keys round-trip through the cell lookup: every
/// key sits where `at_spec` finds it, so the lookup tables agree.
pub proof fn lemma_dir_pad_pos_at(k: DirPad)
    ensures
        DirPad::at_spec(k.pos_spec()) == Some(k),
{
}

/// Positions of numeric keys round-trip through the cell lookup.
pub proof fn lemma_num_pad_pos_at(k: NumPad)
    ensures
        NumPad::at_spec(k.pos_spec()) == Some(k),
{
}

/// The numeric keypad as a grid of tiles, with `None` for the gap cell:
/// rows `[7 8 9]`, `[4 5 6]`, `[1 2 3]`, `[gap 0 A]`.
pub fn numeric_keypad() -> (g: Grid<Option<NumPad>>)
    ensures
        g.rows@.len() == 4,
        forall|y: int| 0 <= y < 4 ==> (#[trigger] g.rows@[y]).tiles@.len() == 3,
        forall|x: int, y: int|
            0 <= x < 3 && 0 <= y < 4 ==> #[trigger] g.rows@[y].tiles@[x] == NumPad::at_spec((x, y)),
{
    let row0 = Row { tiles: vec![Some(NumPad::D7), Some(NumPad::D8), Some(NumPad::D9)] };
    let row1 = Row { tiles: vec![Some(NumPad::D4), Some(NumPad::D5), Some(NumPad::D6)] };
    let row2 = Row { tiles: vec![Some(NumPad::D1), Some(NumPad::D2), Some(NumPad::D3)] };
    let row3 = Row { tiles: vec![None, Some(NumPad::D0), Some(NumPad::A)] };
    let g = Grid { rows: vec![row0, row1, row2, row3] };
    g
}

/// The directional keypad as a grid of tiles, with `None` for the gap cell:
/// rows `[gap Up A]`, `[Left Down Right]`.
pub fn directional_keypad() -> (g: Grid<Option<DirPad>>)
    ensures
        g.rows@.len() == 2,
        forall|y: int| 0 <= y < 2 ==> (#[trigger] g.rows@[y]).tiles@.len() == 3,
        forall|x: int, y: int|
            0 <= x < 3 && 0 <= y < 2 ==> #[trigger] g.rows@[y].tiles@[x] == DirPad::at_spec((x, y)),
{
    let row0 = Row { tiles: vec![None, Some(DirPad::Up), Some(DirPad::A)] };
    let row1 = Row { tiles: vec![Some(DirPad::Left), Some(DirPad::Down), Some(DirPad::Right)] };
    let g = Grid { rows: vec![row0, row1] };
    g
}

} // verus!
