//! Diagonal steps over flat indices, and the diamond walk made of them.
//!
//! A walk of radius `r` leaves its centre along one diagonal for `r - 1`
//! steps and then goes once round the diamond whose corners lie `2 (r - 1)`
//! cells above, below, left and right of the centre.

use vstd::prelude::*;
use crate::matrix::flat_index;

verus! {

/// The four diagonal unit steps, as (row change, column change):
/// `D1` is (+1, +1), `D2` is (+1, -1), `D3` is (-1, -1), `D4` is (-1, +1).
#[derive(Clone, Copy, Debug, PartialEq, Eq)]
pub enum Direction {
    D1,
    D2,
    D3,
    D4,
}

/// The flat index one step away from `index` in a grid of width `n`: the row
/// change times `n`, plus the column change, is added. The result may lie
/// outside the grid.
pub open spec fn step_spec(index: int, n: int, direction: Direction) -> int {
    match direction {
        Direction::D1 => index + n + 1,
        Direction::D2 => index + n - 1,
        Direction::D3 => index - n - 1,
        Direction::D4 => index - n + 1,
    }
}

/// Rows that a step in `direction` goes down.
pub open spec fn row_change(direction: Direction) -> int {
    match direction {
        Direction::D1 | Direction::D2 => 1,
        Direction::D3 | Direction::D4 => -1,
    }
}

/// Columns that a step in `direction` goes to the right.
pub open spec fn col_change(direction: Direction) -> int {
    match direction {
        Direction::D1 | Direction::D4 => 1,
        Direction::D2 | Direction::D3 => -1,
    }
}

/// A step leads from a cell to the cell one row and one column away, as
/// far as flat indices go: nothing keeps it inside the grid.
pub proof fn lemma_step_moves_diagonally(n: int, row: int, col: int, direction: Direction)
    ensures
        step_spec(flat_index(n, row, col), n, direction) == flat_index(n, row, col) + row_change(
            direction,
        ) * n + col_change(direction),
        step_spec(flat_index(n, row, col), n, direction) == flat_index(
            n,
            row + row_change(direction),
            col + col_change(direction),
        ),
{
    assert((row + 1) * n == row * n + n) by (nonlinear_arith);
    assert((row - 1) * n == row * n - n) by (nonlinear_arith);
}

/// Number of steps in a walk of radius `radius`: three legs of `radius - 1`
/// steps and three of twice as many.
pub open spec fn walk_steps(radius: int) -> int {
    9 * (radius - 1)
}

/// Direction of the step that follows the first `k` steps of a walk of
/// radius `radius`. With `h = radius - 1`, the six legs are `h` steps of
/// `D1`, `h` of `D2`, `2h` of `D3`, `2h` of `D4`, `2h` of `D1`, `h` of `D2`.
pub open spec fn walk_direction(radius: int, k: int) -> Direction {
    let h = radius - 1;
    if k < h {
        Direction::D1
    } else if k < 2 * h {
        Direction::D2
    } else if k < 4 * h {
        Direction::D3
    } else if k < 6 * h {
        Direction::D4
    } else if k < 8 * h {
        Direction::D1
    } else {
        Direction::D2
    }
}

/// Flat index reached after `k` steps of a walk of radius `radius` that
/// starts at `start` in a grid of width `n`.
pub open spec fn walk_position(start: int, n: int, radius: int, k: nat) -> int
    decreases k,
{
    if k == 0 {
        start
    } else {
        step_spec(
            walk_position(start, n, radius, (k - 1) as nat),
            n,
            walk_direction(radius, k - 1),
        )
    }
}

/// Moves `index` one diagonal step. No bound of the grid is looked at.
pub fn step(index: usize, n: usize, direction: Direction) -> (next: usize)
    requires
        0 <= step_spec(index as int, n as int, direction) <= usize::MAX,
    ensures
        next == step_spec(index as int, n as int, direction),
{
    match direction {
        Direction::D1 => index + n + 1,
        Direction::D2 => if n >= 1 {
            index + (n - 1)
        } else {
            index - 1
        },
        Direction::D3 => index - n - 1,
        Direction::D4 => if n >= 1 {
            index - (n - 1)
        } else {
            index + 1
        },
    }
}

/// Moves `index` one diagonal step if that lands on one of the first
/// `cells` flat indices, and says so if it does not.
pub fn step_within(index: usize, n: usize, direction: Direction, cells: usize) -> (next: Option<
    usize,
>)
    ensures
        next == if 0 <= step_spec(index as int, n as int, direction) < cells {
            Some(step_spec(index as int, n as int, direction) as usize)
        } else {
            None
        },
{
    match direction {
        Direction::D1 => {
            if index < cells && n < cells - index - 1 {
                Some(index + n + 1)
            } else {
                None
            }
        },
        Direction::D2 => {
            if n == 0 {
                if 1 <= index && index <= cells {
                    Some(index - 1)
                } else {
                    None
                }
            } else if index < cells && n - 1 < cells - index {
                Some(index + (n - 1))
            } else {
                None
            }
        },
        Direction::D3 => {
            if index > n && index - n - 1 < cells {
                Some(index - n - 1)
            } else {
                None
            }
        },
        Direction::D4 => {
            if n == 0 {
                if cells >= 1 && index < cells - 1 {
                    Some(index + 1)
                } else {
                    None
                }
            } else if index >= n - 1 && index - (n - 1) < cells {
                Some(index - (n - 1))
            } else {
                None
            }
        },
    }
}

/// Direction of the step that follows the first `k` steps of a walk of
/// radius `radius`.
pub fn direction_at(radius: u32, k: u64) -> (direction: Direction)
    requires
        radius >= 1,
    ensures
        direction == walk_direction(radius as int, k as int),
{
    let h: u64 = (radius - 1) as u64;
    if k < h {
        Direction::D1
    } else if k < 2 * h {
        Direction::D2
    } else if k < 4 * h {
        Direction::D3
    } else if k < 6 * h {
        Direction::D4
    } else if k < 8 * h {
        Direction::D1
    } else {
        Direction::D2
    }
}

} // verus!
