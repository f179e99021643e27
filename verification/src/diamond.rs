//! Where a walk goes: its steps in rows and columns, and what that says of a
//! grid that is occupied all over.

use vstd::prelude::*;
use crate::bloat::{cell_clear, grown, maximum_bloat, seed, trace_succeeds, unmarked};
use crate::bloat_laws::{largest_success_below, lemma_growth_reaches_largest};
use crate::matrix::{
    border_column, flat_index, lemma_flat_index_joins, lemma_flat_index_splits, Vmatrix,
};
use crate::walk::{walk_position, walk_steps};

verus! {

/// Rows between the start and where a walk of radius `radius` stands after
/// `k` steps: down to the lowest corner of the diamond, up to the highest,
/// and back.
pub open spec fn row_offset(radius: int, k: int) -> int {
    let h = radius - 1;
    if k <= 2 * h {
        k
    } else if k <= 6 * h {
        4 * h - k
    } else {
        k - 8 * h
    }
}

/// Columns between the start and where a walk of radius `radius` stands
/// after `k` steps.
pub open spec fn col_offset(radius: int, k: int) -> int {
    let h = radius - 1;
    if k <= h {
        k
    } else if k <= 4 * h {
        2 * h - k
    } else if k <= 8 * h {
        k - 6 * h
    } else {
        10 * h - k
    }
}

/// The diamond of a walk of radius `radius` around the cell in row `row`
/// and column `col` lies inside a grid of width `n` and off its border
/// columns.
pub open spec fn diamond_fits(n: int, row: int, col: int, radius: int) -> bool {
    let reach = 2 * (radius - 1);
    &&& 0 <= row - reach
    &&& row + reach <= n - 1
    &&& 1 <= col - reach
    &&& col + reach <= n - 2
}

/// Every cell of the grid holds 1.
pub open spec fn fully_occupied(occupancy: Seq<u32>) -> bool {
    forall|i: int| 0 <= i < occupancy.len() ==> #[trigger] occupancy[i] == 1
}

/// `value` is the largest radius below `cap` whose walk from `c` succeeds,
/// or 0 where there is none.
pub open spec fn largest_radius_below(
    occupancy: Seq<u32>,
    n: int,
    c: int,
    cap: int,
    value: int,
) -> bool {
    &&& value == 0 || (1 <= value < cap && trace_succeeds(occupancy, n, n, c, value))
    &&& forall|r: int|
        value < r < cap ==> !#[trigger] trace_succeeds(occupancy, n, n, c, r)
}

/// Flat index of the cell in the middle row and the middle column.
pub open spec fn centre(n: int) -> int {
    flat_index(n, n / 2, n / 2)
}

/// After `k` steps a walk stands `row_offset` rows and `col_offset` columns
/// from its start, neither of them further than twice the radius less one.
pub proof fn lemma_walk_position_is_offset(start: int, n: int, radius: int, k: nat)
    requires
        radius >= 1,
        k <= walk_steps(radius),
    ensures
        walk_position(start, n, radius, k) == start + row_offset(radius, k as int) * n
            + col_offset(radius, k as int),
        -2 * (radius - 1) <= row_offset(radius, k as int) <= 2 * (radius - 1),
        -2 * (radius - 1) <= col_offset(radius, k as int) <= 2 * (radius - 1),
    decreases k,
{
    if k == 0 {
        assert(0 * n == 0);
    } else {
        lemma_walk_position_is_offset(start, n, radius, (k - 1) as nat);
        let before = row_offset(radius, k - 1);
        let after = row_offset(radius, k as int);
        if after == before + 1 {
            assert((before + 1) * n == before * n + n) by (nonlinear_arith);
        } else {
            assert(after == before - 1);
            assert((before - 1) * n == before * n - n) by (nonlinear_arith);
        }
    }
}

/// A walk ends where its first leg ended: it goes out along a diagonal and
/// then once round the diamond.
pub proof fn lemma_walk_closes(start: int, n: int, radius: int)
    requires
        radius >= 1,
    ensures
        walk_position(start, n, radius, walk_steps(radius) as nat) == walk_position(
            start,
            n,
            radius,
            (radius - 1) as nat,
        ),
{
    lemma_walk_position_is_offset(start, n, radius, walk_steps(radius) as nat);
    lemma_walk_position_is_offset(start, n, radius, (radius - 1) as nat);
}

/// In a fully occupied grid the walk of radius `radius` from the cell in
/// row `row` and column `col`, off the border columns, succeeds exactly if
/// its diamond fits.
pub proof fn lemma_full_grid_trace_is_fit(
    occupancy: Seq<u32>,
    n: int,
    row: int,
    col: int,
    radius: int,
)
    requires
        n >= 1,
        occupancy.len() == n * n,
        fully_occupied(occupancy),
        0 <= row < n,
        1 <= col <= n - 2,
        radius >= 1,
    ensures
        trace_succeeds(occupancy, n, n, flat_index(n, row, col), radius) == diamond_fits(
            n,
            row,
            col,
            radius,
        ),
{
    let start = flat_index(n, row, col);
    let h = radius - 1;
    if diamond_fits(n, row, col, radius) {
        assert forall|k: nat| 1 <= k <= walk_steps(radius) implies cell_clear(
            occupancy,
            n,
            #[trigger] walk_position(start, n, radius, k),
        ) by {
            lemma_walk_position_is_offset(start, n, radius, k);
            let down = row_offset(radius, k as int);
            let right = col_offset(radius, k as int);
            assert((row + down) * n == row * n + down * n) by (nonlinear_arith);
            assert(walk_position(start, n, radius, k) == flat_index(n, row + down, col + right));
            lemma_flat_index_splits(n, row + down, col + right);
        }
    }
    if trace_succeeds(occupancy, n, n, start, radius) && h >= 1 {
        // The lowest corner lies inside the grid.
        let lowest = (2 * h) as nat;
        lemma_walk_position_is_offset(start, n, radius, lowest);
        assert(cell_clear(occupancy, n, walk_position(start, n, radius, lowest)));
        assert(row + 2 * h <= n - 1) by (nonlinear_arith)
            requires
                row * n + col + (2 * h) * n + 0 < n * n,
                0 <= col,
                n >= 1,
        ;
        // So does the highest.
        let highest = (6 * h) as nat;
        lemma_walk_position_is_offset(start, n, radius, highest);
        assert(cell_clear(occupancy, n, walk_position(start, n, radius, highest)));
        assert(0 <= row - 2 * h) by (nonlinear_arith)
            requires
                0 <= row * n + col + (-2 * h) * n + 0,
                col < n,
                n >= 1,
        ;
        // On its way to the left corner the walk would cross column 0.
        if col <= 2 * h {
            let k = (2 * h + col) as nat;
            lemma_walk_position_is_offset(start, n, radius, k);
            assert((row + (2 * h - col)) * n == row * n + (2 * h - col) * n) by (nonlinear_arith);
            assert(walk_position(start, n, radius, k) == flat_index(n, row + (2 * h - col), 0));
            assert(cell_clear(occupancy, n, walk_position(start, n, radius, k)));
            lemma_flat_index_splits(n, row + (2 * h - col), 0);
            assert(false);
        }
        // On its way to the right corner it would cross the last column.
        if col + 2 * h >= n - 1 {
            let across = n - 1 - col;
            let k = (6 * h + across) as nat;
            lemma_walk_position_is_offset(start, n, radius, k);
            assert((row + (across - 2 * h)) * n == row * n + (across - 2 * h) * n)
                by (nonlinear_arith);
            assert(walk_position(start, n, radius, k) == flat_index(
                n,
                row + (across - 2 * h),
                n - 1,
            ));
            assert(cell_clear(occupancy, n, walk_position(start, n, radius, k)));
            lemma_flat_index_splits(n, row + (across - 2 * h), n - 1);
            assert(false);
        }
    }
}

/// In a fully occupied grid a walk that succeeds from a cell off the border
/// columns succeeds with every smaller radius too.
pub proof fn lemma_full_grid_trace_is_monotonic(
    occupancy: Seq<u32>,
    n: int,
    c: int,
    smaller: int,
    larger: int,
)
    requires
        n >= 1,
        occupancy.len() == n * n,
        fully_occupied(occupancy),
        0 <= c < n * n,
        !border_column(c, n),
        1 <= smaller <= larger,
        trace_succeeds(occupancy, n, n, c, larger),
    ensures
        trace_succeeds(occupancy, n, n, c, smaller),
{
    lemma_flat_index_joins(n, c);
    lemma_full_grid_trace_is_fit(occupancy, n, c / n, c % n, larger);
    lemma_full_grid_trace_is_fit(occupancy, n, c / n, c % n, smaller);
}

/// Growth on a fully occupied grid raises every cell off the border columns
/// to the largest radius, below half the grid's width, whose diamond fits
/// around it.
pub proof fn lemma_full_grid_growth(occupancy: Vmatrix<u32>, c: int)
    requires
        occupancy.wf(),
        fully_occupied(occupancy@),
        0 <= c < occupancy@.len(),
        !border_column(c, occupancy.size as int),
    ensures
        ({
            let n = occupancy.size as int;
            let raised = grown(unmarked(occupancy@.len()), occupancy@, n, 1, maximum_bloat(n)).0;
            &&& raised.len() == occupancy@.len()
            &&& largest_radius_below(occupancy@, n, c, maximum_bloat(n), raised[c] as int)
            &&& forall|r: int|
                1 <= r ==> trace_succeeds(occupancy@, n, n, c, r) == diamond_fits(
                    n,
                    c / n,
                    c % n,
                    r,
                )
        }),
{
    let n = occupancy.size as int;
    let cap = maximum_bloat(n);
    let (raised, top) = grown(unmarked(occupancy@.len()), occupancy@, n, 1, cap);
    lemma_growth_reaches_largest(occupancy);
    assert(seed(occupancy@, n, c));
    assert(largest_success_below(occupancy@, n, c, top, raised[c] as int));
    assert forall|r: int| raised[c] < r < cap implies !#[trigger] trace_succeeds(
        occupancy@,
        n,
        n,
        c,
        r,
    ) by {
        if r >= top && trace_succeeds(occupancy@, n, n, c, r) {
            lemma_full_grid_trace_is_monotonic(occupancy@, n, c, top - 1, r);
        }
    }
    lemma_flat_index_joins(n, c);
    assert forall|r: int| 1 <= r implies trace_succeeds(occupancy@, n, n, c, r) == diamond_fits(
        n,
        c / n,
        c % n,
        r,
    ) by {
        lemma_full_grid_trace_is_fit(occupancy@, n, c / n, c % n, r);
    }
}

/// Growth on a fully occupied grid raises the cell in the middle to the
/// largest radius, below half the grid's width, whose walk from it succeeds:
/// the largest whose diamond fits around it.
pub proof fn lemma_full_grid_centre(occupancy: Vmatrix<u32>)
    requires
        occupancy.wf(),
        fully_occupied(occupancy@),
    ensures
        ({
            let n = occupancy.size as int;
            let raised = grown(unmarked(occupancy@.len()), occupancy@, n, 1, maximum_bloat(n)).0;
            &&& 0 <= centre(n) < raised.len()
            &&& raised.len() == occupancy@.len()
            &&& largest_radius_below(
                occupancy@,
                n,
                centre(n),
                maximum_bloat(n),
                raised[centre(n)] as int,
            )
            &&& n >= 3 ==> forall|r: int|
                1 <= r ==> trace_succeeds(occupancy@, n, n, centre(n), r) == diamond_fits(
                    n,
                    n / 2,
                    n / 2,
                    r,
                )
        }),
{
    let n = occupancy.size as int;
    lemma_flat_index_splits(n, n / 2, n / 2);
    if n >= 3 {
        lemma_full_grid_growth(occupancy, centre(n));
    }
}

} // verus!
