//! Trimming: the boundary rows are cleared and the cells in the middle of a
//! solid block are marked, one reduction after the other.

use vstd::prelude::*;
use vstd::arithmetic::div_mod::{lemma_fundamental_div_mod_converse, lemma_mod_self_0};
use crate::matrix::{border_column, Vmatrix};

verus! {

/// No more reductions than this are made in one trimming.
pub const MAXIMUM_REDUCTIONS_DECORNERING: u32 = 10;

/// Flat index `i` lies in the first or in the last row of a grid of width `n`.
pub open spec fn bound_row(i: int, n: int) -> bool {
    0 <= i < n || n * n - n <= i < n * n
}

/// Flat index `i` lies in neither the first nor the last row, and in neither
/// border column.
pub open spec fn interior(i: int, n: int) -> bool {
    &&& n <= i < n * n - n
    &&& !border_column(i, n)
}

/// The cells with the first and the last row set to zero.
pub open spec fn bound_rows_zeroed(cells: Seq<u32>, n: int) -> Seq<u32> {
    Seq::new(
        cells.len(),
        |i: int|
            if bound_row(i, n) {
                0u32
            } else {
                cells[i]
            },
    )
}

/// The cell at `i`, the two beside it, and the three above and the three
/// below them are all non-zero.
pub open spec fn surrounded(cells: Seq<u32>, n: int, i: int) -> bool {
    &&& cells[i] > 0
    &&& cells[i - 1] > 0
    &&& cells[i + 1] > 0
    &&& cells[i - n] > 0
    &&& cells[i - n - 1] > 0
    &&& cells[i - n + 1] > 0
    &&& cells[i + n] > 0
    &&& cells[i + n - 1] > 0
    &&& cells[i + n + 1] > 0
}

/// An interior cell in the middle of nine non-zero cells.
pub open spec fn qualifies(cells: Seq<u32>, n: int, i: int) -> bool {
    interior(i, n) && surrounded(cells, n, i)
}

/// `output` with a 1 on every cell that qualifies in `input`.
pub open spec fn corners_processed(input: Seq<u32>, output: Seq<u32>, n: int) -> Seq<u32> {
    Seq::new(
        output.len(),
        |i: int|
            if qualifies(input, n, i) {
                1u32
            } else {
                output[i]
            },
    )
}

/// Two cells next to each other in one row both qualify.
pub open spec fn two_points_in_a_row(cells: Seq<u32>, n: int) -> bool {
    exists|i: int| #[trigger] qualifies(cells, n, i) && qualifies(cells, n, i - 1)
}

/// The cells after one reduction: the boundary rows are cleared, and every
/// cell that qualified before is set to 1.
pub open spec fn decornered(cells: Seq<u32>, n: int) -> Seq<u32> {
    corners_processed(cells, bound_rows_zeroed(cells, n), n)
}

/// The cells after `k` reductions.
pub open spec fn reduction(cells: Seq<u32>, n: int, k: nat) -> Seq<u32>
    decreases k,
{
    if k == 0 {
        cells
    } else {
        decornered(reduction(cells, n, (k - 1) as nat), n)
    }
}

/// How many reductions a trimming makes when at most `maximum` are allowed:
/// the first is always made, and each further one only if the one before it
/// met two qualifying cells in a row.
pub open spec fn reductions_made(cells: Seq<u32>, n: int, maximum: nat) -> nat
    decreases maximum,
{
    if maximum == 0 {
        0
    } else if two_points_in_a_row(cells, n) {
        1 + reductions_made(decornered(cells, n), n, (maximum - 1) as nat)
    } else {
        1
    }
}

/// The cells after trimming.
pub open spec fn trimmed(cells: Seq<u32>, n: int) -> Seq<u32> {
    reduction(cells, n, reductions_made(cells, n, MAXIMUM_REDUCTIONS_DECORNERING as nat))
}

/// Around an interior cell there is a cell of the grid on every side.
pub proof fn lemma_interior_has_neighbours(i: int, n: int)
    requires
        n >= 1,
        interior(i, n),
    ensures
        n >= 3,
        n + 1 <= i,
        i + n + 1 < n * n,
{
    if i == n {
        lemma_mod_self_0(n);
    }
    if i == n * n - n - 1 {
        assert(i == (n - 2) * n + (n - 1)) by (nonlinear_arith)
            requires
                i == n * n - n - 1,
        ;
        lemma_fundamental_div_mod_converse(i, n, n - 2, n - 1);
    }
    assert(n >= 3) by (nonlinear_arith)
        requires
            n >= 1,
            n + 1 <= i,
            i + n + 1 < n * n,
    ;
}

/// A reduction leaves nothing in the first and in the last row.
pub proof fn lemma_decornered_clears_bound_rows(cells: Seq<u32>, n: int)
    requires
        n >= 1,
        cells.len() == n * n,
    ensures
        decornered(cells, n).len() == cells.len(),
        forall|i: int| bound_row(i, n) ==> decornered(cells, n)[i] == 0,
{
    assert(n <= n * n) by (nonlinear_arith)
        requires
            n >= 1,
    ;
    assert forall|i: int| bound_row(i, n) implies decornered(cells, n)[i] == 0 by {
        assert(!interior(i, n));
    }
}

/// Reductions keep the number of cells.
pub proof fn lemma_reduction_keeps_length(cells: Seq<u32>, n: int, k: nat)
    ensures
        reduction(cells, n, k).len() == cells.len(),
    decreases k,
{
    if k > 0 {
        lemma_reduction_keeps_length(cells, n, (k - 1) as nat);
    }
}

/// Every trimming makes at least one reduction, and no more than the
/// maximum.
pub proof fn lemma_reductions_made_bounds(cells: Seq<u32>, n: int, maximum: nat)
    ensures
        reductions_made(cells, n, maximum) <= maximum,
        maximum >= 1 ==> reductions_made(cells, n, maximum) >= 1,
    decreases maximum,
{
    if maximum > 0 && two_points_in_a_row(cells, n) {
        lemma_reductions_made_bounds(decornered(cells, n), n, (maximum - 1) as nat);
    }
}

/// After trimming, every cell of the first and of the last row is zero, and
/// the grid has as many cells as before.
pub proof fn lemma_trimmed_bound_rows_are_zero(cells: Seq<u32>, n: int)
    requires
        n >= 1,
        cells.len() == n * n,
    ensures
        trimmed(cells, n).len() == cells.len(),
        forall|i: int| bound_row(i, n) ==> trimmed(cells, n)[i] == 0,
{
    let made = reductions_made(cells, n, MAXIMUM_REDUCTIONS_DECORNERING as nat);
    lemma_reductions_made_bounds(cells, n, MAXIMUM_REDUCTIONS_DECORNERING as nat);
    lemma_reduction_keeps_length(cells, n, (made - 1) as nat);
    lemma_decornered_clears_bound_rows(reduction(cells, n, (made - 1) as nat), n);
}

/// Sets every cell of the first and of the last row to zero.
pub fn set_bound_rows_to_zero(input_data: &mut Vmatrix<u32>)
    requires
        old(input_data).wf(),
    ensures
        final(input_data).wf(),
        final(input_data).size == old(input_data).size,
        final(input_data)@ == bound_rows_zeroed(old(input_data)@, old(input_data).size as int),
{
    let input_size: usize = input_data.size;
    let last_entry: usize = input_data.data.len();
    let ghost n = input_size as int;
    assert(n <= n * n) by (nonlinear_arith)
        requires
            n >= 1,
    ;
    let mut i: usize = 0;
    while i < input_size
        invariant
            n == input_size,
            n >= 1,
            n <= n * n,
            last_entry == n * n,
            input_data.size == old(input_data).size,
            input_data.size == input_size,
            input_data.data@.len() == last_entry,
            old(input_data).data@.len() == last_entry,
            i <= input_size,
            forall|p: int|
                0 <= p < last_entry ==> input_data.data@[p] == if p < i || p >= last_entry - i {
                    0u32
                } else {
                    old(input_data).data@[p]
                },
        decreases input_size - i,
    {
        input_data.data[i] = 0;
        input_data.data[last_entry - 1 - i] = 0;
        i += 1;
    }
}

/// Writes a 1 into `output_data` for every cell that qualifies in
/// `input_data`, and tells whether two of them stood next to each other in
/// one row.
pub fn process_corners(input_data: &Vmatrix<u32>, output_data: &mut Vmatrix<u32>) -> (
    adjacent: bool
)
    requires
        input_data.wf(),
        old(output_data).wf(),
        old(output_data).size == input_data.size,
    ensures
        final(output_data).wf(),
        final(output_data).size == old(output_data).size,
        final(output_data)@ == corners_processed(
            input_data@,
            old(output_data)@,
            input_data.size as int,
        ),
        adjacent == two_points_in_a_row(input_data@, input_data.size as int),
{
    let row_size: usize = input_data.size;
    let data_size: usize = input_data.data.len();
    let ghost n = row_size as int;
    let ghost cells = input_data@;
    assert(n <= n * n) by (nonlinear_arith)
        requires
            n >= 1,
    ;
    let last_pointer: usize = data_size - row_size;
    let mut two_points = false;
    let mut previous_active = false;
    let mut current_pointer: usize = row_size;
    while current_pointer < last_pointer
        invariant
            input_data.wf(),
            n == input_data.size,
            row_size == input_data.size,
            cells == input_data@,
            data_size == n * n,
            last_pointer == n * n - n,
            output_data.size == input_data.size,
            output_data.data@.len() == data_size,
            old(output_data).data@.len() == data_size,
            row_size <= current_pointer,
            forall|p: int|
                0 <= p < data_size ==> #[trigger] output_data.data@[p] == if p < current_pointer
                    && qualifies(cells, n, p) {
                    1u32
                } else {
                    old(output_data).data@[p]
                },
            previous_active == qualifies(cells, n, current_pointer - 1),
            two_points == exists|p: int|
                p < current_pointer && #[trigger] qualifies(cells, n, p) && qualifies(
                    cells,
                    n,
                    p - 1,
                ),
        decreases last_pointer - current_pointer,
    {
        if input_data.is_border_column(current_pointer) {
            previous_active = false;
        } else {
            proof {
                lemma_interior_has_neighbours(current_pointer as int, n);
            }
            let up_pointer: usize = current_pointer - row_size;
            let dw_pointer: usize = current_pointer + row_size;
            let surrounding_all_non_zero = input_data.data[current_pointer] > 0
                && input_data.data[current_pointer - 1] > 0
                && input_data.data[current_pointer + 1] > 0
                && input_data.data[up_pointer] > 0
                && input_data.data[up_pointer - 1] > 0
                && input_data.data[up_pointer + 1] > 0
                && input_data.data[dw_pointer] > 0
                && input_data.data[dw_pointer - 1] > 0
                && input_data.data[dw_pointer + 1] > 0;
            if surrounding_all_non_zero {
                output_data.data[current_pointer] = 1;
                if previous_active {
                    two_points = true;
                }
                previous_active = true;
            } else {
                previous_active = false;
            }
        }
        current_pointer += 1;
    }
    two_points
}

/// Makes one reduction of `input_data` and gives the reduced grid. Whether
/// two qualifying cells stood in a row is written to `two_points_in_row`.
pub fn decorner_once(input_data: &Vmatrix<u32>, two_points_in_row: &mut bool) -> (result: Vmatrix<
    u32,
>)
    requires
        input_data.wf(),
    ensures
        result.wf(),
        result.size == input_data.size,
        result@ == decornered(input_data@, input_data.size as int),
        *final(two_points_in_row) == two_points_in_a_row(input_data@, input_data.size as int),
{
    let mut result: Vmatrix<u32> = Vmatrix::<u32>::build(input_data.size, input_data.data.clone());
    set_bound_rows_to_zero(&mut result);
    *two_points_in_row = process_corners(input_data, &mut result);
    result
}

/// Trims `input_data` and gives every grid made on the way, in order: the
/// first reduction is made of `input_data`, each further one of the grid
/// before it. Reductions stop after `maximum_reductions`, or as soon as one
/// has met no two qualifying cells in a row.
pub fn get_accumulation(input_data: Vmatrix<u32>, maximum_reductions: u32) -> (accumulation: Vec<
    Vmatrix<u32>,
>)
    requires
        input_data.wf(),
    ensures
        accumulation@.len() == reductions_made(
            input_data@,
            input_data.size as int,
            maximum_reductions as nat,
        ),
        forall|k: int|
            0 <= k < accumulation@.len() ==> {
                &&& (#[trigger] accumulation@[k]).wf()
                &&& accumulation@[k].size == input_data.size
                &&& accumulation@[k]@ == reduction(
                    input_data@,
                    input_data.size as int,
                    (k + 1) as nat,
                )
            },
{
    let ghost n = input_data.size as int;
    let mut accumulation: Vec<Vmatrix<u32>> = Vec::new();
    let mut reductions: u32 = 0;
    let mut process: bool = true;
    while process && reductions < maximum_reductions
        invariant
            input_data.wf(),
            n == input_data.size,
            reductions <= maximum_reductions,
            accumulation@.len() == reductions,
            forall|k: int|
                0 <= k < accumulation@.len() ==> {
                    &&& (#[trigger] accumulation@[k]).wf()
                    &&& accumulation@[k].size == input_data.size
                    &&& accumulation@[k]@ == reduction(input_data@, n, (k + 1) as nat)
                },
            reductions_made(input_data@, n, maximum_reductions as nat) == reductions + if process {
                reductions_made(
                    reduction(input_data@, n, reductions as nat),
                    n,
                    (maximum_reductions - reductions) as nat,
                )
            } else {
                0
            },
        decreases maximum_reductions - reductions,
    {
        let made: usize = accumulation.len();
        let new_data: Vmatrix<u32> = if made == 0 {
            decorner_once(&input_data, &mut process)
        } else {
            decorner_once(&accumulation[made - 1], &mut process)
        };
        accumulation.push(new_data);
        reductions += 1;
    }
    accumulation
}

/// Trims an occupancy grid: reductions are made until one meets no two
/// qualifying cells in a row, ten at most, and the last grid is given.
pub fn trim(occupancy: Vmatrix<u32>) -> (result: Vmatrix<u32>)
    requires
        occupancy.wf(),
    ensures
        result.wf(),
        result.size == occupancy.size,
        result@ == trimmed(occupancy@, occupancy.size as int),
        forall|i: int| bound_row(i, occupancy.size as int) ==> result@[i] == 0,
{
    let ghost n = occupancy.size as int;
    let ghost cells = occupancy@;
    let mut accumulation = get_accumulation(occupancy, MAXIMUM_REDUCTIONS_DECORNERING);
    proof {
        lemma_reductions_made_bounds(cells, n, MAXIMUM_REDUCTIONS_DECORNERING as nat);
        lemma_trimmed_bound_rows_are_zero(cells, n);
    }
    accumulation.pop().unwrap()
}

} // verus!
