//! Radius levels: how deep each occupied cell sits inside a stroke.
//!
//! A cell has radius level `r` when the diamond walk of radius `r` around it
//! meets only occupied cells and no border column. Levels are first grown,
//! one radius after the other, and then pruned: a level that lies on the walk
//! of a larger level says nothing new and is reset.

use vstd::prelude::*;
use crate::bloat_laws::lemma_annotated_levels_succeed;
use crate::matrix::{border_column, Vmatrix};
use crate::walk::{direction_at, step_spec, step_within, walk_position, walk_steps};

verus! {

/// A cell that a tracing walk may pass: inside the grid, occupied, and off
/// the border columns.
pub open spec fn cell_clear(occupancy: Seq<u32>, n: int, p: int) -> bool {
    &&& 0 <= p < occupancy.len()
    &&& occupancy[p] >= 1
    &&& !border_column(p, n)
}

/// The walk of radius `radius` from `start` passes only clear cells. The
/// walk steps by `row_size`; border columns are those of a grid of width `n`.
/// The start itself is not looked at.
pub open spec fn trace_succeeds(
    occupancy: Seq<u32>,
    n: int,
    row_size: int,
    start: int,
    radius: int,
) -> bool {
    forall|k: nat|
        1 <= k <= walk_steps(radius) ==> cell_clear(
            occupancy,
            n,
            #[trigger] walk_position(start, row_size, radius, k),
        )
}

/// Walks the diamond of radius `bloat_level` around `current_index` and tells
/// whether every cell stepped on is occupied, inside the grid and off the
/// border columns.
pub fn trace_at(
    full_data: &Vmatrix<u32>,
    bloat_level: u32,
    row_size: usize,
    current_index: usize,
) -> (clear: bool)
    requires
        full_data.wf(),
        bloat_level >= 1,
    ensures
        clear == trace_succeeds(
            full_data@,
            full_data.size as int,
            row_size as int,
            current_index as int,
            bloat_level as int,
        ),
{
    let cells: usize = full_data.data.len();
    let steps: u64 = 9 * ((bloat_level - 1) as u64);
    let mut index: usize = current_index;
    let mut k: u64 = 0;
    while k < steps
        invariant
            full_data.wf(),
            bloat_level >= 1,
            cells == full_data@.len(),
            steps == walk_steps(bloat_level as int),
            k <= steps,
            index == walk_position(
                current_index as int,
                row_size as int,
                bloat_level as int,
                k as nat,
            ),
            forall|j: nat|
                1 <= j <= k ==> cell_clear(
                    full_data@,
                    full_data.size as int,
                    #[trigger] walk_position(
                        current_index as int,
                        row_size as int,
                        bloat_level as int,
                        j,
                    ),
                ),
        decreases steps - k,
    {
        let direction = direction_at(bloat_level, k);
        assert(walk_position(
            current_index as int,
            row_size as int,
            bloat_level as int,
            (k + 1) as nat,
        ) == step_spec(index as int, row_size as int, direction));
        match step_within(index, row_size, direction, cells) {
            None => {
                return false;
            },
            Some(next) => {
                index = next;
            },
        }
        if full_data.data[index] < 1 || full_data.is_border_column(index) {
            return false;
        }
        k += 1;
    }
    true
}

/// A cell that a cleaning walk may pass: among the first `cells` flat indices
/// and off the border columns of a grid of width `n`.
pub open spec fn cell_open(cells: int, n: int, p: int) -> bool {
    &&& 0 <= p < cells
    &&& !border_column(p, n)
}

/// The first `k` steps of the walk all land on open cells.
pub open spec fn walk_open(
    cells: int,
    n: int,
    row_size: int,
    start: int,
    radius: int,
    k: nat,
) -> bool {
    forall|j: nat|
        1 <= j <= k ==> cell_open(cells, n, #[trigger] walk_position(start, row_size, radius, j))
}

/// Step number `k` of a cleaning walk is taken and lands among the first
/// `cells` flat indices: the walk has not left them before, nor met a border
/// column.
pub open spec fn walk_lands(
    cells: int,
    n: int,
    row_size: int,
    start: int,
    radius: int,
    k: nat,
) -> bool {
    &&& 1 <= k <= walk_steps(radius)
    &&& 0 <= walk_position(start, row_size, radius, k) < cells
    &&& walk_open(cells, n, row_size, start, radius, (k - 1) as nat)
}

/// The cleaning walk of radius `radius` from `start` lands on flat index `p`.
/// A cell in a border column is still landed on; the walk ends there.
pub open spec fn clean_visits(
    cells: int,
    n: int,
    row_size: int,
    start: int,
    radius: int,
    p: int,
) -> bool {
    exists|k: nat|
        #[trigger] walk_lands(cells, n, row_size, start, radius, k) && walk_position(
            start,
            row_size,
            radius,
            k,
        ) == p
}

/// The cleaning walk takes all its steps and ends on an open cell.
pub open spec fn clean_completes(
    cells: int,
    n: int,
    row_size: int,
    start: int,
    radius: int,
) -> bool {
    walk_open(cells, n, row_size, start, radius, walk_steps(radius) as nat)
}

/// The radius levels after one cleaning walk: a level below `cleaning` on a
/// cell that the walk lands on is reset, every other level is kept.
pub open spec fn cleaned(
    levels: Seq<u32>,
    n: int,
    row_size: int,
    start: int,
    cleaning: int,
    radius: int,
) -> Seq<u32> {
    Seq::new(
        levels.len(),
        |p: int|
            if levels[p] < cleaning && clean_visits(
                levels.len() as int,
                n,
                row_size,
                start,
                radius,
                p,
            ) {
                0u32
            } else {
                levels[p]
            },
    )
}

/// One of the first `k` steps of the walk lands on `p`.
spec fn walk_hits(start: int, row_size: int, radius: int, k: nat, p: int) -> bool {
    exists|j: nat| 1 <= j <= k && #[trigger] walk_position(start, row_size, radius, j) == p
}

/// Where the walk takes exactly its first `m` steps, the cells it lands on
/// are the positions of those steps.
proof fn lemma_visits_are_hits(
    cells: int,
    n: int,
    row_size: int,
    start: int,
    radius: int,
    m: nat,
)
    requires
        m <= walk_steps(radius),
        forall|j: nat|
            1 <= j <= m ==> #[trigger] walk_lands(cells, n, row_size, start, radius, j),
        forall|j: nat| j > m ==> !#[trigger] walk_lands(cells, n, row_size, start, radius, j),
    ensures
        forall|p: int|
            clean_visits(cells, n, row_size, start, radius, p) <==> walk_hits(
                start,
                row_size,
                radius,
                m,
                p,
            ),
{
    assert forall|p: int|
        clean_visits(cells, n, row_size, start, radius, p) <==> walk_hits(
            start,
            row_size,
            radius,
            m,
            p,
        ) by {
        if walk_hits(start, row_size, radius, m, p) {
            let j = choose|j: nat|
                1 <= j <= m && #[trigger] walk_position(start, row_size, radius, j) == p;
            assert(walk_lands(cells, n, row_size, start, radius, j));
        }
    }
}

/// A walk of radius 1 takes no step: from any start it succeeds as a trace,
/// completes as a cleaning walk, lands on no cell and resets no level.
pub proof fn lemma_walk_of_radius_one(
    occupancy: Seq<u32>,
    levels: Seq<u32>,
    n: int,
    row_size: int,
    start: int,
    cleaning: int,
)
    ensures
        walk_steps(1) == 0,
        trace_succeeds(occupancy, n, row_size, start, 1),
        clean_completes(levels.len() as int, n, row_size, start, 1),
        forall|p: int| !clean_visits(levels.len() as int, n, row_size, start, 1, p),
        cleaned(levels, n, row_size, start, cleaning, 1) == levels,
{
}

/// Walks the diamond of radius `bloat_level_cleaned` around `current_index`
/// and resets every level below `bloat_level_cleaning` that it lands on. The
/// walk ends early where it leaves `result_array` or lands on a border
/// column; the answer tells whether it came all the way round.
pub fn clean_at(
    full_data: &Vmatrix<u32>,
    bloat_level_cleaning: u32,
    bloat_level_cleaned: u32,
    row_size: usize,
    current_index: usize,
    result_array: &mut Vec<u32>,
) -> (completed: bool)
    requires
        full_data.wf(),
        bloat_level_cleaned >= 1,
    ensures
        final(result_array)@ == cleaned(
            old(result_array)@,
            full_data.size as int,
            row_size as int,
            current_index as int,
            bloat_level_cleaning as int,
            bloat_level_cleaned as int,
        ),
        completed == clean_completes(
            old(result_array)@.len() as int,
            full_data.size as int,
            row_size as int,
            current_index as int,
            bloat_level_cleaned as int,
        ),
{
    let cells: usize = result_array.len();
    let steps: u64 = 9 * ((bloat_level_cleaned - 1) as u64);
    let ghost n = full_data.size as int;
    let ghost w = row_size as int;
    let ghost start = current_index as int;
    let ghost radius = bloat_level_cleaned as int;
    let mut index: usize = current_index;
    let mut k: u64 = 0;
    while k < steps
        invariant
            full_data.wf(),
            bloat_level_cleaned >= 1,
            n == full_data.size,
            w == row_size,
            start == current_index,
            radius == bloat_level_cleaned,
            cells == old(result_array)@.len(),
            result_array@.len() == cells,
            steps == walk_steps(radius),
            k <= steps,
            index == walk_position(start, w, radius, k as nat),
            walk_open(cells as int, n, w, start, radius, k as nat),
            forall|p: int|
                0 <= p < cells ==> result_array@[p] == if old(result_array)@[p]
                    < bloat_level_cleaning && walk_hits(start, w, radius, k as nat, p) {
                    0u32
                } else {
                    old(result_array)@[p]
                },
        decreases steps - k,
    {
        let direction = direction_at(bloat_level_cleaned, k);
        assert(walk_position(start, w, radius, (k + 1) as nat) == step_spec(
            index as int,
            w,
            direction,
        ));
        match step_within(index, row_size, direction, cells) {
            None => {
                proof {
                    lemma_visits_are_hits(cells as int, n, w, start, radius, k as nat);
                    assert(result_array@ =~= cleaned(
                        old(result_array)@,
                        n,
                        w,
                        start,
                        bloat_level_cleaning as int,
                        radius,
                    ));
                }
                return false;
            },
            Some(next) => {
                index = next;
            },
        }
        if result_array[index] < bloat_level_cleaning {
            result_array[index] = 0;
        }
        assert forall|p: int| 0 <= p < cells implies result_array@[p] == if old(
            result_array,
        )@[p] < bloat_level_cleaning && walk_hits(start, w, radius, (k + 1) as nat, p) {
            0u32
        } else {
            old(result_array)@[p]
        } by {
            assert(walk_hits(start, w, radius, (k + 1) as nat, p) == (p == index || walk_hits(
                start,
                w,
                radius,
                k as nat,
                p,
            )));
        }
        if full_data.is_border_column(index) {
            proof {
                lemma_visits_are_hits(cells as int, n, w, start, radius, (k + 1) as nat);
                assert(result_array@ =~= cleaned(
                    old(result_array)@,
                    n,
                    w,
                    start,
                    bloat_level_cleaning as int,
                    radius,
                ));
            }
            return false;
        }
        k += 1;
    }
    proof {
        lemma_visits_are_hits(cells as int, n, w, start, radius, k as nat);
        assert(result_array@ =~= cleaned(
            old(result_array)@,
            n,
            w,
            start,
            bloat_level_cleaning as int,
            radius,
        ));
    }
    true
}

/// The radius grid that the passes write, with the width of its rows.
#[derive(Clone, Debug)]
pub struct GlobalCurveData {
    pub row_size: usize,
    pub curves_global_output: Vmatrix<u32>,
}

impl GlobalCurveData {
    /// The radius grid is well formed and as wide as `row_size` says.
    pub open spec fn wf(&self) -> bool {
        &&& self.curves_global_output.wf()
        &&& self.curves_global_output.size == self.row_size
    }
}

/// Growth stops below this level in a grid of width `n`.
pub open spec fn maximum_bloat(n: int) -> int {
    n / 2
}

/// A cell from which walks start: occupied with exactly 1, and off the
/// border columns.
pub open spec fn seed(occupancy: Seq<u32>, n: int, i: int) -> bool {
    &&& 0 <= i < occupancy.len()
    &&& !border_column(i, n)
    &&& occupancy[i] == 1
}

/// Cell `i` is raised to `level` when that level is grown: it is a seed, does
/// not hold `level` yet, and its walk of that radius succeeds.
pub open spec fn takes_level(
    levels: Seq<u32>,
    occupancy: Seq<u32>,
    n: int,
    level: int,
    i: int,
) -> bool {
    &&& seed(occupancy, n, i)
    &&& levels[i] != level
    &&& trace_succeeds(occupancy, n, n, i, level)
}

/// The radius levels after `level` has been grown.
pub open spec fn grow_level(levels: Seq<u32>, occupancy: Seq<u32>, n: int, level: int) -> Seq<
    u32,
> {
    Seq::new(
        levels.len(),
        |i: int|
            if takes_level(levels, occupancy, n, level, i) {
                level as u32
            } else {
                levels[i]
            },
    )
}

/// Growing `level` raises at least one cell.
pub open spec fn level_grows(levels: Seq<u32>, occupancy: Seq<u32>, n: int, level: int) -> bool {
    exists|i: int| takes_level(levels, occupancy, n, level, i)
}

/// The radius levels after growth from `level` on, and the level at which
/// growth stopped: one level after the other is grown while it is below
/// `cap` and the level before it raised a cell.
pub open spec fn grown(
    levels: Seq<u32>,
    occupancy: Seq<u32>,
    n: int,
    level: int,
    cap: int,
) -> (Seq<u32>, int)
    decreases cap - level,
{
    if level < cap {
        let next = grow_level(levels, occupancy, n, level);
        if level_grows(levels, occupancy, n, level) {
            grown(next, occupancy, n, level + 1, cap)
        } else {
            (next, level + 1)
        }
    } else {
        (levels, level)
    }
}

/// The walk of radius `j` from the seed `c`, which holds `level`, lands on
/// `p`.
pub open spec fn shadows(
    levels: Seq<u32>,
    occupancy: Seq<u32>,
    n: int,
    level: int,
    c: int,
    j: int,
    p: int,
) -> bool {
    &&& seed(occupancy, n, c)
    &&& levels[c] == level
    &&& 1 <= j <= level
    &&& clean_visits(levels.len() as int, n, n, c, j, p)
}

/// Some walk of radius up to `level`, from some seed that holds `level`,
/// lands on `p`.
pub open spec fn shadowed(
    levels: Seq<u32>,
    occupancy: Seq<u32>,
    n: int,
    level: int,
    p: int,
) -> bool {
    exists|c: int, j: int| #[trigger] shadows(levels, occupancy, n, level, c, j, p)
}

/// The radius levels after `level` has been pruned: every smaller level in
/// its shadow is reset.
pub open spec fn prune_level(levels: Seq<u32>, occupancy: Seq<u32>, n: int, level: int) -> Seq<
    u32,
> {
    Seq::new(
        levels.len(),
        |p: int|
            if levels[p] < level && shadowed(levels, occupancy, n, level, p) {
                0u32
            } else {
                levels[p]
            },
    )
}

/// The radius levels after pruning from `level` down to 1.
pub open spec fn pruned(levels: Seq<u32>, occupancy: Seq<u32>, n: int, level: int) -> Seq<u32>
    decreases level,
{
    if level <= 0 {
        levels
    } else {
        pruned(prune_level(levels, occupancy, n, level), occupancy, n, level - 1)
    }
}

/// The radius levels after growth and pruning.
pub open spec fn bloated(levels: Seq<u32>, occupancy: Seq<u32>, n: int) -> Seq<u32> {
    let (raised, top) = grown(levels, occupancy, n, 1, maximum_bloat(n));
    pruned(raised, occupancy, n, top)
}

/// Grows one level: every seed whose walk of radius `bloat_level` succeeds
/// is raised to it. Tells whether a cell was raised.
pub fn grow_once(result_array: &mut Vec<u32>, input_data: &Vmatrix<u32>, bloat_level: u32) -> (
    increased: bool
)
    requires
        input_data.wf(),
        old(result_array)@.len() == input_data@.len(),
        bloat_level >= 1,
    ensures
        final(result_array)@ == grow_level(
            old(result_array)@,
            input_data@,
            input_data.size as int,
            bloat_level as int,
        ),
        increased == level_grows(
            old(result_array)@,
            input_data@,
            input_data.size as int,
            bloat_level as int,
        ),
{
    let row_size: usize = input_data.size;
    let data_size: usize = input_data.data.len();
    let ghost n = row_size as int;
    let ghost level = bloat_level as int;
    let mut increased = false;
    let mut i: usize = 0;
    while i < data_size
        invariant
            input_data.wf(),
            bloat_level >= 1,
            n == input_data.size,
            row_size == input_data.size,
            level == bloat_level,
            data_size == input_data@.len(),
            old(result_array)@.len() == data_size,
            result_array@.len() == data_size,
            i <= data_size,
            forall|p: int|
                0 <= p < i ==> result_array@[p] == grow_level(
                    old(result_array)@,
                    input_data@,
                    n,
                    level,
                )[p],
            forall|p: int| i <= p < data_size ==> result_array@[p] == old(result_array)@[p],
            increased == exists|p: int|
                0 <= p < i && takes_level(old(result_array)@, input_data@, n, level, p),
        decreases data_size - i,
    {
        let ghost found = increased;
        if !input_data.is_border_column(i) && input_data.data[i] == 1 && result_array[i]
            != bloat_level {
            if trace_at(input_data, bloat_level, row_size, i) {
                result_array[i] = bloat_level;
                increased = true;
            }
        }
        proof {
            if found {
                let p = choose|p: int|
                    0 <= p < i && takes_level(old(result_array)@, input_data@, n, level, p);
                assert(0 <= p < i + 1 && takes_level(
                    old(result_array)@,
                    input_data@,
                    n,
                    level,
                    p,
                ));
            }
            if takes_level(old(result_array)@, input_data@, n, level, i as int) {
                assert(0 <= i < i + 1 && takes_level(
                    old(result_array)@,
                    input_data@,
                    n,
                    level,
                    i as int,
                ));
            }
        }
        i += 1;
    }
    increased
}

/// Grows the levels from 1 on, each while it is below half the grid's width
/// and the level before it raised a cell. Gives the level at which growth
/// stopped.
pub fn grow_bloats(result_array: &mut Vec<u32>, input_data: &Vmatrix<u32>) -> (bloat_level: u32)
    requires
        input_data.wf(),
        old(result_array)@.len() == input_data@.len(),
    ensures
        final(result_array)@.len() == old(result_array)@.len(),
        (final(result_array)@, bloat_level as int) == grown(
            old(result_array)@,
            input_data@,
            input_data.size as int,
            1,
            maximum_bloat(input_data.size as int),
        ),
{
    let row_size: usize = input_data.size;
    proof {
        assert(input_data.data@.len() == input_data.data.len());
        assert(row_size < 0x1_0000_0000) by (nonlinear_arith)
            requires
                row_size * row_size <= 0xffff_ffff_ffff_ffff,
        ;
    }
    let maximum: u32 = (row_size / 2) as u32;
    let ghost n = row_size as int;
    let mut bloat_level: u32 = 1;
    let mut bloat_increased = true;
    while bloat_level < maximum && bloat_increased
        invariant
            input_data.wf(),
            n == input_data.size,
            maximum == maximum_bloat(n),
            maximum < 0x8000_0000,
            result_array@.len() == input_data@.len(),
            old(result_array)@.len() == input_data@.len(),
            1 <= bloat_level,
            bloat_level <= maximum || bloat_level == 1,
            grown(old(result_array)@, input_data@, n, 1, maximum as int) == if bloat_increased {
                grown(result_array@, input_data@, n, bloat_level as int, maximum as int)
            } else {
                (result_array@, bloat_level as int)
            },
        decreases maximum - bloat_level,
    {
        bloat_increased = grow_once(result_array, input_data, bloat_level);
        bloat_level += 1;
    }
    bloat_level
}

/// Some walk that has been made so far lands on `p`: one from a seed before
/// `i`, or one of radius up to `done` from `i` itself.
spec fn shadowed_so_far(
    levels: Seq<u32>,
    occupancy: Seq<u32>,
    n: int,
    level: int,
    i: int,
    done: int,
    p: int,
) -> bool {
    exists|c: int, j: int|
        #[trigger] shadows(levels, occupancy, n, level, c, j, p) && (c < i || (c == i && j
            <= done))
}

/// The levels while `level` is pruned, when the walks counted by
/// `shadowed_so_far` have been made.
spec fn pruned_so_far(
    levels: Seq<u32>,
    occupancy: Seq<u32>,
    n: int,
    level: int,
    i: int,
    done: int,
) -> Seq<u32> {
    Seq::new(
        levels.len(),
        |p: int|
            if levels[p] < level && shadowed_so_far(levels, occupancy, n, level, i, done, p) {
                0u32
            } else {
                levels[p]
            },
    )
}

proof fn lemma_pruning_starts(levels: Seq<u32>, occupancy: Seq<u32>, n: int, level: int)
    ensures
        pruned_so_far(levels, occupancy, n, level, 0, 0) == levels,
{
    assert(pruned_so_far(levels, occupancy, n, level, 0, 0) =~= levels);
}

proof fn lemma_pruning_ends(levels: Seq<u32>, occupancy: Seq<u32>, n: int, level: int)
    requires
        levels.len() == occupancy.len(),
    ensures
        pruned_so_far(levels, occupancy, n, level, levels.len() as int, 0) == prune_level(
            levels,
            occupancy,
            n,
            level,
        ),
{
    let cells = levels.len() as int;
    assert forall|p: int|
        shadowed_so_far(levels, occupancy, n, level, cells, 0, p) == shadowed(
            levels,
            occupancy,
            n,
            level,
            p,
        ) by {
        if shadowed(levels, occupancy, n, level, p) {
            let (c, j) = choose|c: int, j: int|
                #[trigger] shadows(levels, occupancy, n, level, c, j, p);
            assert(shadows(levels, occupancy, n, level, c, j, p) && (c < cells || (c == cells
                && j <= 0)));
        }
    }
    assert(pruned_so_far(levels, occupancy, n, level, cells, 0) =~= prune_level(
        levels,
        occupancy,
        n,
        level,
    ));
}

/// Going on to the next cell changes nothing where every walk from cell `i`
/// has been made, or where there is none to make.
proof fn lemma_pruning_next_cell(
    levels: Seq<u32>,
    occupancy: Seq<u32>,
    n: int,
    level: int,
    i: int,
    done: int,
)
    requires
        done == level || done == 0 && !(seed(occupancy, n, i) && levels[i] == level),
    ensures
        pruned_so_far(levels, occupancy, n, level, i + 1, 0) == pruned_so_far(
            levels,
            occupancy,
            n,
            level,
            i,
            done,
        ),
{
    assert forall|p: int|
        shadowed_so_far(levels, occupancy, n, level, i + 1, 0, p) == shadowed_so_far(
            levels,
            occupancy,
            n,
            level,
            i,
            done,
            p,
        ) by {
        if shadowed_so_far(levels, occupancy, n, level, i + 1, 0, p) {
            let (c, j) = choose|c: int, j: int|
                #[trigger] shadows(levels, occupancy, n, level, c, j, p) && (c < i + 1 || (c
                    == i + 1 && j <= 0));
            assert(shadows(levels, occupancy, n, level, c, j, p) && (c < i || (c == i && j
                <= done)));
        }
        if shadowed_so_far(levels, occupancy, n, level, i, done, p) {
            let (c, j) = choose|c: int, j: int|
                #[trigger] shadows(levels, occupancy, n, level, c, j, p) && (c < i || (c == i
                    && j <= done));
            assert(shadows(levels, occupancy, n, level, c, j, p) && (c < i + 1 || (c == i + 1
                && j <= 0)));
        }
    }
    assert(pruned_so_far(levels, occupancy, n, level, i + 1, 0) =~= pruned_so_far(
        levels,
        occupancy,
        n,
        level,
        i,
        done,
    ));
}

/// One more walk from the seed `i`: cleaning the levels so far along the
/// walk of radius `done + 1` gives the levels with that walk counted in.
proof fn lemma_pruning_next_walk(
    levels: Seq<u32>,
    occupancy: Seq<u32>,
    n: int,
    level: int,
    i: int,
    done: int,
)
    requires
        levels.len() == occupancy.len(),
        seed(occupancy, n, i),
        levels[i] == level,
        0 <= done < level,
    ensures
        pruned_so_far(levels, occupancy, n, level, i, done + 1) == cleaned(
            pruned_so_far(levels, occupancy, n, level, i, done),
            n,
            n,
            i,
            level,
            done + 1,
        ),
{
    let cells = levels.len() as int;
    let before = pruned_so_far(levels, occupancy, n, level, i, done);
    let after = pruned_so_far(levels, occupancy, n, level, i, done + 1);
    assert forall|p: int| 0 <= p < cells implies after[p] == cleaned(
        before,
        n,
        n,
        i,
        level,
        done + 1,
    )[p] by {
        if shadowed_so_far(levels, occupancy, n, level, i, done, p) {
            let (c, j) = choose|c: int, j: int|
                #[trigger] shadows(levels, occupancy, n, level, c, j, p) && (c < i || (c == i
                    && j <= done));
            assert(shadows(levels, occupancy, n, level, c, j, p) && (c < i || (c == i && j
                <= done + 1)));
        }
        if clean_visits(cells, n, n, i, done + 1, p) {
            assert(shadows(levels, occupancy, n, level, i, done + 1, p));
        }
        if shadowed_so_far(levels, occupancy, n, level, i, done + 1, p) {
            let (c, j) = choose|c: int, j: int|
                #[trigger] shadows(levels, occupancy, n, level, c, j, p) && (c < i || (c == i
                    && j <= done + 1));
            if !(c == i && j == done + 1) {
                assert(shadows(levels, occupancy, n, level, c, j, p) && (c < i || (c == i && j
                    <= done)));
            }
        }
    }
}

/// Prunes one level: from every seed that holds `bloat_level`, the walks of
/// radius 1 up to `bloat_level` are made, and every smaller level they land
/// on is reset.
pub fn prune_once(result_array: &mut Vec<u32>, input_data: &Vmatrix<u32>, bloat_level: u32)
    requires
        input_data.wf(),
        old(result_array)@.len() == input_data@.len(),
    ensures
        final(result_array)@ == prune_level(
            old(result_array)@,
            input_data@,
            input_data.size as int,
            bloat_level as int,
        ),
{
    let row_size: usize = input_data.size;
    let data_size: usize = input_data.data.len();
    let ghost n = row_size as int;
    let ghost level = bloat_level as int;
    let ghost levels = result_array@;
    proof {
        lemma_pruning_starts(levels, input_data@, n, level);
    }
    let mut i: usize = 0;
    while i < data_size
        invariant
            input_data.wf(),
            n == input_data.size,
            row_size == input_data.size,
            level == bloat_level,
            data_size == input_data@.len(),
            levels.len() == data_size,
            i <= data_size,
            result_array@ == pruned_so_far(levels, input_data@, n, level, i as int, 0),
        decreases data_size - i,
    {
        if !input_data.is_border_column(i) && input_data.data[i] == 1 && result_array[i]
            == bloat_level {
            let mut j: u32 = 0;
            while j < bloat_level
                invariant
                    input_data.wf(),
                    n == input_data.size,
                    row_size == input_data.size,
                    level == bloat_level,
                    data_size == input_data@.len(),
                    levels.len() == data_size,
                    i < data_size,
                    j <= bloat_level,
                    seed(input_data@, n, i as int),
                    levels[i as int] == level,
                    result_array@ == pruned_so_far(
                        levels,
                        input_data@,
                        n,
                        level,
                        i as int,
                        j as int,
                    ),
                decreases bloat_level - j,
            {
                proof {
                    lemma_pruning_next_walk(levels, input_data@, n, level, i as int, j as int);
                }
                j += 1;
                clean_at(input_data, bloat_level, j, row_size, i, result_array);
            }
            proof {
                lemma_pruning_next_cell(levels, input_data@, n, level, i as int, level);
            }
        } else {
            proof {
                lemma_pruning_next_cell(levels, input_data@, n, level, i as int, 0);
            }
        }
        i += 1;
    }
    proof {
        lemma_pruning_ends(levels, input_data@, n, level);
    }
}

/// Prunes the levels from `bloat_level` down to 1.
pub fn prune_bloats(result_array: &mut Vec<u32>, input_data: &Vmatrix<u32>, bloat_level: u32)
    requires
        input_data.wf(),
        old(result_array)@.len() == input_data@.len(),
    ensures
        final(result_array)@.len() == old(result_array)@.len(),
        final(result_array)@ == pruned(
            old(result_array)@,
            input_data@,
            input_data.size as int,
            bloat_level as int,
        ),
{
    let ghost n = input_data.size as int;
    let mut level: u32 = bloat_level;
    while level > 0
        invariant
            input_data.wf(),
            n == input_data.size,
            result_array@.len() == input_data@.len(),
            old(result_array)@.len() == input_data@.len(),
            pruned(result_array@, input_data@, n, level as int) == pruned(
                old(result_array)@,
                input_data@,
                n,
                bloat_level as int,
            ),
        decreases level,
    {
        prune_once(result_array, input_data, level);
        level -= 1;
    }
}

/// Writes into the radius grid of `global_data` how deep each seed of
/// `input_data` sits inside its stroke: the levels are grown on top of what
/// the grid holds, then pruned.
pub fn write_bloats(global_data: &mut GlobalCurveData, input_data: &Vmatrix<u32>)
    requires
        old(global_data).wf(),
        input_data.wf(),
        input_data.size == old(global_data).row_size,
    ensures
        final(global_data).wf(),
        final(global_data).row_size == old(global_data).row_size,
        final(global_data).curves_global_output@ == bloated(
            old(global_data).curves_global_output@,
            input_data@,
            input_data.size as int,
        ),
{
    let bloat_level = grow_bloats(&mut global_data.curves_global_output.data, input_data);
    prune_bloats(&mut global_data.curves_global_output.data, input_data, bloat_level);
}

/// A radius grid of `cells` cells on which no level is marked.
pub open spec fn unmarked(cells: nat) -> Seq<u32> {
    Seq::new(cells, |i: int| 0u32)
}

/// The radius levels of an occupancy grid, grown and pruned from an unmarked
/// grid.
pub open spec fn annotated(occupancy: Seq<u32>, n: int) -> Seq<u32> {
    bloated(unmarked(occupancy.len()), occupancy, n)
}

/// The radius grid depends on the occupancy grid alone: two annotations of
/// one grid give the same radius grid.
pub proof fn lemma_annotate_is_a_function(
    occupancy: Vmatrix<u32>,
    first: Vmatrix<u32>,
    second: Vmatrix<u32>,
)
    requires
        first.size == occupancy.size,
        first@ == annotated(occupancy@, occupancy.size as int),
        second.size == occupancy.size,
        second@ == annotated(occupancy@, occupancy.size as int),
    ensures
        first.size == second.size,
        first@ == second@,
{
}

/// The radius grid of `occupancy`: the levels are grown and pruned on an
/// unmarked grid. A cell that holds a level at the end is a seed whose walk
/// of that radius succeeds; every other cell holds 0.
pub fn annotate(occupancy: &Vmatrix<u32>) -> (radii: Vmatrix<u32>)
    requires
        occupancy.wf(),
    ensures
        radii.wf(),
        radii.size == occupancy.size,
        radii@ == annotated(occupancy@, occupancy.size as int),
        forall|i: int|
            0 <= i < radii@.len() ==> {
                ||| #[trigger] radii@[i] == 0
                ||| {
                    &&& radii@[i] < maximum_bloat(occupancy.size as int)
                    &&& seed(occupancy@, occupancy.size as int, i)
                    &&& trace_succeeds(
                        occupancy@,
                        occupancy.size as int,
                        occupancy.size as int,
                        i,
                        radii@[i] as int,
                    )
                }
            },
{
    proof {
        assert(occupancy.data@.len() == occupancy.data.len());
        assert forall|i: int| 0 <= i < occupancy@.len() implies {
            ||| #[trigger] annotated(occupancy@, occupancy.size as int)[i] == 0
            ||| {
                &&& annotated(occupancy@, occupancy.size as int)[i] < maximum_bloat(
                    occupancy.size as int,
                )
                &&& seed(occupancy@, occupancy.size as int, i)
                &&& trace_succeeds(
                    occupancy@,
                    occupancy.size as int,
                    occupancy.size as int,
                    i,
                    annotated(occupancy@, occupancy.size as int)[i] as int,
                )
            }
        } by {
            lemma_annotated_levels_succeed(*occupancy, i);
        }
    }
    let mut global_data = GlobalCurveData {
        row_size: occupancy.size,
        curves_global_output: Vmatrix::zeroed(occupancy.size),
    };
    assert(global_data.curves_global_output@ =~= unmarked(occupancy@.len()));
    write_bloats(&mut global_data, occupancy);
    global_data.curves_global_output
}

} // verus!
