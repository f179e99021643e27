//! What growth and pruning leave behind.

use vstd::prelude::*;
use crate::bloat::{
    annotated, clean_visits, grow_level, grown, level_grows, maximum_bloat, prune_level, pruned,
    seed, shadows, takes_level, trace_succeeds, unmarked, walk_lands,
};
use crate::matrix::Vmatrix;
use crate::walk::{walk_position, walk_steps};

verus! {

/// `value` is the largest radius below `level` whose walk from the seed `i`
/// succeeds. It is 0 where there is no such radius, or `i` is no seed.
pub open spec fn largest_success_below(
    occupancy: Seq<u32>,
    n: int,
    i: int,
    level: int,
    value: int,
) -> bool {
    &&& value == 0 || (1 <= value < level && seed(occupancy, n, i) && trace_succeeds(
        occupancy,
        n,
        n,
        i,
        value,
    ))
    &&& forall|r: int|
        value < r < level && seed(occupancy, n, i) ==> !#[trigger] trace_succeeds(
            occupancy,
            n,
            n,
            i,
            r,
        )
}

/// The width of a well-formed grid, and half of it, fit in 32 bits.
pub proof fn lemma_width_fits(grid: Vmatrix<u32>)
    requires
        grid.wf(),
    ensures
        grid.size < 0x1_0000_0000,
        maximum_bloat(grid.size as int) < 0x8000_0000,
{
    assert(grid.data@.len() == grid.data.len());
    assert(grid.size < 0x1_0000_0000) by (nonlinear_arith)
        requires
            grid.size * grid.size <= 0xffff_ffff_ffff_ffff,
    ;
}

/// Growing one level keeps each cell at the largest radius that has
/// succeeded for it so far.
proof fn lemma_grow_level_keeps_largest(
    levels: Seq<u32>,
    occupancy: Seq<u32>,
    n: int,
    level: int,
)
    requires
        1 <= level <= u32::MAX,
        levels.len() == occupancy.len(),
        forall|i: int|
            0 <= i < levels.len() ==> largest_success_below(
                occupancy,
                n,
                i,
                level,
                #[trigger] levels[i] as int,
            ),
    ensures
        grow_level(levels, occupancy, n, level).len() == levels.len(),
        forall|i: int|
            0 <= i < levels.len() ==> largest_success_below(
                occupancy,
                n,
                i,
                level + 1,
                #[trigger] grow_level(levels, occupancy, n, level)[i] as int,
            ),
        !level_grows(levels, occupancy, n, level) ==> forall|i: int|
            seed(occupancy, n, i) ==> !#[trigger] trace_succeeds(occupancy, n, n, i, level),
{
    let next = grow_level(levels, occupancy, n, level);
    assert forall|i: int| 0 <= i < levels.len() implies largest_success_below(
        occupancy,
        n,
        i,
        level + 1,
        #[trigger] next[i] as int,
    ) by {
        assert(largest_success_below(occupancy, n, i, level, levels[i] as int));
    }
    if !level_grows(levels, occupancy, n, level) {
        assert forall|i: int| seed(occupancy, n, i) implies !#[trigger] trace_succeeds(
            occupancy,
            n,
            n,
            i,
            level,
        ) by {
            assert(!takes_level(levels, occupancy, n, level, i));
        }
    }
}

/// Growth leaves every cell at the largest radius, below the level at which
/// growth stopped, whose walk from it succeeds. Where growth stopped below
/// the cap, no walk of the last radius succeeded.
pub proof fn lemma_grown_is_largest(
    levels: Seq<u32>,
    occupancy: Seq<u32>,
    n: int,
    level: int,
    cap: int,
)
    requires
        1 <= level,
        cap <= u32::MAX,
        levels.len() == occupancy.len(),
        forall|i: int|
            0 <= i < levels.len() ==> largest_success_below(
                occupancy,
                n,
                i,
                level,
                #[trigger] levels[i] as int,
            ),
    ensures
        ({
            let (raised, top) = grown(levels, occupancy, n, level, cap);
            &&& raised.len() == levels.len()
            &&& level <= top
            &&& level < cap ==> level < top
            &&& top <= cap || top == level
            &&& forall|i: int|
                0 <= i < raised.len() ==> largest_success_below(
                    occupancy,
                    n,
                    i,
                    top,
                    #[trigger] raised[i] as int,
                )
            &&& level < top < cap ==> forall|i: int|
                seed(occupancy, n, i) ==> !#[trigger] trace_succeeds(occupancy, n, n, i, top - 1)
        }),
    decreases cap - level,
{
    if level < cap {
        lemma_grow_level_keeps_largest(levels, occupancy, n, level);
        if level_grows(levels, occupancy, n, level) {
            lemma_grown_is_largest(
                grow_level(levels, occupancy, n, level),
                occupancy,
                n,
                level + 1,
                cap,
            );
        }
    }
}

/// Growth on an unmarked grid leaves every cell at the largest radius, below
/// the level at which growth stopped, whose walk from it succeeds: a seed
/// holds that radius, every other cell holds 0. Growth stops at half the
/// grid's width, or earlier after a radius whose walk succeeded nowhere.
pub proof fn lemma_growth_reaches_largest(occupancy: Vmatrix<u32>)
    requires
        occupancy.wf(),
    ensures
        ({
            let n = occupancy.size as int;
            let (raised, top) = grown(
                unmarked(occupancy@.len()),
                occupancy@,
                n,
                1,
                maximum_bloat(n),
            );
            &&& raised.len() == occupancy@.len()
            &&& 1 <= top
            &&& top <= maximum_bloat(n) || top == 1
            &&& 1 < maximum_bloat(n) ==> 1 < top
            &&& forall|i: int|
                0 <= i < raised.len() ==> largest_success_below(
                    occupancy@,
                    n,
                    i,
                    top,
                    #[trigger] raised[i] as int,
                )
            &&& 1 < top < maximum_bloat(n) ==> forall|i: int|
                seed(occupancy@, n, i) ==> !#[trigger] trace_succeeds(
                    occupancy@,
                    n,
                    n,
                    i,
                    top - 1,
                )
        }),
{
    let n = occupancy.size as int;
    let blank = unmarked(occupancy@.len());
    lemma_width_fits(occupancy);
    assert forall|i: int| 0 <= i < blank.len() implies largest_success_below(
        occupancy@,
        n,
        i,
        1,
        #[trigger] blank[i] as int,
    ) by {}
    lemma_grown_is_largest(blank, occupancy@, n, 1, maximum_bloat(n));
}

/// Pruning resets levels and changes nothing else.
pub proof fn lemma_pruned_resets_or_keeps(
    levels: Seq<u32>,
    occupancy: Seq<u32>,
    n: int,
    level: int,
)
    ensures
        pruned(levels, occupancy, n, level).len() == levels.len(),
        forall|i: int|
            0 <= i < levels.len() ==> {
                ||| #[trigger] pruned(levels, occupancy, n, level)[i] == 0
                ||| pruned(levels, occupancy, n, level)[i] == levels[i]
            },
    decreases level,
{
    if level > 0 {
        let next = prune_level(levels, occupancy, n, level);
        lemma_pruned_resets_or_keeps(next, occupancy, n, level - 1);
        assert forall|i: int| 0 <= i < levels.len() implies {
            ||| #[trigger] pruned(levels, occupancy, n, level)[i] == 0
            ||| pruned(levels, occupancy, n, level)[i] == levels[i]
        } by {
            assert(pruned(next, occupancy, n, level - 1)[i] == 0 || pruned(
                next,
                occupancy,
                n,
                level - 1,
            )[i] == next[i]);
        }
    }
}

/// After pruning from `level` down, a seed that still holds a level of at
/// most `level` has no smaller level left on the cells that its walks land
/// on.
pub proof fn lemma_pruned_shadow(
    levels: Seq<u32>,
    occupancy: Seq<u32>,
    n: int,
    level: int,
    c: int,
    j: int,
    p: int,
)
    requires
        levels.len() == occupancy.len(),
        seed(occupancy, n, c),
        1 <= pruned(levels, occupancy, n, level)[c] <= level,
        1 <= j <= pruned(levels, occupancy, n, level)[c],
        clean_visits(levels.len() as int, n, n, c, j, p),
    ensures
        0 <= p < levels.len(),
        ({
            ||| pruned(levels, occupancy, n, level)[p] == 0
            ||| pruned(levels, occupancy, n, level)[p] >= pruned(levels, occupancy, n, level)[c]
        }),
    decreases level,
{
    let last = pruned(levels, occupancy, n, level);
    let next = prune_level(levels, occupancy, n, level);
    lemma_pruned_resets_or_keeps(next, occupancy, n, level - 1);
    if last[c] == level {
        assert(shadows(levels, occupancy, n, level, c, j, p));
    } else {
        lemma_pruned_shadow(next, occupancy, n, level - 1, c, j, p);
    }
}

/// Every cell of a radius grid holds 0, or it is a seed and holds a radius
/// below half the grid's width whose walk from it succeeds.
pub proof fn lemma_annotated_levels_succeed(occupancy: Vmatrix<u32>, i: int)
    requires
        occupancy.wf(),
        0 <= i < occupancy@.len(),
    ensures
        annotated(occupancy@, occupancy.size as int).len() == occupancy@.len(),
        ({
            let level = annotated(occupancy@, occupancy.size as int)[i];
            ||| level == 0
            ||| {
                &&& 1 <= level < maximum_bloat(occupancy.size as int)
                &&& seed(occupancy@, occupancy.size as int, i)
                &&& trace_succeeds(
                    occupancy@,
                    occupancy.size as int,
                    occupancy.size as int,
                    i,
                    level as int,
                )
            }
        }),
{
    let n = occupancy.size as int;
    let (raised, top) = grown(unmarked(occupancy@.len()), occupancy@, n, 1, maximum_bloat(n));
    lemma_growth_reaches_largest(occupancy);
    lemma_pruned_resets_or_keeps(raised, occupancy@, n, top);
}

/// A level that is left after pruning shadows its walks: on no cell that a
/// walk of radius up to that level lands on, from the cell that holds it, is
/// a smaller level left.
pub proof fn lemma_kept_level_shadows_its_walks(occupancy: Vmatrix<u32>, c: int, j: int, p: int)
    requires
        occupancy.wf(),
        0 <= c < occupancy@.len(),
        1 <= j <= annotated(occupancy@, occupancy.size as int)[c],
        clean_visits(
            occupancy@.len() as int,
            occupancy.size as int,
            occupancy.size as int,
            c,
            j,
            p,
        ),
    ensures
        0 <= p < occupancy@.len(),
        ({
            let radii = annotated(occupancy@, occupancy.size as int);
            radii[p] == 0 || radii[p] >= radii[c]
        }),
{
    let n = occupancy.size as int;
    let (raised, top) = grown(unmarked(occupancy@.len()), occupancy@, n, 1, maximum_bloat(n));
    lemma_annotated_levels_succeed(occupancy, c);
    lemma_growth_reaches_largest(occupancy);
    lemma_pruned_resets_or_keeps(raised, occupancy@, n, top);
    lemma_pruned_shadow(raised, occupancy@, n, top, c, j, p);
}

/// A level that is left after pruning has nothing smaller on its own walk:
/// every step of the walk of that radius lands inside the grid, on a cell
/// that holds 0 or a level at least as large.
pub proof fn lemma_kept_level_walk_is_clean(occupancy: Vmatrix<u32>, c: int, k: nat)
    requires
        occupancy.wf(),
        0 <= c < occupancy@.len(),
        1 <= k <= walk_steps(annotated(occupancy@, occupancy.size as int)[c] as int),
    ensures
        ({
            let radii = annotated(occupancy@, occupancy.size as int);
            let p = walk_position(c, occupancy.size as int, radii[c] as int, k);
            &&& 0 <= p < occupancy@.len()
            &&& radii[p] == 0 || radii[p] >= radii[c]
        }),
{
    let n = occupancy.size as int;
    let cells = occupancy@.len() as int;
    let radii = annotated(occupancy@, n);
    let level = radii[c] as int;
    let p = walk_position(c, n, level, k);
    lemma_annotated_levels_succeed(occupancy, c);
    assert(walk_lands(cells, n, n, c, level, k));
    lemma_kept_level_shadows_its_walks(occupancy, c, level, p);
}

} // verus!
