//! What a generation does to a consistent grid.

use super::rule::{
    applied_cell, applied_column, applied_range, generation, intact, lemma_verdict_is_conway,
    next_alive, verdict_of, Verdict,
};
use crate::cell::packed::{alive_of, count_of, encode, lemma_decode, lemma_encode};
use crate::grid::census::{
    consistent, lemma_consistent_by_flags, lemma_consistent_cell, lemma_move_keeps_consistent,
    live_around,
};
use crate::grid::moves::Outcome;
use crate::grid::torus::{
    cell_index, lemma_cell_index, lemma_index_of_parts, lemma_wrap_range, neighbor_of,
};
use vstd::prelude::*;

verus! {

/// Whether the cell with flat index `i` lies in the columns from `x0` up to
/// `x1` and the rows from `y0` up to `y1`.
pub open spec fn in_rect(i: int, x0: int, x1: int, y0: int, y1: int, w: int) -> bool {
    x0 <= i % w < x1 && y0 <= i / w < y1
}

/// The cells of the rectangle still show, in the grid, the flag that the cache has of them.
pub open spec fn untouched(
    cache: Seq<u8>,
    live: Seq<u8>,
    x0: int,
    x1: int,
    y0: int,
    y1: int,
    w: int,
) -> bool {
    forall|i: int|
        0 <= i < live.len() && in_rect(i, x0, x1, y0, y1, w) ==> alive_of(#[trigger] live[i])
            == alive_of(cache[i])
}

/// The grid `after` is consistent, nothing was refused, and its flags are
/// those of `before` but in the rectangle, where they are what the rule makes
/// of the cache.
pub open spec fn ruled(
    cache: Seq<u8>,
    before: Seq<u8>,
    after: Outcome,
    x0: int,
    x1: int,
    y0: int,
    y1: int,
    h: int,
    w: int,
) -> bool {
    &&& after.error is None
    &&& consistent(after.cells, h, w)
    &&& forall|i: int|
        0 <= i < before.len() ==> alive_of(#[trigger] after.cells[i]) == if in_rect(
            i,
            x0,
            x1,
            y0,
            y1,
            w,
        ) {
            next_alive(cache[i])
        } else {
            alive_of(before[i])
        }
}

/// Applying the rule down part of a column of a consistent grid is never
/// refused, keeps the grid consistent, and gives each cell of that part the
/// flag that the rule makes of its cached byte.
pub proof fn lemma_column_ruled(
    cache: Seq<u8>,
    live: Seq<u8>,
    x: int,
    y0: int,
    y1: int,
    h: int,
    w: int,
)
    requires
        0 < h,
        0 < w,
        consistent(live, h, w),
        cache.len() == h * w,
        0 <= x < w,
        0 <= y0 <= y1 <= h,
        untouched(cache, live, x, x + 1, y0, y1, w),
    ensures
        ruled(
            cache,
            live,
            applied_column(cache, intact(live), x, y0, y1, h, w),
            x,
            x + 1,
            y0,
            y1,
            h,
            w,
        ),
    decreases y1 - y0,
{
    if y0 < y1 {
        lemma_column_ruled(cache, live, x, y0, y1 - 1, h, w);
        let mid = applied_column(cache, intact(live), x, y0, y1 - 1, h, w);
        let c = cell_index(x, y1 - 1, h, w);
        lemma_cell_index(x, y1 - 1, h, w);
        lemma_wrap_range(x, w);
        lemma_wrap_range(y1 - 1, h);
        assert(c % w == x && c / w == y1 - 1);
        assert(!in_rect(c, x, x + 1, y0, y1 - 1, w));
        assert(in_rect(c, x, x + 1, y0, y1, w));
        assert(alive_of(mid.cells[c]) == alive_of(live[c]));
        assert(alive_of(live[c]) == alive_of(cache[c]));
        lemma_verdict_is_conway(cache[c]);
        let after = applied_cell(cache, mid, c, h, w);
        match verdict_of(cache[c]) {
            Verdict::Keep => {},
            Verdict::Kill => {
                lemma_move_keeps_consistent(mid.cells, c, false, h, w);
            },
            Verdict::Spawn => {
                lemma_move_keeps_consistent(mid.cells, c, true, h, w);
            },
        }
        assert forall|i: int| 0 <= i < live.len() implies alive_of(#[trigger] after.cells[i])
            == if in_rect(i, x, x + 1, y0, y1, w) {
            next_alive(cache[i])
        } else {
            alive_of(live[i])
        } by {
            lemma_index_of_parts(i, h, w);
            if i != c {
                assert(alive_of(after.cells[i]) == alive_of(mid.cells[i]));
                if i % w == x && i / w == y1 - 1 {
                    assert(cell_index(i % w, i / w, h, w) == i);
                }
                assert(in_rect(i, x, x + 1, y0, y1, w) == in_rect(i, x, x + 1, y0, y1 - 1, w));
            }
        }
    }
}

/// Applying the rule to a rectangle of a consistent grid, whose cells still
/// show the flags of the cache, is never refused, keeps the grid consistent,
/// gives each cell of the rectangle the flag that the rule makes of its cached
/// byte, and changes no other flag.
pub proof fn lemma_range_ruled(
    cache: Seq<u8>,
    live: Seq<u8>,
    x0: int,
    x1: int,
    y0: int,
    y1: int,
    h: int,
    w: int,
)
    requires
        0 < h,
        0 < w,
        consistent(live, h, w),
        cache.len() == h * w,
        0 <= x0 <= x1 <= w,
        0 <= y0 <= y1 <= h,
        untouched(cache, live, x0, x1, y0, y1, w),
    ensures
        ruled(
            cache,
            live,
            applied_range(cache, intact(live), x0, x1, y0, y1, h, w),
            x0,
            x1,
            y0,
            y1,
            h,
            w,
        ),
    decreases x1 - x0,
{
    if x0 < x1 {
        lemma_range_ruled(cache, live, x0, x1 - 1, y0, y1, h, w);
        let mid = applied_range(cache, intact(live), x0, x1 - 1, y0, y1, h, w);
        assert(mid == intact(mid.cells));
        assert forall|i: int|
            0 <= i < mid.cells.len() && in_rect(i, x1 - 1, x1, y0, y1, w) implies alive_of(
            #[trigger] mid.cells[i],
        ) == alive_of(cache[i]) by {
            assert(!in_rect(i, x0, x1 - 1, y0, y1, w));
            assert(in_rect(i, x0, x1, y0, y1, w));
            assert(alive_of(live[i]) == alive_of(cache[i]));
        }
        lemma_column_ruled(cache, mid.cells, x1 - 1, y0, y1, h, w);
        let after = applied_range(cache, intact(live), x0, x1, y0, y1, h, w);
        assert(after == applied_column(cache, mid, x1 - 1, y0, y1, h, w));
        assert forall|i: int| 0 <= i < live.len() implies alive_of(#[trigger] after.cells[i])
            == if in_rect(i, x0, x1, y0, y1, w) {
            next_alive(cache[i])
        } else {
            alive_of(live[i])
        } by {
            assert(in_rect(i, x0, x1, y0, y1, w) == (in_rect(i, x0, x1 - 1, y0, y1, w) || in_rect(
                i,
                x1 - 1,
                x1,
                y0,
                y1,
                w,
            )));
            assert(alive_of(mid.cells[i]) == if in_rect(i, x0, x1 - 1, y0, y1, w) {
                next_alive(cache[i])
            } else {
                alive_of(live[i])
            });
        }
    }
}

/// A generation of a consistent grid is never refused and is the step of
/// Conway's game: the new grid is consistent, and a cell is alive in it
/// exactly when it had 3 live neighbors, or was alive with 2.
pub proof fn lemma_generation_is_conway(s: Seq<u8>, h: int, w: int)
    requires
        0 < h,
        0 < w,
        consistent(s, h, w),
    ensures
        generation(s, h, w).error is None,
        consistent(generation(s, h, w).cells, h, w),
        forall|i: int|
            0 <= i < s.len() ==> alive_of(#[trigger] generation(s, h, w).cells[i]) == next_alive(
                s[i],
            ),
{
    lemma_range_ruled(s, s, 0, w, 0, h, h, w);
    let after = generation(s, h, w);
    assert forall|i: int| 0 <= i < s.len() implies alive_of(#[trigger] after.cells[i])
        == next_alive(s[i]) by {
        lemma_index_of_parts(i, h, w);
        assert(in_rect(i, 0, w, 0, h, w));
    }
}

/// In every consistent grid, and so after every generation of one, each cell
/// counts between 0 and 8 neighbors.
pub proof fn lemma_counts_stay_in_range(s: Seq<u8>, i: int, h: int, w: int)
    requires
        0 < h,
        0 < w,
        consistent(s, h, w),
        0 <= i < s.len(),
    ensures
        count_of(s[i]) <= 8,
        count_of(generation(s, h, w).cells[i]) <= 8,
{
    lemma_consistent_cell(s, i, h, w);
    lemma_generation_is_conway(s, h, w);
    lemma_consistent_cell(generation(s, h, w).cells, i, h, w);
}

/// A cell whose neighbors are all dead counts no live neighbor.
proof fn lemma_none_alive_around(s: Seq<u8>, i: int, k: int, h: int, w: int)
    requires
        0 <= k,
        forall|j: int| 0 <= j < k ==> !alive_of(s[#[trigger] neighbor_of(i, j, h, w)]),
    ensures
        live_around(s, i, k, h, w) == 0,
    decreases k,
{
    if k > 0 {
        lemma_none_alive_around(s, i, k - 1, h, w);
        assert(!alive_of(s[neighbor_of(i, k - 1, h, w)]));
    }
}

/// A dead cell without live neighbors stays a zero byte through a generation
/// unless the rule spawns one of its neighbors.
pub proof fn lemma_zero_byte_survives(s: Seq<u8>, i: int, h: int, w: int)
    requires
        0 < h,
        0 < w,
        consistent(s, h, w),
        0 <= i < s.len(),
        s[i] == 0,
        forall|k: int|
            0 <= k < 8 ==> verdict_of(s[#[trigger] neighbor_of(i, k, h, w)]) != Verdict::Spawn,
    ensures
        generation(s, h, w).cells[i] == 0,
{
    lemma_generation_is_conway(s, h, w);
    let t = generation(s, h, w).cells;
    lemma_decode(0);
    lemma_consistent_cell(s, i, h, w);
    assert forall|k: int| 0 <= k < 8 implies !alive_of(t[#[trigger] neighbor_of(i, k, h, w)]) by {
        let n = neighbor_of(i, k, h, w);
        crate::grid::torus::lemma_neighbor_in_grid(i, k, h, w);
        lemma_dead_around(s, i, k, 8, h, w);
        lemma_verdict_is_conway(s[n]);
        assert(alive_of(t[n]) == next_alive(s[n]));
    }
    lemma_none_alive_around(t, i, 8, h, w);
    assert(!alive_of(t[i]));
    assert(t[i] == encode(false, 0));
    lemma_encode(false, 0);
    lemma_decode(t[i]);
}

/// A cell that counts no live neighbor has only dead neighbors.
proof fn lemma_dead_around(s: Seq<u8>, i: int, k: int, m: int, h: int, w: int)
    requires
        0 <= k < m,
        live_around(s, i, m, h, w) == 0,
    ensures
        !alive_of(s[neighbor_of(i, k, h, w)]),
    decreases m,
{
    if k < m - 1 {
        lemma_dead_around(s, i, k, m - 1, h, w);
    }
}

/// Two rectangles of one grid that share no cell can be ruled in either
/// order: the grid that comes out is the same.
pub proof fn lemma_disjoint_ranges_commute(
    cache: Seq<u8>,
    live: Seq<u8>,
    a: (int, int, int, int),
    b: (int, int, int, int),
    h: int,
    w: int,
)
    requires
        0 < h,
        0 < w,
        consistent(live, h, w),
        cache.len() == h * w,
        0 <= a.0 <= a.1 <= w,
        0 <= a.2 <= a.3 <= h,
        0 <= b.0 <= b.1 <= w,
        0 <= b.2 <= b.3 <= h,
        untouched(cache, live, a.0, a.1, a.2, a.3, w),
        untouched(cache, live, b.0, b.1, b.2, b.3, w),
        forall|i: int|
            0 <= i < live.len() ==> !(in_rect(i, a.0, a.1, a.2, a.3, w) && in_rect(
                i,
                b.0,
                b.1,
                b.2,
                b.3,
                w,
            )),
    ensures
        applied_range(
            cache,
            applied_range(cache, intact(live), a.0, a.1, a.2, a.3, h, w),
            b.0,
            b.1,
            b.2,
            b.3,
            h,
            w,
        ) == applied_range(
            cache,
            applied_range(cache, intact(live), b.0, b.1, b.2, b.3, h, w),
            a.0,
            a.1,
            a.2,
            a.3,
            h,
            w,
        ),
{
    lemma_range_ruled(cache, live, a.0, a.1, a.2, a.3, h, w);
    lemma_range_ruled(cache, live, b.0, b.1, b.2, b.3, h, w);
    let first_a = applied_range(cache, intact(live), a.0, a.1, a.2, a.3, h, w);
    let first_b = applied_range(cache, intact(live), b.0, b.1, b.2, b.3, h, w);
    assert(first_a == intact(first_a.cells));
    assert(first_b == intact(first_b.cells));
    assert forall|i: int|
        0 <= i < live.len() && in_rect(i, b.0, b.1, b.2, b.3, w) implies alive_of(
        #[trigger] first_a.cells[i],
    ) == alive_of(cache[i]) by {
        assert(!in_rect(i, a.0, a.1, a.2, a.3, w));
        assert(alive_of(live[i]) == alive_of(cache[i]));
    }
    assert forall|i: int|
        0 <= i < live.len() && in_rect(i, a.0, a.1, a.2, a.3, w) implies alive_of(
        #[trigger] first_b.cells[i],
    ) == alive_of(cache[i]) by {
        assert(!in_rect(i, b.0, b.1, b.2, b.3, w));
        assert(alive_of(live[i]) == alive_of(cache[i]));
    }
    lemma_range_ruled(cache, first_a.cells, b.0, b.1, b.2, b.3, h, w);
    lemma_range_ruled(cache, first_b.cells, a.0, a.1, a.2, a.3, h, w);
    let ab = applied_range(cache, first_a, b.0, b.1, b.2, b.3, h, w);
    let ba = applied_range(cache, first_b, a.0, a.1, a.2, a.3, h, w);
    assert forall|i: int| 0 <= i < ab.cells.len() implies alive_of(#[trigger] ab.cells[i])
        == alive_of(ba.cells[i]) by {
        assert(alive_of(first_a.cells[i]) == if in_rect(i, a.0, a.1, a.2, a.3, w) {
            next_alive(cache[i])
        } else {
            alive_of(live[i])
        });
        assert(alive_of(first_b.cells[i]) == if in_rect(i, b.0, b.1, b.2, b.3, w) {
            next_alive(cache[i])
        } else {
            alive_of(live[i])
        });
    }
    lemma_consistent_by_flags(ab.cells, ba.cells, h, w);
}

} // verus!
