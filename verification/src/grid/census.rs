//! Grids whose counts tell the truth: every cell counts exactly its live neighbors.

use super::moves::{base, blocked, lemma_move_halt, moved, progress, shape_cell, shape_outcome};
use super::torus::{
    hits, lemma_cell_index, lemma_hits_symmetric, lemma_neighbor_in_grid, neighbor_of,
};
use crate::cell::packed::{
    alive_of, count_of, encode, is_valid, lemma_decode, lemma_encode, lemma_flag_transitions,
    lemma_recounted,
};
use vstd::prelude::*;

verus! {

/// How many of the first `k` kernel neighbors of cell `i` are alive.
pub open spec fn live_around(s: Seq<u8>, i: int, k: int, h: int, w: int) -> nat
    decreases k,
{
    if k <= 0 {
        0
    } else {
        live_around(s, i, k - 1, h, w) + if alive_of(s[neighbor_of(i, k - 1, h, w)]) {
            1nat
        } else {
            0nat
        }
    }
}

/// A grid is consistent when every byte encodes its own flag and the number of
/// live cells among the eight neighbors of its cell.
pub open spec fn consistent(s: Seq<u8>, h: int, w: int) -> bool {
    &&& s.len() == h * w
    &&& forall|i: int|
        0 <= i < s.len() ==> #[trigger] s[i] == encode(alive_of(s[i]), live_around(s, i, 8, h, w))
}

/// Never more neighbors are alive than were looked at.
pub proof fn lemma_live_around_bound(s: Seq<u8>, i: int, k: int, h: int, w: int)
    requires
        0 <= k,
    ensures
        live_around(s, i, k, h, w) <= k,
    decreases k,
{
    if k > 0 {
        lemma_live_around_bound(s, i, k - 1, h, w);
    }
}

/// In a consistent grid every byte is valid and its count is the number of live neighbors.
pub proof fn lemma_consistent_cell(s: Seq<u8>, i: int, h: int, w: int)
    requires
        consistent(s, h, w),
        0 <= i < s.len(),
    ensures
        is_valid(s[i]),
        count_of(s[i]) == live_around(s, i, 8, h, w),
        count_of(s[i]) <= 8,
{
    lemma_live_around_bound(s, i, 8, h, w);
    lemma_encode(alive_of(s[i]), live_around(s, i, 8, h, w));
}

/// A grid of zero bytes is consistent.
pub proof fn lemma_empty_consistent(s: Seq<u8>, h: int, w: int)
    requires
        s.len() == h * w,
        forall|i: int| 0 <= i < s.len() ==> s[i] == 0,
        0 < h,
        0 < w,
    ensures
        consistent(s, h, w),
{
    assert forall|i: int| 0 <= i < s.len() implies #[trigger] s[i] == encode(
        alive_of(s[i]),
        live_around(s, i, 8, h, w),
    ) by {
        lemma_no_live_around(s, i, 8, h, w);
        lemma_decode(0);
    }
}

/// In a grid of zero bytes no cell has a live neighbor.
proof fn lemma_no_live_around(s: Seq<u8>, i: int, k: int, h: int, w: int)
    requires
        s.len() == h * w,
        forall|j: int| 0 <= j < s.len() ==> s[j] == 0,
        0 < h,
        0 < w,
        0 <= k,
    ensures
        live_around(s, i, k, h, w) == 0,
    decreases k,
{
    if k > 0 {
        lemma_no_live_around(s, i, k - 1, h, w);
        lemma_neighbor_in_grid(i, k - 1, h, w);
        lemma_decode(0);
    }
}

/// Hits only grow along the kernel.
pub proof fn lemma_hits_monotone(c: int, i: int, k: int, m: int, h: int, w: int)
    requires
        0 <= k <= m,
    ensures
        hits(c, i, k, h, w) <= hits(c, i, m, h, w),
    decreases m - k,
{
    if k < m {
        lemma_hits_monotone(c, i, k, m - 1, h, w);
    }
}

/// Among the first `k` neighbors of `i`, the live ones and the hits on a dead
/// cell `c` do not overlap, and the hits on a live cell `c` are all live.
pub proof fn lemma_live_around_and_hits(s: Seq<u8>, i: int, c: int, k: int, h: int, w: int)
    requires
        0 <= k,
    ensures
        !alive_of(s[c]) ==> live_around(s, i, k, h, w) + hits(i, c, k, h, w) <= k,
        alive_of(s[c]) ==> hits(i, c, k, h, w) <= live_around(s, i, k, h, w),
    decreases k,
{
    if k > 0 {
        lemma_live_around_and_hits(s, i, c, k - 1, h, w);
    }
}

/// Flipping the flag of `c` changes the live neighbors of `i` by the number of
/// times `c` is a neighbor of `i`.
pub proof fn lemma_live_around_after_flip(
    s: Seq<u8>,
    t: Seq<u8>,
    i: int,
    c: int,
    k: int,
    up: bool,
    h: int,
    w: int,
)
    requires
        0 < h,
        0 < w,
        s.len() == h * w,
        t.len() == s.len(),
        0 <= c < s.len(),
        0 <= k,
        alive_of(s[c]) == !up,
        forall|j: int|
            0 <= j < s.len() ==> alive_of(#[trigger] t[j]) == if j == c {
                up
            } else {
                alive_of(s[j])
            },
    ensures
        up ==> live_around(t, i, k, h, w) == live_around(s, i, k, h, w) + hits(i, c, k, h, w),
        !up ==> live_around(t, i, k, h, w) == live_around(s, i, k, h, w) - hits(i, c, k, h, w),
    decreases k,
{
    if k > 0 {
        lemma_live_around_after_flip(s, t, i, c, k - 1, up, h, w);
        lemma_neighbor_in_grid(i, k - 1, h, w);
        let n = neighbor_of(i, k - 1, h, w);
        assert(alive_of(t[n]) == if n == c {
            up
        } else {
            alive_of(s[n])
        });
    }
}

/// Spawning a dead cell, or killing a live one, in a consistent grid is never
/// refused; the grid stays consistent, and no flag changes but that of the cell.
pub proof fn lemma_move_keeps_consistent(s: Seq<u8>, c: int, up: bool, h: int, w: int)
    requires
        0 < h,
        0 < w,
        consistent(s, h, w),
        0 <= c < s.len(),
        alive_of(s[c]) == !up,
    ensures
        moved(s, c, up, h, w).error is None,
        moved(s, c, up, h, w).cells == progress(s, c, 8, up, h, w),
        consistent(moved(s, c, up, h, w).cells, h, w),
        forall|i: int|
            0 <= i < s.len() ==> alive_of(#[trigger] moved(s, c, up, h, w).cells[i]) == if i == c {
                up
            } else {
                alive_of(s[i])
            },
{
    assert forall|k: int| 0 <= k < 8 implies !blocked(s, c, k, up, h, w) by {
        let n = neighbor_of(c, k, h, w);
        lemma_neighbor_in_grid(c, k, h, w);
        lemma_room_at(s, c, n, k, up, h, w);
        lemma_count_at(s, c, n, k, up, h, w);
        assert(hits(c, n, k + 1, h, w) == hits(c, n, k, h, w) + 1);
        lemma_hits_monotone(c, n, k + 1, 8, h, w);
    }
    lemma_move_halt(s, c, 0, 8, up, h, w);
    let t = progress(s, c, 8, up, h, w);
    assert forall|i: int| 0 <= i < s.len() implies alive_of(#[trigger] t[i]) == if i == c {
        up
    } else {
        alive_of(s[i])
    } by {
        lemma_room_at(s, c, i, 8, up, h, w);
        lemma_count_at(s, c, i, 8, up, h, w);
    }
    assert forall|i: int| 0 <= i < t.len() implies #[trigger] t[i] == encode(
        alive_of(t[i]),
        live_around(t, i, 8, h, w),
    ) by {
        lemma_room_at(s, c, i, 8, up, h, w);
        lemma_count_at(s, c, i, 8, up, h, w);
        lemma_live_around_after_flip(s, t, i, c, 8, up, h, w);
        lemma_hits_symmetric(c, i, h, w);
        lemma_consistent_cell(s, i, h, w);
        lemma_flag_transitions(s[i]);
        lemma_decode(t[i]);
        lemma_live_around_bound(t, i, 8, h, w);
        lemma_encode(alive_of(t[i]), live_around(t, i, 8, h, w));
        assert(count_of(t[i]) == live_around(t, i, 8, h, w));
        assert(is_valid(t[i]));
    }
}

/// In a consistent grid the count of `i` leaves room for all hits from a dead
/// `c` (spawn), and covers all hits from a live `c` (kill).
proof fn lemma_room_at(s: Seq<u8>, c: int, i: int, k: int, up: bool, h: int, w: int)
    requires
        0 < h,
        0 < w,
        consistent(s, h, w),
        0 <= c < s.len(),
        0 <= i < s.len(),
        0 <= k <= 8,
        alive_of(s[c]) == !up,
    ensures
        count_of(base(s, c, i, up)) == count_of(s[i]),
        alive_of(base(s, c, i, up)) == if i == c {
            up
        } else {
            alive_of(s[i])
        },
        is_valid(base(s, c, i, up)),
        up ==> count_of(s[i]) + hits(c, i, 8, h, w) <= 8,
        !up ==> hits(c, i, 8, h, w) <= count_of(s[i]),
        hits(c, i, k, h, w) <= hits(c, i, 8, h, w),
{
    lemma_consistent_cell(s, i, h, w);
    lemma_flag_transitions(s[i]);
    lemma_live_around_and_hits(s, i, c, 8, h, w);
    lemma_hits_symmetric(c, i, h, w);
    lemma_hits_monotone(c, i, k, 8, h, w);
}

/// The count and the flag of cell `i` after `k` steps of a move that had room.
proof fn lemma_count_at(s: Seq<u8>, c: int, i: int, k: int, up: bool, h: int, w: int)
    requires
        0 <= c < s.len(),
        0 <= i < s.len(),
        0 <= k <= 8,
        is_valid(base(s, c, i, up)),
        up ==> count_of(base(s, c, i, up)) + hits(c, i, k, h, w) <= 8,
        !up ==> hits(c, i, k, h, w) <= count_of(base(s, c, i, up)),
    ensures
        up ==> count_of(progress(s, c, k, up, h, w)[i]) == count_of(base(s, c, i, up)) + hits(
            c,
            i,
            k,
            h,
            w,
        ),
        !up ==> count_of(progress(s, c, k, up, h, w)[i]) == count_of(base(s, c, i, up)) - hits(
            c,
            i,
            k,
            h,
            w,
        ),
        alive_of(progress(s, c, k, up, h, w)[i]) == alive_of(base(s, c, i, up)),
        is_valid(progress(s, c, k, up, h, w)[i]),
{
    let b = base(s, c, i, up);
    let m = hits(c, i, k, h, w);
    lemma_decode(b);
    if m > 0 {
        if up {
            lemma_recounted(b, count_of(b) + m);
        } else {
            lemma_recounted(b, (count_of(b) - m) as nat);
        }
    }
}

/// Whether cell `i` is one of the first `n` cells of a shape.
pub open spec fn in_shape(
    i: int,
    start: (isize, isize),
    offsets: Seq<(isize, isize)>,
    n: int,
    h: int,
    w: int,
) -> bool {
    exists|j: int| 0 <= j < n && #[trigger] shape_cell(start, offsets, j, h, w) == i
}

/// Spawning a shape whose cells are dead and all different, in a consistent
/// grid, is never refused: the grid stays consistent, and exactly the cells
/// of the shape have come alive.
pub proof fn lemma_shape_keeps_consistent(
    s: Seq<u8>,
    start: (isize, isize),
    offsets: Seq<(isize, isize)>,
    n: int,
    h: int,
    w: int,
)
    requires
        0 < h,
        0 < w,
        consistent(s, h, w),
        0 <= n <= offsets.len(),
        forall|j: int| 0 <= j < n ==> !alive_of(s[#[trigger] shape_cell(start, offsets, j, h, w)]),
        forall|j: int, k: int|
            0 <= j < k < n ==> #[trigger] shape_cell(start, offsets, j, h, w) != #[trigger] shape_cell(
                start,
                offsets,
                k,
                h,
                w,
            ),
    ensures
        shape_outcome(s, start, offsets, n, h, w).error is None,
        consistent(shape_outcome(s, start, offsets, n, h, w).cells, h, w),
        forall|i: int|
            0 <= i < s.len() ==> alive_of(#[trigger] shape_outcome(s, start, offsets, n, h, w).cells[i])
                == (alive_of(s[i]) || in_shape(i, start, offsets, n, h, w)),
    decreases n,
{
    if n > 0 {
        lemma_shape_keeps_consistent(s, start, offsets, n - 1, h, w);
        let before = shape_outcome(s, start, offsets, n - 1, h, w);
        let c = shape_cell(start, offsets, n - 1, h, w);
        lemma_cell_index(
            start.0 + offsets[n - 1].0,
            start.1 + offsets[n - 1].1,
            h,
            w,
        );
        if in_shape(c, start, offsets, n - 1, h, w) {
            let j = choose|j: int| 0 <= j < n - 1 && #[trigger] shape_cell(start, offsets, j, h, w) == c;
            assert(shape_cell(start, offsets, j, h, w) != shape_cell(start, offsets, n - 1, h, w));
        }
        assert(!alive_of(before.cells[c]));
        lemma_move_keeps_consistent(before.cells, c, true, h, w);
        let after = shape_outcome(s, start, offsets, n, h, w);
        assert forall|i: int| 0 <= i < s.len() implies alive_of(#[trigger] after.cells[i]) == (
        alive_of(s[i]) || in_shape(i, start, offsets, n, h, w)) by {
            if i == c {
                assert(shape_cell(start, offsets, n - 1, h, w) == i);
            } else {
                if in_shape(i, start, offsets, n, h, w) {
                    let j = choose|j: int|
                        0 <= j < n && #[trigger] shape_cell(start, offsets, j, h, w) == i;
                    assert(0 <= j < n - 1 && shape_cell(start, offsets, j, h, w) == i);
                }
                if in_shape(i, start, offsets, n - 1, h, w) {
                    let j = choose|j: int|
                        0 <= j < n - 1 && #[trigger] shape_cell(start, offsets, j, h, w) == i;
                    assert(0 <= j < n && shape_cell(start, offsets, j, h, w) == i);
                }
            }
        }
    }
}

/// Two consistent grids with the same flags are the same grid.
pub proof fn lemma_consistent_by_flags(s: Seq<u8>, t: Seq<u8>, h: int, w: int)
    requires
        0 < h,
        0 < w,
        consistent(s, h, w),
        consistent(t, h, w),
        forall|i: int| 0 <= i < s.len() ==> alive_of(#[trigger] s[i]) == alive_of(t[i]),
    ensures
        s == t,
{
    assert forall|i: int| 0 <= i < s.len() implies s[i] == t[i] by {
        lemma_same_live_around(s, t, i, 8, h, w);
    }
    assert(s =~= t);
}

/// Grids with the same flags have the same live neighbors everywhere.
proof fn lemma_same_live_around(s: Seq<u8>, t: Seq<u8>, i: int, k: int, h: int, w: int)
    requires
        0 < h,
        0 < w,
        s.len() == h * w,
        t.len() == h * w,
        forall|j: int| 0 <= j < s.len() ==> alive_of(#[trigger] s[j]) == alive_of(t[j]),
        0 <= k,
    ensures
        live_around(s, i, k, h, w) == live_around(t, i, k, h, w),
    decreases k,
{
    if k > 0 {
        lemma_same_live_around(s, t, i, k - 1, h, w);
        lemma_neighbor_in_grid(i, k - 1, h, w);
    }
}

} // verus!
