//! What spawning or killing one cell does to the bytes of a grid.
//!
//! A move sets or clears the alive flag of its cell and then walks the
//! neighbor kernel, raising (spawn) or lowering (kill) the count of each
//! neighbor by one. The walk stops at the first neighbor that refuses.

use super::torus::{cell_index, hits, lemma_hits_at_most_once, lemma_neighbor_in_grid, neighbor_of};
use crate::cell::packed::{
    alive_of, count_of, killed, lemma_decode, lemma_flag_transitions, lemma_recounted, recounted,
    spawned, CellError,
};
use vstd::prelude::*;

verus! {

/// The bytes of a grid after a move, and the refusal that stopped it, if any.
pub struct Outcome {
    pub cells: Seq<u8>,
    pub error: Option<CellError>,
}

/// The result a function reports for an outcome.
pub open spec fn reported(o: Outcome) -> Result<(), CellError> {
    match o.error {
        None => Ok(()),
        Some(e) => Err(e),
    }
}

/// `b` with its flag set (`up`) or cleared.
pub open spec fn flagged(b: u8, up: bool) -> u8 {
    if up {
        spawned(b)
    } else {
        killed(b)
    }
}

/// `b` with its count raised (`up`) or lowered by one.
pub open spec fn stepped(b: u8, up: bool) -> u8 {
    if up {
        recounted(b, count_of(b) + 1)
    } else {
        recounted(b, (count_of(b) - 1) as nat)
    }
}

/// `b` with its count raised (`up`) or lowered by `n`; untouched when `n` is 0.
pub open spec fn shifted(b: u8, n: nat, up: bool) -> u8 {
    if n == 0 {
        b
    } else if up {
        recounted(b, count_of(b) + n)
    } else {
        recounted(b, (count_of(b) - n) as nat)
    }
}

/// Whether a cell with byte `b` refuses one more step.
pub open spec fn refuses(b: u8, up: bool) -> bool {
    if up {
        count_of(b) >= 8
    } else {
        count_of(b) == 0
    }
}

/// The refusal of a spawn is an overflow, that of a kill an underflow.
pub open spec fn fault(up: bool) -> CellError {
    if up {
        CellError::NeighborCountOverflow
    } else {
        CellError::NeighborCountUnderflow
    }
}

/// The byte of cell `i` once the flag of `c` is set or cleared.
pub open spec fn base(s: Seq<u8>, c: int, i: int, up: bool) -> u8 {
    if i == c {
        flagged(s[i], up)
    } else {
        s[i]
    }
}

/// The grid once the flag of `c` is changed and the first `k` neighbors have stepped.
pub open spec fn progress(s: Seq<u8>, c: int, k: int, up: bool, h: int, w: int) -> Seq<u8> {
    Seq::new(s.len(), |i: int| shifted(base(s, c, i, up), hits(c, i, k, h, w), up))
}

/// Whether the `k`-th neighbor refuses its step, the earlier ones having stepped.
pub open spec fn blocked(s: Seq<u8>, c: int, k: int, up: bool, h: int, w: int) -> bool {
    refuses(progress(s, c, k, up, h, w)[neighbor_of(c, k, h, w)], up)
}

/// The first neighbor from `k` on that refuses, or 8 when none does.
pub open spec fn halt(s: Seq<u8>, c: int, k: int, up: bool, h: int, w: int) -> int
    decreases 8 - k,
{
    if k >= 8 {
        8
    } else if blocked(s, c, k, up, h, w) {
        k
    } else {
        halt(s, c, k + 1, up, h, w)
    }
}

/// The outcome of spawning (`up`) or killing the cell `c` of the grid `s`.
pub open spec fn moved(s: Seq<u8>, c: int, up: bool, h: int, w: int) -> Outcome {
    let n = halt(s, c, 0, up, h, w);
    Outcome {
        cells: progress(s, c, n, up, h, w),
        error: if n >= 8 {
            None
        } else {
            Some(fault(up))
        },
    }
}

/// The outcome of spawning the cell `c`.
pub open spec fn spawn_outcome(s: Seq<u8>, c: int, h: int, w: int) -> Outcome {
    moved(s, c, true, h, w)
}

/// The outcome of killing the cell `c`.
pub open spec fn kill_outcome(s: Seq<u8>, c: int, h: int, w: int) -> Outcome {
    moved(s, c, false, h, w)
}

/// No neighbor hit so far has left the range of counts.
pub open spec fn in_range(s: Seq<u8>, c: int, k: int, up: bool, h: int, w: int) -> bool {
    forall|i: int|
        0 <= i < s.len() && #[trigger] hits(c, i, k, h, w) > 0 ==> if up {
            count_of(base(s, c, i, up)) + hits(c, i, k, h, w) <= 8
        } else {
            hits(c, i, k, h, w) <= count_of(base(s, c, i, up))
        }
}

/// Before any neighbor has stepped, only the flag of `c` has changed.
pub proof fn lemma_move_start(s: Seq<u8>, c: int, up: bool, h: int, w: int)
    requires
        0 <= c < s.len(),
    ensures
        progress(s, c, 0, up, h, w) == s.update(c, flagged(s[c], up)),
        in_range(s, c, 0, up, h, w),
{
    assert(progress(s, c, 0, up, h, w) =~= s.update(c, flagged(s[c], up)));
}

/// A neighbor that does not refuse steps by one, and nothing else changes.
pub proof fn lemma_move_step(s: Seq<u8>, c: int, k: int, up: bool, h: int, w: int)
    requires
        0 < h,
        0 < w,
        s.len() == h * w,
        0 <= c < s.len(),
        0 <= k < 8,
        in_range(s, c, k, up, h, w),
        !blocked(s, c, k, up, h, w),
    ensures
        0 <= neighbor_of(c, k, h, w) < s.len(),
        progress(s, c, k + 1, up, h, w) == progress(s, c, k, up, h, w).update(
            neighbor_of(c, k, h, w),
            stepped(progress(s, c, k, up, h, w)[neighbor_of(c, k, h, w)], up),
        ),
        in_range(s, c, k + 1, up, h, w),
{
    let n = neighbor_of(c, k, h, w);
    lemma_neighbor_in_grid(c, k, h, w);
    let before = progress(s, c, k, up, h, w);
    let after = progress(s, c, k + 1, up, h, w);
    let b = base(s, c, n, up);
    let m = hits(c, n, k, h, w);
    assert(hits(c, n, k + 1, h, w) == m + 1);
    lemma_decode(b);
    if m > 0 {
        if up {
            lemma_recounted(b, count_of(b) + m);
        } else {
            lemma_recounted(b, (count_of(b) - m) as nat);
        }
    }
    assert(up ==> count_of(before[n]) == count_of(b) + m);
    assert(!up ==> count_of(before[n]) == count_of(b) - m);
    assert(alive_of(before[n]) == alive_of(b));
    assert(after[n] == stepped(before[n], up));
    assert forall|i: int| 0 <= i < s.len() && i != n implies after[i] == before[i] by {
        assert(hits(c, i, k + 1, h, w) == hits(c, i, k, h, w));
    }
    assert(after =~= before.update(n, stepped(before[n], up)));
    assert forall|i: int| 0 <= i < s.len() && #[trigger] hits(c, i, k + 1, h, w) > 0 implies if up {
        count_of(base(s, c, i, up)) + hits(c, i, k + 1, h, w) <= 8
    } else {
        hits(c, i, k + 1, h, w) <= count_of(base(s, c, i, up))
    } by {
        if i != n {
            assert(hits(c, i, k + 1, h, w) == hits(c, i, k, h, w));
        }
    }
}

/// The walk halts at the first neighbor that refuses.
pub proof fn lemma_move_halt(s: Seq<u8>, c: int, k: int, m: int, up: bool, h: int, w: int)
    requires
        0 <= k <= m <= 8,
        forall|j: int| k <= j < m ==> !blocked(s, c, j, up, h, w),
        m < 8 ==> blocked(s, c, m, up, h, w),
    ensures
        halt(s, c, k, up, h, w) == m,
    decreases m - k,
{
    if k < m {
        lemma_move_halt(s, c, k + 1, m, up, h, w);
    }
}

/// A move changes no flag but that of its own cell, which ends up set or cleared.
pub proof fn lemma_move_flags(s: Seq<u8>, c: int, k: int, up: bool, h: int, w: int)
    requires
        0 <= c < s.len(),
        0 <= k <= 8,
        in_range(s, c, k, up, h, w),
    ensures
        progress(s, c, k, up, h, w).len() == s.len(),
        forall|i: int|
            0 <= i < s.len() ==> alive_of(#[trigger] progress(s, c, k, up, h, w)[i]) == if i == c {
                up
            } else {
                alive_of(s[i])
            },
{
    assert forall|i: int| 0 <= i < s.len() implies alive_of(
        #[trigger] progress(s, c, k, up, h, w)[i],
    ) == if i == c {
        up
    } else {
        alive_of(s[i])
    } by {
        let b = base(s, c, i, up);
        let m = hits(c, i, k, h, w);
        lemma_flag_transitions(s[i]);
        lemma_decode(b);
        if m > 0 {
            if up {
                lemma_recounted(b, count_of(b) + m);
            } else {
                lemma_recounted(b, (count_of(b) - m) as nat);
            }
        }
    }
}

/// The count `n` moved by `by`: up for a spawn, down for a kill.
pub open spec fn drift(n: nat, by: nat, up: bool) -> int {
    if up {
        (n + by) as int
    } else {
        n - by
    }
}

/// As long as no neighbor has refused, no count has left its range.
pub proof fn lemma_unblocked_in_range(s: Seq<u8>, c: int, k: int, up: bool, h: int, w: int)
    requires
        0 < h,
        0 < w,
        s.len() == h * w,
        0 <= c < s.len(),
        0 <= k <= 8,
        forall|j: int| 0 <= j < k ==> !blocked(s, c, j, up, h, w),
    ensures
        in_range(s, c, k, up, h, w),
    decreases k,
{
    if k == 0 {
        lemma_move_start(s, c, up, h, w);
    } else {
        lemma_unblocked_in_range(s, c, k - 1, up, h, w);
        lemma_move_step(s, c, k - 1, up, h, w);
    }
}

/// A walk that halts at 8 met no refusal.
pub proof fn lemma_halt_at_end(s: Seq<u8>, c: int, k: int, up: bool, h: int, w: int)
    requires
        0 <= k <= 8,
        halt(s, c, k, up, h, w) >= 8,
    ensures
        halt(s, c, k, up, h, w) == 8,
        forall|j: int| k <= j < 8 ==> !blocked(s, c, j, up, h, w),
    decreases 8 - k,
{
    if k < 8 {
        lemma_halt_at_end(s, c, k + 1, up, h, w);
    }
}

/// A move that is not refused changes the flag of its cell and no other
/// flag, and shifts the count of every cell by the number of times that cell
/// is a neighbor of the moved one: up for a spawn, down for a kill.
pub proof fn lemma_move_counts(s: Seq<u8>, c: int, up: bool, h: int, w: int)
    requires
        0 < h,
        0 < w,
        s.len() == h * w,
        0 <= c < s.len(),
        moved(s, c, up, h, w).error is None,
    ensures
        moved(s, c, up, h, w).cells.len() == s.len(),
        forall|i: int|
            0 <= i < s.len() ==> alive_of(#[trigger] moved(s, c, up, h, w).cells[i]) == if i == c {
                up
            } else {
                alive_of(s[i])
            },
        forall|i: int|
            0 <= i < s.len() && (up || hits(c, i, 8, h, w) > 0) ==> count_of(
                #[trigger] moved(s, c, up, h, w).cells[i],
            ) == drift(count_of(s[i]), hits(c, i, 8, h, w), up),
        forall|i: int|
            0 <= i < s.len() && i != c && hits(c, i, 8, h, w) == 0 ==> #[trigger] moved(
                s,
                c,
                up,
                h,
                w,
            ).cells[i] == s[i],
{
    lemma_halt_at_end(s, c, 0, up, h, w);
    lemma_unblocked_in_range(s, c, 8, up, h, w);
    lemma_move_flags(s, c, 8, up, h, w);
    let t = moved(s, c, up, h, w).cells;
    assert(t == progress(s, c, 8, up, h, w));
    assert forall|i: int| 0 <= i < s.len() && (up || hits(c, i, 8, h, w) > 0) implies count_of(
        #[trigger] t[i],
    ) == drift(count_of(s[i]), hits(c, i, 8, h, w), up) by {
        let b = base(s, c, i, up);
        let m = hits(c, i, 8, h, w);
        lemma_flag_transitions(s[i]);
        lemma_decode(b);
        if m > 0 {
            if up {
                lemma_recounted(b, count_of(b) + m);
            } else {
                lemma_recounted(b, (count_of(b) - m) as nat);
            }
        }
    }
}

/// On a torus with at least three rows and three columns, a spawn that is not
/// refused raises the count of each of the eight neighbors by exactly 1 and
/// leaves every other cell but the spawned one as it was; a kill that is not
/// refused lowers the same eight counts by exactly 1.
pub proof fn lemma_move_touches_eight(s: Seq<u8>, c: int, up: bool, h: int, w: int)
    requires
        3 <= h,
        3 <= w,
        s.len() == h * w,
        0 <= c < s.len(),
        moved(s, c, up, h, w).error is None,
    ensures
        forall|k: int|
            0 <= k < 8 ==> count_of(
                moved(s, c, up, h, w).cells[#[trigger] neighbor_of(c, k, h, w)],
            ) == drift(count_of(s[neighbor_of(c, k, h, w)]), 1, up),
        count_of(moved(s, c, up, h, w).cells[c]) == count_of(s[c]),
        forall|i: int|
            0 <= i < s.len() && i != c && (forall|k: int|
                0 <= k < 8 ==> #[trigger] neighbor_of(c, k, h, w) != i) ==> #[trigger] moved(
                s,
                c,
                up,
                h,
                w,
            ).cells[i] == s[i],
{
    lemma_move_counts(s, c, up, h, w);
    let t = moved(s, c, up, h, w).cells;
    assert forall|k: int| 0 <= k < 8 implies count_of(t[#[trigger] neighbor_of(c, k, h, w)])
        == drift(count_of(s[neighbor_of(c, k, h, w)]), 1, up) by {
        let n = neighbor_of(c, k, h, w);
        lemma_neighbor_in_grid(c, k, h, w);
        lemma_hits_at_most_once(c, n, 8, h, w);
        assert(hits(c, n, 8, h, w) == 1);
        assert(count_of(t[n]) == drift(count_of(s[n]), hits(c, n, 8, h, w), up));
    }
    lemma_hits_at_most_once(c, c, 8, h, w);
    lemma_halt_at_end(s, c, 0, up, h, w);
    lemma_unblocked_in_range(s, c, 8, up, h, w);
    lemma_flag_transitions(s[c]);
    assert(t[c] == base(s, c, c, up));
    assert forall|i: int|
        0 <= i < s.len() && i != c && (forall|k: int|
            0 <= k < 8 ==> #[trigger] neighbor_of(c, k, h, w) != i) implies #[trigger] t[i]
        == s[i] by {
        lemma_hits_at_most_once(c, i, 8, h, w);
    }
}

/// The cell that the `n`-th offset of a shape lands on.
pub open spec fn shape_cell(
    start: (isize, isize),
    offsets: Seq<(isize, isize)>,
    n: int,
    h: int,
    w: int,
) -> int {
    cell_index(start.0 + offsets[n].0, start.1 + offsets[n].1, h, w)
}

/// The outcome of spawning the first `n` cells of a shape, one after the other,
/// up to the first refusal.
pub open spec fn shape_outcome(
    s: Seq<u8>,
    start: (isize, isize),
    offsets: Seq<(isize, isize)>,
    n: int,
    h: int,
    w: int,
) -> Outcome
    decreases n,
{
    if n <= 0 {
        Outcome { cells: s, error: None }
    } else {
        let before = shape_outcome(s, start, offsets, n - 1, h, w);
        if before.error is Some {
            before
        } else {
            spawn_outcome(before.cells, shape_cell(start, offsets, n - 1, h, w), h, w)
        }
    }
}

/// Once a shape has been refused, the cells that follow in it are not spawned.
pub proof fn lemma_shape_stays_stopped(
    s: Seq<u8>,
    start: (isize, isize),
    offsets: Seq<(isize, isize)>,
    n: int,
    m: int,
    h: int,
    w: int,
)
    requires
        0 <= n <= m,
        shape_outcome(s, start, offsets, n, h, w).error is Some,
    ensures
        shape_outcome(s, start, offsets, m, h, w) == shape_outcome(s, start, offsets, n, h, w),
    decreases m - n,
{
    if n < m {
        lemma_shape_stays_stopped(s, start, offsets, n, m - 1, h, w);
    }
}

} // verus!
