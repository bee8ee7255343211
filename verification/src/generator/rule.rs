//! The rule of the game, and what applying it to a range of cells does to a grid.
//!
//! A generation reads a frozen copy of the grid (the cache) and writes to the
//! grid itself: the verdict on a cell depends on the cache alone, whatever
//! has been written to the grid meanwhile.

use crate::cell::packed::{alive_of, byte_alive, byte_neighbors, count_of, lemma_decode};
use crate::grid::moves::{kill_outcome, spawn_outcome, Outcome};
use crate::grid::torus::cell_index;
use vstd::prelude::*;

verus! {

/// What the rule decides for one cell.
#[derive(Clone, Copy, Debug, PartialEq, Eq, Structural)]
pub enum Verdict {
    /// The cell stays as it is.
    Keep,
    /// A live cell with fewer than 2 or more than 3 live neighbors dies.
    Kill,
    /// A dead cell with exactly 3 live neighbors comes alive.
    Spawn,
}

/// The verdict of the rule on a cell whose cached byte is `b`.
pub open spec fn verdict_of(b: u8) -> Verdict {
    if alive_of(b) {
        if count_of(b) < 2 || count_of(b) > 3 {
            Verdict::Kill
        } else {
            Verdict::Keep
        }
    } else if count_of(b) == 3 {
        Verdict::Spawn
    } else {
        Verdict::Keep
    }
}

/// Whether a cell whose cached byte is `b` is alive in the next generation.
pub open spec fn next_alive(b: u8) -> bool {
    count_of(b) == 3 || (alive_of(b) && count_of(b) == 2)
}

/// The grid, on its way through a generation, after the rule has been applied to cell `c`.
/// Nothing more happens once a move has been refused.
pub open spec fn applied_cell(cache: Seq<u8>, live: Outcome, c: int, h: int, w: int) -> Outcome {
    if live.error is Some {
        live
    } else {
        match verdict_of(cache[c]) {
            Verdict::Keep => live,
            Verdict::Kill => kill_outcome(live.cells, c, h, w),
            Verdict::Spawn => spawn_outcome(live.cells, c, h, w),
        }
    }
}

/// The grid after the rule has been applied down column `x`, from row `y0` up to row `y1`.
pub open spec fn applied_column(
    cache: Seq<u8>,
    live: Outcome,
    x: int,
    y0: int,
    y1: int,
    h: int,
    w: int,
) -> Outcome
    decreases y1 - y0,
{
    if y1 <= y0 {
        live
    } else {
        applied_cell(
            cache,
            applied_column(cache, live, x, y0, y1 - 1, h, w),
            cell_index(x, y1 - 1, h, w),
            h,
            w,
        )
    }
}

/// The grid after the rule has been applied to the columns from `x0` up to
/// `x1`, one after the other, each from row `y0` up to row `y1`.
pub open spec fn applied_range(
    cache: Seq<u8>,
    live: Outcome,
    x0: int,
    x1: int,
    y0: int,
    y1: int,
    h: int,
    w: int,
) -> Outcome
    decreases x1 - x0,
{
    if x1 <= x0 {
        live
    } else {
        applied_column(
            cache,
            applied_range(cache, live, x0, x1 - 1, y0, y1, h, w),
            x1 - 1,
            y0,
            y1,
            h,
            w,
        )
    }
}

/// A grid in which nothing has been refused.
pub open spec fn intact(s: Seq<u8>) -> Outcome {
    Outcome { cells: s, error: None }
}

/// One generation: the rule applied to every cell of the grid `s`, read from a copy of `s`.
pub open spec fn generation(s: Seq<u8>, h: int, w: int) -> Outcome {
    applied_range(s, intact(s), 0, w, 0, h, h, w)
}

/// The verdict on a cached byte. A zero byte, a dead cell without live
/// neighbors, is kept without a look at its parts.
pub fn judge(b: u8) -> (v: Verdict)
    ensures
        v == verdict_of(b),
        b == 0 ==> v == Verdict::Keep,
{
    proof {
        lemma_decode(b);
    }
    if b == 0b0000_0000 {
        return Verdict::Keep;
    }
    let neighbor_count = byte_neighbors(b);
    if byte_alive(b) {
        if neighbor_count < 2 || neighbor_count > 3 {
            Verdict::Kill
        } else {
            Verdict::Keep
        }
    } else {
        if neighbor_count == 3 {
            Verdict::Spawn
        } else {
            Verdict::Keep
        }
    }
}

/// The rule is the rule of Conway's game: a cell lives on with 2 or 3 live
/// neighbors, and comes alive with exactly 3.
pub proof fn lemma_verdict_is_conway(b: u8)
    ensures
        next_alive(b) == match verdict_of(b) {
            Verdict::Keep => alive_of(b),
            Verdict::Kill => false,
            Verdict::Spawn => true,
        },
        verdict_of(b) == Verdict::Kill ==> alive_of(b),
        verdict_of(b) == Verdict::Spawn ==> !alive_of(b),
{
}

/// A dead cell without live neighbors is kept: applying the rule to it changes nothing.
pub proof fn lemma_zero_byte_is_kept(cache: Seq<u8>, live: Outcome, c: int, h: int, w: int)
    requires
        cache[c] == 0,
    ensures
        verdict_of(cache[c]) == Verdict::Keep,
        applied_cell(cache, live, c, h, w) == live,
{
    lemma_decode(0);
}

/// Once a move has been refused, the rest of a column changes nothing.
pub proof fn lemma_column_stays_stopped(
    cache: Seq<u8>,
    live: Outcome,
    x: int,
    y0: int,
    y1: int,
    h: int,
    w: int,
)
    requires
        live.error is Some,
    ensures
        applied_column(cache, live, x, y0, y1, h, w) == live,
    decreases y1 - y0,
{
    if y0 < y1 {
        lemma_column_stays_stopped(cache, live, x, y0, y1 - 1, h, w);
    }
}

/// Once a move has been refused, the rest of a range changes nothing.
pub proof fn lemma_range_stays_stopped(
    cache: Seq<u8>,
    live: Outcome,
    x0: int,
    x1: int,
    y0: int,
    y1: int,
    h: int,
    w: int,
)
    requires
        live.error is Some,
    ensures
        applied_range(cache, live, x0, x1, y0, y1, h, w) == live,
    decreases x1 - x0,
{
    if x0 < x1 {
        lemma_range_stays_stopped(cache, live, x0, x1 - 1, y0, y1, h, w);
        lemma_column_stays_stopped(cache, live, x1 - 1, y0, y1, h, w);
    }
}

/// A column that was stopped part of the way stays as it was when it stopped.
pub proof fn lemma_column_stopped_early(
    cache: Seq<u8>,
    live: Outcome,
    x: int,
    y0: int,
    y: int,
    y1: int,
    h: int,
    w: int,
)
    requires
        y0 <= y <= y1,
        applied_column(cache, live, x, y0, y, h, w).error is Some,
    ensures
        applied_column(cache, live, x, y0, y1, h, w) == applied_column(cache, live, x, y0, y, h, w),
    decreases y1 - y,
{
    if y < y1 {
        lemma_column_stopped_early(cache, live, x, y0, y, y1 - 1, h, w);
    }
}

/// A range that was stopped part of the way stays as it was when it stopped.
pub proof fn lemma_range_stopped_early(
    cache: Seq<u8>,
    live: Outcome,
    x0: int,
    x: int,
    x1: int,
    y0: int,
    y1: int,
    h: int,
    w: int,
)
    requires
        x0 <= x <= x1,
        applied_range(cache, live, x0, x, y0, y1, h, w).error is Some,
    ensures
        applied_range(cache, live, x0, x1, y0, y1, h, w) == applied_range(
            cache,
            live,
            x0,
            x,
            y0,
            y1,
            h,
            w,
        ),
    decreases x1 - x,
{
    if x < x1 {
        lemma_range_stopped_early(cache, live, x0, x, x1 - 1, y0, y1, h, w);
        lemma_column_stays_stopped(
            cache,
            applied_range(cache, live, x0, x, y0, y1, h, w),
            x1 - 1,
            y0,
            y1,
            h,
            w,
        );
    }
}

} // verus!
