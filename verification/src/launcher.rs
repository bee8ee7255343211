//! Running generations with several workers: which rows each worker owns,
//! and what the driver and the workers do in turn.
//!
//! The rows of the grid are cut into one block for each worker. In every
//! generation the driver takes the snapshot, wakes the workers, and waits
//! until each of them has applied the rule to its block; only then does it
//! take the next snapshot.

use crate::cell::packed::alive_of;
use crate::generator::laws::{in_rect, lemma_generation_is_conway, lemma_range_ruled};
use crate::generator::rule::{applied_range, generation, intact, next_alive};
use crate::grid::census::{consistent, lemma_consistent_by_flags};
use crate::grid::moves::Outcome;
use crate::grid::torus::lemma_index_of_parts;
use vstd::arithmetic::div_mod::{lemma_div_pos_is_pos, lemma_fundamental_div_mod};
use vstd::prelude::*;

verus! {

/// The first row of block `i` when `n` rows are cut into `t` blocks.
pub open spec fn block_start(i: int, t: int, n: int) -> int {
    i * (n / t)
}

/// The row after the last of block `i`. The last block takes the rows that the division leaves over.
pub open spec fn block_end(i: int, t: int, n: int) -> int {
    if i == t - 1 {
        n
    } else {
        (i + 1) * (n / t)
    }
}

/// The block that row `y` falls into.
pub open spec fn block_of(y: int, t: int, n: int) -> int {
    if n / t == 0 || y / (n / t) >= t - 1 {
        t - 1
    } else {
        y / (n / t)
    }
}

/// The blocks follow each other without gap or overlap, from row 0 to row `n`.
pub proof fn lemma_blocks_tile(i: int, t: int, n: int)
    requires
        0 < t,
        0 <= n,
        0 <= i < t,
    ensures
        0 <= block_start(i, t, n) <= block_end(i, t, n) <= n,
        block_start(0, t, n) == 0,
        block_end(t - 1, t, n) == n,
        i + 1 < t ==> block_end(i, t, n) == block_start(i + 1, t, n),
{
    let q = n / t;
    lemma_fundamental_div_mod(n, t);
    if n >= 0 {
        lemma_div_pos_is_pos(n, t);
    }
    assert(0 <= i * q <= (i + 1) * q) by (nonlinear_arith)
        requires
            0 <= i,
            0 <= q,
    ;
    assert((t - 1) * q <= n) by (nonlinear_arith)
        requires
            n == t * q + n % t,
            0 <= n % t,
            0 <= q,
    ;
    assert(i * q <= (t - 1) * q) by (nonlinear_arith)
        requires
            i <= t - 1,
            0 <= q,
    ;
    if i + 1 < t {
        assert((i + 1) * q <= (t - 1) * q) by (nonlinear_arith)
            requires
                i + 1 <= t - 1,
                0 <= q,
        ;
    }
}

/// Of two blocks the one with the lower number ends before the other starts.
pub proof fn lemma_blocks_apart(a: int, b: int, t: int, n: int)
    requires
        0 < t,
        0 <= n,
        0 <= a < b < t,
    ensures
        block_end(a, t, n) <= block_start(b, t, n),
{
    let q = n / t;
    lemma_div_pos_is_pos(n, t);
    assert((a + 1) * q <= b * q) by (nonlinear_arith)
        requires
            a + 1 <= b,
            0 <= q,
    ;
}

/// Every row lies in the block that `block_of` names for it.
pub proof fn lemma_block_of_row(y: int, t: int, n: int)
    requires
        0 < t,
        0 <= y < n,
    ensures
        0 <= block_of(y, t, n) < t,
        block_start(block_of(y, t, n), t, n) <= y < block_end(block_of(y, t, n), t, n),
{
    let q = n / t;
    let b = block_of(y, t, n);
    lemma_div_pos_is_pos(n, t);
    lemma_fundamental_div_mod(n, t);
    if q == 0 {
        assert((t - 1) * q == 0) by (nonlinear_arith)
            requires
                q == 0,
        ;
    } else {
        lemma_fundamental_div_mod(y, q);
        lemma_div_pos_is_pos(y, q);
        let p = y / q;
        if p >= t - 1 {
            assert((t - 1) * q <= y) by (nonlinear_arith)
                requires
                    y == q * p + y % q,
                    0 <= y % q,
                    p >= t - 1,
                    0 < q,
            ;
        } else {
            assert(p * q <= y < (p + 1) * q) by (nonlinear_arith)
                requires
                    y == q * p + y % q,
                    0 <= y % q < q,
            ;
        }
    }
}

/// The rows of block `i` when `n` rows are cut into `t` blocks: the first row, and the row after the last.
pub fn partition_bounds(i: usize, t: usize, n: usize) -> (r: (usize, usize))
    requires
        i < t,
    ensures
        r.0 == block_start(i as int, t as int, n as int),
        r.1 == block_end(i as int, t as int, n as int),
        r.0 <= r.1 <= n,
{
    proof {
        lemma_blocks_tile(i as int, t as int, n as int);
        if i + 1 < t {
            lemma_blocks_tile(i + 1, t as int, n as int);
        }
    }
    let rows_per_block: usize = n / t;
    let start: usize = i * rows_per_block;
    let end: usize = if i == t - 1 {
        n
    } else {
        (i + 1) * rows_per_block
    };
    (start, end)
}

/// The grid after the rule has been applied to the first `n` blocks of
/// `order`, one block after the other, each over all columns.
pub open spec fn blocks_applied(
    cache: Seq<u8>,
    live: Outcome,
    order: Seq<int>,
    n: int,
    t: int,
    h: int,
    w: int,
) -> Outcome
    decreases n,
{
    if n <= 0 {
        live
    } else {
        applied_range(
            cache,
            blocks_applied(cache, live, order, n - 1, t, h, w),
            0,
            w,
            block_start(order[n - 1], t, h),
            block_end(order[n - 1], t, h),
            h,
            w,
        )
    }
}

/// Whether row `y` lies in one of the first `n` blocks of `order`.
pub open spec fn covered(y: int, order: Seq<int>, n: int, t: int, h: int) -> bool {
    exists|j: int|
        0 <= j < n && block_start(#[trigger] order[j], t, h) <= y < block_end(order[j], t, h)
}

/// After any number of different blocks the grid is consistent, nothing was
/// refused, and exactly the rows of those blocks have been ruled.
proof fn lemma_blocks_ruled(s: Seq<u8>, order: Seq<int>, n: int, t: int, h: int, w: int)
    requires
        0 < h,
        0 < w,
        0 < t,
        consistent(s, h, w),
        0 <= n <= order.len(),
        order.no_duplicates(),
        forall|j: int| 0 <= j < order.len() ==> 0 <= #[trigger] order[j] < t,
    ensures
        blocks_applied(s, intact(s), order, n, t, h, w).error is None,
        consistent(blocks_applied(s, intact(s), order, n, t, h, w).cells, h, w),
        forall|i: int|
            0 <= i < s.len() ==> alive_of(
                #[trigger] blocks_applied(s, intact(s), order, n, t, h, w).cells[i],
            ) == if covered(i / w, order, n, t, h) {
                next_alive(s[i])
            } else {
                alive_of(s[i])
            },
    decreases n,
{
    if n > 0 {
        lemma_blocks_ruled(s, order, n - 1, t, h, w);
        let before = blocks_applied(s, intact(s), order, n - 1, t, h, w);
        let b = order[n - 1];
        let y0 = block_start(b, t, h);
        let y1 = block_end(b, t, h);
        lemma_blocks_tile(b, t, h);
        assert(before == intact(before.cells));
        assert forall|i: int|
            0 <= i < before.cells.len() && in_rect(i, 0, w, y0, y1, w) implies alive_of(
            #[trigger] before.cells[i],
        ) == alive_of(s[i]) by {
            if covered(i / w, order, n - 1, t, h) {
                let j = choose|j: int|
                    0 <= j < n - 1 && block_start(#[trigger] order[j], t, h) <= i / w < block_end(
                        order[j],
                        t,
                        h,
                    );
                let a = order[j];
                assert(a != b);
                if a < b {
                    lemma_blocks_apart(a, b, t, h);
                } else {
                    lemma_blocks_apart(b, a, t, h);
                }
            }
        }
        lemma_range_ruled(s, before.cells, 0, w, y0, y1, h, w);
        let after = blocks_applied(s, intact(s), order, n, t, h, w);
        assert forall|i: int| 0 <= i < s.len() implies alive_of(#[trigger] after.cells[i])
            == if covered(i / w, order, n, t, h) {
            next_alive(s[i])
        } else {
            alive_of(s[i])
        } by {
            lemma_index_of_parts(i, h, w);
            if in_rect(i, 0, w, y0, y1, w) {
                assert(block_start(order[n - 1], t, h) <= i / w < block_end(order[n - 1], t, h));
            } else {
                if covered(i / w, order, n, t, h) {
                    let j = choose|j: int|
                        0 <= j < n && block_start(#[trigger] order[j], t, h) <= i / w < block_end(
                            order[j],
                            t,
                            h,
                        );
                    assert(j != n - 1);
                    assert(0 <= j < n - 1 && block_start(order[j], t, h) <= i / w < block_end(
                        order[j],
                        t,
                        h,
                    ));
                }
                if covered(i / w, order, n - 1, t, h) {
                    let j = choose|j: int|
                        0 <= j < n - 1 && block_start(#[trigger] order[j], t, h) <= i / w
                            < block_end(order[j], t, h);
                    assert(0 <= j < n && block_start(order[j], t, h) <= i / w < block_end(
                        order[j],
                        t,
                        h,
                    ));
                }
            }
        }
    }
}

/// In whatever order the blocks of a consistent grid are worked on, each
/// block once and none left out, the grid that comes out is the one that a
/// single worker makes of the whole grid: the generation.
pub proof fn lemma_blocks_make_generation(s: Seq<u8>, order: Seq<int>, t: int, h: int, w: int)
    requires
        0 < h,
        0 < w,
        0 < t,
        consistent(s, h, w),
        order.no_duplicates(),
        forall|j: int| 0 <= j < order.len() ==> 0 <= #[trigger] order[j] < t,
        forall|b: int| 0 <= b < t ==> order.contains(b),
    ensures
        blocks_applied(s, intact(s), order, order.len() as int, t, h, w) == generation(s, h, w),
{
    let n = order.len() as int;
    lemma_blocks_ruled(s, order, n, t, h, w);
    lemma_generation_is_conway(s, h, w);
    let parted = blocks_applied(s, intact(s), order, n, t, h, w);
    let whole = generation(s, h, w);
    assert forall|i: int| 0 <= i < parted.cells.len() implies alive_of(#[trigger] parted.cells[i])
        == alive_of(whole.cells[i]) by {
        lemma_index_of_parts(i, h, w);
        let y = i / w;
        lemma_block_of_row(y, t, h);
        let b = block_of(y, t, h);
        assert(order.contains(b));
        let j = choose|j: int| 0 <= j < order.len() && order[j] == b;
        assert(block_start(order[j], t, h) <= y < block_end(order[j], t, h));
        assert(covered(y, order, n, t, h));
    }
    lemma_consistent_by_flags(parted.cells, whole.cells, h, w);
}

/// What the driver is doing.
#[derive(Clone, Copy, Debug, PartialEq, Eq, Structural)]
pub enum Phase {
    /// The driver is copying the grid into the cache; no worker is at work.
    Snapshot,
    /// The cache is ready and the workers are applying the rule to their blocks.
    Apply,
    /// All generations are done and the workers have been told to stop.
    Finished,
}

/// What the driver is told.
#[derive(Clone, Copy, Debug, PartialEq, Eq, Structural)]
pub enum Event {
    /// The snapshot has been taken.
    SnapshotTaken,
    /// One worker has applied the rule to its block.
    WorkerDone,
}

/// What the driver is to do next.
#[derive(Clone, Copy, Debug, PartialEq, Eq, Structural)]
pub enum Action {
    /// Clear the ready flag and copy the grid into the cache.
    TakeSnapshot,
    /// Set the ready flag and wake all workers.
    WakeWorkers,
    /// Go on waiting for the workers that have not reported yet.
    Wait,
    /// Set the stop flag, wake all workers a last time, and join them.
    StopWorkers,
}

/// What a worker that has been woken is to do.
#[derive(Clone, Copy, Debug, PartialEq, Eq, Structural)]
pub enum WorkerStep {
    /// The cache is not ready: go back to sleep.
    Sleep,
    /// The run is over: leave.
    Exit,
    /// Apply the rule to the block, then report.
    Apply,
}

/// The driver of a run of `generations` generations with `workers` workers.
#[derive(Clone, Copy, Debug)]
pub struct Driver {
    workers: usize,
    generations: usize,
    generation: usize,
    done: usize,
    phase: Phase,
}

/// The state of a driver, as contracts speak of it.
pub struct DriverState {
    pub workers: nat,
    pub generations: nat,
    pub generation: nat,
    pub done: nat,
    pub phase: Phase,
}

/// The states that a run can be in: no generation is begun beyond the last,
/// no more workers have reported than there are, and while the rule is
/// being applied at least one worker has not reported yet.
pub open spec fn state_ok(s: DriverState) -> bool {
    &&& 0 < s.workers
    &&& s.generation <= s.generations
    &&& s.done <= s.workers
    &&& match s.phase {
        Phase::Snapshot => s.generation < s.generations && s.done == 0,
        Phase::Apply => s.generation < s.generations && s.done < s.workers,
        Phase::Finished => s.generation == s.generations,
    }
}

/// The state after an event, and the action that it calls for. An event that
/// the phase does not expect changes nothing and calls for no action.
pub open spec fn after(s: DriverState, event: Event) -> (DriverState, Option<Action>) {
    match (s.phase, event) {
        (Phase::Snapshot, Event::SnapshotTaken) => (
            DriverState { phase: Phase::Apply, done: 0, ..s },
            Some(Action::WakeWorkers),
        ),
        (Phase::Apply, Event::WorkerDone) => if s.done + 1 < s.workers {
            (DriverState { done: s.done + 1, ..s }, Some(Action::Wait))
        } else if s.generation + 1 < s.generations {
            (
                DriverState {
                    phase: Phase::Snapshot,
                    done: 0,
                    generation: s.generation + 1,
                    ..s
                },
                Some(Action::TakeSnapshot),
            )
        } else {
            (
                DriverState {
                    phase: Phase::Finished,
                    done: 0,
                    generation: s.generation + 1,
                    ..s
                },
                Some(Action::StopWorkers),
            )
        },
        _ => (s, None),
    }
}

/// The state of a run at its start, and the first action.
pub open spec fn at_start(workers: nat, generations: nat) -> (DriverState, Action) {
    if generations == 0 {
        (
            DriverState { workers, generations, generation: 0, done: 0, phase: Phase::Finished },
            Action::StopWorkers,
        )
    } else {
        (
            DriverState { workers, generations, generation: 0, done: 0, phase: Phase::Snapshot },
            Action::TakeSnapshot,
        )
    }
}

/// Every event leads from a state of a run to a state of a run, and a
/// snapshot is called for only when the last worker has reported.
pub proof fn lemma_protocol_is_safe(s: DriverState, event: Event)
    requires
        state_ok(s),
    ensures
        state_ok(after(s, event).0),
        after(s, event).1 == Some(Action::TakeSnapshot) || after(s, event).1 == Some(
            Action::StopWorkers,
        ) ==> s.phase == Phase::Apply && event == Event::WorkerDone && s.done + 1 == s.workers,
        after(s, event).1 == Some(Action::WakeWorkers) ==> s.phase == Phase::Snapshot && after(
            s,
            event,
        ).0.done == 0,
{
}

impl View for Driver {
    type V = DriverState;

    /// The state of the driver.
    closed spec fn view(&self) -> DriverState {
        DriverState {
            workers: self.workers as nat,
            generations: self.generations as nat,
            generation: self.generation as nat,
            done: self.done as nat,
            phase: self.phase,
        }
    }
}

impl Driver {
    /// The driver of a new run, and its first action.
    pub fn new(workers: usize, generations: usize) -> (r: (Driver, Action))
        requires
            0 < workers,
        ensures
            (r.0@, r.1) == at_start(workers as nat, generations as nat),
            state_ok(r.0@),
    {
        if generations == 0 {
            (
                Driver { workers, generations, generation: 0, done: 0, phase: Phase::Finished },
                Action::StopWorkers,
            )
        } else {
            (
                Driver { workers, generations, generation: 0, done: 0, phase: Phase::Snapshot },
                Action::TakeSnapshot,
            )
        }
    }

    /// Takes an event in, and says what to do next.
    pub fn step(&mut self, event: Event) -> (r: Option<Action>)
        requires
            state_ok(old(self)@),
        ensures
            (final(self)@, r) == after(old(self)@, event),
            state_ok(final(self)@),
    {
        match (self.phase, event) {
            (Phase::Snapshot, Event::SnapshotTaken) => {
                self.phase = Phase::Apply;
                self.done = 0;
                Some(Action::WakeWorkers)
            },
            (Phase::Apply, Event::WorkerDone) => {
                if self.done + 1 < self.workers {
                    self.done = self.done + 1;
                    Some(Action::Wait)
                } else if self.generation + 1 < self.generations {
                    self.phase = Phase::Snapshot;
                    self.done = 0;
                    self.generation = self.generation + 1;
                    Some(Action::TakeSnapshot)
                } else {
                    self.phase = Phase::Finished;
                    self.done = 0;
                    self.generation = self.generation + 1;
                    Some(Action::StopWorkers)
                }
            },
            _ => None,
        }
    }

    /// The phase of the run.
    pub fn phase(&self) -> (r: Phase)
        ensures
            r == self@.phase,
    {
        self.phase
    }

    /// The number of generations that are done.
    pub fn generation(&self) -> (r: usize)
        ensures
            r == self@.generation,
    {
        self.generation
    }
}

/// What a woken worker is to do: nothing while the cache is not ready, leave
/// when the run has been stopped, and apply the rule otherwise. The stop flag
/// is looked at right after waking, before any work.
pub fn worker_step(cache_ready: bool, stop: bool) -> (r: WorkerStep)
    ensures
        r == if !cache_ready {
            WorkerStep::Sleep
        } else if stop {
            WorkerStep::Exit
        } else {
            WorkerStep::Apply
        },
{
    if !cache_ready {
        WorkerStep::Sleep
    } else if stop {
        WorkerStep::Exit
    } else {
        WorkerStep::Apply
    }
}

} // verus!
