use gol::launcher::{partition_bounds, worker_step, Action, Driver, Event, Phase, WorkerStep};

#[test]
fn blocks_cover_every_row_once() {
    for rows in [0usize, 1, 7, 100, 101] {
        for workers in 1..=9usize {
            let mut next = 0;
            for worker in 0..workers {
                let (first, last) = partition_bounds(worker, workers, rows);
                assert_eq!(first, next);
                assert!(first <= last);
                next = last;
            }
            assert_eq!(next, rows);
        }
    }
}

#[test]
fn last_block_takes_the_remainder() {
    assert_eq!(partition_bounds(0, 4, 10), (0, 2));
    assert_eq!(partition_bounds(1, 4, 10), (2, 4));
    assert_eq!(partition_bounds(2, 4, 10), (4, 6));
    assert_eq!(partition_bounds(3, 4, 10), (6, 10));
    assert_eq!(partition_bounds(0, 1, 10), (0, 10));
    assert_eq!(partition_bounds(4, 5, 100), (80, 100));
    assert_eq!(partition_bounds(0, 5, 3), (0, 0));
    assert_eq!(partition_bounds(4, 5, 3), (0, 3));
}

#[test]
fn driver_waits_for_every_worker_before_the_next_snapshot() {
    let (mut driver, first) = Driver::new(3, 2);
    assert_eq!(first, Action::TakeSnapshot);
    assert_eq!(driver.phase(), Phase::Snapshot);
    assert_eq!(driver.generation(), 0);

    // A worker cannot report before the snapshot is taken.
    assert_eq!(driver.step(Event::WorkerDone), None);
    assert_eq!(driver.phase(), Phase::Snapshot);

    assert_eq!(driver.step(Event::SnapshotTaken), Some(Action::WakeWorkers));
    assert_eq!(driver.phase(), Phase::Apply);
    // A second snapshot while the workers are applying is not taken in.
    assert_eq!(driver.step(Event::SnapshotTaken), None);
    assert_eq!(driver.step(Event::WorkerDone), Some(Action::Wait));
    assert_eq!(driver.step(Event::WorkerDone), Some(Action::Wait));
    assert_eq!(driver.generation(), 0);
    assert_eq!(driver.step(Event::WorkerDone), Some(Action::TakeSnapshot));
    assert_eq!(driver.generation(), 1);
    assert_eq!(driver.phase(), Phase::Snapshot);

    assert_eq!(driver.step(Event::SnapshotTaken), Some(Action::WakeWorkers));
    assert_eq!(driver.step(Event::WorkerDone), Some(Action::Wait));
    assert_eq!(driver.step(Event::WorkerDone), Some(Action::Wait));
    assert_eq!(driver.step(Event::WorkerDone), Some(Action::StopWorkers));
    assert_eq!(driver.generation(), 2);
    assert_eq!(driver.phase(), Phase::Finished);

    assert_eq!(driver.step(Event::WorkerDone), None);
    assert_eq!(driver.step(Event::SnapshotTaken), None);
    assert_eq!(driver.phase(), Phase::Finished);
}

#[test]
fn driver_without_generations_stops_at_once() {
    let (driver, first) = Driver::new(4, 0);
    assert_eq!(first, Action::StopWorkers);
    assert_eq!(driver.phase(), Phase::Finished);
}

#[test]
fn driver_with_one_worker() {
    let (mut driver, _) = Driver::new(1, 1);
    assert_eq!(driver.step(Event::SnapshotTaken), Some(Action::WakeWorkers));
    assert_eq!(driver.step(Event::WorkerDone), Some(Action::StopWorkers));
}

#[test]
fn worker_looks_at_the_stop_flag_after_waking() {
    assert_eq!(worker_step(false, false), WorkerStep::Sleep);
    assert_eq!(worker_step(false, true), WorkerStep::Sleep);
    assert_eq!(worker_step(true, true), WorkerStep::Exit);
    assert_eq!(worker_step(true, false), WorkerStep::Apply);
}
