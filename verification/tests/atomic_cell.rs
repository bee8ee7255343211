use gol::cell::{AtomicCell, CellError, MemoryOrder, OrderError};

#[test]
fn test_spawn_kill() {
    let mut cell = AtomicCell::default();
    cell.spawn();
    assert_eq!(cell.fetch(), 1);
    assert!(cell.alive());
    cell.kill();
    assert_eq!(cell.fetch(), 0);
    assert!(!cell.alive());
    cell.spawn();
    assert_eq!(cell.fetch(), 1);
    assert!(cell.alive());
}

#[test]
fn atomic_cell_test_neighbors() {
    let mut cell = AtomicCell::default();
    assert_eq!(cell.neighbors(), 0);
    assert!(!cell.alive());
    assert!(cell.fetch() == 0b0000_0000);

    // Spawn the cell to test if incrementing affects the first bit
    cell.spawn();

    let expected_values: [u8; 8] = [
        0b000_0001_1, // Alive and 1 neighbor
        0b000_0010_1, // Alive and 2 neighbors
        0b000_0011_1, // Alive and 3 neighbors
        0b000_0100_1, // Alive and 4 neighbors
        0b000_0101_1, // Alive and 5 neighbors
        0b000_0110_1, // Alive and 6 neighbors
        0b000_0111_1, // Alive and 7 neighbors
        0b000_1000_1, // Alive and 8 neighbors
    ];

    // Initially there are no neighbors and the cell is alive
    assert_eq!(cell.fetch(), 0b0000_0001);
    assert!(cell.alive());
    assert!(cell.neighbors() == 0);

    // Add neighbors starting from none to 8 and check the expected values
    for idx in 0..8 {
        cell.add_neighbor().unwrap();
        let expected = expected_values[idx];
        assert_eq!(cell.fetch(), expected);
        assert_eq!(cell.neighbors(), (idx + 1) as u8);
        assert!(cell.alive());
    }

    // Kill the cell to test if decrementing affects the first bit
    cell.kill();

    let expected_values: [u8; 8] = [
        0b000_0111_0, // Dead and 7 neighbors
        0b000_0110_0, // Dead and 6 neighbors
        0b000_0101_0, // Dead and 5 neighbors
        0b000_0100_0, // Dead and 4 neighbors
        0b000_0011_0, // Dead and 3 neighbors
        0b000_0010_0, // Dead and 2 neighbors
        0b000_0001_0, // Dead and 1 neighbor
        0b000_0000_0, // Dead and 0 neighbors
    ];

    // Initially there are 8 neighbors and the cell is dead
    assert_eq!(cell.fetch(), 0b0001_0000);
    assert!(!cell.alive());
    assert!(cell.neighbors() == 8);

    // Remove neighbors starting from 8 to none
    for idx in 0..8 {
        cell.remove_neighbor().unwrap();
        let expected = expected_values[idx];
        assert_eq!(cell.fetch(), expected);
        assert_eq!(cell.neighbors(), (7 - idx) as u8);
        assert!(!cell.alive());
    }
}

#[test]
fn atomic_cell_refuses_ninth_neighbor() {
    let mut cell = AtomicCell::default();
    cell.spawn();
    for _ in 0..8 {
        assert_eq!(cell.add_neighbor(), Ok(()));
    }
    assert_eq!(cell.add_neighbor(), Err(CellError::NeighborCountOverflow));
    assert_eq!(cell.fetch(), 0b0001_0001);
    assert_eq!(cell.neighbors(), 8);
}

#[test]
fn atomic_cell_refuses_decrement_at_zero() {
    let mut cell = AtomicCell::default();
    assert_eq!(cell.remove_neighbor(), Err(CellError::NeighborCountUnderflow));
    assert_eq!(cell.fetch(), 0);
    cell.spawn();
    assert_eq!(cell.remove_neighbor(), Err(CellError::NeighborCountUnderflow));
    assert_eq!(cell.fetch(), 1);
}

#[test]
fn atomic_cell_count_stays_in_range() {
    let mut cell = AtomicCell::default();
    for step in 0..40u32 {
        let _ = if step % 3 == 2 { cell.remove_neighbor() } else { cell.add_neighbor() };
        if step % 5 == 0 {
            cell.spawn();
        }
        if step % 7 == 0 {
            cell.kill();
        }
        assert!(cell.neighbors() <= 8);
        assert!(cell.fetch() <= 0b0001_0001);
    }
}

#[test]
fn atomic_cell_store_and_fetch() {
    let mut cell = AtomicCell::default();
    cell.store(0b0000_0111);
    assert_eq!(cell.fetch(), 0b0000_0111);
    assert!(cell.alive());
    assert_eq!(cell.neighbors(), 3);
    assert!(cell == 0b0000_0111u8);
    assert_eq!(cell.to_string(), "00000111");
}

#[test]
fn atomic_cell_add_neighbor_clears_unused_bits() {
    let mut cell = AtomicCell::default();
    cell.store(0b1010_0101);
    assert_eq!(cell.neighbors(), 2);
    cell.add_neighbor().unwrap();
    assert_eq!(cell.fetch(), 0b0000_0111);
}

#[test]
fn atomic_cell_compare_and_exchange_takes_the_other_byte() {
    let mut cell = AtomicCell::default();
    let mut other = AtomicCell::default();
    other.store(0b0000_1011);
    cell.compare_and_exchange(&other);
    assert_eq!(cell.fetch(), 0b0000_1011);
    assert_eq!(other.fetch(), 0b0000_1011);
}

#[test]
fn atomic_cell_orderings_accepted() {
    for fetch in [MemoryOrder::Relaxed, MemoryOrder::Acquire, MemoryOrder::SeqCst] {
        for store in [MemoryOrder::Relaxed, MemoryOrder::Release, MemoryOrder::SeqCst] {
            let cell = AtomicCell::new(fetch, store).unwrap();
            assert_eq!(cell.fetch(), 0);
        }
    }
}

#[test]
fn atomic_cell_orderings_refused() {
    assert_eq!(
        AtomicCell::new(MemoryOrder::AcqRel, MemoryOrder::Release).err(),
        Some(OrderError::FetchAcqRel)
    );
    assert_eq!(
        AtomicCell::new(MemoryOrder::AcqRel, MemoryOrder::AcqRel).err(),
        Some(OrderError::FetchAcqRel)
    );
    assert_eq!(
        AtomicCell::new(MemoryOrder::Acquire, MemoryOrder::AcqRel).err(),
        Some(OrderError::StoreAcqRel)
    );
    assert_eq!(
        AtomicCell::new(MemoryOrder::Release, MemoryOrder::AcqRel).err(),
        Some(OrderError::StoreAcqRel)
    );
    assert_eq!(
        AtomicCell::new(MemoryOrder::Release, MemoryOrder::Release).err(),
        Some(OrderError::FetchRelease)
    );
    assert_eq!(
        AtomicCell::new(MemoryOrder::Release, MemoryOrder::Acquire).err(),
        Some(OrderError::FetchRelease)
    );
    assert_eq!(
        AtomicCell::new(MemoryOrder::Acquire, MemoryOrder::Acquire).err(),
        Some(OrderError::StoreAcquire)
    );
}
