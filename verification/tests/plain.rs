use gol::cell::MemoryOrder::{Acquire, Release};
use gol::cell::{CellError, MemoryOrder, OrderError};
use gol::plain::{Cell, Generator, Grid, IGenerator};

// Set the cell at the given index to alive and 8 neighbors
fn plain_set_0b0001_0001<const H: usize, const W: usize>(grid: &mut Grid<H, W>, idx: usize) {
    let cell = grid.get_mut((idx % W) as isize, (idx / W) as isize);

    while cell.neighbors() < 8 {
        cell.add_neighbor().unwrap();
    }

    cell.spawn();
}

// Check if the 2d index leads to the right 1d index
fn plain_check_2d_index<const H: usize, const W: usize>(idx: usize, x: isize, y: isize) {
    let mut grid = Grid::<H, W>::new();
    plain_set_0b0001_0001(&mut grid, idx);

    let actual = grid.get(x, y);
    assert!(actual.alive());
    assert!(actual.neighbors() == 8);

    let expected = grid.get((idx % W) as isize, (idx / W) as isize);
    assert_eq!(actual.load(), expected.load());
}

#[test]
fn cell_test_spawn() {
    let mut cell = Cell::new(Acquire, Release).unwrap();
    cell.spawn();
    assert_eq!(cell.load(), 1);
}

#[test]
fn cell_test_kill() {
    let mut cell = Cell::new(Acquire, Release).unwrap();
    cell.spawn();
    assert_eq!(cell.load(), 1);
    assert!(cell.alive());
    cell.kill();
    assert_eq!(cell.load(), 0);
    assert!(!cell.alive());
    cell.spawn();
    assert_eq!(cell.load(), 1);
    assert!(cell.alive());
}

#[test]
fn cell_test_neighbors() {
    let mut cell = Cell::new(Acquire, Release).unwrap();
    assert_eq!(cell.neighbors(), 0);
    assert!(!cell.alive());
    assert!(cell.load() == 0b0000_0000);

    // Spawn the cell to test if incrementing/decrementing affects
    // the first bit
    cell.spawn();

    let expected_values: [u8; 8] = [
        0b0000_0011, // 1 neighbor
        0b0000_0101, // 2 neighbors
        0b0000_0111, // 3 neighbors
        0b0000_1001, // 4 neighbors
        0b0000_1011, // 5 neighbors
        0b0000_1101, // 6 neighbors
        0b0000_1111, // 7 neighbors
        0b0001_0001, // 8 neighbors
    ];

    // Initially there are no neighbors
    // and the cell is alive
    assert_eq!(cell.load(), 0b0000_0001);
    assert!(cell.alive());
    assert!(cell.neighbors() == 0);

    // Add neighbors starting from none to 8
    for idx in 0..8 {
        cell.add_neighbor().unwrap();
        let expected = expected_values[idx];
        assert_eq!(cell.load(), expected);
        assert_eq!(cell.neighbors(), (idx + 1) as u8);
    }

    let expected_values: [u8; 8] = [
        0b0000_1111, // 7 neighbors
        0b0000_1101, // 6 neighbors
        0b0000_1011, // 5 neighbors
        0b0000_1001, // 4 neighbors
        0b0000_0111, // 3 neighbors
        0b0000_0101, // 2 neighbors
        0b0000_0011, // 1 neighbor
        0b0000_0001, // 0 neighbors
    ];

    // Initially there are 8 neighbors
    // and the cell is alive
    assert_eq!(cell.load(), 0b0001_0001);
    assert!(cell.alive());
    assert!(cell.neighbors() == 8);

    // Remove neighbors starting from 8 to none
    for idx in 0..8 {
        cell.remove_neighbor().unwrap();
        let expected = expected_values[idx];
        assert_eq!(cell.load(), expected);
        assert_eq!(cell.neighbors(), (7 - idx) as u8);
    }
}

#[test]
fn test_new() {
    let mut grid = Grid::<3, 3>::new();

    // For each cell: Spawn and set neighbors to 8
    for i in 0..9 {
        // Initial State: 0b0000_0000
        let cell = grid.get_mut((i % 3) as isize, (i / 3) as isize);
        assert!(!cell.alive());
        assert!(cell.neighbors() == 0);
        assert!(cell.load() == 0b0000_0000);

        cell.spawn();

        for _ in 0..8 {
            cell.add_neighbor().unwrap();
        }

        assert!(cell.alive());
        assert!(cell.neighbors() == 8);
        assert!(cell.load() == 0b0001_0001);
    }

    for i in 0..9 {
        let cell = grid.get_mut((i % 3) as isize, (i / 3) as isize);

        cell.kill();
        for _ in 0..8 {
            cell.remove_neighbor().unwrap();
        }

        assert!(!cell.alive());
        assert!(cell.neighbors() == 0);
        assert!(cell.load() == 0b0000_0000);
    }
}

#[test]
fn test_get() {
    let mut grid = Grid::<4, 4>::new();
    plain_set_0b0001_0001(&mut grid, 0);

    // Simple case: Get the cell at (0, 0)
    let cell = grid.get(0, 0);
    let expected = grid.get(0, 0);

    assert!(cell.alive());
    assert!(cell.neighbors() == 8);
    assert_eq!(cell.load(), expected.load());
    assert_eq!(cell.load(), 0b0001_0001);
}

#[test]
fn test_wrapping() {
    const H: usize = 4;
    const W: usize = 4;

    /* Wrapping on the top left corner
        3  1
        2 [0][0][0][2]
          [0][0][0][0]
          [0][0][0][0]
          [1][0][0][3]
    */

    plain_check_2d_index::<H, W>(12, 0, -1); /* 1 */
    plain_check_2d_index::<H, W>(3, -1, 0); /* 2 */
    plain_check_2d_index::<H, W>(15, -1, -1); /* 3 */

    /* Wrapping on the top right corner
                    1  3
          [2][0][0][0] 2
          [0][0][0][0]
          [0][0][0][0]
          [3][0][0][1]
    */

    plain_check_2d_index::<H, W>(15, 3, -1); /* 1 */
    plain_check_2d_index::<H, W>(0, 4, 0); /* 2 */
    plain_check_2d_index::<H, W>(12, 4, -1); /* 3 */

    /* Wrapping on the bottom left corner
          [1][0][0][3]
          [0][0][0][0]
          [0][0][0][0]
        2 [0][0][0][2]
        3  1
    */

    plain_check_2d_index::<H, W>(0, 0, 4); /* 1 */
    plain_check_2d_index::<H, W>(15, -1, 3); /* 2 */
    plain_check_2d_index::<H, W>(3, -1, 4); /* 3 */

    /* Wrapping on the bottom right corner
          [1][0][0][3]
          [0][0][0][0]
          [0][0][0][0]
          [2][0][0][0] 2
                    3  1
    */

    plain_check_2d_index::<H, W>(0, 4, 4); /* 1 */
    plain_check_2d_index::<H, W>(12, 4, 3); /* 2 */
    plain_check_2d_index::<H, W>(3, 3, 4); /* 3 */

    // Wrapping in the middle of the grid is implicitly tested
    // by the other tests
}

#[test]
fn plain_cell_refusals() {
    assert_eq!(
        Cell::new(MemoryOrder::SeqCst, MemoryOrder::Acquire).err(),
        Some(OrderError::StoreAcquire)
    );
    let mut cell = Cell::default();
    assert_eq!(cell.remove_neighbor(), Err(CellError::NeighborCountUnderflow));
    for _ in 0..8 {
        cell.add_neighbor().unwrap();
    }
    assert_eq!(cell.add_neighbor(), Err(CellError::NeighborCountOverflow));
    assert!(cell == 0b0001_0000u8);
    assert_eq!(cell.to_string(), "00010000");
}

#[test]
fn plain_grid_set_overwrites_one_cell() {
    let mut grid = Grid::<2, 3>::new();
    grid.set(-1, 3, 0b0000_0111);
    // Column -1 wraps to 2, row 3 wraps to 1.
    assert_eq!(grid.get(2, 1).load(), 0b0000_0111);
    let mut others = 0;
    for y in 0..2 {
        for x in 0..3 {
            if grid.get(x, y).load() == 0 {
                others += 1;
            }
        }
    }
    assert_eq!(others, 5);
}

#[test]
fn plain_generator_steps_a_blinker() {
    let mut grid = Grid::<5, 5>::new();
    for x in 1..4 {
        grid.spawn(x, 2).unwrap();
    }
    let mut generator = Generator::<5, 5>::new(grid);
    generator.generate().unwrap();
    for y in 1..4 {
        assert_eq!(generator.grid().get(2, y).load() & 1, 1);
    }
    assert!(!generator.grid().get(1, 2).alive());
    assert!(!generator.grid().get(3, 2).alive());
    IGenerator::generate(&mut generator).unwrap();
    for x in 1..4 {
        assert!(IGenerator::grid(&generator).get(x, 2).alive());
    }
    assert!(!generator.grid().get(2, 1).alive());
}

#[test]
fn plain_grid_copy_and_kill() {
    let mut grid = Grid::<3, 3>::new();
    grid.spawn(1, 1).unwrap();
    let mut copy = Grid::<3, 3>::new();
    copy.copy_from(&grid);
    grid.kill(1, 1).unwrap();
    assert!(copy.get(1, 1).alive());
    assert_eq!(copy.get(0, 0).neighbors(), 1);
    assert!(!grid.get(1, 1).alive());
    assert_eq!(grid.get(0, 0).load(), 0);
}
