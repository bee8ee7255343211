use gol::cell::CellError;
use gol::grid::AtomicGrid;

const BLOCK_SHAPE_OFFSETS: [(isize, isize); 4] = [(0, 0), (1, 0), (0, 1), (1, 1)];

// Set the cell at the given index to dead and 0 neighbors
fn set_0b0000_0000<const H: usize, const W: usize>(grid: &mut AtomicGrid<H, W>, idx: usize) {
    let cell = grid.get_mut((idx % W) as isize, (idx / W) as isize);

    while cell.neighbors() > 0 {
        cell.remove_neighbor().unwrap();
    }

    cell.kill();
}

// Set the cell at the given index to alive and 8 neighbors
fn set_0b0001_0001<const H: usize, const W: usize>(grid: &mut AtomicGrid<H, W>, idx: usize) {
    let cell = grid.get_mut((idx % W) as isize, (idx / W) as isize);

    while cell.neighbors() < 8 {
        cell.add_neighbor().unwrap();
    }

    cell.spawn();
}

// Check if the 2d index leads to the right 1d index
fn check_2d_index<const H: usize, const W: usize>(idx: usize, x: isize, y: isize) {
    let mut grid = AtomicGrid::<H, W>::new();
    set_0b0001_0001(&mut grid, idx);

    let actual = grid.get(x, y);
    assert!(actual.alive());
    assert!(actual.neighbors() == 8);

    let expected = grid.iter().nth(idx).unwrap();
    assert_eq!(actual.fetch(), expected.fetch());
}

#[test]
fn test_create_grid() {
    const H: usize = 1000;
    const W: usize = 1000;
    let grid = AtomicGrid::<H, W>::new();
    assert_eq!(grid.size(), H * W);
}

#[test]
fn test_state_manipulation() {
    let mut grid = AtomicGrid::<3, 3>::new();

    // Initial state of all cells: Dead and 0 neighbors (0b0000_0000)
    for cell in grid.iter() {
        assert!(!cell.alive());
        assert!(cell.neighbors() == 0);
        assert!(cell.fetch() == 0b0000_0000);
    }

    // Spawn everything. Each cell is alive and has 8 neighbors (0b0001_0001)
    for i in 0..grid.size() {
        set_0b0001_0001(&mut grid, i);
        let cell = grid.iter().nth(i).unwrap();
        assert!(cell.alive());
        assert!(cell.neighbors() == 8);
        assert!(cell.fetch() == 0b0001_0001);
    }

    // KIll everything. Each cell is dead and has 0 neighbors (0b0000_0000)
    for i in 0..grid.size() {
        set_0b0000_0000(&mut grid, i);
        let cell = grid.iter().nth(i).unwrap();
        assert!(!cell.alive());
        assert!(cell.neighbors() == 0);
        assert!(cell.fetch() == 0b0000_0000);
    }
}

#[test]
fn test_get_cell() {
    let mut grid = AtomicGrid::<1, 1>::new();

    // Change the cell at index 0 to alive and 8 neighbors
    // to differentiate it from the other cells
    set_0b0001_0001(&mut grid, 0);

    // Simple case: Get the cell at (0, 0)
    let cell = grid.get(0, 0);
    let expected = grid.iter().nth(0).unwrap();

    assert!(cell.alive());
    assert!(cell.neighbors() == 8);
    assert_eq!(cell.fetch(), expected.fetch());
    assert_eq!(cell.fetch(), 0b0001_0001);
}

#[test]
fn test_get_cell_w_wrapping() {
    const H: usize = 4;
    const W: usize = 4;

    /* Wrapping on the top left corner
        3  1
        2 [0][0][0][2]
          [0][0][0][0]
          [0][0][0][0]
          [1][0][0][3]
    */

    check_2d_index::<H, W>(12, 0, -1); /* 1 */
    check_2d_index::<H, W>(3, -1, 0); /* 2 */
    check_2d_index::<H, W>(15, -1, -1); /* 3 */

    /* Wrapping on the top right corner
                    1  3
          [2][0][0][0] 2
          [0][0][0][0]
          [0][0][0][0]
          [3][0][0][1]
    */

    check_2d_index::<H, W>(15, 3, -1); /* 1 */
    check_2d_index::<H, W>(0, 4, 0); /* 2 */
    check_2d_index::<H, W>(12, 4, -1); /* 3 */

    /* Wrapping on the bottom left corner
          [1][0][0][3]
          [0][0][0][0]
          [0][0][0][0]
        2 [0][0][0][2]
        3  1
    */

    check_2d_index::<H, W>(0, 0, 4); /* 1 */
    check_2d_index::<H, W>(15, -1, 3); /* 2 */
    check_2d_index::<H, W>(3, -1, 4); /* 3 */

    /* Wrapping on the bottom right corner
          [1][0][0][3]
          [0][0][0][0]
          [0][0][0][0]
          [2][0][0][0] 2
                    3  1
    */

    check_2d_index::<H, W>(0, 4, 4); /* 1 */
    check_2d_index::<H, W>(12, 4, 3); /* 2 */
    check_2d_index::<H, W>(3, 3, 4); /* 3 */

    // Wrapping in the middle of the grid is implicitly tested
    // by the other tests
}

#[test]
fn test_spawn_block_shape() {
    let mut grid = AtomicGrid::<4, 4>::new();

    /* Spawn a block shape at the top left corner
       [1][1][0][0]
       [1][1][0][0]
       [0][0][0][0]
       [0][0][0][0]
    */
    grid.spawn_shape((0, 0), &BLOCK_SHAPE_OFFSETS).unwrap();

    for coordinate in &BLOCK_SHAPE_OFFSETS {
        let cell = grid.get(coordinate.0, coordinate.1);
        assert!(cell.alive());
        assert!(cell.neighbors() == 3);
    }

    /* Spawn a block shape at the top right corner
       [1][1][1][1]
       [1][1][1][1]
       [0][0][0][0]
       [0][0][0][0]
    */
    grid.spawn_shape((2, 0), &BLOCK_SHAPE_OFFSETS).unwrap();

    for coordinate in &BLOCK_SHAPE_OFFSETS {
        let cell = grid.get(coordinate.0 + 2, coordinate.1);
        assert!(cell.alive());
        assert_eq!(cell.neighbors(), 5);
    }

    /* Spawn a block shape at the bottom right corner
       [1][1][1][1]
       [1][1][1][1]
       [1][1][0][0]
       [1][1][0][0]
    */
    grid.spawn_shape((2, 2), &BLOCK_SHAPE_OFFSETS).unwrap();

    for coordinate in &BLOCK_SHAPE_OFFSETS {
        let cell = grid.get(coordinate.0 + 2, coordinate.1 + 2);
        assert!(cell.alive());
    }

    /* Spawn a block shape at the bottom left corner
       [1][1][1][1]
       [1][1][1][1]
       [1][1][1][1]
       [1][1][1][1]
    */
    grid.spawn_shape((0, 2), &BLOCK_SHAPE_OFFSETS).unwrap();

    for coordinate in &BLOCK_SHAPE_OFFSETS {
        let cell = grid.get(coordinate.0, coordinate.1 + 2);
        assert!(cell.alive());
    }

    for cell in grid.iter() {
        assert!(cell.alive());
        assert!(cell.neighbors() == 8);
    }
}

#[test]
fn test_copy_from() {
    let mut grid = AtomicGrid::<4, 4>::new();
    let mut other = AtomicGrid::<4, 4>::new();

    // Set the state of the other grid to alive and 8 neighbors
    for i in 0..other.size() {
        set_0b0001_0001(&mut other, i);
    }

    let start = std::time::Instant::now();
    // Copy the state of the other grid to the grid
    grid.copy_from(&other);
    let end = std::time::Instant::now();
    println!(
        "Safe: Time taken to copy the state of the other grid to the grid: {:?}",
        end - start
    );

    // Check if the state of the grid is the same as the other grid
    for cell in grid.iter() {
        assert!(cell.alive());
        assert_eq!(cell.neighbors(), 8);
        assert_eq!(cell.fetch(), 0b0001_0001);
    }

    // Check if the state of the other grid is the same as the grid
    for cell in other.iter() {
        assert!(cell.alive());
        assert_eq!(cell.neighbors(), 8);
        assert_eq!(cell.fetch(), 0b0001_0001);
    }
}

#[test]
fn test_raw_unsafe_copy() {
    let mut grid = AtomicGrid::<4, 4>::new();
    let mut other = AtomicGrid::<4, 4>::new();

    for i in 0..other.size() {
        other.get_mut((i % 4) as isize, (i / 4) as isize).store(0b0001_0001);
    }

    let start = std::time::Instant::now();
    assert_eq!(grid.size(), other.size(), "Vectors must have the same length");
    grid.unsafe_copy_from(&other);
    let end = std::time::Instant::now();
    println!(
        "Unsafe: Time taken to copy the state of the other grid to the grid: {:?}",
        end - start
    );

    assert_eq!(grid.clone(), vec![0b0001_0001u8; 16]);
}

#[test]
fn test_unsafe_copy() {
    let mut grid = AtomicGrid::<4, 4>::new();
    let mut other = AtomicGrid::<4, 4>::new();

    // Set the state of the other grid to alive and 8 neighbors
    for i in 0..other.size() {
        set_0b0001_0001(&mut other, i);
    }

    let start = std::time::Instant::now();
    // Copy the state of the other grid to the grid
    grid.unsafe_copy_from(&other);
    let end = std::time::Instant::now();
    println!(
        "Unsafe: Time taken to copy the state of the other grid to the grid: {:?}",
        end - start
    );

    // Check if the state of the grid is the same as the other grid
    for cell in grid.iter() {
        assert!(cell.alive());
        assert_eq!(cell.neighbors(), 8);
        assert_eq!(cell.fetch(), 0b0001_0001);
    }
}

#[test]
fn test_memswap_vectors() {
    const SIZE: usize = 1000;
    let mut cells: Vec<u8> = vec![1; SIZE];
    let mut cache: Vec<u8> = vec![0; SIZE];

    std::mem::swap(&mut cells, &mut cache);
    assert!(cells.iter().all(|&x| x == 0));
}

#[test]
fn copy_makes_every_byte_equal() {
    let mut source = AtomicGrid::<3, 5>::new();
    source.spawn_shape((1, 1), &[(0, 0), (1, 0), (2, 0), (4, 1)]).unwrap();
    let mut safe = AtomicGrid::<3, 5>::new();
    safe.spawn(2, 2).unwrap();
    let mut swept = AtomicGrid::<3, 5>::new();
    safe.copy_from(&source);
    swept.unsafe_copy_from(&source);
    for i in 0..source.size() {
        let expected = source.iter().nth(i).unwrap().fetch();
        assert_eq!(safe.iter().nth(i).unwrap().fetch(), expected);
        assert_eq!(swept.iter().nth(i).unwrap().fetch(), expected);
    }
    assert_eq!(safe.clone(), source.clone());
}

#[test]
fn wraparound_reaches_the_same_cell() {
    const H: usize = 5;
    const W: usize = 7;
    let mut grid = AtomicGrid::<H, W>::new();
    grid.spawn(3, -2).unwrap();
    for k in -3isize..4 {
        let cell = grid.get(3 + k * W as isize, -2 + k * H as isize);
        assert!(cell.alive());
        assert_eq!(cell.fetch(), 0b0000_0001);
    }
    assert_eq!(grid.iter().nth(3 * W + 3).unwrap().fetch(), 0b0000_0001);
    assert_eq!(grid.clone().iter().filter(|&&b| b & 1 == 1).count(), 1);
}

#[test]
fn spawn_counts_in_at_exactly_eight_neighbors() {
    const H: usize = 5;
    const W: usize = 6;
    let mut grid = AtomicGrid::<H, W>::new();
    grid.spawn(0, 0).unwrap();
    let neighbors: [usize; 8] = [29, 24, 25, 5, 1, 11, 6, 7];
    let bytes = grid.clone();
    for i in 0..H * W {
        let expected = if i == 0 {
            0b0000_0001
        } else if neighbors.contains(&i) {
            0b0000_0010
        } else {
            0
        };
        assert_eq!(bytes[i], expected, "cell {}", i);
    }
    grid.kill(0, 0).unwrap();
    assert_eq!(grid.clone(), vec![0u8; H * W]);
}

#[test]
fn neighbor_coordinates_follow_the_kernel() {
    let grid = AtomicGrid::<3, 3>::new();
    assert_eq!(
        grid.neighbor_coordinates(0, 0),
        [(-1, -1), (0, -1), (1, -1), (-1, 0), (1, 0), (-1, 1), (0, 1), (1, 1)]
    );
    assert_eq!(grid.neighbor_coordinates(isize::MAX, isize::MIN)[2], (isize::MIN, isize::MAX));
}

#[test]
fn spawn_on_a_one_cell_torus_counts_the_cell_eight_times() {
    let mut grid = AtomicGrid::<1, 1>::new();
    assert_eq!(grid.spawn(0, 0), Ok(()));
    assert_eq!(grid.get(0, 0).fetch(), 0b0001_0001);
    assert_eq!(grid.spawn(0, 0), Err(CellError::NeighborCountOverflow));
    assert_eq!(grid.get(0, 0).fetch(), 0b0001_0001);
    assert_eq!(grid.kill(0, 0), Ok(()));
    assert_eq!(grid.get(0, 0).fetch(), 0);
    assert_eq!(grid.kill(0, 0), Err(CellError::NeighborCountUnderflow));
}

#[test]
fn refused_spawn_keeps_what_was_done_before() {
    let mut grid = AtomicGrid::<3, 3>::new();
    // The neighbor to the east of the centre (kernel entry 4) is full.
    grid.get_mut(2, 1).store(0b0001_0000);
    assert_eq!(grid.spawn(1, 1), Err(CellError::NeighborCountOverflow));
    let bytes = grid.clone();
    // NW, N, NE and W have been counted up, the centre is alive, the rest is untouched.
    assert_eq!(bytes, vec![2, 2, 2, 2, 1, 0b0001_0000, 0, 0, 0]);
}

#[test]
fn refused_kill_reports_underflow() {
    let mut grid = AtomicGrid::<3, 3>::new();
    grid.get_mut(1, 1).store(1);
    assert_eq!(grid.kill(1, 1), Err(CellError::NeighborCountUnderflow));
    assert_eq!(grid.clone(), vec![0u8; 9]);
}

#[test]
fn spawn_shape_wraps_negative_offsets() {
    let mut grid = AtomicGrid::<4, 4>::new();
    grid.spawn_shape((0, 0), &[(-1, -1), (isize::MIN, 0)]).unwrap();
    assert!(grid.get(3, 3).alive());
    // isize::MIN is a multiple of 4, so the second cell is the origin.
    assert!(grid.get(0, 0).alive());
    assert_eq!(grid.clone().iter().filter(|&&b| b & 1 == 1).count(), 2);
}
