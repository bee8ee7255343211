use gol::grid::AtomicGrid;
use gol::utils::{
    create_atomic_grid_from_file, grid_from_records, randomize_grid, seed_cells, SeedError,
};

const CORNER_BLOCK: &str = "\
1,1,0,0,0,0
1,1,0,0,0,0
0,0,0,0,0,0
0,0,0,0,0,0
0,0,0,0,0,0
0,0,0,0,0,0
";

#[test]
fn test_randomize_grid() {
    let mut grid = AtomicGrid::<10, 10>::new();
    let state = grid.clone();
    randomize_grid(&mut grid).unwrap();
    let randomized_grid = grid.clone();
    assert_ne!(randomized_grid, state);
}

#[test]
fn test_create_atomic_grid_from_file() {
    const H: usize = 6;
    const W: usize = 6;
    let test_grid = create_atomic_grid_from_file::<H, W>(CORNER_BLOCK.as_bytes()).unwrap();

    let c1 = test_grid.get(0, 0);
    let c2 = test_grid.get(0, 1);
    let c3 = test_grid.get(1, 0);
    let c4 = test_grid.get(1, 1);

    assert_eq!(c1.neighbors(), 3);
    assert_eq!(c2.neighbors(), 3);
    assert_eq!(c3.neighbors(), 3);
    assert_eq!(c4.neighbors(), 3);

    assert!(c1.alive());
    assert!(c2.alive());
    assert!(c3.alive());
    assert!(c4.alive());

    assert_eq!(c1.fetch(), 0b000_0011_1);
    assert_eq!(c2.fetch(), 0b000_0011_1);
    assert_eq!(c3.fetch(), 0b000_0011_1);
    assert_eq!(c4.fetch(), 0b000_0011_1);
}

#[test]
fn seed_file_rows_are_rows_and_fields_are_columns() {
    let grid = create_atomic_grid_from_file::<2, 3>(b"0,0,1\n0,x,11\n").unwrap();
    // Only the field `1` spawns: `x` and `11` leave the cell dead.
    assert_eq!(grid.clone(), vec![2, 2, 1, 4, 4, 4]);
    assert!(grid.get(2, 0).alive());
}

#[test]
fn seed_file_without_final_newline() {
    let grid = create_atomic_grid_from_file::<1, 2>(b"1,0").unwrap();
    assert!(grid.get(0, 0).alive());
    assert!(!grid.get(1, 0).alive());
}

#[test]
fn seed_file_of_the_wrong_size_is_refused() {
    assert_eq!(
        create_atomic_grid_from_file::<2, 2>(b"1,0\n").err(),
        Some(SeedError::DimensionMismatch)
    );
    assert_eq!(
        create_atomic_grid_from_file::<2, 2>(b"1,0,0\n0,0,0\n").err(),
        Some(SeedError::DimensionMismatch)
    );
    assert_eq!(
        create_atomic_grid_from_file::<2, 2>(b"1,0\n0,1\n1,1\n").err(),
        Some(SeedError::DimensionMismatch)
    );
}

#[test]
fn seed_file_with_ragged_rows_is_malformed() {
    assert_eq!(
        create_atomic_grid_from_file::<2, 2>(b"1,0\n0\n").err(),
        Some(SeedError::Malformed)
    );
}

#[test]
fn seed_file_that_is_not_text_is_malformed() {
    assert_eq!(
        create_atomic_grid_from_file::<1, 2>(&[0x31, 0x2c, 0xff, 0xfe, 0x0a]).err(),
        Some(SeedError::Malformed)
    );
}

#[test]
fn grid_from_records_draws_the_table() {
    let one = b"1".to_vec();
    let zero = b"0".to_vec();
    let rows = vec![
        vec![zero.clone(), one.clone(), zero.clone()],
        vec![zero.clone(), one.clone(), zero.clone()],
        vec![zero.clone(), one.clone(), Vec::new()],
    ];
    let grid = grid_from_records::<3, 3>(&rows).unwrap();
    // A column of three on a 3 x 3 torus: every cell has the whole column as neighbors.
    assert_eq!(grid.clone(), vec![6, 5, 6, 6, 5, 6, 6, 5, 6]);
    assert_eq!(grid_from_records::<3, 2>(&rows).err(), Some(SeedError::DimensionMismatch));
    assert_eq!(grid_from_records::<2, 3>(&rows).err(), Some(SeedError::DimensionMismatch));
}

#[test]
fn seed_cells_spawns_where_the_coin_says_so() {
    let mut grid = AtomicGrid::<2, 4>::new();
    let coins = [true, false, false, false, false, false, true, false];
    seed_cells(&mut grid, &coins).unwrap();
    let alive: Vec<bool> = grid.iter().map(|cell| cell.alive()).collect();
    assert_eq!(alive, coins.to_vec());
    // Cell 0 is at (0, 0), cell 6 at (2, 1); on two rows the row above is also the row below.
    assert_eq!(grid.clone(), vec![1, 6, 4, 6, 4, 6, 1, 6]);
}

#[test]
fn randomized_grid_is_consistent() {
    const H: usize = 7;
    const W: usize = 9;
    let mut grid = AtomicGrid::<H, W>::new();
    randomize_grid(&mut grid).unwrap();
    for y in 0..H as isize {
        for x in 0..W as isize {
            let mut count = 0;
            for (nx, ny) in grid.neighbor_coordinates(x, y) {
                if grid.get(nx, ny).alive() {
                    count += 1;
                }
            }
            assert_eq!(grid.get(x, y).neighbors(), count);
        }
    }
}
