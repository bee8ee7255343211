use gol::cell::CellError;
use gol::common::Generator;
use gol::generator::rule::{judge, Verdict};
use gol::generator::{AtomicGenerator, SingleThreadedGenerator};
use gol::grid::AtomicGrid;
use gol::launcher::partition_bounds;
use gol::utils::seed_cells;
use std::ops::ControlFlow;

const GLIDER_OFFSETS: [(isize, isize); 5] = [(2, 0), (2, 1), (2, 2), (1, 2), (0, 1)];

fn alive_cells<const H: usize, const W: usize>(grid: &AtomicGrid<H, W>) -> Vec<(usize, usize)> {
    let mut alive = Vec::new();
    for (i, cell) in grid.iter().enumerate() {
        if cell.alive() {
            alive.push((i % W, i / W));
        }
    }
    alive
}

fn counts_are_true<const H: usize, const W: usize>(grid: &AtomicGrid<H, W>) -> bool {
    for y in 0..H as isize {
        for x in 0..W as isize {
            let mut count = 0;
            for (nx, ny) in grid.neighbor_coordinates(x, y) {
                if grid.get(nx, ny).alive() {
                    count += 1;
                }
            }
            let cell = grid.get(x, y);
            if cell.neighbors() != count || cell.fetch() > 0b0001_0001 {
                return false;
            }
        }
    }
    true
}

// A fixed sequence of coins: a linear congruential generator.
fn fixed_coins(n: usize, seed: u64) -> Vec<bool> {
    let mut state = seed;
    let mut coins = Vec::with_capacity(n);
    for _ in 0..n {
        state = state.wrapping_mul(6364136223846793005).wrapping_add(1442695040888963407);
        coins.push((state >> 33) & 1 == 1);
    }
    coins
}

#[test]
fn verdicts_follow_the_rule() {
    for count in 0..=8u8 {
        let dead = count << 1;
        let alive = dead | 1;
        assert_eq!(judge(dead), if count == 3 { Verdict::Spawn } else { Verdict::Keep });
        assert_eq!(
            judge(alive),
            if count == 2 || count == 3 { Verdict::Keep } else { Verdict::Kill }
        );
    }
    assert_eq!(judge(0), Verdict::Keep);
}

#[test]
fn block_is_a_still_life() {
    let mut grid = AtomicGrid::<4, 4>::new();
    grid.spawn_shape((0, 0), &[(0, 0), (1, 0), (0, 1), (1, 1)]).unwrap();
    let before = grid.clone();
    assert_eq!(before, vec![7, 7, 4, 4, 7, 7, 4, 4, 4, 4, 2, 2, 4, 4, 2, 2]);
    let mut generator = AtomicGenerator::<4, 4>::new(grid);
    generator.generate().unwrap();
    assert_eq!(generator.grid().clone(), before);
    for (x, y) in [(0, 0), (1, 0), (0, 1), (1, 1)] {
        let cell = generator.grid().get(x, y);
        assert!(cell.alive());
        assert_eq!(cell.neighbors(), 3);
    }
    assert!(counts_are_true(generator.grid()));
    generator.u_generate().unwrap();
    assert_eq!(generator.grid().clone(), before);
}

#[test]
fn glider_moves_by_one_cell_in_four_generations() {
    let mut grid = AtomicGrid::<100, 100>::new();
    grid.spawn_shape((0, 0), &GLIDER_OFFSETS).unwrap();
    let mut generator = AtomicGenerator::<100, 100>::new(grid);
    for _ in 0..4 {
        generator.generate().unwrap();
    }
    let mut expected: Vec<(usize, usize)> =
        GLIDER_OFFSETS.iter().map(|&(x, y)| (x as usize + 1, y as usize + 1)).collect();
    expected.sort_by_key(|&(x, y)| (y, x));
    assert_eq!(alive_cells(generator.grid()), expected);
    assert!(counts_are_true(generator.grid()));

    let mut moved = AtomicGrid::<100, 100>::new();
    moved.spawn_shape((1, 1), &GLIDER_OFFSETS).unwrap();
    assert_eq!(generator.grid().clone(), moved.clone());
}

#[test]
fn glider_crosses_the_edge_of_the_torus() {
    let mut grid = AtomicGrid::<6, 6>::new();
    grid.spawn_shape((0, 0), &GLIDER_OFFSETS).unwrap();
    let mut generator = SingleThreadedGenerator::<6, 6>::new(grid);
    for _ in 0..24 {
        generator.generate().unwrap();
    }
    let mut back = AtomicGrid::<6, 6>::new();
    back.spawn_shape((0, 0), &GLIDER_OFFSETS).unwrap();
    assert_eq!(generator.grid().clone(), back.clone());
}

#[test]
fn partitions_give_the_same_grid_as_one_worker() {
    const H: usize = 23;
    const W: usize = 17;
    const GENERATIONS: usize = 12;
    let coins = fixed_coins(H * W, 42);

    let mut grid = AtomicGrid::<H, W>::new();
    seed_cells(&mut grid, &coins).unwrap();
    let mut whole = AtomicGenerator::<H, W>::new(grid);
    for _ in 0..GENERATIONS {
        whole.generate().unwrap();
    }
    let expected = whole.grid().clone();
    assert!(expected.iter().any(|&b| b & 1 == 1));

    for workers in [1usize, 2, 4, 5] {
        let mut grid = AtomicGrid::<H, W>::new();
        seed_cells(&mut grid, &coins).unwrap();
        let mut parted = AtomicGenerator::<H, W>::new(grid);
        for generation in 0..GENERATIONS {
            parted._update_cache();
            // The workers take their turns in an order that changes with the generation.
            for turn in 0..workers {
                let worker = (turn * 3 + generation) % workers;
                let (first_row, last_row) = partition_bounds(worker, workers, H);
                parted.update_grid_range((0, first_row), (W, last_row)).unwrap();
            }
        }
        assert_eq!(parted.grid().clone(), expected, "{} workers", workers);
        assert!(counts_are_true(parted.grid()));
    }
}

#[test]
fn column_partitions_give_the_same_grid_too() {
    const H: usize = 9;
    const W: usize = 14;
    let coins = fixed_coins(H * W, 7);
    let mut grid = AtomicGrid::<H, W>::new();
    seed_cells(&mut grid, &coins).unwrap();
    let mut whole = SingleThreadedGenerator::<H, W>::new(grid);
    Generator::generate(&mut whole).unwrap();

    let mut grid = AtomicGrid::<H, W>::new();
    seed_cells(&mut grid, &coins).unwrap();
    let mut parted = AtomicGenerator::<H, W>::new(grid);
    parted._unsafe_update_cache();
    parted.update_grid_range((10, 0), (14, 9)).unwrap();
    parted.update_grid_range((0, 0), (5, 9)).unwrap();
    parted.update_grid_range((5, 4), (10, 9)).unwrap();
    parted.update_grid_range((5, 0), (10, 4)).unwrap();
    assert_eq!(parted.grid().clone(), Generator::grid(&whole).clone());
}

#[test]
fn counts_stay_between_zero_and_eight() {
    const H: usize = 12;
    const W: usize = 12;
    let mut grid = AtomicGrid::<H, W>::new();
    seed_cells(&mut grid, &fixed_coins(H * W, 2024)).unwrap();
    let mut generator = AtomicGenerator::<H, W>::new(grid);
    for _ in 0..30 {
        generator.generate().unwrap();
        assert!(generator.grid().iter().all(|cell| cell.neighbors() <= 8));
        assert!(counts_are_true(generator.grid()));
    }
}

#[test]
fn zero_bytes_are_skipped() {
    let mut grid = AtomicGrid::<5, 5>::new();
    for x in 1..4 {
        grid.spawn(x, 2).unwrap();
    }
    let mut generator = AtomicGenerator::<5, 5>::new(grid);
    generator._update_cache();
    // (0, 0) is dead without live neighbors: a zero byte in the cache.
    assert_eq!(generator.cache().get(0, 0).fetch(), 0);
    let before = generator.grid().clone();
    assert_eq!(generator.update_cell_state(0, 0), Ok(ControlFlow::Break(())));
    assert_eq!(generator.grid().clone(), before);
    // (2, 1) is dead with three live neighbors: it is looked at, and born.
    assert_eq!(generator.update_cell_state(2, 1), Ok(ControlFlow::Continue(())));
    assert!(generator.grid().get(2, 1).alive());
    // (2, 2) lives on with two neighbors: looked at, and kept.
    assert_eq!(generator.update_cell_state(2, 2), Ok(ControlFlow::Continue(())));
    assert!(generator.grid().get(2, 2).alive());
    // After a whole generation the corners are still zero bytes.
    let mut grid = AtomicGrid::<5, 5>::new();
    for x in 1..4 {
        grid.spawn(x, 2).unwrap();
    }
    let mut generator = AtomicGenerator::<5, 5>::new(grid);
    generator.generate().unwrap();
    assert_eq!(generator.grid().get(0, 0).fetch(), 0);
    assert_eq!(generator.grid().get(4, 4).fetch(), 0);
    assert_eq!(generator.grid().get(4, 0).fetch(), 0);
}

#[test]
fn generation_of_an_inconsistent_grid_is_refused() {
    // The centre claims three live neighbors that are not there, and its
    // north-west neighbor claims eight.
    let mut grid = AtomicGrid::<3, 3>::new();
    grid.get_mut(1, 1).store(0b0000_0110);
    grid.get_mut(0, 0).store(0b0001_0000);
    let mut generator = AtomicGenerator::<3, 3>::new(grid);
    assert_eq!(generator.update_grid_range((0, 0), (0, 0)), Ok(()));
    // The rule spawns the centre, and the spawn is refused at the first neighbor.
    assert_eq!(generator.generate(), Err(CellError::NeighborCountOverflow));
    assert_eq!(generator.grid().clone(), vec![0b0001_0000, 0, 0, 0, 0b0000_0111, 0, 0, 0, 0]);
    assert_eq!(generator.cache().clone(), vec![0b0001_0000, 0, 0, 0, 0b0000_0110, 0, 0, 0, 0]);

    // A live cell that claims no neighbors is killed, and the kill is refused.
    let mut grid = AtomicGrid::<3, 3>::new();
    grid.get_mut(2, 2).store(0b0000_0001);
    let mut generator = SingleThreadedGenerator::<3, 3>::new(grid);
    assert_eq!(generator.generate(), Err(CellError::NeighborCountUnderflow));
}

#[test]
fn empty_and_reversed_ranges_change_nothing() {
    let mut grid = AtomicGrid::<5, 5>::new();
    for x in 1..4 {
        grid.spawn(x, 2).unwrap();
    }
    let before = grid.clone();
    let mut generator = AtomicGenerator::<5, 5>::new(grid);
    generator._update_cache();
    generator.update_grid_range((3, 0), (3, 5)).unwrap();
    generator.update_grid_range((4, 0), (1, 5)).unwrap();
    generator.update_grid_range((0, 3), (5, 2)).unwrap();
    assert_eq!(generator.grid().clone(), before);
}

#[test]
fn every_generator_makes_the_same_generation() {
    const H: usize = 8;
    const W: usize = 11;
    let coins = fixed_coins(H * W, 99);
    let mut grid = AtomicGrid::<H, W>::new();
    seed_cells(&mut grid, &coins).unwrap();
    let mut atomic = AtomicGenerator::<H, W>::new(grid);
    let mut grid = AtomicGrid::<H, W>::new();
    seed_cells(&mut grid, &coins).unwrap();
    let mut single = SingleThreadedGenerator::<H, W>::new(grid);
    let mut owning = gol::generator::UnsafeCellGenerator::<H, W>::new();
    seed_cells(owning.mut_cells(), &coins).unwrap();
    for _ in 0..5 {
        Generator::generate(&mut atomic).unwrap();
        single.generate().unwrap();
        owning.generate().unwrap();
    }
    let expected = Generator::grid(&atomic).clone();
    assert_eq!(single.grid().clone(), expected);
    let owned: Vec<u8> = owning.grid().get().iter().map(|cell| cell.fetch()).collect();
    assert_eq!(owned, expected);
}
