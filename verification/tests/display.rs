use gol::display::{frame, COLOR_ALIVE, COLOR_DEAD};
use gol::grid::AtomicGrid;

#[test]
fn frame_colours_live_cells_white() {
    let mut grid = AtomicGrid::<2, 3>::new();
    grid.spawn(1, 0).unwrap();
    grid.spawn(2, 1).unwrap();
    let buffer = frame(&grid);
    assert_eq!(buffer, vec![0, 0xFFFFFF, 0, 0, 0, 0xFFFFFF]);
    assert_eq!(COLOR_ALIVE, 0xFFFFFF);
    assert_eq!(COLOR_DEAD, 0);
}

#[test]
fn frame_of_an_empty_grid_is_black() {
    let grid = AtomicGrid::<10, 10>::new();
    assert_eq!(frame(&grid), vec![0u32; 100]);
}

#[test]
fn test_glider_display() {
    const H: usize = 100;
    const W: usize = 100;
    const GENERATIONS: usize = 1000;
    const GLIDER_OFFSETS: [(isize, isize); 5] = [(2, 0), (2, 1), (2, 2), (1, 2), (0, 1)];

    let mut grid: AtomicGrid<H, W> = AtomicGrid::<H, W>::new();
    grid.spawn_shape((0, 0), &GLIDER_OFFSETS).unwrap();

    let mut generator = gol::generator::AtomicGenerator::<H, W>::new(grid);

    for _ in 0..GENERATIONS {
        generator.generate().unwrap();
        let buffer = frame(generator.grid());
        assert_eq!(buffer.len(), W * H);
        assert_eq!(buffer.iter().filter(|&&color| color == COLOR_ALIVE).count(), 5);
    }
}

#[test]
fn test_random_display() {
    const H: usize = 100;
    const W: usize = 100;
    const GENERATIONS: usize = 1000;

    let mut grid: AtomicGrid<H, W> = AtomicGrid::<H, W>::new();

    gol::utils::randomize_grid(&mut grid).unwrap();

    let mut generator = gol::generator::AtomicGenerator::<H, W>::new(grid);

    for _ in 0..GENERATIONS {
        generator.generate().unwrap();
        let buffer = frame(generator.grid());
        assert_eq!(buffer.len(), W * H);
    }
}
