use gol::cell::SimpleCell;
use gol::grid::SimpleGridWithVec;

#[test]
fn test_simple_grid_with_vec() {
    const H: usize = 100;
    const W: usize = 100;

    let mut cell_array = SimpleGridWithVec::<H, W>::new();

    for x in 0..cell_array.rows() {
        for y in 0..cell_array.cols() {
            let cell = cell_array.get_mut(x as isize, y as isize);
            assert_eq!(cell.alive(), false);
            assert_eq!(cell.neighbors(), 0);
            assert_eq!(cell.to_string(), "00000000");
            assert_eq!(*cell, 0b00000000);

            cell.spawn();
            for _ in 0..8 {
                cell.add_neighbor().unwrap();
            }

            assert_eq!(cell.alive(), true);
            assert_eq!(cell.neighbors(), 8);
            assert_eq!(cell.to_string(), "00010001");
            assert_eq!(*cell == 0b00010001, true);
        }
    }
}

#[test]
fn simple_grid_with_vec_hands_out_its_cells() {
    let mut grid = SimpleGridWithVec::<2, 3>::new();
    grid.spawn(1, 0).unwrap();
    grid.print();
    let cells: &Vec<SimpleCell> = grid.cells();
    assert_eq!(cells.len(), 6);
    assert!(cells[1].alive());
    assert_eq!(grid.iter().filter(|cell| cell.alive()).count(), 1);
    assert_eq!(grid.neighbor_coordinates(1, 0)[4], (2, 0));
    grid.kill(1, 0).unwrap();
    assert!(grid.iter().all(|cell| cell.fetch() == 0));
}
