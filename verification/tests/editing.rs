use wasm_mdn::{Cell, OutOfBounds, Universe};

#[test]
fn new_grid_is_dead() {
    let universe = Universe::new(4, 3);
    assert_eq!(universe.width(), 4);
    assert_eq!(universe.height(), 3);
    assert_eq!(universe.get_cells(), &[Cell::Dead; 12][..]);
}

#[test]
fn new_grid_with_zero_dimension_is_empty() {
    assert_eq!(Universe::new(0, 7).get_cells().len(), 0);
    assert_eq!(Universe::new(7, 0).get_cells().len(), 0);
    assert_eq!(Universe::new(0, 0).get_cells().len(), 0);
}

#[test]
fn set_cells_takes_row_then_column() {
    let mut universe = Universe::new(3, 2);
    universe.set_cells(&[(1, 2)]).unwrap();
    let cells = universe.get_cells();
    for (i, cell) in cells.iter().enumerate() {
        let expected = if i == 5 { Cell::Alive } else { Cell::Dead };
        assert_eq!(*cell, expected, "position {}", i);
    }
}

#[test]
fn set_cells_keeps_other_cells() {
    let mut universe = Universe::new(3, 3);
    universe.set_cells(&[(0, 0), (2, 2)]).unwrap();
    universe.set_cells(&[(1, 1), (0, 0)]).unwrap();
    let d = Cell::Dead;
    let a = Cell::Alive;
    assert_eq!(universe.get_cells(), &[a, d, d, d, a, d, d, d, a][..]);
}

#[test]
fn set_cells_with_no_pairs_changes_nothing() {
    let mut universe = Universe::new(2, 2);
    universe.set_cells(&[(0, 1)]).unwrap();
    assert_eq!(universe.set_cells(&[]), Ok(()));
    assert_eq!(universe.get_cells(), &[Cell::Dead, Cell::Alive, Cell::Dead, Cell::Dead][..]);
}

#[test]
fn set_cells_out_of_range_fails_and_keeps_grid() {
    let mut universe = Universe::new(3, 2);
    universe.set_cells(&[(0, 1)]).unwrap();
    let before = universe.get_cells().to_vec();
    // Row 1 exists, column 3 does not; the pair before it is valid.
    let result = universe.set_cells(&[(1, 1), (1, 3), (5, 5)]);
    assert_eq!(result, Err(OutOfBounds { x: 3, y: 1 }));
    assert_eq!(universe.get_cells(), &before[..]);
}

#[test]
fn set_cells_row_out_of_range_fails() {
    let mut universe = Universe::new(3, 2);
    assert_eq!(universe.set_cells(&[(2, 0)]), Err(OutOfBounds { x: 0, y: 2 }));
    assert_eq!(universe.get_cells(), &[Cell::Dead; 6][..]);
}

#[test]
fn set_cells_does_not_wrap_column_into_next_row() {
    // Column 3 of row 0 would share its storage position with column 0 of row 1.
    let mut universe = Universe::new(3, 2);
    assert_eq!(universe.set_cells(&[(0, 3)]), Err(OutOfBounds { x: 3, y: 0 }));
    assert_eq!(universe.get_cells(), &[Cell::Dead; 6][..]);
}

#[test]
fn set_cells_on_empty_grid_fails() {
    let mut universe = Universe::new(0, 0);
    assert_eq!(universe.set_cells(&[(0, 0)]), Err(OutOfBounds { x: 0, y: 0 }));
}

#[test]
fn toggle_cell_flips_one_cell() {
    let mut universe = Universe::new(3, 2);
    assert_eq!(universe.toggle_cell(2, 1), Ok(()));
    let d = Cell::Dead;
    let a = Cell::Alive;
    assert_eq!(universe.get_cells(), &[d, d, d, d, d, a][..]);
    assert_eq!(universe.toggle_cell(0, 1), Ok(()));
    assert_eq!(universe.get_cells(), &[d, d, d, a, d, a][..]);
    assert_eq!(universe.toggle_cell(2, 1), Ok(()));
    assert_eq!(universe.get_cells(), &[d, d, d, a, d, d][..]);
}

#[test]
fn toggle_cell_out_of_range_fails_and_keeps_grid() {
    let mut universe = Universe::new(3, 2);
    universe.toggle_cell(1, 1).unwrap();
    let before = universe.get_cells().to_vec();
    assert_eq!(universe.toggle_cell(3, 0), Err(OutOfBounds { x: 3, y: 0 }));
    assert_eq!(universe.toggle_cell(0, 2), Err(OutOfBounds { x: 0, y: 2 }));
    assert_eq!(universe.toggle_cell(u32::MAX, u32::MAX), Err(OutOfBounds { x: u32::MAX, y: u32::MAX }));
    assert_eq!(universe.get_cells(), &before[..]);
}

#[test]
fn toggle_cell_on_empty_grid_fails() {
    let mut universe = Universe::new(0, 3);
    assert_eq!(universe.toggle_cell(0, 0), Err(OutOfBounds { x: 0, y: 0 }));
}

#[test]
fn set_width_resets_content() {
    let mut universe = Universe::new(3, 2);
    universe.set_cells(&[(0, 0), (1, 2)]).unwrap();
    universe.set_width(5);
    assert_eq!(universe.width(), 5);
    assert_eq!(universe.height(), 2);
    assert_eq!(universe.get_cells(), &[Cell::Dead; 10][..]);
}

#[test]
fn set_height_resets_content() {
    let mut universe = Universe::new(3, 2);
    universe.set_cells(&[(0, 0), (1, 2)]).unwrap();
    universe.set_height(4);
    assert_eq!(universe.width(), 3);
    assert_eq!(universe.height(), 4);
    assert_eq!(universe.get_cells(), &[Cell::Dead; 12][..]);
}

#[test]
fn resize_to_same_size_still_resets() {
    let mut universe = Universe::new(2, 2);
    universe.set_cells(&[(0, 0), (1, 1)]).unwrap();
    universe.set_width(2);
    assert_eq!(universe.get_cells(), &[Cell::Dead; 4][..]);
    universe.set_cells(&[(0, 0), (1, 1)]).unwrap();
    universe.set_height(2);
    assert_eq!(universe.get_cells(), &[Cell::Dead; 4][..]);
}

#[test]
fn resize_to_zero_and_back() {
    let mut universe = Universe::new(2, 2);
    universe.set_width(0);
    assert_eq!(universe.get_cells().len(), 0);
    universe.set_height(0);
    assert_eq!(universe.get_cells().len(), 0);
    universe.set_width(3);
    assert_eq!(universe.get_cells().len(), 0);
    universe.set_height(1);
    assert_eq!(universe.get_cells(), &[Cell::Dead; 3][..]);
}

#[test]
fn clear_kills_every_cell_and_keeps_size() {
    let mut universe = Universe::new(3, 2);
    universe.set_cells(&[(0, 0), (0, 1), (1, 2)]).unwrap();
    universe.clear();
    assert_eq!(universe.width(), 3);
    assert_eq!(universe.height(), 2);
    assert_eq!(universe.get_cells(), &[Cell::Dead; 6][..]);
}

#[test]
fn scramble_sets_each_cell_from_its_draw() {
    let mut universe = Universe::new(3, 2);
    universe.set_cells(&[(0, 0), (1, 2)]).unwrap();
    universe.scramble(&[false, true, true, false, false, false]);
    let d = Cell::Dead;
    let a = Cell::Alive;
    assert_eq!(universe.get_cells(), &[d, a, a, d, d, d][..]);
    assert_eq!(universe.width(), 3);
    assert_eq!(universe.height(), 2);
}

#[test]
fn scramble_empty_grid() {
    let mut universe = Universe::new(0, 2);
    universe.scramble(&[]);
    assert_eq!(universe.get_cells().len(), 0);
}

#[test]
fn cell_toggle_flips() {
    let mut cell = Cell::Dead;
    cell.toggle();
    assert_eq!(cell, Cell::Alive);
    cell.toggle();
    assert_eq!(cell, Cell::Dead);
}

#[test]
fn cell_value_is_zero_or_one() {
    assert_eq!(Cell::Dead.value(), 0);
    assert_eq!(Cell::Alive.value(), 1);
}
