use wasm_mdn::Universe;

fn seeded(width: u32, height: u32, alive: &[(u32, u32)]) -> Universe {
    let mut universe = Universe::new(width, height);
    universe.set_cells(alive).unwrap();
    universe
}

#[test]
fn left_neighbor_of_first_column_is_last_column() {
    let universe = seeded(4, 3, &[(0, 3)]);
    assert_eq!(universe.live_neighbor_count(0, 0), 1);
    assert_eq!(universe.live_neighbor_count(1, 0), 0);
    assert_eq!(universe.live_neighbor_count(2, 0), 1);
}

#[test]
fn top_neighbor_of_first_row_is_last_row() {
    let universe = seeded(4, 3, &[(2, 0)]);
    assert_eq!(universe.live_neighbor_count(0, 0), 1);
    assert_eq!(universe.live_neighbor_count(0, 1), 1);
    assert_eq!(universe.live_neighbor_count(0, 2), 0);
}

#[test]
fn corner_wraps_on_both_axes() {
    let universe = seeded(5, 4, &[(3, 4)]);
    assert_eq!(universe.live_neighbor_count(0, 0), 1);
    assert_eq!(universe.live_neighbor_count(4, 3), 0);
    assert_eq!(universe.live_neighbor_count(3, 2), 1);
}

#[test]
fn all_eight_neighbors_counted_once() {
    let universe = seeded(
        5,
        5,
        &[(1, 1), (1, 2), (1, 3), (2, 1), (2, 3), (3, 1), (3, 2), (3, 3)],
    );
    assert_eq!(universe.live_neighbor_count(2, 2), 8);
    assert_eq!(universe.live_neighbor_count(0, 0), 1);
    assert_eq!(universe.live_neighbor_count(2, 0), 3);
    assert_eq!(universe.live_neighbor_count(4, 4), 1);
    assert_eq!(universe.live_neighbor_count(0, 4), 1);
}

#[test]
fn cell_does_not_count_itself() {
    let universe = seeded(3, 3, &[(1, 1)]);
    assert_eq!(universe.live_neighbor_count(1, 1), 0);
    assert_eq!(universe.live_neighbor_count(0, 0), 1);
}

#[test]
fn axes_are_not_crossed_on_non_square_grid() {
    // Width 6, height 2: column 5 is next to column 0, row 1 is next to row 0.
    let universe = seeded(6, 2, &[(0, 5)]);
    assert_eq!(universe.live_neighbor_count(0, 0), 1);
    assert_eq!(universe.live_neighbor_count(0, 1), 2);
    assert_eq!(universe.live_neighbor_count(4, 0), 1);
    assert_eq!(universe.live_neighbor_count(2, 0), 0);
    assert_eq!(universe.live_neighbor_count(1, 1), 0);
}

#[test]
fn single_cell_torus_meets_itself_eight_times() {
    let alive = seeded(1, 1, &[(0, 0)]);
    assert_eq!(alive.live_neighbor_count(0, 0), 8);
    let dead = Universe::new(1, 1);
    assert_eq!(dead.live_neighbor_count(0, 0), 0);
}

#[test]
fn two_wide_torus_counts_side_neighbor_twice() {
    let universe = seeded(2, 5, &[(2, 1)]);
    assert_eq!(universe.live_neighbor_count(0, 2), 2);
    assert_eq!(universe.live_neighbor_count(0, 1), 2);
    assert_eq!(universe.live_neighbor_count(1, 1), 1);
    assert_eq!(universe.live_neighbor_count(0, 4), 0);
}

#[test]
fn neighbor_count_is_periodic_sum() {
    // Compare with a count made on the tiled plane by signed arithmetic.
    let width = 4i64;
    let height = 3i64;
    let alive = [(0u32, 0u32), (0, 3), (1, 1), (2, 0), (2, 2), (2, 3)];
    let universe = seeded(4, 3, &alive);
    for y in 0..height {
        for x in 0..width {
            let mut expected = 0u8;
            for dy in [-1i64, 0, 1] {
                for dx in [-1i64, 0, 1] {
                    if dx == 0 && dy == 0 {
                        continue;
                    }
                    let nx = (x + dx).rem_euclid(width) as u32;
                    let ny = (y + dy).rem_euclid(height) as u32;
                    if alive.contains(&(ny, nx)) {
                        expected += 1;
                    }
                }
            }
            assert_eq!(universe.live_neighbor_count(x as u32, y as u32), expected);
        }
    }
}
