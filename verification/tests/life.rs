use falling_blocks::life::Universe;

#[test]
fn new_universe_follows_the_seed_pattern() {
    let u = Universe::new(3, 3);
    // alive exactly at the indices divisible by two or by seven
    assert_eq!(u.area, vec![1, 0, 1, 0, 1, 0, 1, 1, 1]);
    assert_eq!(u.width, 3);
    assert_eq!(u.height, 3);
}

#[test]
fn get_index_is_column_major() {
    let u = Universe::new(3, 3);
    assert_eq!(u.get_index(0, 0), 0);
    assert_eq!(u.get_index(1, 2), 7);
    assert_eq!(u.get_index(2, 1), 5);
}

#[test]
fn neighbor_count_on_a_small_universe() {
    let u = Universe {
        width: 3,
        height: 3,
        area: vec![0, 0, 0, 1, 1, 0, 0, 1, 0],
    };
    assert_eq!(u.live_neighbor_count(1, 1), 2);
}

#[test]
fn neighbor_count_sums_cell_values() {
    let u = Universe {
        width: 3,
        height: 3,
        area: vec![3; 9],
    };
    assert_eq!(u.live_neighbor_count(1, 1), 24);
}

#[test]
fn neighbor_count_wraps_around_the_borders() {
    let mut area = vec![0; 9];
    // the cell diagonally opposite the corner, reachable only by wrapping
    area[4] = 0;
    area[8] = 1;
    let u = Universe {
        width: 3,
        height: 3,
        area,
    };
    assert_eq!(u.live_neighbor_count(0, 0), 1);
}
