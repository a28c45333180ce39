use falling_blocks::piece::rotate;
use falling_blocks::piece::standard_shape;

#[test]
fn rotate_standard_shape_quarter_turn() {
    let shape = standard_shape();
    let rotated = rotate(&shape);
    let expected: Vec<Vec<u8>> = vec![
        vec![0, 1, 0],
        vec![1, 1, 0],
        vec![0, 1, 0],
    ];
    assert_eq!(rotated, expected);
}

#[test]
fn rotate_reads_columns_bottom_up() {
    let shape: Vec<Vec<u8>> = vec![
        vec![1, 0],
        vec![0, 1],
    ];
    let rotated = rotate(&shape);
    // row 0 of the result is column 1 of the input, top to bottom
    assert_eq!(rotated, vec![vec![0, 1], vec![1, 0]]);
}

#[test]
fn rotate_single_cell() {
    let shape: Vec<Vec<u8>> = vec![vec![1]];
    assert_eq!(rotate(&shape), vec![vec![1]]);
}

#[test]
fn four_rotations_restore_the_shape() {
    let shape = standard_shape();
    let mut turned = shape.clone();
    for _ in 0..4 {
        turned = rotate(&turned);
    }
    assert_eq!(turned, shape);
}

#[test]
fn standard_shape_cells() {
    let shape = standard_shape();
    assert_eq!(shape.len(), 3);
    assert_eq!(shape[0], vec![0, 1, 0]);
    assert_eq!(shape[1], vec![1, 1, 1]);
    assert_eq!(shape[2], vec![0, 0, 0]);
}
