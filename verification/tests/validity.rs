use falling_blocks::board::Gamestate;
use falling_blocks::motion::rotation_fits;
use falling_blocks::piece::standard_shape;
use falling_blocks::piece::Direction;
use falling_blocks::piece::Piece;

#[test]
fn fresh_gamestate_is_well_formed_and_empty() {
    let gamestate = Gamestate::new();
    assert!(gamestate.is_well_formed());
    assert!(!gamestate.store);
    assert_eq!(gamestate.area.len(), 30);
    for row in &gamestate.area {
        assert_eq!(row.len(), 20);
        assert!(row.iter().all(|c| *c == 0));
    }
}

#[test]
fn truncated_grid_is_rejected() {
    let mut gamestate = Gamestate::new();
    gamestate.area.pop();
    assert!(!gamestate.is_well_formed());
    let mut other = Gamestate::new();
    other.area[7].pop();
    assert!(!other.is_well_formed());
}

#[test]
fn spawned_piece_is_well_formed() {
    let piece = Piece::spawn(standard_shape());
    assert!(piece.is_well_formed());
    assert_eq!(piece.position, (8, 0));
    assert_eq!(piece.shape_width, 3);
    assert_eq!(piece.direction, Direction::Idle);
    assert_eq!(piece.steps, 1);
}

#[test]
fn mismatched_width_is_rejected() {
    let mut piece = Piece::spawn(standard_shape());
    piece.shape_width = 4;
    assert!(!piece.is_well_formed());
}

#[test]
fn blockless_shape_is_rejected() {
    let piece = Piece {
        position: (8, 0),
        shape: vec![vec![0, 0], vec![0, 0]],
        shape_width: 2,
        direction: Direction::Idle,
        steps: 1,
    };
    assert!(!piece.is_well_formed());
}

#[test]
fn ragged_shape_is_rejected() {
    let piece = Piece {
        position: (8, 0),
        shape: vec![vec![1, 0], vec![0]],
        shape_width: 2,
        direction: Direction::Idle,
        steps: 1,
    };
    assert!(!piece.is_well_formed());
}

#[test]
fn piece_outside_the_grid_is_rejected() {
    let mut piece = Piece::spawn(standard_shape());
    piece.position = (18, 0);
    assert!(!piece.is_well_formed());
    piece.position = (-1, 0);
    assert!(!piece.is_well_formed());
    piece.position = (8, 29);
    assert!(!piece.is_well_formed());
}

#[test]
fn piece_with_blocks_on_the_last_row_is_accepted() {
    let mut piece = Piece::spawn(standard_shape());
    // the standard shape's lowest block sits in shape row 1
    piece.position = (8, 28);
    assert!(piece.is_well_formed());
}

#[test]
fn rotation_fits_depends_on_the_row() {
    let high = Piece::spawn(standard_shape());
    assert!(rotation_fits(&high));
    let mut low = Piece::spawn(standard_shape());
    low.position = (8, 28);
    // rotated, the shape has a block in its bottom row, which would leave
    // the grid
    assert!(!rotation_fits(&low));
}
