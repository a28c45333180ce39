use falling_blocks::board::Gamestate;
use falling_blocks::motion::check_pieces_collision_down;
use falling_blocks::motion::check_pieces_collision_left;
use falling_blocks::motion::check_pieces_collision_right;
use falling_blocks::motion::store_piece_to_game_state;
use falling_blocks::piece::standard_shape;
use falling_blocks::piece::Direction;
use falling_blocks::piece::Piece;

fn piece_at(x: i32, y: i32) -> Piece {
    Piece {
        position: (x, y),
        shape: standard_shape(),
        shape_width: 3,
        direction: Direction::Idle,
        steps: 1,
    }
}

#[test]
fn left_collision_hits_only_rows_with_a_leading_block() {
    let mut gamestate = Gamestate::new();
    let piece = piece_at(5, 5);
    assert!(!check_pieces_collision_left(&piece, &gamestate));
    // the cell left of shape row 1, whose first cell is a block
    gamestate.area[6][4] = 1;
    assert!(check_pieces_collision_left(&piece, &gamestate));
    // the cell left of shape row 0 does not matter: that row starts empty
    let mut other = Gamestate::new();
    other.area[5][4] = 1;
    assert!(!check_pieces_collision_left(&piece, &other));
}

#[test]
fn right_collision_hits_only_rows_with_a_trailing_block() {
    let mut gamestate = Gamestate::new();
    let piece = piece_at(5, 5);
    assert!(!check_pieces_collision_right(&piece, &gamestate));
    // the cell right of shape row 1, whose last cell is a block
    gamestate.area[6][8] = 1;
    assert!(check_pieces_collision_right(&piece, &gamestate));
    // the cell right of shape row 0 does not matter: that row ends empty
    let mut other = Gamestate::new();
    other.area[5][8] = 1;
    assert!(!check_pieces_collision_right(&piece, &other));
}

#[test]
fn down_collision_hits_any_block_with_an_occupied_cell_below() {
    let mut gamestate = Gamestate::new();
    let piece = piece_at(5, 5);
    assert!(!check_pieces_collision_down(&piece, &gamestate));
    // below the block at shape cell (1, 0)
    gamestate.area[7][5] = 1;
    assert!(check_pieces_collision_down(&piece, &gamestate));
}

#[test]
fn down_collision_ignores_cells_below_empty_shape_cells() {
    let mut gamestate = Gamestate::new();
    let piece = piece_at(5, 5);
    // below shape cell (1, 0) is grid cell (7, 5); cell (7, 4) is outside
    // the shape's blocks entirely
    gamestate.area[7][4] = 1;
    assert!(!check_pieces_collision_down(&piece, &gamestate));
}

#[test]
fn store_writes_exactly_the_blocks() {
    let mut gamestate = Gamestate::new();
    let piece = piece_at(8, 28);
    store_piece_to_game_state(&piece, &mut gamestate);
    assert_eq!(gamestate.area[28][9], 1);
    assert_eq!(gamestate.area[29][8], 1);
    assert_eq!(gamestate.area[29][9], 1);
    assert_eq!(gamestate.area[29][10], 1);
    // cells under empty shape cells stay free
    assert_eq!(gamestate.area[28][8], 0);
    assert_eq!(gamestate.area[28][10], 0);
    let occupied: i32 = gamestate.area.iter().flatten().sum();
    assert_eq!(occupied, 4);
}

#[test]
fn store_keeps_existing_cells() {
    let mut gamestate = Gamestate::new();
    gamestate.area[0][0] = 1;
    let piece = piece_at(8, 28);
    store_piece_to_game_state(&piece, &mut gamestate);
    assert_eq!(gamestate.area[0][0], 1);
}
