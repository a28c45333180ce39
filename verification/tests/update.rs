use falling_blocks::board::Gamestate;
use falling_blocks::motion::update_piece;
use falling_blocks::piece::standard_shape;
use falling_blocks::piece::Direction;
use falling_blocks::piece::Piece;

fn piece_with(x: i32, y: i32, direction: Direction, steps: u8) -> Piece {
    Piece {
        position: (x, y),
        shape: standard_shape(),
        shape_width: 3,
        direction,
        steps,
    }
}

#[test]
fn left_move_shifts_one_column() {
    let mut gamestate = Gamestate::new();
    let mut piece = piece_with(8, 0, Direction::Left, 1);
    update_piece(&mut piece, &mut gamestate);
    assert_eq!(piece.position, (7, 0));
    assert_eq!(piece.direction, Direction::Idle);
    assert_eq!(piece.steps, 2);
}

#[test]
fn left_move_stops_at_the_wall() {
    let mut gamestate = Gamestate::new();
    let mut piece = piece_with(0, 0, Direction::Left, 1);
    update_piece(&mut piece, &mut gamestate);
    assert_eq!(piece.position, (0, 0));
}

#[test]
fn left_move_stops_at_a_settled_cell() {
    let mut gamestate = Gamestate::new();
    gamestate.area[6][4] = 1;
    let mut piece = piece_with(5, 5, Direction::Left, 1);
    update_piece(&mut piece, &mut gamestate);
    assert_eq!(piece.position, (5, 5));
}

#[test]
fn right_move_shifts_one_column() {
    let mut gamestate = Gamestate::new();
    let mut piece = piece_with(8, 0, Direction::Right, 1);
    update_piece(&mut piece, &mut gamestate);
    assert_eq!(piece.position, (9, 0));
}

#[test]
fn right_move_stops_at_the_wall() {
    let mut gamestate = Gamestate::new();
    let mut piece = piece_with(17, 0, Direction::Right, 1);
    update_piece(&mut piece, &mut gamestate);
    assert_eq!(piece.position, (17, 0));
}

#[test]
fn down_move_shifts_one_row() {
    let mut gamestate = Gamestate::new();
    let mut piece = piece_with(8, 0, Direction::Down, 1);
    update_piece(&mut piece, &mut gamestate);
    assert_eq!(piece.position, (8, 1));
}

#[test]
fn down_move_stops_near_the_floor() {
    let mut gamestate = Gamestate::new();
    let mut piece = piece_with(8, 26, Direction::Down, 1);
    update_piece(&mut piece, &mut gamestate);
    assert_eq!(piece.position, (8, 26));
}

#[test]
fn up_rotates_in_place() {
    let mut gamestate = Gamestate::new();
    let mut piece = piece_with(8, 0, Direction::Up, 1);
    update_piece(&mut piece, &mut gamestate);
    assert_eq!(piece.position, (8, 0));
    assert_eq!(piece.shape, vec![vec![0, 1, 0], vec![1, 1, 0], vec![0, 1, 0]]);
    assert_eq!(piece.direction, Direction::Idle);
}

#[test]
fn fourth_step_lets_the_piece_fall() {
    let mut gamestate = Gamestate::new();
    let mut piece = piece_with(8, 0, Direction::Idle, 3);
    update_piece(&mut piece, &mut gamestate);
    assert_eq!(piece.position, (8, 1));
    assert_eq!(piece.steps, 1);
    assert!(!gamestate.store);
}

#[test]
fn steps_count_up_until_the_fall() {
    let mut gamestate = Gamestate::new();
    let mut piece = piece_with(8, 0, Direction::Idle, 1);
    update_piece(&mut piece, &mut gamestate);
    assert_eq!(piece.steps, 2);
    assert_eq!(piece.position, (8, 0));
    update_piece(&mut piece, &mut gamestate);
    assert_eq!(piece.steps, 3);
    assert_eq!(piece.position, (8, 0));
    update_piece(&mut piece, &mut gamestate);
    assert_eq!(piece.steps, 1);
    assert_eq!(piece.position, (8, 1));
}

#[test]
fn reaching_the_floor_sets_the_landed_flag() {
    let mut gamestate = Gamestate::new();
    let mut piece = piece_with(8, 28, Direction::Idle, 1);
    update_piece(&mut piece, &mut gamestate);
    assert!(gamestate.store);
    assert_eq!(piece.position, (8, 28));
}

#[test]
fn resting_on_a_settled_cell_sets_the_landed_flag() {
    let mut gamestate = Gamestate::new();
    // directly below the block at shape cell (1, 1)
    gamestate.area[12][9] = 1;
    let mut piece = piece_with(8, 10, Direction::Idle, 1);
    update_piece(&mut piece, &mut gamestate);
    assert!(gamestate.store);
}

#[test]
fn landed_piece_is_stored_and_respawned() {
    let mut gamestate = Gamestate::new();
    let mut piece = piece_with(8, 28, Direction::Idle, 3);
    update_piece(&mut piece, &mut gamestate);
    assert_eq!(gamestate.area[28][9], 1);
    assert_eq!(gamestate.area[29][8], 1);
    assert_eq!(gamestate.area[29][9], 1);
    assert_eq!(gamestate.area[29][10], 1);
    assert_eq!(piece.position, (8, 0));
    assert_eq!(piece.steps, 1);
    assert!(!gamestate.store);
}

#[test]
fn landing_takes_a_full_cycle_to_store() {
    let mut gamestate = Gamestate::new();
    let mut piece = piece_with(8, 28, Direction::Idle, 1);
    // two calls only raise the step counter and keep the flag
    update_piece(&mut piece, &mut gamestate);
    update_piece(&mut piece, &mut gamestate);
    assert!(gamestate.store);
    assert_eq!(piece.position, (8, 28));
    let stored: i32 = gamestate.area.iter().flatten().sum();
    assert_eq!(stored, 0);
    // the third call stores the piece
    update_piece(&mut piece, &mut gamestate);
    let stored: i32 = gamestate.area.iter().flatten().sum();
    assert_eq!(stored, 4);
    assert_eq!(piece.position, (8, 0));
}
