use falling_blocks::board::Gamestate;
use falling_blocks::draw::area_draw_points;
use falling_blocks::draw::convert_coords_to_point;
use falling_blocks::draw::piece_draw_points;
use falling_blocks::piece::standard_shape;
use falling_blocks::piece::Direction;
use falling_blocks::piece::Piece;

#[test]
fn coords_scale_by_the_box_size() {
    assert_eq!(convert_coords_to_point((0, 0)), (0, 0));
    assert_eq!(convert_coords_to_point((3, 4)), (60, 80));
    assert_eq!(convert_coords_to_point((20, 30)), (400, 600));
}

#[test]
fn piece_points_cover_its_blocks_row_major() {
    let piece = Piece {
        position: (8, 0),
        shape: standard_shape(),
        shape_width: 3,
        direction: Direction::Idle,
        steps: 1,
    };
    let pts = piece_draw_points(&piece);
    assert_eq!(pts, vec![(180, 0), (160, 20), (180, 20), (200, 20)]);
}

#[test]
fn piece_points_follow_the_position() {
    let piece = Piece {
        position: (0, 27),
        shape: vec![vec![1]],
        shape_width: 1,
        direction: Direction::Idle,
        steps: 1,
    };
    let pts = piece_draw_points(&piece);
    assert_eq!(pts, vec![(0, 540)]);
}

#[test]
fn area_points_list_settled_cells_row_major() {
    let mut gamestate = Gamestate::new();
    assert_eq!(area_draw_points(&gamestate), vec![]);
    gamestate.area[29][0] = 1;
    gamestate.area[0][19] = 1;
    let pts = area_draw_points(&gamestate);
    assert_eq!(pts, vec![(380, 0), (0, 580)]);
}
