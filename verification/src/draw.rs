//! Computation of the pixel rectangles that a renderer fills: one square of
//! `BOX_SIZE` pixels per block of the piece and per settled cell.

use vstd::prelude::*;
use crate::board::Gamestate;
use crate::board::BOX_SIZE;
use crate::board::GRID_HEIGHT;
use crate::board::GRID_WIDTH;
use crate::piece::block_at;
use crate::piece::Piece;

verus! {

/// The pixel coordinate of the top-left corner of the cell at grid column
/// `cx`, row `cy`.
pub open spec fn cell_pixel(cx: int, cy: int) -> (i32, i32) {
    ((cx * BOX_SIZE as int) as i32, (cy * BOX_SIZE as int) as i32)
}

/// The pixel coordinate of the top-left corner of the cell at grid
/// coordinate `coords` (column, row).
pub fn convert_coords_to_point(coords: (i32, i32)) -> (r: (i32, i32))
    requires
        0 <= coords.0 <= GRID_WIDTH,
        0 <= coords.1 <= GRID_HEIGHT,
    ensures
        r == cell_pixel(coords.0 as int, coords.1 as int),
{
    (coords.0 * BOX_SIZE, coords.1 * BOX_SIZE)
}

/// The pixel corners of the piece's blocks at shape cell `(y, x)` and after,
/// in row-major order.
pub open spec fn piece_points_from(p: Piece, y: int, x: int) -> Seq<(i32, i32)>
    decreases p.shape_view().len() - y, p.shape_view().len() - x,
        when 0 <= y && 0 <= x
{
    let n = p.shape_view().len() as int;
    if y >= n || x > n {
        Seq::empty()
    } else if x == n {
        piece_points_from(p, y + 1, 0)
    } else if block_at(p.shape_view(), y, x) {
        seq![cell_pixel(p.pos_x() + x, p.pos_y() + y)] + piece_points_from(p, y, x + 1)
    } else {
        piece_points_from(p, y, x + 1)
    }
}

/// The pixel corners of the settled cells at grid cell `(y, x)` and after,
/// in row-major order.
pub open spec fn area_points_from(g: Gamestate, y: int, x: int) -> Seq<(i32, i32)>
    decreases GRID_HEIGHT - y, GRID_WIDTH - x,
        when 0 <= y && 0 <= x
{
    if y >= GRID_HEIGHT || x > GRID_WIDTH {
        Seq::empty()
    } else if x == GRID_WIDTH {
        area_points_from(g, y + 1, 0)
    } else if g.occupied(y, x) {
        seq![cell_pixel(x, y)] + area_points_from(g, y, x + 1)
    } else {
        area_points_from(g, y, x + 1)
    }
}

/// The pixel corner of each block of the piece, in row-major shape order.
pub fn piece_draw_points(piece: &Piece) -> (pts: Vec<(i32, i32)>)
    requires
        piece.wf(),
    ensures
        pts@ == piece_points_from(*piece, 0, 0),
{
    let n = piece.shape.len();
    let mut pts: Vec<(i32, i32)> = Vec::new();
    let mut y: usize = 0;
    while y < n
        invariant
            piece.wf(),
            y <= n,
            n == piece.shape_view().len(),
            piece_points_from(*piece, 0, 0) == pts@ + piece_points_from(*piece, y as int, 0),
        decreases n - y,
    {
        proof {
            assert(piece.shape_view()[y as int] =~= piece.shape@[y as int]@);
        }
        let mut x: usize = 0;
        while x < n
            invariant
                piece.wf(),
                y < n,
                x <= n,
                n == piece.shape_view().len(),
                piece.shape_view()[y as int] == piece.shape@[y as int]@,
                piece_points_from(*piece, 0, 0) == pts@ + piece_points_from(
                    *piece,
                    y as int,
                    x as int,
                ),
            decreases n - x,
        {
            if piece.shape[y][x] == 1 {
                proof {
                    assert(block_at(piece.shape_view(), y as int, x as int));
                }
                let q = (
                    (piece.position.0 + x as i32) * BOX_SIZE,
                    (piece.position.1 + y as i32) * BOX_SIZE,
                );
                let ghost pre = pts@;
                pts.push(q);
                proof {
                    assert(q == cell_pixel(piece.pos_x() + x as int, piece.pos_y() + y as int));
                    assert(piece_points_from(*piece, y as int, x as int) == seq![q]
                        + piece_points_from(*piece, y as int, x as int + 1));
                    assert(pts@ + piece_points_from(*piece, y as int, x as int + 1) =~= pre
                        + piece_points_from(*piece, y as int, x as int));
                }
            } else {
                proof {
                    assert(!block_at(piece.shape_view(), y as int, x as int));
                    assert(piece_points_from(*piece, y as int, x as int) == piece_points_from(
                        *piece,
                        y as int,
                        x as int + 1,
                    ));
                }
            }
            x = x + 1;
        }
        proof {
            assert(piece_points_from(*piece, y as int, n as int) == piece_points_from(
                *piece,
                y as int + 1,
                0,
            ));
        }
        y = y + 1;
    }
    proof {
        assert(piece_points_from(*piece, n as int, 0) == Seq::<(i32, i32)>::empty());
        assert(pts@ + Seq::<(i32, i32)>::empty() =~= pts@);
    }
    pts
}

/// The pixel corner of each settled cell of the grid, in row-major order.
pub fn area_draw_points(gamestate: &Gamestate) -> (pts: Vec<(i32, i32)>)
    requires
        gamestate.wf(),
    ensures
        pts@ == area_points_from(*gamestate, 0, 0),
{
    let mut pts: Vec<(i32, i32)> = Vec::new();
    let mut y: usize = 0;
    while y < 30
        invariant
            gamestate.wf(),
            y <= 30,
            area_points_from(*gamestate, 0, 0) == pts@ + area_points_from(*gamestate, y as int, 0),
        decreases 30 - y,
    {
        proof {
            assert(gamestate.grid()[y as int] =~= gamestate.area@[y as int]@);
        }
        let mut x: usize = 0;
        while x < 20
            invariant
                gamestate.wf(),
                y < 30,
                x <= 20,
                gamestate.grid()[y as int] == gamestate.area@[y as int]@,
                area_points_from(*gamestate, 0, 0) == pts@ + area_points_from(
                    *gamestate,
                    y as int,
                    x as int,
                ),
            decreases 20 - x,
        {
            if gamestate.area[y][x] == 1 {
                let q = ((x as i32) * BOX_SIZE, (y as i32) * BOX_SIZE);
                let ghost pre = pts@;
                pts.push(q);
                proof {
                    assert(q == cell_pixel(x as int, y as int));
                    assert(area_points_from(*gamestate, y as int, x as int) == seq![q]
                        + area_points_from(*gamestate, y as int, x as int + 1));
                    assert(pts@ + area_points_from(*gamestate, y as int, x as int + 1) =~= pre
                        + area_points_from(*gamestate, y as int, x as int));
                }
            } else {
                proof {
                    assert(!gamestate.occupied(y as int, x as int));
                    assert(area_points_from(*gamestate, y as int, x as int) == area_points_from(
                        *gamestate,
                        y as int,
                        x as int + 1,
                    ));
                }
            }
            x = x + 1;
        }
        proof {
            assert(area_points_from(*gamestate, y as int, 20) == area_points_from(
                *gamestate,
                y as int + 1,
                0,
            ));
        }
        y = y + 1;
    }
    proof {
        assert(area_points_from(*gamestate, 30, 0) == Seq::<(i32, i32)>::empty());
        assert(pts@ + Seq::<(i32, i32)>::empty() =~= pts@);
    }
    pts
}

} // verus!
