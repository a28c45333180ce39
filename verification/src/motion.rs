//! Collision checks against the settled cells and the stamping of a landed
//! piece into the grid.

use vstd::prelude::*;
use crate::board::spawn_column;
use crate::board::Gamestate;
use crate::board::GRID_HEIGHT;
use crate::board::GRID_WIDTH;
use crate::piece::block_at;
use crate::piece::lemma_rotated_wf;
use crate::piece::rotate;
use crate::piece::rotated;
use crate::piece::Direction;
use crate::piece::Piece;

verus! {

/// A shape standing at column `px`, row `py` touches a settled cell on its
/// left: some row whose first cell holds a block has the cell one column to
/// the left occupied.
pub open spec fn collides_left(shape: Seq<Seq<u8>>, px: int, py: int, g: Gamestate) -> bool {
    exists|y: int|
        0 <= y < shape.len() && #[trigger] block_at(shape, y, 0) && g.occupied(py + y, px - 1)
}

/// A shape standing at column `px`, row `py` touches a settled cell on its
/// right: some row whose last cell holds a block has the cell just past the
/// shape's right edge occupied.
pub open spec fn collides_right(shape: Seq<Seq<u8>>, px: int, py: int, g: Gamestate) -> bool {
    exists|y: int|
        0 <= y < shape.len() && #[trigger] block_at(shape, y, shape.len() - 1) && g.occupied(
            py + y,
            px + shape.len(),
        )
}

/// A shape standing at column `px`, row `py` touches a settled cell from
/// above: some block has the cell directly below it occupied.
pub open spec fn collides_down(shape: Seq<Seq<u8>>, px: int, py: int, g: Gamestate) -> bool {
    exists|y: int, x: int|
        0 <= y < shape.len() && 0 <= x < shape.len() && #[trigger] block_at(shape, y, x)
            && g.occupied(py + y + 1, px + x)
}

/// A shape standing at column `px`, row `py` can fall no further: some block
/// rests on the grid's bottom row or on a settled cell.
pub open spec fn landed(shape: Seq<Seq<u8>>, px: int, py: int, g: Gamestate) -> bool {
    exists|y: int, x: int|
        0 <= y < shape.len() && 0 <= x < shape.len() && #[trigger] block_at(shape, y, x) && (py + y
            >= GRID_HEIGHT - 1 || g.occupied(py + y + 1, px + x))
}

/// The grid cell at row `yy`, column `xx` lies under a block of a shape
/// standing at column `px`, row `py`.
pub open spec fn covers(shape: Seq<Seq<u8>>, px: int, py: int, yy: int, xx: int) -> bool {
    &&& py <= yy < py + shape.len()
    &&& px <= xx < px + shape.len()
    &&& block_at(shape, yy - py, xx - px)
}

/// The same, restricted to the blocks that a row-major scan has already
/// visited: those in a shape row before `rows`, or in shape row `rows` at a
/// column before `cols`.
pub open spec fn covers_before(
    shape: Seq<Seq<u8>>,
    px: int,
    py: int,
    yy: int,
    xx: int,
    rows: int,
    cols: int,
) -> bool {
    &&& covers(shape, px, py, yy, xx)
    &&& (yy - py < rows || (yy - py == rows && xx - px < cols))
}

/// Every well-formed piece stands with its top row strictly above the grid's
/// lower edge.
pub proof fn lemma_pos_y_bound(p: Piece)
    requires
        p.wf(),
    ensures
        p.pos_y() < GRID_HEIGHT,
{
    let n = p.shape_view().len();
    let (yb, xb) = choose|yb: int, xb: int|
        0 <= yb < n && 0 <= xb < n && #[trigger] block_at(p.shape_view(), yb, xb);
    assert(p.pos_y() + yb < GRID_HEIGHT);
}

/// Whether moving the piece one column to the left would overlap a settled
/// cell.
pub fn check_pieces_collision_left(piece: &Piece, gamestate: &Gamestate) -> (r: bool)
    requires
        piece.wf(),
        gamestate.wf(),
        piece.position.0 >= 1,
    ensures
        r == collides_left(piece.shape_view(), piece.pos_x(), piece.pos_y(), *gamestate),
{
    let n = piece.shape.len();
    let mut y: usize = 0;
    while y < n
        invariant
            piece.wf(),
            gamestate.wf(),
            piece.position.0 >= 1,
            y <= n,
            n == piece.shape_view().len(),
            forall|r2: int|
                0 <= r2 < y ==> !(#[trigger] block_at(piece.shape_view(), r2, 0)
                    && gamestate.occupied(piece.pos_y() + r2, piece.pos_x() - 1)),
        decreases n - y,
    {
        proof {
            assert(piece.shape_view()[y as int] =~= piece.shape@[y as int]@);
        }
        if piece.shape[y][0] == 1 {
            proof {
                lemma_pos_y_bound(*piece);
                assert(block_at(piece.shape_view(), y as int, 0));
            }
            let row_index = (piece.position.1 + y as i32) as usize;
            proof {
                assert(gamestate.grid()[row_index as int] =~= gamestate.area@[row_index as int]@);
            }
            if gamestate.area[row_index][(piece.position.0 - 1) as usize] == 1 {
                return true;
            }
        }
        y = y + 1;
    }
    false
}

/// Whether moving the piece one column to the right would overlap a settled
/// cell.
pub fn check_pieces_collision_right(piece: &Piece, gamestate: &Gamestate) -> (r: bool)
    requires
        piece.wf(),
        gamestate.wf(),
        piece.position.0 + piece.shape_width <= GRID_WIDTH - 1,
    ensures
        r == collides_right(piece.shape_view(), piece.pos_x(), piece.pos_y(), *gamestate),
{
    let n = piece.shape.len();
    let mut y: usize = 0;
    while y < n
        invariant
            piece.wf(),
            gamestate.wf(),
            piece.position.0 + piece.shape_width <= GRID_WIDTH - 1,
            y <= n,
            n == piece.shape_view().len(),
            forall|r2: int|
                0 <= r2 < y ==> !(#[trigger] block_at(piece.shape_view(), r2, n - 1)
                    && gamestate.occupied(piece.pos_y() + r2, piece.pos_x() + n)),
        decreases n - y,
    {
        proof {
            assert(piece.shape_view()[y as int] =~= piece.shape@[y as int]@);
        }
        if piece.shape[y][n - 1] == 1 {
            proof {
                lemma_pos_y_bound(*piece);
                assert(block_at(piece.shape_view(), y as int, n - 1));
            }
            let row_index = (piece.position.1 + y as i32) as usize;
            proof {
                assert(gamestate.grid()[row_index as int] =~= gamestate.area@[row_index as int]@);
            }
            if gamestate.area[row_index][(piece.position.0 + piece.shape_width) as usize] == 1 {
                return true;
            }
        }
        y = y + 1;
    }
    false
}

/// Whether moving the piece one row down would overlap a settled cell.
pub fn check_pieces_collision_down(piece: &Piece, gamestate: &Gamestate) -> (r: bool)
    requires
        piece.wf(),
        gamestate.wf(),
        piece.position.1 + piece.shape_view().len() <= GRID_HEIGHT - 1,
    ensures
        r == collides_down(piece.shape_view(), piece.pos_x(), piece.pos_y(), *gamestate),
{
    let n = piece.shape.len();
    let mut y: usize = 0;
    while y < n
        invariant
            piece.wf(),
            gamestate.wf(),
            piece.position.1 + n <= GRID_HEIGHT - 1,
            y <= n,
            n == piece.shape_view().len(),
            forall|a: int, b: int|
                0 <= a < y && 0 <= b < n ==> !(#[trigger] block_at(piece.shape_view(), a, b)
                    && gamestate.occupied(piece.pos_y() + a + 1, piece.pos_x() + b)),
        decreases n - y,
    {
        proof {
            assert(piece.shape_view()[y as int] =~= piece.shape@[y as int]@);
        }
        let mut x: usize = 0;
        while x < n
            invariant
                piece.wf(),
                gamestate.wf(),
                piece.position.1 + n <= GRID_HEIGHT - 1,
                y < n,
                x <= n,
                n == piece.shape_view().len(),
                piece.shape_view()[y as int] == piece.shape@[y as int]@,
                forall|a: int, b: int|
                    0 <= a < y && 0 <= b < n ==> !(#[trigger] block_at(piece.shape_view(), a, b)
                        && gamestate.occupied(piece.pos_y() + a + 1, piece.pos_x() + b)),
                forall|b: int|
                    0 <= b < x ==> !(#[trigger] block_at(piece.shape_view(), y as int, b)
                        && gamestate.occupied(piece.pos_y() + y + 1, piece.pos_x() + b)),
            decreases n - x,
        {
            if piece.shape[y][x] == 1 {
                proof {
                    assert(block_at(piece.shape_view(), y as int, x as int));
                }
                let row_index = (piece.position.1 + y as i32 + 1) as usize;
                proof {
                    assert(gamestate.grid()[row_index as int] =~= gamestate.area@[
                        row_index as int]@);
                }
                if gamestate.area[row_index][(piece.position.0 + x as i32) as usize] == 1 {
                    return true;
                }
            }
            x = x + 1;
        }
        y = y + 1;
    }
    false
}

/// Writes every block of the piece into the grid as a settled cell. Cells
/// outside the piece's blocks keep their value; the landed flag is untouched.
pub fn store_piece_to_game_state(piece: &Piece, gamestate: &mut Gamestate)
    requires
        piece.wf(),
        old(gamestate).wf(),
    ensures
        final(gamestate).wf(),
        final(gamestate).store == old(gamestate).store,
        forall|yy: int, xx: int|
            0 <= yy < GRID_HEIGHT && 0 <= xx < GRID_WIDTH ==> #[trigger] final(gamestate).cell(
                yy,
                xx,
            ) == (if covers(piece.shape_view(), piece.pos_x(), piece.pos_y(), yy, xx) {
                1i32
            } else {
                old(gamestate).cell(yy, xx)
            }),
{
    let ghost g0 = *old(gamestate);
    let ghost shape = piece.shape_view();
    let ghost px = piece.pos_x();
    let ghost py = piece.pos_y();
    let n = piece.shape.len();
    let mut y: usize = 0;
    while y < n
        invariant
            piece.wf(),
            gamestate.wf(),
            g0.wf(),
            gamestate.store == g0.store,
            y <= n,
            n == shape.len(),
            shape == piece.shape_view(),
            px == piece.pos_x(),
            py == piece.pos_y(),
            forall|yy: int, xx: int|
                0 <= yy < GRID_HEIGHT && 0 <= xx < GRID_WIDTH ==> #[trigger] gamestate.cell(yy, xx)
                    == (if covers_before(shape, px, py, yy, xx, y as int, 0) {
                    1i32
                } else {
                    g0.cell(yy, xx)
                }),
        decreases n - y,
    {
        proof {
            assert(piece.shape_view()[y as int] =~= piece.shape@[y as int]@);
        }
        let mut x: usize = 0;
        while x < n
            invariant
                piece.wf(),
                gamestate.wf(),
                g0.wf(),
                gamestate.store == g0.store,
                y < n,
                x <= n,
                n == shape.len(),
                shape == piece.shape_view(),
                px == piece.pos_x(),
                py == piece.pos_y(),
                piece.shape_view()[y as int] == piece.shape@[y as int]@,
                forall|yy: int, xx: int|
                    0 <= yy < GRID_HEIGHT && 0 <= xx < GRID_WIDTH ==> #[trigger] gamestate.cell(
                        yy,
                        xx,
                    ) == (if covers_before(shape, px, py, yy, xx, y as int, x as int) {
                        1i32
                    } else {
                        g0.cell(yy, xx)
                    }),
            decreases n - x,
        {
            if piece.shape[y][x] == 1 {
                proof {
                    assert(block_at(shape, y as int, x as int));
                    lemma_pos_y_bound(*piece);
                }
                let ghost pre = *gamestate;
                let row_index = (piece.position.1 + y as i32) as usize;
                let col_index = (piece.position.0 + x as i32) as usize;
                proof {
                    assert(gamestate.grid()[row_index as int] =~= gamestate.area@[
                        row_index as int]@);
                }
                gamestate.area[row_index][col_index] = 1;
                proof {
                    assert(gamestate.grid()[row_index as int] =~= gamestate.area@[
                        row_index as int]@);
                    assert forall|r2: int| 0 <= r2 < gamestate.grid().len() implies (
                    #[trigger] gamestate.grid()[r2]).len() == GRID_WIDTH by {
                        assert(gamestate.grid()[r2] == gamestate.area@[r2].deep_view());
                        assert(pre.grid()[r2] == pre.area@[r2].deep_view());
                        if r2 != row_index as int {
                            assert(gamestate.area@[r2] == pre.area@[r2]);
                        }
                    }
                    assert forall|yy: int, xx: int|
                        0 <= yy < GRID_HEIGHT && 0 <= xx < GRID_WIDTH implies #[trigger] gamestate
                        .cell(yy, xx) == (if covers_before(
                        shape,
                        px,
                        py,
                        yy,
                        xx,
                        y as int,
                        x + 1 as int,
                    ) {
                        1i32
                    } else {
                        g0.cell(yy, xx)
                    }) by {
                        if yy != row_index as int {
                            assert(gamestate.grid()[yy] == gamestate.area@[yy].deep_view());
                            assert(pre.grid()[yy] == pre.area@[yy].deep_view());
                            assert(gamestate.area@[yy] == pre.area@[yy]);
                            assert(gamestate.cell(yy, xx) == pre.cell(yy, xx));
                        } else if xx != col_index as int {
                            assert(gamestate.cell(yy, xx) == pre.cell(yy, xx));
                        } else {
                            assert(gamestate.cell(yy, xx) == 1);
                            assert(covers_before(shape, px, py, yy, xx, y as int, x + 1 as int));
                        }
                    }
                }
            } else {
                proof {
                    assert(!block_at(shape, y as int, x as int));
                    assert forall|yy: int, xx: int|
                        0 <= yy < GRID_HEIGHT && 0 <= xx < GRID_WIDTH implies #[trigger] gamestate
                        .cell(yy, xx) == (if covers_before(
                        shape,
                        px,
                        py,
                        yy,
                        xx,
                        y as int,
                        x + 1 as int,
                    ) {
                        1i32
                    } else {
                        g0.cell(yy, xx)
                    }) by {}
                }
            }
            x = x + 1;
        }
        y = y + 1;
    }
    proof {
        assert forall|yy: int, xx: int|
            0 <= yy < GRID_HEIGHT && 0 <= xx < GRID_WIDTH implies #[trigger] gamestate.cell(yy, xx)
            == (if covers(shape, px, py, yy, xx) {
            1i32
        } else {
            g0.cell(yy, xx)
        }) by {}
    }
}

/// The shape after the requested move is applied: rotated a quarter turn for
/// `Up`, unchanged otherwise.
pub open spec fn shape_after_input(p: Piece) -> Seq<Seq<u8>> {
    if p.direction is Up {
        rotated(p.shape_view())
    } else {
        p.shape_view()
    }
}

/// The position after the requested move is applied. A `Left`, `Right` or
/// `Down` move is dropped when it would leave the grid or overlap a settled
/// cell; `Up` and `Idle` leave the position alone.
pub open spec fn position_after_input(p: Piece, g: Gamestate) -> (int, int) {
    let px = p.pos_x();
    let py = p.pos_y();
    let n = p.shape_view().len();
    match p.direction {
        Direction::Left => if px == 0 || collides_left(p.shape_view(), px, py, g) {
            (px, py)
        } else {
            (px - 1, py)
        },
        Direction::Right => if px + p.shape_width == GRID_WIDTH || collides_right(
            p.shape_view(),
            px,
            py,
            g,
        ) {
            (px, py)
        } else {
            (px + 1, py)
        },
        Direction::Down => if py + n >= GRID_HEIGHT - 1 || collides_down(
            p.shape_view(),
            px,
            py,
            g,
        ) {
            (px, py)
        } else {
            (px, py + 1)
        },
        Direction::Up => (px, py),
        Direction::Idle => (px, py),
    }
}

/// The landed flag after the move: once set it stays set, and it becomes set
/// exactly when the moved piece rests on the grid's bottom row or on a
/// settled cell.
pub open spec fn store_flag_after_input(p: Piece, g: Gamestate) -> bool {
    g.store || landed(
        shape_after_input(p),
        position_after_input(p, g).0,
        position_after_input(p, g).1,
        g,
    )
}

/// Restriction of `landed` to the blocks that a row-major scan has already
/// visited: those in a shape row before `rows`, or in shape row `rows` at a
/// column before `cols`.
pub open spec fn landed_before(
    shape: Seq<Seq<u8>>,
    px: int,
    py: int,
    g: Gamestate,
    rows: int,
    cols: int,
) -> bool {
    exists|a: int, b: int|
        0 <= a < shape.len() && 0 <= b < shape.len() && #[trigger] block_at(shape, a, b) && (a
            < rows || (a == rows && b < cols)) && (py + a >= GRID_HEIGHT - 1 || g.occupied(
            py + a + 1,
            px + b,
        ))
}

/// After a rotation at the piece's current row, every block of the rotated
/// shape would still lie above the grid's lower edge.
pub open spec fn rotation_stays_on_grid(p: Piece) -> bool {
    forall|y: int, x: int|
        0 <= y < p.shape_view().len() && 0 <= x < p.shape_view().len() && #[trigger] block_at(
            rotated(p.shape_view()),
            y,
            x,
        ) ==> p.pos_y() + y < GRID_HEIGHT
}

/// Runtime check of `rotation_stays_on_grid`: whether a rotation at the
/// piece's current row would keep every block above the grid's lower edge.
pub fn rotation_fits(piece: &Piece) -> (r: bool)
    requires
        piece.wf(),
    ensures
        r == rotation_stays_on_grid(*piece),
{
    let ghost shape = piece.shape_view();
    let n = piece.shape.len();
    proof {
        lemma_pos_y_bound(*piece);
    }
    let mut y: usize = 0;
    while y < n
        invariant
            piece.wf(),
            y <= n,
            n == shape.len(),
            shape == piece.shape_view(),
            forall|a: int, b: int|
                0 <= a < y && 0 <= b < n ==> !(#[trigger] block_at(rotated(shape), a, b)
                    && piece.pos_y() + a >= GRID_HEIGHT),
        decreases n - y,
    {
        let mut x: usize = 0;
        while x < n
            invariant
                piece.wf(),
                y < n,
                x <= n,
                n == shape.len(),
                shape == piece.shape_view(),
                forall|a: int, b: int|
                    0 <= a < y && 0 <= b < n ==> !(#[trigger] block_at(rotated(shape), a, b)
                        && piece.pos_y() + a >= GRID_HEIGHT),
                forall|b: int|
                    0 <= b < x ==> !(#[trigger] block_at(rotated(shape), y as int, b)
                        && piece.pos_y() + y >= GRID_HEIGHT),
            decreases n - x,
        {
            proof {
                assert(piece.shape_view()[x as int] =~= piece.shape@[x as int]@);
            }
            if piece.shape[x][n - 1 - y] == 1 {
                proof {
                    assert(block_at(rotated(shape), y as int, x as int));
                }
                if piece.position.1 + (y as i32) >= GRID_HEIGHT {
                    return false;
                }
            } else {
                proof {
                    assert(!block_at(rotated(shape), y as int, x as int));
                }
            }
            x = x + 1;
        }
        y = y + 1;
    }
    true
}

/// One step of the game loop: apply the piece's pending move, detect whether
/// the piece has landed, and every fourth call either let the piece fall one
/// row or stamp it into the grid and respawn it at the top.
pub fn update_piece(piece: &mut Piece, gamestate: &mut Gamestate)
    requires
        old(piece).wf(),
        old(gamestate).wf(),
        1 <= old(piece).steps <= 3,
        old(piece).direction is Up ==> rotation_stays_on_grid(*old(piece)),
        old(piece).steps == 3 && store_flag_after_input(*old(piece), *old(gamestate))
            ==> spawn_column() + old(piece).shape_width <= GRID_WIDTH,
    ensures
        final(piece).wf(),
        final(gamestate).wf(),
        final(piece).direction is Idle,
        final(piece).shape_view() == shape_after_input(*old(piece)),
        final(piece).shape_width == old(piece).shape_width,
        1 <= final(piece).steps <= 3,
        old(piece).steps < 3 ==> final(piece).steps == old(piece).steps + 1,
        old(piece).steps == 3 ==> final(piece).steps == 1,
        old(piece).steps < 3 ==> (final(piece).pos_x() == position_after_input(
            *old(piece),
            *old(gamestate),
        ).0 && final(piece).pos_y() == position_after_input(*old(piece), *old(gamestate)).1
            && final(gamestate).store == store_flag_after_input(*old(piece), *old(gamestate))
            && final(gamestate).grid() == old(gamestate).grid()),
        old(piece).steps == 3 && !store_flag_after_input(*old(piece), *old(gamestate)) ==> (final(
            piece
        ).pos_x() == position_after_input(*old(piece), *old(gamestate)).0 && final(piece).pos_y()
            == position_after_input(*old(piece), *old(gamestate)).1 + 1 && !final(gamestate).store
            && final(gamestate).grid() == old(gamestate).grid()),
        old(piece).steps == 3 && store_flag_after_input(*old(piece), *old(gamestate)) ==> (final(
            piece
        ).pos_x() == spawn_column() && final(piece).pos_y() == 0 && !final(gamestate).store)
            && forall|yy: int, xx: int|
            0 <= yy < GRID_HEIGHT && 0 <= xx < GRID_WIDTH ==> #[trigger] final(gamestate).cell(
                yy,
                xx,
            ) == (if covers(
                shape_after_input(*old(piece)),
                position_after_input(*old(piece), *old(gamestate)).0,
                position_after_input(*old(piece), *old(gamestate)).1,
                yy,
                xx,
            ) {
                1i32
            } else {
                old(gamestate).cell(yy, xx)
            }),
{
    let ghost p0 = *old(piece);
    let ghost g0 = *old(gamestate);
    match piece.direction {
        Direction::Left => {
            if piece.position.0 == 0 || check_pieces_collision_left(piece, gamestate) {
            } else {
                piece.position = (piece.position.0 - 1, piece.position.1);
            }
        },
        Direction::Right => {
            if piece.position.0 + piece.shape_width == GRID_WIDTH || check_pieces_collision_right(
                piece,
                gamestate,
            ) {
            } else {
                piece.position = (piece.position.0 + 1, piece.position.1);
            }
        },
        Direction::Down => {
            proof {
                lemma_pos_y_bound(*piece);
            }
            let n = piece.shape.len();
            if piece.position.1 + (n as i32) >= GRID_HEIGHT - 1 || check_pieces_collision_down(
                piece,
                gamestate,
            ) {
            } else {
                piece.position = (piece.position.0, piece.position.1 + 1);
            }
        },
        Direction::Up => {
            let rotated_shape = rotate(&piece.shape);
            piece.shape = rotated_shape;
            proof {
                lemma_rotated_wf(p0.shape_view());
            }
        },
        Direction::Idle => {},
    }
    piece.direction = Direction::Idle;
    proof {
        assert(piece.wf());
        assert(piece.shape_view() == shape_after_input(p0));
        assert(piece.pos_x() == position_after_input(p0, g0).0);
        assert(piece.pos_y() == position_after_input(p0, g0).1);
    }
    let ghost p1 = *piece;
    if !gamestate.store {
        let n = piece.shape.len();
        let mut y: usize = 0;
        while y < n
            invariant
                piece.wf(),
                gamestate.wf(),
                g0.wf(),
                *piece == p1,
                gamestate.area@ == g0.area@,
                y <= n,
                n == p1.shape_view().len(),
                gamestate.store == landed_before(
                    p1.shape_view(),
                    p1.pos_x(),
                    p1.pos_y(),
                    g0,
                    y as int,
                    0,
                ),
            decreases n - y,
        {
            proof {
                assert(piece.shape_view()[y as int] =~= piece.shape@[y as int]@);
            }
            let mut x: usize = 0;
            while x < n
                invariant
                    piece.wf(),
                    gamestate.wf(),
                    g0.wf(),
                    *piece == p1,
                    gamestate.area@ == g0.area@,
                    y < n,
                    x <= n,
                    n == p1.shape_view().len(),
                    piece.shape_view()[y as int] == piece.shape@[y as int]@,
                    gamestate.store == landed_before(
                        p1.shape_view(),
                        p1.pos_x(),
                        p1.pos_y(),
                        g0,
                        y as int,
                        x as int,
                    ),
                decreases n - x,
            {
                if piece.shape[y][x] == 1 {
                    proof {
                        assert(block_at(p1.shape_view(), y as int, x as int));
                        lemma_pos_y_bound(*piece);
                    }
                    if piece.position.1 + (y as i32) >= GRID_HEIGHT - 1 {
                        gamestate.store = true;
                    } else {
                        let row_index = (piece.position.1 + y as i32 + 1) as usize;
                        proof {
                            assert(gamestate.grid()[row_index as int] =~= gamestate.area@[
                                row_index as int]@);
                            assert(g0.grid()[row_index as int] =~= g0.area@[row_index as int]@);
                        }
                        if gamestate.area[row_index][(piece.position.0 + x as i32) as usize] == 1 {
                            gamestate.store = true;
                        }
                    }
                }
                x = x + 1;
            }
            y = y + 1;
        }
        proof {
            assert(gamestate.store == landed(p1.shape_view(), p1.pos_x(), p1.pos_y(), g0));
        }
    }
    proof {
        assert(gamestate.store == store_flag_after_input(p0, g0));
    }
    piece.steps = piece.steps + 1;
    if piece.steps == 4 {
        if gamestate.store {
            store_piece_to_game_state(piece, gamestate);
            let ghost mid = *gamestate;
            piece.position = (GRID_WIDTH / 2 - 2, 0);
            gamestate.store = false;
            proof {
                assert forall|yy: int, xx: int|
                    0 <= yy < GRID_HEIGHT && 0 <= xx < GRID_WIDTH implies #[trigger] gamestate.cell(
                    yy,
                    xx,
                ) == (if covers(p1.shape_view(), p1.pos_x(), p1.pos_y(), yy, xx) {
                    1i32
                } else {
                    g0.cell(yy, xx)
                }) by {
                    assert(gamestate.cell(yy, xx) == mid.cell(yy, xx));
                }
            }
        } else {
            proof {
                lemma_pos_y_bound(*piece);
                assert forall|a: int, b: int|
                    0 <= a < p1.shape_view().len() && 0 <= b < p1.shape_view().len()
                        && #[trigger] block_at(p1.shape_view(), a, b) implies p1.pos_y() + a
                    < GRID_HEIGHT - 1 by {
                    assert(!landed(p1.shape_view(), p1.pos_x(), p1.pos_y(), g0));
                }
            }
            piece.position = (piece.position.0, piece.position.1 + 1);
        }
        piece.steps = 1;
    }
}

} // verus!
