//! The falling piece: its shape, position and pending move.

use vstd::prelude::*;
use vstd::assert_by_contradiction;
use crate::board::spawn_column;
use crate::board::GRID_HEIGHT;
use crate::board::GRID_WIDTH;

verus! {

/// The move requested for the next update step. `Up` asks for a rotation,
/// `Idle` for no move at all.
#[derive(Debug, Clone, Copy, PartialEq, Eq, Structural)]
pub enum Direction {
    Up,
    Down,
    Left,
    Right,
    Idle,
}

/// The falling piece. `shape` is a square grid of cells, `1` where the piece
/// has a block and `0` where it is empty; `position` is the grid coordinate
/// (column, row) of the shape's top-left corner; `shape_width` is the side
/// length of the shape; `steps` counts update calls since the last automatic
/// descent.
#[derive(Debug)]
pub struct Piece {
    pub position: (i32, i32),
    pub shape: Vec<Vec<u8>>,
    pub shape_width: i32,
    pub direction: Direction,
    pub steps: u8,
}

/// Whether the shape has a block in row `y`, column `x`.
pub open spec fn block_at(shape: Seq<Seq<u8>>, y: int, x: int) -> bool {
    shape[y][x] == 1
}

/// The shape is a non-empty square grid: every row is as long as the list of
/// rows, and at least one cell holds a block.
pub open spec fn shape_wf(shape: Seq<Seq<u8>>) -> bool {
    &&& shape.len() >= 1
    &&& forall|y: int| 0 <= y < shape.len() ==> (#[trigger] shape[y]).len() == shape.len()
    &&& exists|y: int, x: int|
        0 <= y < shape.len() && 0 <= x < shape.len() && #[trigger] block_at(shape, y, x)
}

/// The shape turned a quarter turn clockwise: row `y` of the result reads
/// column `n - 1 - y` of the input from top to bottom.
pub open spec fn rotated(shape: Seq<Seq<u8>>) -> Seq<Seq<u8>> {
    Seq::new(
        shape.len(),
        |y: int| Seq::new(shape.len(), |x: int| shape[x][shape.len() - 1 - y]),
    )
}

/// Rotating a well-formed shape yields a well-formed shape, and the blocks
/// of the result are exactly the blocks of the input, each moved from
/// `(y, x)` to `(x, n - 1 - y)`.
pub proof fn lemma_rotated_wf(shape: Seq<Seq<u8>>)
    requires
        shape_wf(shape),
    ensures
        shape_wf(rotated(shape)),
        rotated(shape).len() == shape.len(),
        forall|y: int, x: int|
            0 <= y < shape.len() && 0 <= x < shape.len()
                ==> (#[trigger] block_at(rotated(shape), y, x) <==> block_at(
                shape,
                x,
                shape.len() - 1 - y,
            )),
{
    let n = shape.len();
    let r = rotated(shape);
    assert(forall|y: int, x: int|
        0 <= y < n && 0 <= x < n ==> (#[trigger] block_at(r, y, x) <==> block_at(
            shape,
            x,
            n - 1 - y,
        )));
    let (yb, xb) = choose|yb: int, xb: int|
        0 <= yb < n && 0 <= xb < n && #[trigger] block_at(shape, yb, xb);
    assert(block_at(r, n - 1 - xb, yb));
}

/// A full turn is the identity: rotating a square shape four times gives
/// back the original shape.
pub proof fn lemma_rotate_four_is_identity(shape: Seq<Seq<u8>>)
    requires
        forall|y: int| 0 <= y < shape.len() ==> (#[trigger] shape[y]).len() == shape.len(),
    ensures
        rotated(rotated(rotated(rotated(shape)))) == shape,
{
    let n = shape.len();
    let r2 = rotated(rotated(shape));
    assert forall|y: int, x: int| 0 <= y < n && 0 <= x < n implies #[trigger] r2[y][x]
        == shape[n - 1 - y][n - 1 - x] by {}
    let r4 = rotated(rotated(r2));
    assert forall|y: int, x: int| 0 <= y < n && 0 <= x < n implies #[trigger] r4[y][x]
        == shape[y][x] by {
        assert(r4[y][x] == r2[n - 1 - y][n - 1 - x]);
    }
    assert(r4 =~~= shape);
}

/// The stock shape: a 3 x 3 grid with a T of blocks in its two upper rows
/// and an empty bottom row.
pub fn standard_shape() -> (s: Vec<Vec<u8>>)
    ensures
        s.deep_view() == seq![
            seq![0u8, 1u8, 0u8],
            seq![1u8, 1u8, 1u8],
            seq![0u8, 0u8, 0u8],
        ],
        shape_wf(s.deep_view()),
{
    let s = vec![
        vec![0u8, 1u8, 0u8],
        vec![1u8, 1u8, 1u8],
        vec![0u8, 0u8, 0u8],
    ];
    proof {
        assert(s.deep_view() =~~= seq![
            seq![0u8, 1u8, 0u8],
            seq![1u8, 1u8, 1u8],
            seq![0u8, 0u8, 0u8],
        ]);
        assert(block_at(s.deep_view(), 0, 1));
    }
    s
}

/// A quarter-turn clockwise rotation of a square shape grid.
pub fn rotate(piece: &Vec<Vec<u8>>) -> (r: Vec<Vec<u8>>)
    requires
        forall|y: int| 0 <= y < piece.deep_view().len() ==> (#[trigger] piece.deep_view()[y]).len()
            == piece.deep_view().len(),
    ensures
        r.deep_view() == rotated(piece.deep_view()),
{
    let n = piece.len();
    let mut piece_rotated: Vec<Vec<u8>> = Vec::new();
    let mut y: usize = 0;
    while y < n
        invariant
            y <= n,
            n == piece.deep_view().len(),
            forall|r2: int| 0 <= r2 < n ==> (#[trigger] piece.deep_view()[r2]).len() == n,
            piece_rotated.deep_view().len() == y,
            forall|r2: int| 0 <= r2 < y ==> (#[trigger] piece_rotated.deep_view()[r2]).len() == n,
            forall|r2: int, c: int|
                0 <= r2 < y && 0 <= c < n ==> #[trigger] piece_rotated.deep_view()[r2][c]
                    == piece.deep_view()[c][n - 1 - r2],
        decreases n - y,
    {
        let mut row: Vec<u8> = Vec::new();
        let mut x: usize = 0;
        while x < n
            invariant
                x <= n,
                y < n,
                n == piece.deep_view().len(),
                forall|r2: int| 0 <= r2 < n ==> (#[trigger] piece.deep_view()[r2]).len() == n,
                row@.len() == x,
                forall|c: int| 0 <= c < x ==> #[trigger] row@[c] == piece.deep_view()[c][n - 1 - y],
            decreases n - x,
        {
            proof {
                assert(piece.deep_view()[x as int] =~= piece@[x as int]@);
            }
            row.push(piece[x][n - 1 - y]);
            x = x + 1;
        }
        let ghost pre = piece_rotated.deep_view();
        piece_rotated.push(row);
        proof {
            assert forall|r2: int| 0 <= r2 < y + 1 implies (
            #[trigger] piece_rotated.deep_view()[r2]).len() == n by {
                if r2 < y {
                    assert(piece_rotated.deep_view()[r2] == pre[r2]);
                } else {
                    assert(piece_rotated.deep_view()[r2] =~= row@);
                }
            }
            assert forall|r2: int, c: int|
                0 <= r2 < y + 1 && 0 <= c < n implies #[trigger] piece_rotated.deep_view()[r2][c]
                == piece.deep_view()[c][n - 1 - r2] by {
                if r2 < y {
                    assert(piece_rotated.deep_view()[r2] == pre[r2]);
                } else {
                    assert(piece_rotated.deep_view()[r2] =~= row@);
                }
            }
        }
        y = y + 1;
    }
    proof {
        assert(piece_rotated.deep_view() =~~= rotated(piece.deep_view()));
    }
    piece_rotated
}

impl Piece {
    /// The shape as a mathematical sequence of rows.
    pub open spec fn shape_view(&self) -> Seq<Seq<u8>> {
        self.shape.deep_view()
    }

    /// The column of the shape's top-left corner.
    pub open spec fn pos_x(&self) -> int {
        self.position.0 as int
    }

    /// The row of the shape's top-left corner.
    pub open spec fn pos_y(&self) -> int {
        self.position.1 as int
    }

    /// The piece is well formed: its shape is a non-empty square whose side
    /// length `shape_width` records, its bounding box lies inside the grid
    /// horizontally, and every block lies inside the grid vertically. The
    /// bounding box may reach below the grid, as long as its rows there are
    /// empty.
    pub open spec fn wf(&self) -> bool {
        &&& shape_wf(self.shape_view())
        &&& self.shape_width == self.shape_view().len()
        &&& 0 <= self.pos_x()
        &&& self.pos_x() + self.shape_width <= GRID_WIDTH
        &&& 0 <= self.pos_y()
        &&& forall|y: int, x: int|
            0 <= y < self.shape_view().len() && 0 <= x < self.shape_view().len()
                && #[trigger] block_at(self.shape_view(), y, x)
                ==> self.pos_y() + y < GRID_HEIGHT
    }

    /// A piece standing at the spawn column on the top row, with no pending
    /// move and a fresh step counter.
    pub fn spawn(shape: Vec<Vec<u8>>) -> (p: Piece)
        requires
            shape_wf(shape.deep_view()),
            spawn_column() + shape.deep_view().len() <= GRID_WIDTH,
        ensures
            p.wf(),
            p.shape_view() == shape.deep_view(),
            p.shape_width == shape.deep_view().len(),
            p.pos_x() == spawn_column(),
            p.pos_y() == 0,
            p.direction is Idle,
            p.steps == 1,
    {
        let width = shape.len() as i32;
        Piece {
            position: (GRID_WIDTH / 2 - 2, 0),
            shape,
            shape_width: width,
            direction: Direction::Idle,
            steps: 1,
        }
    }

    /// Runtime check of `wf`: the shape is a non-empty square with at least
    /// one block, its recorded width matches, and the piece stands inside
    /// the grid.
    pub fn is_well_formed(&self) -> (r: bool)
        ensures
            r == self.wf(),
    {
        let n = self.shape.len();
        if n < 1 || n > 20 {
            return false;
        }
        if self.shape_width != n as i32 {
            return false;
        }
        if self.position.0 < 0 || self.position.0 > GRID_WIDTH {
            return false;
        }
        if self.position.0 + self.shape_width > GRID_WIDTH {
            return false;
        }
        if self.position.1 < 0 {
            return false;
        }
        let mut y: usize = 0;
        while y < n
            invariant
                y <= n,
                n == self.shape_view().len(),
                forall|r2: int| 0 <= r2 < y ==> (#[trigger] self.shape_view()[r2]).len() == n,
            decreases n - y,
        {
            proof {
                assert(self.shape_view()[y as int] =~= self.shape@[y as int]@);
            }
            if self.shape[y].len() != n {
                return false;
            }
            y = y + 1;
        }
        if self.position.1 >= GRID_HEIGHT {
            proof {
                assert_by_contradiction!(!self.wf(), {
                    let (a, b) = choose|a: int, b: int|
                        0 <= a < n && 0 <= b < n && #[trigger] block_at(self.shape_view(), a, b);
                    assert(self.pos_y() + a >= GRID_HEIGHT);
                });
            }
            return false;
        }
        let mut found = false;
        let mut y2: usize = 0;
        while y2 < n
            invariant
                y2 <= n,
                n <= 20,
                n == self.shape_view().len(),
                0 <= self.position.1 < GRID_HEIGHT,
                forall|r2: int| 0 <= r2 < n ==> (#[trigger] self.shape_view()[r2]).len() == n,
                found == exists|a: int, b: int|
                    0 <= a < y2 && 0 <= b < n && #[trigger] block_at(self.shape_view(), a, b),
                forall|a: int, b: int|
                    0 <= a < y2 && 0 <= b < n && #[trigger] block_at(self.shape_view(), a, b)
                        ==> self.pos_y() + a < GRID_HEIGHT,
            decreases n - y2,
        {
            proof {
                assert(self.shape_view()[y2 as int] =~= self.shape@[y2 as int]@);
            }
            let mut x: usize = 0;
            while x < n
                invariant
                    y2 < n,
                    x <= n,
                    n <= 20,
                    n == self.shape_view().len(),
                    0 <= self.position.1 < GRID_HEIGHT,
                    forall|r2: int| 0 <= r2 < n ==> (#[trigger] self.shape_view()[r2]).len() == n,
                    self.shape_view()[y2 as int] == self.shape@[y2 as int]@,
                    found == ((exists|a: int, b: int|
                        0 <= a < y2 && 0 <= b < n && #[trigger] block_at(self.shape_view(), a, b))
                        || (exists|b: int|
                        0 <= b < x && #[trigger] block_at(self.shape_view(), y2 as int, b))),
                    forall|a: int, b: int|
                        0 <= a < y2 && 0 <= b < n && #[trigger] block_at(self.shape_view(), a, b)
                            ==> self.pos_y() + a < GRID_HEIGHT,
                    forall|b: int|
                        0 <= b < x && #[trigger] block_at(self.shape_view(), y2 as int, b)
                            ==> self.pos_y() + y2 < GRID_HEIGHT,
                decreases n - x,
            {
                if self.shape[y2][x] == 1 {
                    proof {
                        assert(block_at(self.shape_view(), y2 as int, x as int));
                    }
                    found = true;
                    if self.position.1 + (y2 as i32) >= GRID_HEIGHT {
                        return false;
                    }
                }
                x = x + 1;
            }
            y2 = y2 + 1;
        }
        if !found {
            return false;
        }
        true
    }
}

} // verus!
