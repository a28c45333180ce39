//! The fixed-size grid that records which cells settled pieces occupy.

use vstd::prelude::*;

verus! {

/// Width of the grid, in cells.
pub const GRID_WIDTH: i32 = 20;

/// Height of the grid, in cells.
pub const GRID_HEIGHT: i32 = 30;

/// Side length of one cell, in pixels.
pub const BOX_SIZE: i32 = 20;

/// The column at which a freshly spawned or respawned piece stands, near the
/// middle of the grid.
pub open spec fn spawn_column() -> int {
    GRID_WIDTH as int / 2 - 2
}

/// The grid of settled cells, together with the flag that marks the falling
/// piece as landed. A cell holds `1` when it is occupied and `0` otherwise.
pub struct Gamestate {
    pub area: Vec<Vec<i32>>,
    pub store: bool,
}

impl Gamestate {
    /// The grid as a mathematical sequence of rows.
    pub open spec fn grid(&self) -> Seq<Seq<i32>> {
        self.area.deep_view()
    }

    /// The value stored in the cell at row `y`, column `x`.
    pub open spec fn cell(&self, y: int, x: int) -> i32 {
        self.grid()[y][x]
    }

    /// Whether the cell at row `y`, column `x` is occupied by a settled piece.
    pub open spec fn occupied(&self, y: int, x: int) -> bool {
        self.cell(y, x) == 1
    }

    /// The grid has exactly `GRID_HEIGHT` rows of exactly `GRID_WIDTH` cells.
    pub open spec fn wf(&self) -> bool {
        &&& self.grid().len() == GRID_HEIGHT
        &&& forall|y: int| 0 <= y < self.grid().len() ==> (#[trigger] self.grid()[y]).len() == GRID_WIDTH
    }

    /// An empty grid: every cell free, the landed flag cleared.
    pub fn new() -> (g: Gamestate)
        ensures
            g.wf(),
            !g.store,
            forall|y: int, x: int|
                0 <= y < GRID_HEIGHT && 0 <= x < GRID_WIDTH ==> #[trigger] g.cell(y, x) == 0,
    {
        let mut area: Vec<Vec<i32>> = Vec::new();
        let mut y: usize = 0;
        while y < 30
            invariant
                y <= 30,
                area.deep_view().len() == y,
                forall|r: int| 0 <= r < y ==> (#[trigger] area.deep_view()[r]).len() == GRID_WIDTH,
                forall|r: int, c: int|
                    0 <= r < y && 0 <= c < GRID_WIDTH ==> #[trigger] area.deep_view()[r][c] == 0,
            decreases 30 - y,
        {
            let mut row: Vec<i32> = Vec::new();
            let mut x: usize = 0;
            while x < 20
                invariant
                    x <= 20,
                    row@.len() == x,
                    forall|c: int| 0 <= c < x ==> #[trigger] row@[c] == 0,
                decreases 20 - x,
            {
                row.push(0);
                x = x + 1;
            }
            let ghost pre = area.deep_view();
            area.push(row);
            proof {
                assert forall|r: int| 0 <= r < y + 1 implies (
                    #[trigger] area.deep_view()[r]).len() == GRID_WIDTH by {
                    if r < y {
                        assert(area.deep_view()[r] == pre[r]);
                    } else {
                        assert(area.deep_view()[r] =~= row@);
                    }
                }
                assert forall|r: int, c: int|
                    0 <= r < y + 1 && 0 <= c < GRID_WIDTH implies #[trigger] area.deep_view()[r][c]
                    == 0 by {
                    if r < y {
                        assert(area.deep_view()[r] == pre[r]);
                    } else {
                        assert(area.deep_view()[r] =~= row@);
                    }
                }
            }
            y = y + 1;
        }
        Gamestate { area, store: false }
    }

    /// Runtime check of `wf`: the grid has its full height and every row its
    /// full width.
    pub fn is_well_formed(&self) -> (r: bool)
        ensures
            r == self.wf(),
    {
        if self.area.len() != 30 {
            return false;
        }
        let mut y: usize = 0;
        while y < 30
            invariant
                y <= 30,
                self.grid().len() == 30,
                forall|r2: int| 0 <= r2 < y ==> (#[trigger] self.grid()[r2]).len() == GRID_WIDTH,
            decreases 30 - y,
        {
            proof {
                assert(self.grid()[y as int] =~= self.area@[y as int]@);
            }
            if self.area[y].len() != 20 {
                return false;
            }
            y = y + 1;
        }
        true
    }
}

} // verus!
