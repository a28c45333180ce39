//! A toroidal Conway's-Life universe: a flat grid of cells and the live
//! neighbour count over its wrapped borders.

use vstd::prelude::*;

verus! {

/// A universe of `width * height` cells stored in one flat vector. A cell
/// holds `1` when it is alive and `0` otherwise.
#[derive(Debug)]
pub struct Universe {
    pub width: u32,
    pub height: u32,
    pub area: Vec<u8>,
}

impl Universe {
    /// The flat index that the universe's methods use for a pair of
    /// coordinates.
    pub open spec fn index_of(&self, x: int, y: int) -> int {
        x + y * self.width
    }

    /// The cell at flat index `i`.
    pub open spec fn cell(&self, i: int) -> u8 {
        self.area@[i]
    }

    /// The vector holds one cell for every coordinate of the grid.
    pub open spec fn wf(&self) -> bool {
        self.area@.len() == self.width * self.height
    }

    /// The sum of the eight neighbours of the cell at `row`, `column`, with
    /// the borders wrapped. Each neighbour is read at the flat index
    /// `index_of(neighbour_row, neighbour_column)`, as `live_neighbor_count`
    /// computes it.
    pub open spec fn neighbor_sum(&self, row: int, col: int) -> int {
        let h = self.height as int;
        let w = self.width as int;
        let up = (row + h - 1) % h;
        let down = (row + 1) % h;
        let left = (col + w - 1) % w;
        let right = (col + 1) % w;
        self.cell(self.index_of(up, left)) + self.cell(self.index_of(up, col)) + self.cell(
            self.index_of(up, right),
        ) + self.cell(self.index_of(row, left)) + self.cell(self.index_of(row, right)) + self.cell(
            self.index_of(down, left),
        ) + self.cell(self.index_of(down, col)) + self.cell(self.index_of(down, right))
    }

    /// A universe whose cell at flat index `i` is alive exactly when `i` is
    /// divisible by two or by seven.
    pub fn new(width: u32, height: u32) -> (u: Universe)
        requires
            width * height <= u32::MAX,
        ensures
            u.width == width,
            u.height == height,
            u.wf(),
            forall|i: int|
                0 <= i < u.area@.len() ==> #[trigger] u.area@[i] == (if i % 2 == 0 || i % 7 == 0 {
                    1u8
                } else {
                    0u8
                }),
    {
        let total = width * height;
        let mut area: Vec<u8> = Vec::new();
        let mut i: u32 = 0;
        while i < total
            invariant
                i <= total,
                area@.len() == i,
                forall|j: int|
                    0 <= j < i ==> #[trigger] area@[j] == (if j % 2 == 0 || j % 7 == 0 {
                        1u8
                    } else {
                        0u8
                    }),
            decreases total - i,
        {
            if i % 2 == 0 || i % 7 == 0 {
                area.push(1);
            } else {
                area.push(0);
            }
            i = i + 1;
        }
        Universe { width, height, area }
    }

    /// The flat index of the coordinate pair `(x, y)`.
    pub fn get_index(&self, x: u32, y: u32) -> (i: usize)
        requires
            x + y * self.width <= u32::MAX,
        ensures
            i == self.index_of(x as int, y as int),
    {
        (x + y * self.width) as usize
    }

    /// The number of live neighbours of the cell at `row`, `column`, with
    /// the borders wrapped around. The universe must be square: the count
    /// reads each neighbour at `index_of(neighbour_row, neighbour_column)`,
    /// and only a square grid keeps that index inside the vector.
    pub fn live_neighbor_count(&self, row: u32, column: u32) -> (count: u8)
        requires
            self.wf(),
            self.width == self.height,
            self.width * self.height <= u32::MAX,
            row < self.height,
            column < self.width,
            self.neighbor_sum(row as int, column as int) <= u8::MAX,
        ensures
            count == self.neighbor_sum(row as int, column as int),
    {
        let h = self.height;
        let w = self.width;
        proof {
            assert(2 * self.height <= u32::MAX) by (nonlinear_arith)
                requires
                    self.width == self.height,
                    self.width * self.height <= u32::MAX,
                    self.height >= 1,
            ;
        }
        let up = (row + (h - 1)) % h;
        let down = (row + 1) % h;
        let left = (column + (w - 1)) % w;
        let right = (column + 1) % w;
        let mut count: u8 = 0;
        count = count + self.read_cell(up, left);
        count = count + self.read_cell(up, column);
        count = count + self.read_cell(up, right);
        count = count + self.read_cell(row, left);
        count = count + self.read_cell(row, right);
        count = count + self.read_cell(down, left);
        count = count + self.read_cell(down, column);
        count = count + self.read_cell(down, right);
        count
    }

    /// The cell at coordinates `(x, y)` under the universe's flat indexing.
    fn read_cell(&self, x: u32, y: u32) -> (c: u8)
        requires
            self.wf(),
            self.width == self.height,
            self.width * self.height <= u32::MAX,
            x < self.height,
            y < self.width,
        ensures
            c == self.cell(self.index_of(x as int, y as int)),
    {
        proof {
            assert(x + y * self.width < self.width * self.height) by (nonlinear_arith)
                requires
                    x < self.height,
                    y < self.width,
                    self.width == self.height,
            ;
        }
        self.area[(x + y * self.width) as usize]
    }
}

} // verus!
