//! The grid of blocks, addressed by column and row, and its scaling to an
//! output surface.

use vstd::prelude::*;
use crate::block::Block;

verus! {

/// What a playground is: its blocks row after row, and how many columns and
/// rows they form.
pub struct Grid {
    pub tiles: Seq<Block>,
    pub width: nat,
    pub height: nat,
}

impl Grid {
    /// A grid has at least one column and one row, and a block for every cell.
    pub open spec fn wf(self) -> bool {
        &&& self.width > 0
        &&& self.height > 0
        &&& self.tiles.len() == self.width * self.height
    }

    /// Whether `(column, row)` names a cell of the grid.
    pub open spec fn contains(self, column: int, row: int) -> bool {
        0 <= column < self.width && 0 <= row < self.height
    }

    /// The block in `column` of `row`: rows lie one after the other.
    pub open spec fn at(self, column: int, row: int) -> Block {
        self.tiles[row * self.width + column]
    }

    /// The width and height of one tile on a surface of `size` pixels: each
    /// side of the surface divided evenly among the cells along it, rounded
    /// down.
    pub open spec fn scale(self, size: (u32, u32)) -> (u32, u32) {
        ((size.0 as int / self.width as int) as u32, (size.1 as int / self.height as int) as u32)
    }
}

/// Every cell of a grid has its own place in the row-major sequence.
pub proof fn lemma_cell_index(grid: Grid, column: int, row: int)
    requires
        grid.wf(),
        grid.contains(column, row),
    ensures
        0 <= row * grid.width + column < grid.tiles.len(),
        (row * grid.width + column) % (grid.width as int) == column,
        (row * grid.width + column) / (grid.width as int) == row,
{
    let w = grid.width as int;
    let h = grid.height as int;
    assert(0 <= row * w) by (nonlinear_arith)
        requires
            0 <= row,
            0 < w,
    ;
    assert(row * w + column < w * h) by (nonlinear_arith)
        requires
            0 <= row < h,
            0 <= column < w,
    ;
    vstd::arithmetic::div_mod::lemma_fundamental_div_mod_converse(row * w + column, w, row, column);
}

/// A request for a cell that the grid does not have.
#[derive(Clone, Copy, Debug, PartialEq, Eq, Structural)]
pub struct OutOfRange {
    pub column: usize,
    pub row: usize,
}

/// The world: a rectangle of blocks that never changes once it is built.
pub struct Playground {
    schema: Vec<Block>,
    height: usize,
    width: usize,
}

impl View for Playground {
    type V = Grid;

    closed spec fn view(&self) -> Grid {
        Grid { tiles: self.schema@, width: self.width as nat, height: self.height as nat }
    }
}

impl Playground {
    /// The invariant of every playground: its view is a grid whose sides and
    /// blocks can be counted in a `usize`.
    pub open spec fn wf(&self) -> bool {
        &&& self@.wf()
        &&& self@.width <= usize::MAX
        &&& self@.height <= usize::MAX
        &&& self@.tiles.len() <= usize::MAX
    }

    /// Builds the playground of `height` rows and `width` columns whose
    /// blocks are `schema`, row after row.
    pub fn new(schema: Vec<Block>, height: usize, width: usize) -> (playground: Self)
        requires
            width > 0,
            height > 0,
            schema@.len() == width * height,
        ensures
            playground.wf(),
            playground@ == (Grid { tiles: schema@, width: width as nat, height: height as nat }),
    {
        proof {
            assert(schema@.len() == schema.len());
        }
        Playground { schema, height, width }
    }

    /// The number of columns.
    pub fn width(&self) -> (w: usize)
        ensures
            w == self@.width,
    {
        self.width
    }

    /// The number of rows.
    pub fn height(&self) -> (h: usize)
        ensures
            h == self@.height,
    {
        self.height
    }

    /// The block in column `x` of row `y`, or the refusal of a coordinate
    /// that lies outside the grid.
    pub fn block_at(&self, x: usize, y: usize) -> (found: Result<Block, OutOfRange>)
        requires
            self.wf(),
        ensures
            self@.contains(x as int, y as int) ==> found == Ok::<Block, OutOfRange>(
                self@.at(x as int, y as int),
            ),
            !self@.contains(x as int, y as int) ==> found == Err::<Block, OutOfRange>(
                OutOfRange { column: x, row: y },
            ),
    {
        if x >= self.width || y >= self.height {
            return Err(OutOfRange { column: x, row: y });
        }
        proof {
            lemma_cell_index(self@, x as int, y as int);
            assert(0 <= y * self.width) by (nonlinear_arith);
            assert(self.schema@.len() == self.schema.len());
        }
        Ok(self.schema[y * self.width + x])
    }

    /// The size in pixels of one tile on an output surface of `size` pixels.
    /// A surface with fewer pixels than cells along a side gives tiles of
    /// size zero along it.
    pub fn scale_factor(&self, size: (u32, u32)) -> (scale: (u32, u32))
        requires
            self.wf(),
        ensures
            scale == self@.scale(size),
            scale.0 == size.0 as int / self@.width as int,
            scale.1 == size.1 as int / self@.height as int,
    {
        let dw = Self::share(size.0, self.width);
        let dh = Self::share(size.1, self.height);
        (dw, dh)
    }

    /// `pixels / cells`, rounded down.
    fn share(pixels: u32, cells: usize) -> (each: u32)
        requires
            cells > 0,
        ensures
            each == pixels as int / cells as int,
    {
        if cells > u32::MAX as usize {
            assert(pixels as int / cells as int == 0) by (nonlinear_arith)
                requires
                    0 <= pixels < cells,
            ;
            0
        } else {
            pixels / (cells as u32)
        }
    }
}

} // verus!
