//! The cells of the world grid.

use vstd::prelude::*;

verus! {

/// One cell of the grid. Floor and wall carry their colour as a packed
/// 24-bit RGB value; an empty cell has none and is never drawn.
#[derive(Clone, Copy, Debug, PartialEq, Eq, Structural)]
pub enum Block {
    Empty,
    Wall { color: u32 },
    Floor { color: u32 },
}

impl Block {
    /// The colour a cell is drawn in, if it is drawn at all.
    pub open spec fn paint(self) -> Option<u32> {
        match self {
            Block::Empty => None,
            Block::Wall { color } => Some(color),
            Block::Floor { color } => Some(color),
        }
    }

    /// The colour to draw this cell in, or `None` for an empty cell.
    pub fn color(&self) -> (c: Option<u32>)
        ensures
            c == self.paint(),
    {
        match self {
            Block::Empty => None,
            Block::Wall { color } => Some(*color),
            Block::Floor { color } => Some(*color),
        }
    }
}

} // verus!
