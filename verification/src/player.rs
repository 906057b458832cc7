//! The player: a position on the grid that moves one cell at a time.

use vstd::prelude::*;

verus! {

/// The four ways a player can step. Columns grow to the right and rows grow
/// downwards, as they are drawn.
#[derive(Clone, Copy, Debug, PartialEq, Eq, Structural)]
pub enum Direction {
    Left,
    Right,
    Up,
    Down,
}

/// Where the player stands, in cells. Nothing ties the position to a
/// playground: a player may walk off the grid and through walls.
#[derive(Clone, Copy, Debug, PartialEq, Eq, Structural)]
pub struct Player {
    pub position_x: usize,
    pub position_y: usize,
}

impl Player {
    /// The player one cell further in `direction`. A coordinate is never
    /// negative and never exceeds `usize::MAX`: a step that would leave that
    /// range is not taken.
    pub open spec fn moved(self, direction: Direction) -> Player {
        match direction {
            Direction::Left => Player {
                position_x: if self.position_x > 0 {
                    (self.position_x - 1) as usize
                } else {
                    self.position_x
                },
                position_y: self.position_y,
            },
            Direction::Right => Player {
                position_x: if self.position_x < usize::MAX {
                    (self.position_x + 1) as usize
                } else {
                    self.position_x
                },
                position_y: self.position_y,
            },
            Direction::Up => Player {
                position_x: self.position_x,
                position_y: if self.position_y > 0 {
                    (self.position_y - 1) as usize
                } else {
                    self.position_y
                },
            },
            Direction::Down => Player {
                position_x: self.position_x,
                position_y: if self.position_y < usize::MAX {
                    (self.position_y + 1) as usize
                } else {
                    self.position_y
                },
            },
        }
    }

    /// Moves the player one cell in `direction`.
    pub fn step(&mut self, direction: Direction)
        ensures
            *final(self) == old(self).moved(direction),
            direction == Direction::Left && old(self).position_x > 0 ==> *final(self) == (Player {
                position_x: (old(self).position_x - 1) as usize,
                position_y: old(self).position_y,
            }),
    {
        match direction {
            Direction::Left => {
                if self.position_x > 0 {
                    self.position_x = self.position_x - 1;
                }
            },
            Direction::Right => {
                if self.position_x < usize::MAX {
                    self.position_x = self.position_x + 1;
                }
            },
            Direction::Up => {
                if self.position_y > 0 {
                    self.position_y = self.position_y - 1;
                }
            },
            Direction::Down => {
                if self.position_y < usize::MAX {
                    self.position_y = self.position_y + 1;
                }
            },
        }
    }
}

} // verus!
