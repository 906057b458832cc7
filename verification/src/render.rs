//! Drawing: the rectangles that show a playground and a player at a given
//! size of tile.

use vstd::prelude::*;
use crate::block::Block;
use crate::color::{blue_of, green_of, red_of, split_rgb, GREEN};
use crate::game::Game;
use crate::player::Player;
use crate::playground::{lemma_cell_index, Grid, Playground};

verus! {

/// A rectangle of pixels to fill and to outline in one colour. `x` and `y`
/// place its upper left corner.
#[derive(Clone, Copy, Debug, PartialEq, Eq, Structural)]
pub struct DrawCommand {
    pub x: u128,
    pub y: u128,
    pub width: u32,
    pub height: u32,
    pub red: u8,
    pub green: u8,
    pub blue: u8,
}

/// A pixel offset as a surface counts it that holds offsets in an `i32`: the
/// offset itself where it fits, the largest `i32` where it does not.
pub open spec fn surface_offset(offset: u128) -> i32 {
    if offset <= i32::MAX {
        offset as i32
    } else {
        i32::MAX
    }
}

impl DrawCommand {
    /// The upper left corner of the rectangle on a surface that holds pixel
    /// offsets in an `i32`.
    pub fn corner(&self) -> (at: (i32, i32))
        ensures
            at.0 == surface_offset(self.x),
            at.1 == surface_offset(self.y),
    {
        let x: i32 = if self.x <= i32::MAX as u128 {
            self.x as i32
        } else {
            i32::MAX
        };
        let y: i32 = if self.y <= i32::MAX as u128 {
            self.y as i32
        } else {
            i32::MAX
        };
        (x, y)
    }
}

/// The rectangle that covers the cell in `column` of `row` when every tile is
/// `scale.0` pixels wide and `scale.1` pixels high, in the colour `color`.
pub open spec fn cell_command(column: int, row: int, scale: (u32, u32), color: u32) -> DrawCommand {
    DrawCommand {
        x: (column * scale.0) as u128,
        y: (row * scale.1) as u128,
        width: scale.0,
        height: scale.1,
        red: red_of(color),
        green: green_of(color),
        blue: blue_of(color),
    }
}

/// The rectangle that shows the player: its cell, in green.
pub open spec fn player_command(player: Player, scale: (u32, u32)) -> DrawCommand {
    cell_command(player.position_x as int, player.position_y as int, scale, GREEN)
}

/// The rectangles that show `tiles`, the first blocks of a grid of `width`
/// columns: one for each block that has a colour, in the order of the blocks.
pub open spec fn tile_commands(tiles: Seq<Block>, width: nat, scale: (u32, u32)) -> Seq<
    DrawCommand,
>
    decreases tiles.len(),
{
    if tiles.len() == 0 {
        Seq::empty()
    } else {
        let index = tiles.len() - 1;
        match tiles.last().paint() {
            Some(color) => tile_commands(tiles.drop_last(), width, scale).push(
                cell_command(index % (width as int), index / (width as int), scale, color),
            ),
            None => tile_commands(tiles.drop_last(), width, scale),
        }
    }
}

/// The number of blocks among `tiles` that have a colour.
pub open spec fn painted(tiles: Seq<Block>) -> nat
    decreases tiles.len(),
{
    if tiles.len() == 0 {
        0
    } else if tiles.last().paint() is Some {
        painted(tiles.drop_last()) + 1
    } else {
        painted(tiles.drop_last())
    }
}

impl Grid {
    /// The rectangles that show the grid, row after row.
    pub open spec fn commands(self, scale: (u32, u32)) -> Seq<DrawCommand> {
        tile_commands(self.tiles, self.width, scale)
    }
}

/// The offset in pixels of a cell fits the field that holds it.
pub proof fn lemma_offset_fits(cell: usize, side: u32)
    ensures
        0 <= cell * side <= u128::MAX,
{
    assert(0 <= cell * side <= 0xFFFF_FFFF_FFFF_FFFF * 0xFFFF_FFFF) by (nonlinear_arith)
        requires
            0 <= cell <= 0xFFFF_FFFF_FFFF_FFFF,
            0 <= side <= 0xFFFF_FFFF,
    ;
}

/// The first `count + 1` blocks are shown by the rectangles of the first
/// `count`, and one more if the last of them has a colour.
proof fn lemma_next_tile(tiles: Seq<Block>, width: nat, scale: (u32, u32), count: int)
    requires
        0 <= count < tiles.len(),
    ensures
        tile_commands(tiles.take(count + 1), width, scale) == match tiles[count].paint() {
            Some(color) => tile_commands(tiles.take(count), width, scale).push(
                cell_command(count % (width as int), count / (width as int), scale, color),
            ),
            None => tile_commands(tiles.take(count), width, scale),
        },
        painted(tiles.take(count + 1)) == painted(tiles.take(count)) + if tiles[count].paint()
            is Some {
            1nat
        } else {
            0nat
        },
{
    assert(tiles.take(count + 1).drop_last() =~= tiles.take(count));
    assert(tiles.take(count + 1).last() == tiles[count]);
}

/// The rectangles of the first `count` blocks are the first rectangles of
/// all the blocks: as many of them as there are coloured blocks among the
/// first `count`.
pub proof fn lemma_commands_prefix(tiles: Seq<Block>, width: nat, scale: (u32, u32), count: int)
    requires
        0 <= count <= tiles.len(),
    ensures
        tile_commands(tiles.take(count), width, scale).len() == painted(tiles.take(count)),
        tile_commands(tiles.take(count), width, scale) == tile_commands(tiles, width, scale).take(
            painted(tiles.take(count)) as int,
        ),
        painted(tiles.take(count)) <= painted(tiles),
    decreases tiles.len() - count,
{
    if count == tiles.len() {
        assert(tiles.take(count) =~= tiles);
        lemma_commands_length(tiles, width, scale);
        assert(tile_commands(tiles, width, scale).take(painted(tiles) as int) =~= tile_commands(
            tiles,
            width,
            scale,
        ));
    } else {
        lemma_commands_prefix(tiles, width, scale, count + 1);
        lemma_next_tile(tiles, width, scale, count);
        lemma_commands_length(tiles.take(count), width, scale);
        let longer = tile_commands(tiles.take(count + 1), width, scale);
        let all = tile_commands(tiles, width, scale);
        let shorter = tile_commands(tiles.take(count), width, scale);
        lemma_commands_length(tiles, width, scale);
        assert(longer == all.take(painted(tiles.take(count + 1)) as int));
        assert(shorter =~= longer.take(shorter.len() as int));
        assert(shorter =~= all.take(painted(tiles.take(count)) as int));
    }
}

/// There are as many rectangles as blocks with a colour.
pub proof fn lemma_commands_length(tiles: Seq<Block>, width: nat, scale: (u32, u32))
    ensures
        tile_commands(tiles, width, scale).len() == painted(tiles),
    decreases tiles.len(),
{
    if tiles.len() > 0 {
        lemma_commands_length(tiles.drop_last(), width, scale);
    }
}

/// Drawing a playground gives exactly one rectangle for each cell whose block
/// has a colour: the rectangle of the cell in column `x` of row `y` has its
/// corner at `x` tile widths and `y` tile heights, is one tile wide and high,
/// has the colour of the block, and comes after the rectangles of the
/// coloured blocks before it.
pub proof fn lemma_block_command(playground: Playground, scale: (u32, u32), x: int, y: int)
    requires
        playground.wf(),
        playground@.contains(x, y),
        playground@.at(x, y).paint() is Some,
    ensures
        playground@.commands(scale).len() == painted(playground@.tiles),
        painted(playground@.tiles.take(y * playground@.width + x)) < painted(playground@.tiles),
        ({
            let rank = painted(playground@.tiles.take(y * playground@.width + x)) as int;
            let command = playground@.commands(scale)[rank];
            let color = playground@.at(x, y).paint()->0;
            &&& command.x == x * scale.0
            &&& command.y == y * scale.1
            &&& command.width == scale.0
            &&& command.height == scale.1
            &&& command.red == red_of(color)
            &&& command.green == green_of(color)
            &&& command.blue == blue_of(color)
        }),
{
    let grid = playground@;
    let index = y * grid.width + x;
    lemma_cell_index(grid, x, y);
    lemma_commands_length(grid.tiles, grid.width, scale);
    lemma_commands_prefix(grid.tiles, grid.width, scale, index);
    lemma_commands_prefix(grid.tiles, grid.width, scale, index + 1);
    lemma_next_tile(grid.tiles, grid.width, scale, index);
    let rank = painted(grid.tiles.take(index)) as int;
    let longer = tile_commands(grid.tiles.take(index + 1), grid.width, scale);
    assert(longer[rank] == grid.commands(scale)[rank]);
    lemma_offset_fits(x as usize, scale.0);
    lemma_offset_fits(y as usize, scale.1);
}

impl Game {
    /// The rectangles that show `playground` at tiles of size `scale`, row
    /// after row from the top and each row from the left. Empty cells are
    /// not drawn.
    pub fn render_playground(&self, playground: &Playground, scale: (u32, u32)) -> (commands: Vec<
        DrawCommand,
    >)
        requires
            playground.wf(),
        ensures
            commands@ == playground@.commands(scale),
    {
        let ghost grid = playground@;
        let height = playground.height();
        let width = playground.width();
        let mut commands: Vec<DrawCommand> = Vec::new();
        proof {
            assert(0 * width == 0) by (nonlinear_arith);
            assert(grid.tiles.take(0) =~= Seq::<Block>::empty());
            assert(commands@ =~= tile_commands(grid.tiles.take(0), grid.width, scale));
        }
        for y in 0..height
            invariant
                playground.wf(),
                grid == playground@,
                height == grid.height,
                width == grid.width,
                commands@ == tile_commands(grid.tiles.take(y * width), grid.width, scale),
        {
            for x in 0..width
                invariant
                    playground.wf(),
                    grid == playground@,
                    height == grid.height,
                    width == grid.width,
                    y < height,
                    commands@ == tile_commands(grid.tiles.take(y * width + x), grid.width, scale),
            {
                proof {
                    lemma_cell_index(grid, x as int, y as int);
                    lemma_next_tile(grid.tiles, grid.width, scale, y * width + x);
                    lemma_offset_fits(x, scale.0);
                    lemma_offset_fits(y, scale.1);
                }
                let color = match playground.block_at(x, y) {
                    Ok(block) => block.color(),
                    Err(_) => None,
                };
                if let Some(color) = color {
                    let (red, green, blue) = split_rgb(color);
                    commands.push(
                        DrawCommand {
                            x: (x as u128) * (scale.0 as u128),
                            y: (y as u128) * (scale.1 as u128),
                            width: scale.0,
                            height: scale.1,
                            red,
                            green,
                            blue,
                        },
                    );
                }
            }
            assert(y * width + width == (y + 1) * width) by (nonlinear_arith);
        }
        proof {
            assert(height * width == grid.width * grid.height) by (nonlinear_arith)
                requires
                    height == grid.height,
                    width == grid.width,
            ;
            assert(grid.tiles.take(height * width) =~= grid.tiles);
        }
        commands
    }

    /// The rectangle that shows `player` at tiles of size `scale`: the cell
    /// it stands on, in green.
    pub fn render_player(&self, player: &Player, scale: (u32, u32)) -> (command: DrawCommand)
        ensures
            command == player_command(*player, scale),
            command.x == player.position_x * scale.0,
            command.y == player.position_y * scale.1,
            command.width == scale.0,
            command.height == scale.1,
            (command.red, command.green, command.blue) == (0u8, 255u8, 0u8),
    {
        proof {
            lemma_offset_fits(player.position_x, scale.0);
            lemma_offset_fits(player.position_y, scale.1);
        }
        let (red, green, blue) = split_rgb(GREEN);
        DrawCommand {
            x: (player.position_x as u128) * (scale.0 as u128),
            y: (player.position_y as u128) * (scale.1 as u128),
            width: scale.0,
            height: scale.1,
            red,
            green,
            blue,
        }
    }
}

} // verus!
