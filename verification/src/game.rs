//! The game: a player on a playground, loaded from a map.

use vstd::prelude::*;
use vstd::std_specs::iter::IteratorSpec;
use crate::block::Block;
use crate::color::{BLUE, RED};
use crate::input::{stopping, Event, Key};
use crate::map::{
    column, grid_of, is_first_terminator, lemma_first_terminator, lemma_last_spawn,
    lemma_rows_zero, lemma_symbol_cell, map_error, rows, spawn_column, spawn_row, tiles, MapError,
};
use crate::player::Player;
use crate::playground::Playground;
use crate::render::{lemma_commands_length, painted, player_command, DrawCommand};

verus! {

/// One session of the game.
pub struct Game {
    pub player: Player,
    pub playground: Playground,
    pub running: bool,
}

impl Game {
    /// What the game shows on a surface of `size` pixels: its playground, and
    /// over it the player.
    pub open spec fn frame(self, size: (u32, u32)) -> Seq<DrawCommand> {
        let scale = self.playground@.scale(size);
        self.playground@.commands(scale).push(player_command(self.player, scale))
    }

    /// Loads the game from the text of a map. The game starts running, with
    /// the player on the spawn cell.
    pub fn new(contents: &str) -> (loaded: Result<Game, MapError>)
        ensures
            match loaded {
                Ok(game) => {
                    &&& map_error(contents@) is None
                    &&& game.running
                    &&& game.playground.wf()
                    &&& game.playground@ == grid_of(contents@)
                    &&& game.player.position_x == spawn_column(contents@)
                    &&& game.player.position_y == spawn_row(contents@)
                    &&& game.playground@.contains(
                        game.player.position_x as int,
                        game.player.position_y as int,
                    )
                },
                Err(error) => map_error(contents@) == Some(error),
            },
    {
        match Game::read_definition(contents) {
            Ok((player, playground)) => Ok(Game { player, playground, running: true }),
            Err(error) => Err(error),
        }
    }

    /// Reads a map: the playground it describes and the player on the cell
    /// that its last spawn marker names. A text that is no map is refused
    /// with the first of its faults.
    pub fn read_definition(contents: &str) -> (definition: Result<(Player, Playground), MapError>)
        ensures
            match definition {
                Ok((player, playground)) => {
                    &&& map_error(contents@) is None
                    &&& playground.wf()
                    &&& playground@ == grid_of(contents@)
                    &&& player.position_x == spawn_column(contents@)
                    &&& player.position_y == spawn_row(contents@)
                    &&& playground@.contains(player.position_x as int, player.position_y as int)
                },
                Err(error) => map_error(contents@) == Some(error),
            },
    {
        let ghost text = contents@;
        let mut schema: Vec<Block> = Vec::new();
        let mut row_width: usize = 0;
        let mut closed_rows: usize = 0;
        let mut in_row: usize = 0;
        let mut spawn: Option<(usize, usize)> = None;
        let ghost mut first: int = 0;
        let ghost mut marker: int = 0;
        for symbol in it: contents.chars()
            invariant
                it.seq() == text,
                text == contents@,
                schema@ == tiles(text.take(it.index() as int)),
                closed_rows == rows(text.take(it.index() as int)),
                in_row == column(text.take(it.index() as int)),
                schema@.len() == closed_rows * row_width + in_row,
                closed_rows == 0 ==> row_width == 0,
                closed_rows > 0 ==> row_width > 0 && is_first_terminator(text, first)
                    && row_width == column(text.take(first)),
                forall|j: int|
                    0 <= j < it.index() && text[j] == '\n' ==> column(#[trigger] text.take(j))
                        == row_width,
                match spawn {
                    Some((x, y)) => {
                        &&& 0 <= marker < it.index()
                        &&& text[marker] == '@'
                        &&& forall|j: int| marker < j < it.index() ==> text[j] != '@'
                        &&& x == column(text.take(marker))
                        &&& y == rows(text.take(marker))
                    },
                    None => forall|j: int| 0 <= j < it.index() ==> text[j] != '@',
                },
        {
            let ghost i = it.index() as int;
            proof {
                assert(text.take(i + 1).drop_last() =~= text.take(i));
                assert(text.take(i + 1).last() == symbol);
                assert(schema@.len() == schema.len());
                assert(0 <= closed_rows * row_width) by (nonlinear_arith);
            }
            let block: Option<Block> = if symbol == '_' {
                Some(Block::Empty)
            } else if symbol == '%' {
                Some(Block::Floor { color: RED })
            } else if symbol == '|' {
                Some(Block::Wall { color: BLUE })
            } else if symbol == '@' {
                spawn = Some((in_row, closed_rows));
                proof {
                    marker = i;
                }
                Some(Block::Floor { color: RED })
            } else if symbol == '\n' {
                proof {
                    lemma_rows_zero(text);
                }
                if closed_rows == 0 {
                    proof {
                        lemma_rows_zero(text.take(i));
                        assert forall|j: int| 0 <= j < i implies text[j] != '\n' by {
                            assert(text.take(i)[j] == text[j]);
                        }
                        lemma_first_terminator(text, i);
                        first = i;
                    }
                    if in_row == 0 {
                        return Err(MapError::ZeroWidth);
                    }
                    row_width = in_row;
                    assert(0 * row_width == 0) by (nonlinear_arith);
                } else {
                    proof {
                        lemma_first_terminator(text, first);
                    }
                    if in_row != row_width {
                        return Err(MapError::Ragged);
                    }
                }
                assert((closed_rows + 1) * row_width == closed_rows * row_width + row_width
                    && closed_rows + 1 <= (closed_rows + 1) * row_width) by (nonlinear_arith)
                    requires
                        row_width >= 1,
                ;
                closed_rows = closed_rows + 1;
                in_row = 0;
                None
            } else {
                None
            };
            if let Some(block) = block {
                schema.push(block);
                proof {
                    assert(schema@.len() == schema.len());
                }
                in_row = in_row + 1;
            }
        }
        proof {
            assert(text.take(text.len() as int) =~= text);
            if closed_rows > 0 {
                lemma_first_terminator(text, first);
            }
        }
        if closed_rows == 0 {
            return Err(MapError::NoRows);
        }
        if in_row != 0 {
            return Err(MapError::Ragged);
        }
        match spawn {
            None => Err(MapError::NoSpawn),
            Some((x, y)) => {
                proof {
                    assert(text.contains('@'));
                    lemma_last_spawn(text, marker);
                    lemma_symbol_cell(text, marker);
                    assert(closed_rows * row_width == row_width * closed_rows)
                        by (nonlinear_arith);
                }
                Ok((Player { position_x: x, position_y: y }, Playground::new(schema, closed_rows, row_width)))
            },
        }
    }

    /// Answers a key that went down: the player takes the step that the key
    /// asks for. A key that asks for none changes nothing.
    pub fn handle_key_press(&mut self, keycode: Key)
        ensures
            final(self).player == old(self).player.pressed(keycode),
            keycode.direction() is None ==> final(self).player == old(self).player,
            keycode == Key::D && old(self).player.position_x > 0 ==> final(self).player == (Player {
                position_x: (old(self).player.position_x - 1) as usize,
                position_y: old(self).player.position_y,
            }),
            final(self).playground == old(self).playground,
            final(self).running == old(self).running,
    {
        match keycode.to_direction() {
            Some(direction) => {
                self.player.step(direction);
            },
            None => {},
        }
    }

    /// Answers one event. A request to quit and the escape key stop the
    /// game, for good; any other key that goes down is a key press.
    pub fn handle_event(&mut self, event: Event)
        ensures
            final(self).player == old(self).player.after(event),
            final(self).playground == old(self).playground,
            final(self).running == (old(self).running && !event.stops()),
    {
        match event {
            Event::Quit => {
                self.running = false;
            },
            Event::KeyDown { key: Key::Escape } => {
                self.running = false;
            },
            Event::KeyDown { key } => {
                self.handle_key_press(key);
            },
            Event::Other => {},
        }
    }

    /// One turn of the game loop: answers the pending `events` in their
    /// order, then draws the frame for a surface of `output_size` pixels
    /// unless the game has stopped. `None` says that it has: nothing is to be
    /// drawn and the loop ends. All events of the turn that stops the game
    /// are still answered; a game that had stopped before the turn is left
    /// as it was, whatever the events.
    pub fn tick(&mut self, events: &Vec<Event>, output_size: (u32, u32)) -> (frame: Option<
        Vec<DrawCommand>,
    >)
        requires
            old(self).playground.wf(),
        ensures
            final(self).playground == old(self).playground,
            !old(self).running ==> *final(self) == *old(self) && frame is None,
            old(self).running ==> final(self).player == old(self).player.after_all(events@),
            old(self).running ==> final(self).running == !stopping(events@),
            stopping(events@) ==> frame is None && !final(self).running,
            match frame {
                Some(commands) => final(self).running && commands@ == final(self).frame(
                    output_size,
                ),
                None => !final(self).running,
            },
    {
        if !self.running {
            return None;
        }
        let ghost before = *self;
        for i in 0..events.len()
            invariant
                self.playground == before.playground,
                self.player == before.player.after_all(events@.take(i as int)),
                self.running == (before.running && !stopping(events@.take(i as int))),
        {
            proof {
                let seen = events@.take(i as int);
                let more = events@.take(i + 1);
                assert(more.drop_last() =~= seen);
                assert(more.last() == events@[i as int]);
                if stopping(seen) {
                    let k = choose|k: int| 0 <= k < seen.len() && (#[trigger] seen[k]).stops();
                    assert(more[k].stops());
                }
                if stopping(more) && !events@[i as int].stops() {
                    let k = choose|k: int| 0 <= k < more.len() && (#[trigger] more[k]).stops();
                    assert(seen[k].stops());
                }
                if events@[i as int].stops() {
                    assert(more[i as int].stops());
                }
            }
            self.handle_event(events[i]);
        }
        proof {
            assert(events@.take(events@.len() as int) =~= events@);
        }
        if self.running {
            Some(self.render(output_size))
        } else {
            None
        }
    }

    /// The frame for a surface of `output_size` pixels: the rectangles of
    /// the playground, and last the rectangle of the player, so that it lies
    /// over them. The size of a tile follows from the size of the surface.
    pub fn render(&self, output_size: (u32, u32)) -> (commands: Vec<DrawCommand>)
        requires
            self.playground.wf(),
        ensures
            commands@ == self.frame(output_size),
            commands@.len() == painted(self.playground@.tiles) + 1,
            commands@.last() == player_command(self.player, self.playground@.scale(output_size)),
    {
        let scale = self.playground.scale_factor(output_size);
        proof {
            lemma_commands_length(self.playground@.tiles, self.playground@.width, scale);
        }
        let mut commands = self.render_playground(&self.playground, scale);
        commands.push(self.render_player(&self.player, scale));
        commands
    }
}

} // verus!
