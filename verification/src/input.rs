//! What the player can tell the game: keys and window events.

use vstd::prelude::*;
use crate::player::{Direction, Player};

verus! {

/// The keys that the game tells apart.
#[derive(Clone, Copy, Debug, PartialEq, Eq, Structural)]
pub enum Key {
    A,
    D,
    Space,
    Escape,
    /// Any key that means nothing to the game.
    Other,
}

/// One input event.
#[derive(Clone, Copy, Debug, PartialEq, Eq, Structural)]
pub enum Event {
    /// The window is asked to close.
    Quit,
    /// A key went down.
    KeyDown { key: Key },
    /// Anything else.
    Other,
}

impl Key {
    /// The step that a key asks for: `A` to the right, `D` to the left and
    /// the space bar down. No other key moves the player.
    pub open spec fn direction(self) -> Option<Direction> {
        match self {
            Key::A => Some(Direction::Right),
            Key::D => Some(Direction::Left),
            Key::Space => Some(Direction::Down),
            Key::Escape => None,
            Key::Other => None,
        }
    }

    /// The step that this key asks for, if it asks for one.
    pub fn to_direction(&self) -> (direction: Option<Direction>)
        ensures
            direction == self.direction(),
    {
        match self {
            Key::A => Some(Direction::Right),
            Key::D => Some(Direction::Left),
            Key::Space => Some(Direction::Down),
            Key::Escape => None,
            Key::Other => None,
        }
    }
}

impl Event {
    /// Whether the event ends the game: a request to quit, or the escape key.
    pub open spec fn stops(self) -> bool {
        self == Event::Quit || self == (Event::KeyDown { key: Key::Escape })
    }
}

impl Player {
    /// The player after `key` went down: one step further if the key asks for
    /// a step, unchanged otherwise.
    pub open spec fn pressed(self, key: Key) -> Player {
        match key.direction() {
            Some(direction) => self.moved(direction),
            None => self,
        }
    }

    /// The player after `event`: only a key that goes down can move it.
    pub open spec fn after(self, event: Event) -> Player {
        match event {
            Event::KeyDown { key } => self.pressed(key),
            _ => self,
        }
    }

    /// The player after all of `events`, in their order.
    pub open spec fn after_all(self, events: Seq<Event>) -> Player
        decreases events.len(),
    {
        if events.len() == 0 {
            self
        } else {
            self.after_all(events.drop_last()).after(events.last())
        }
    }
}

/// Whether one of `events` ends the game.
pub open spec fn stopping(events: Seq<Event>) -> bool {
    exists|i: int| 0 <= i < events.len() && (#[trigger] events[i]).stops()
}

} // verus!
