//! State that belongs to the game as a whole rather than to one entity.

use vstd::prelude::*;

use crate::world::Entity;

verus! {

/// How long the game has been running.
#[derive(Debug, Default)]
pub struct Time {
    pub alive: std::time::Duration,
}

/// Whether the puzzle is still open or solved.
#[derive(Clone, Copy, Debug, PartialEq, Eq, Structural)]
pub enum GamePlayState {
    Playing,
    Won,
}

impl GamePlayState {
    /// The state as it is shown to the player.
    pub fn to_string(&self) -> (s: String)
        ensures
            s@ == (match *self {
                GamePlayState::Playing => "Playing"@,
                GamePlayState::Won => "Won"@,
            }),
    {
        match self {
            GamePlayState::Playing => "Playing".to_owned(),
            GamePlayState::Won => "Won".to_owned(),
        }
    }
}

/// A key as far as the game cares: the four directions, and anything else.
#[derive(Clone, Copy, Debug, PartialEq, Eq, Structural)]
pub enum KeyCode {
    Up,
    Down,
    Left,
    Right,
    Other,
}

/// Something that happened while a turn was resolved.
#[derive(Clone, Copy, Debug, PartialEq, Eq, Structural)]
pub enum GamePlayEvent {
    /// The player pushed against something that cannot move.
    HitObstacle,
    /// The entity was shifted by one cell.
    EntityMoved(Entity),
    /// A box came to rest on a spot; the flag says whether the colors match.
    BoxPlacedOnSpot(bool),
}

/// An audio cue that the game asks for.
#[derive(Clone, Copy, Debug, PartialEq, Eq, Structural)]
pub enum Sound {
    Wall,
    Correct,
    Incorrect,
}

impl Sound {
    /// The name under which the cue is known.
    pub fn name(&self) -> (s: &'static str)
        ensures
            s@ == (match *self {
                Sound::Wall => "wall"@,
                Sound::Correct => "correct"@,
                Sound::Incorrect => "incorrect"@,
            }),
    {
        match self {
            Sound::Wall => "wall",
            Sound::Correct => "correct",
            Sound::Incorrect => "incorrect",
        }
    }
}

/// Progress of the current game.
#[derive(Clone, Copy, Debug, PartialEq, Eq, Structural)]
pub struct GamePlay {
    pub state: GamePlayState,
    pub steps_taken: u32,
}

impl Default for GamePlay {
    fn default() -> (g: Self)
        ensures
            g == (GamePlay { state: GamePlayState::Playing, steps_taken: 0 }),
    {
        Self { state: GamePlayState::Playing, steps_taken: 0 }
    }
}

/// Events that wait to be consumed, oldest first.
#[derive(Debug)]
pub struct GamePlayEventQueue {
    pub queue: Vec<GamePlayEvent>,
}

impl Default for GamePlayEventQueue {
    fn default() -> (q: Self)
        ensures
            q.queue@ == Seq::<GamePlayEvent>::empty(),
    {
        Self { queue: Vec::new() }
    }
}

/// Keys that were pressed and not yet handled, oldest first.
#[derive(Debug)]
pub struct KeyPressedEventQueue {
    pub queue: Vec<KeyCode>,
}

impl Default for KeyPressedEventQueue {
    fn default() -> (q: Self)
        ensures
            q.queue@ == Seq::<KeyCode>::empty(),
    {
        Self { queue: Vec::new() }
    }
}

} // verus!
