//! The board and the state of a running game.

use vstd::prelude::*;

use crate::events::{cues, derived_all};
use crate::level::{create_tile, level_tags, parse_map, read_map, MapError};
use crate::movement::turn;
use crate::objective::evaluated;
use crate::resources::{
    GamePlay, GamePlayEvent, GamePlayEventQueue, GamePlayState, KeyCode, KeyPressedEventQueue,
    Sound,
};
use crate::systems::{consume_gameplay_events, game_objective, input_handling};
use crate::world::{Tags, World};

verus! {

/// Width of the grid.
pub const MAP_WIDTH: u8 = 9;

/// Height of the grid.
pub const MAP_HEIGHT: u8 = 9;

/// Reads a board in text form and adds its entities to the store, row by
/// row. A text that is no board leaves the store as it is.
pub fn load_map(world: &mut World, map_str: &str) -> (r: Result<(), MapError>)
    ensures
        match parse_map(map_str@) {
            Ok(items) => r is Ok && final(world)@ == old(world)@ + level_tags(items),
            Err(e) => r == Err::<(), MapError>(e) && final(world)@ == old(world)@,
        },
{
    let items = match read_map(map_str) {
        Ok(items) => items,
        Err(e) => {
            return Err(e);
        },
    };
    let n = items.len();
    let mut i: usize = 0;
    assert(items@.take(0) =~= Seq::<(crate::components::Position, crate::level::Tile)>::empty());
    assert(world@ =~= old(world)@ + level_tags(items@.take(0)));
    while i < n
        invariant
            n == items@.len(),
            i <= n,
            world@ == old(world)@ + level_tags(items@.take(i as int)),
        decreases n - i,
    {
        let (position, tile) = items[i];
        create_tile(world, tile, position);
        proof {
            assert(items@.take(i + 1).drop_last() =~= items@.take(i as int));
            assert(items@.take(i + 1).last() == items@[i as int]);
            assert(world@ =~= old(world)@ + level_tags(items@.take(i + 1)));
        }
        i += 1;
    }
    assert(items@.take(n as int) =~= items@);
    Ok(())
}

/// What one tick leaves behind.
pub struct Tick {
    pub world: Seq<Tags>,
    pub keys: Seq<KeyCode>,
    pub events: Seq<GamePlayEvent>,
    pub gameplay: GamePlay,
    pub sounds: Seq<Sound>,
}

/// One tick of the game: the oldest key press, if there is one, is resolved
/// into a turn; the objective is evaluated on the board as the turn left it;
/// then every event that waits, from this turn or from the tick before, is
/// consumed. The events that follow from them wait for the next tick.
pub open spec fn tick(
    w: Seq<Tags>,
    keys: Seq<KeyCode>,
    events: Seq<GamePlayEvent>,
    gameplay: GamePlay,
) -> Tick {
    if keys.len() == 0 {
        Tick {
            world: w,
            keys,
            events: derived_all(w, events),
            gameplay: evaluated(w, gameplay),
            sounds: cues(events),
        }
    } else {
        let t = turn(w, keys[0], events, gameplay);
        Tick {
            world: t.world,
            keys: keys.drop_first(),
            events: derived_all(t.world, t.events),
            gameplay: evaluated(t.world, t.gameplay),
            sounds: cues(t.events),
        }
    }
}

/// A game in progress: the entities on the board, the progress made, and
/// the key presses and events that wait to be handled.
pub struct Game {
    pub world: World,
    pub gameplay: GamePlay,
    pub key_pressed_events: KeyPressedEventQueue,
    pub gameplay_events: GamePlayEventQueue,
}

impl Game {
    /// Starts a game on the board that `map_str` describes: nothing has
    /// been played and nothing waits.
    pub fn new(map_str: &str) -> (r: Result<Game, MapError>)
        ensures
            match parse_map(map_str@) {
                Ok(items) => {
                    &&& r is Ok
                    &&& r->Ok_0.world@ == level_tags(items)
                    &&& r->Ok_0.gameplay == (GamePlay {
                        state: GamePlayState::Playing,
                        steps_taken: 0,
                    })
                    &&& r->Ok_0.key_pressed_events.queue@ == Seq::<KeyCode>::empty()
                    &&& r->Ok_0.gameplay_events.queue@ == Seq::<GamePlayEvent>::empty()
                },
                Err(e) => r is Err && r->Err_0 == e,
            },
    {
        let mut world = World::new();
        match load_map(&mut world, map_str) {
            Ok(()) => {},
            Err(e) => {
                return Err(e);
            },
        }
        assert(world@ =~= level_tags(parse_map(map_str@)->Ok_0));
        Ok(
            Game {
                world,
                gameplay: GamePlay { state: GamePlayState::Playing, steps_taken: 0 },
                key_pressed_events: KeyPressedEventQueue { queue: Vec::new() },
                gameplay_events: GamePlayEventQueue { queue: Vec::new() },
            },
        )
    }

    /// Notes a key press. It is handled by a later tick, after the key
    /// presses that were noted before it.
    pub fn key_down_event(&mut self, keycode: KeyCode)
        ensures
            final(self).key_pressed_events.queue@ == old(self).key_pressed_events.queue@.push(
                keycode,
            ),
            final(self).world@ == old(self).world@,
            final(self).gameplay == old(self).gameplay,
            final(self).gameplay_events.queue@ == old(self).gameplay_events.queue@,
    {
        self.key_pressed_events.queue.push(keycode);
    }

    /// Runs one tick and returns the audio cues to play, in order.
    pub fn update(&mut self) -> (sounds: Vec<Sound>)
        requires
            old(self).gameplay.steps_taken < u32::MAX,
        ensures
            ({
                let t = tick(
                    old(self).world@,
                    old(self).key_pressed_events.queue@,
                    old(self).gameplay_events.queue@,
                    old(self).gameplay,
                );
                &&& final(self).world@ == t.world
                &&& final(self).key_pressed_events.queue@ == t.keys
                &&& final(self).gameplay_events.queue@ == t.events
                &&& final(self).gameplay == t.gameplay
                &&& sounds@ == t.sounds
            }),
    {
        input_handling(
            &mut self.world,
            &mut self.key_pressed_events,
            &mut self.gameplay_events,
            &mut self.gameplay,
        );
        game_objective(&self.world, &mut self.gameplay);
        consume_gameplay_events(&self.world, &mut self.gameplay_events)
    }
}

} // verus!
