//! The systems that run once per tick, in this order: input handling, game
//! objective, consumption of gameplay events.

use vstd::prelude::*;

use crate::events::{cues, derive_events, derived_all};
use crate::movement::{hit_events, moved_events, resolve_push, shift_entities, turn};
use crate::objective::{evaluate, evaluated};
use crate::occupancy::OccupancyIndex;
use crate::resources::{
    GamePlay, GamePlayEvent, GamePlayEventQueue, KeyPressedEventQueue, Sound,
};
use crate::world::World;

verus! {

/// Takes the oldest key press off its queue and resolves it: every player
/// pushes the chain of movable entities in front of it by one cell, unless
/// the chain ends at an immovable entity. Queues one event for each blocked
/// push and then one for each entity that moved, and counts the turn as a
/// step if anything moved. Without a key press nothing changes.
pub fn input_handling(
    world: &mut World,
    key_pressed_events: &mut KeyPressedEventQueue,
    gameplay_events: &mut GamePlayEventQueue,
    gameplay: &mut GamePlay,
)
    requires
        old(gameplay).steps_taken < u32::MAX,
    ensures
        old(key_pressed_events).queue@.len() == 0 ==> {
            &&& final(world)@ == old(world)@
            &&& final(key_pressed_events).queue@ == old(key_pressed_events).queue@
            &&& final(gameplay_events).queue@ == old(gameplay_events).queue@
            &&& *final(gameplay) == *old(gameplay)
        },
        old(key_pressed_events).queue@.len() > 0 ==> {
            let t = turn(
                old(world)@,
                old(key_pressed_events).queue@[0],
                old(gameplay_events).queue@,
                *old(gameplay),
            );
            &&& final(world)@ == t.world
            &&& final(key_pressed_events).queue@ == old(key_pressed_events).queue@.drop_first()
            &&& final(gameplay_events).queue@ == t.events
            &&& *final(gameplay) == t.gameplay
        },
{
    if key_pressed_events.queue.len() == 0 {
        return ;
    }
    let key = key_pressed_events.queue.remove(0);
    assert(key_pressed_events.queue@ =~= old(key_pressed_events).queue@.drop_first());
    let index = OccupancyIndex::build(world);
    let pushed = resolve_push(world, &index, key);
    let mut hit: usize = 0;
    assert(gameplay_events.queue@ =~= old(gameplay_events).queue@ + hit_events(0));
    while hit < pushed.hits
        invariant
            hit <= pushed.hits,
            gameplay_events.queue@ == old(gameplay_events).queue@ + hit_events(hit as nat),
        decreases pushed.hits - hit,
    {
        gameplay_events.queue.push(GamePlayEvent::HitObstacle);
        hit += 1;
        assert(gameplay_events.queue@ =~= old(gameplay_events).queue@ + hit_events(hit as nat));
    }
    if pushed.to_move.len() > 0 {
        gameplay.steps_taken = gameplay.steps_taken + 1;
    }
    let ghost queued = gameplay_events.queue@;
    let total = pushed.to_move.len();
    let mut j: usize = 0;
    assert(gameplay_events.queue@ =~= queued + moved_events(pushed.to_move@.take(0)));
    while j < total
        invariant
            total == pushed.to_move@.len(),
            j <= total,
            gameplay_events.queue@ == queued + moved_events(pushed.to_move@.take(j as int)),
        decreases total - j,
    {
        gameplay_events.queue.push(GamePlayEvent::EntityMoved(pushed.to_move[j]));
        assert(gameplay_events.queue@ =~= queued + moved_events(pushed.to_move@.take(j + 1)));
        j += 1;
    }
    assert(pushed.to_move@.take(total as int) =~= pushed.to_move@);
    shift_entities(world, key, &pushed.to_move);
}

/// Sets the state of the game to won if every box spot holds a box of its
/// own color, and to playing otherwise. The state is computed afresh from
/// the board each time; the steps stay as they are.
pub fn game_objective(world: &World, game_play: &mut GamePlay)
    ensures
        *final(game_play) == evaluated(world@, *old(game_play)),
{
    game_play.state = evaluate(world);
}

/// Takes every waiting event off the queue and handles it, oldest first.
/// Returns the audio cues to play, in order: one for each obstacle that was
/// hit and one for each box that was placed on a spot. The move of a box
/// makes no sound; it queues, for each spot under the box, the event that
/// the box was placed there. These new events are all that the queue holds
/// afterwards: they are handled when the events are next consumed.
pub fn consume_gameplay_events(world: &World, gameplay_events: &mut GamePlayEventQueue) -> (sounds:
    Vec<Sound>)
    ensures
        sounds@ == cues(old(gameplay_events).queue@),
        final(gameplay_events).queue@ == derived_all(world@, old(gameplay_events).queue@),
{
    let mut sounds: Vec<Sound> = Vec::new();
    let mut new_events: Vec<GamePlayEvent> = Vec::new();
    let n = gameplay_events.queue.len();
    let mut i: usize = 0;
    assert(gameplay_events.queue@.take(0) =~= Seq::<GamePlayEvent>::empty());
    while i < n
        invariant
            n == gameplay_events.queue@.len(),
            i <= n,
            gameplay_events.queue@ == old(gameplay_events).queue@,
            sounds@ == cues(gameplay_events.queue@.take(i as int)),
            new_events@ == derived_all(world@, gameplay_events.queue@.take(i as int)),
        decreases n - i,
    {
        let event = gameplay_events.queue[i];
        proof {
            let upto = gameplay_events.queue@.take(i + 1);
            assert(upto.drop_last() =~= gameplay_events.queue@.take(i as int));
            assert(upto.last() == event);
            assert(new_events@ + Seq::<GamePlayEvent>::empty() =~= new_events@);
        }
        match event {
            GamePlayEvent::HitObstacle => {
                sounds.push(Sound::Wall);
            },
            GamePlayEvent::EntityMoved(entity) => {
                derive_events(world, entity, &mut new_events);
            },
            GamePlayEvent::BoxPlacedOnSpot(matched) => {
                sounds.push(
                    if matched {
                        Sound::Correct
                    } else {
                        Sound::Incorrect
                    },
                );
            },
        }
        i += 1;
    }
    assert(gameplay_events.queue@.take(n as int) =~= gameplay_events.queue@);
    gameplay_events.queue = new_events;
    sounds
}

} // verus!
