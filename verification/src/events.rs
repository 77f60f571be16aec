//! What the events of a turn lead to: audio cues, and the events that follow
//! from them.

use vstd::prelude::*;

use crate::objective::is_spot;
use crate::resources::{GamePlayEvent, Sound};
use crate::world::{Entity, Tags, World};

verus! {

/// Whether two entities that both have a position stand on the same cell.
pub open spec fn same_cell(a: Tags, b: Tags) -> bool {
    a.position.unwrap().x == b.position.unwrap().x && a.position.unwrap().y
        == b.position.unwrap().y
}

/// The events for a box `b` that came to rest: one for each spot among the
/// first `n` entities that lies under the box, in the order of the store,
/// each saying whether the colors match.
pub open spec fn placements(w: Seq<Tags>, b: Tags, n: nat) -> Seq<GamePlayEvent>
    decreases n,
{
    if n == 0 {
        Seq::empty()
    } else {
        let before = placements(w, b, (n - 1) as nat);
        let t = w[n - 1];
        if is_spot(t) && same_cell(b, t) {
            before.push(
                GamePlayEvent::BoxPlacedOnSpot(
                    t.box_spot.unwrap().color == b.the_box.unwrap().color,
                ),
            )
        } else {
            before
        }
    }
}

/// The events that follow from one event. Only the move of a box that the
/// store holds leads to anything.
pub open spec fn derived(w: Seq<Tags>, event: GamePlayEvent) -> Seq<GamePlayEvent> {
    match event {
        GamePlayEvent::EntityMoved(e) => if e.0 < w.len() && w[e.0 as int].the_box is Some
            && w[e.0 as int].position is Some {
            placements(w, w[e.0 as int], w.len())
        } else {
            Seq::empty()
        },
        _ => Seq::empty(),
    }
}

/// The events that follow from a queue of events, in the order of the queue.
pub open spec fn derived_all(w: Seq<Tags>, events: Seq<GamePlayEvent>) -> Seq<GamePlayEvent>
    decreases events.len(),
{
    if events.len() == 0 {
        Seq::empty()
    } else {
        derived_all(w, events.drop_last()) + derived(w, events.last())
    }
}

/// The audio cue of an event: a move is silent.
pub open spec fn cue(event: GamePlayEvent) -> Option<Sound> {
    match event {
        GamePlayEvent::HitObstacle => Some(Sound::Wall),
        GamePlayEvent::EntityMoved(_) => None,
        GamePlayEvent::BoxPlacedOnSpot(matched) => Some(
            if matched {
                Sound::Correct
            } else {
                Sound::Incorrect
            },
        ),
    }
}

/// The audio cues of a queue of events, in the order of the queue.
pub open spec fn cues(events: Seq<GamePlayEvent>) -> Seq<Sound>
    decreases events.len(),
{
    if events.len() == 0 {
        Seq::empty()
    } else {
        match cue(events.last()) {
            Some(sound) => cues(events.drop_last()).push(sound),
            None => cues(events.drop_last()),
        }
    }
}

/// Handles the move of `entity`: if it is a box, queues in `new_events` one
/// event for each box spot under it, saying whether the colors match.
pub fn derive_events(world: &World, entity: Entity, new_events: &mut Vec<GamePlayEvent>)
    ensures
        final(new_events)@ == old(new_events)@ + derived(
            world@,
            GamePlayEvent::EntityMoved(entity),
        ),
{
    assert(new_events@ =~= old(new_events)@ + Seq::<GamePlayEvent>::empty());
    let moved = match world.get(entity) {
        Some(components) => match (components.the_box, components.position) {
            (Some(the_box), Some(p)) => Some((the_box, p)),
            _ => None,
        },
        None => None,
    };
    match moved {
        Some((the_box, box_pos)) => {
            let ghost b = world@[entity.0 as int];
            let n = world.len();
            let mut i: usize = 0;
            while i < n
                invariant
                    n == world@.len(),
                    i <= n,
                    entity.0 < world@.len(),
                    b == world@[entity.0 as int],
                    b.the_box == Some(the_box),
                    b.position == Some(box_pos),
                    new_events@ == old(new_events)@ + placements(world@, b, i as nat),
                decreases n - i,
            {
                match world.get(Entity(i)) {
                    Some(components) => match (components.box_spot, components.position) {
                        (Some(box_spot), Some(spot_pos)) => {
                            if box_pos.x == spot_pos.x && box_pos.y == spot_pos.y {
                                new_events.push(
                                    GamePlayEvent::BoxPlacedOnSpot(box_spot.color == the_box.color),
                                );
                            }
                        },
                        _ => {},
                    },
                    None => {},
                }
                assert(new_events@ =~= old(new_events)@ + placements(world@, b, (i + 1) as nat));
                i += 1;
            }
        },
        None => {},
    }
}

/// Whether an event says that a box was placed on a spot.
pub open spec fn is_placement(event: GamePlayEvent) -> bool {
    event is BoxPlacedOnSpot
}

/// Placements lead to no further events, and each of them has a cue.
proof fn lemma_placements_settle(w: Seq<Tags>, events: Seq<GamePlayEvent>)
    requires
        forall|i: int| 0 <= i < events.len() ==> is_placement(#[trigger] events[i]),
    ensures
        derived_all(w, events) == Seq::<GamePlayEvent>::empty(),
        cues(events).len() == events.len(),
    decreases events.len(),
{
    if events.len() > 0 {
        let init = events.drop_last();
        assert forall|i: int| 0 <= i < init.len() implies is_placement(#[trigger] init[i]) by {
            assert(init[i] == events[i]);
        }
        lemma_placements_settle(w, init);
        assert(is_placement(events[events.len() - 1]));
        assert(derived_all(w, init) + derived(w, events.last()) =~= Seq::<GamePlayEvent>::empty());
    }
}

/// The events for a box that came to rest are all placements.
proof fn lemma_placements_are_placements(w: Seq<Tags>, b: Tags, n: nat)
    ensures
        forall|i: int|
            0 <= i < placements(w, b, n).len() ==> is_placement(#[trigger] placements(w, b, n)[i]),
    decreases n,
{
    if n > 0 {
        lemma_placements_are_placements(w, b, (n - 1) as nat);
        let before = placements(w, b, (n - 1) as nat);
        assert forall|i: int| 0 <= i < placements(w, b, n).len() implies is_placement(
            #[trigger] placements(w, b, n)[i],
        ) by {
            if i < before.len() {
                assert(is_placement(before[i]));
            }
        }
    }
}

/// The events that follow from a queue of events are all placements.
proof fn lemma_derived_are_placements(w: Seq<Tags>, events: Seq<GamePlayEvent>)
    ensures
        forall|i: int|
            0 <= i < derived_all(w, events).len() ==> is_placement(
                #[trigger] derived_all(w, events)[i],
            ),
    decreases events.len(),
{
    if events.len() > 0 {
        let before = derived_all(w, events.drop_last());
        let added = derived(w, events.last());
        lemma_derived_are_placements(w, events.drop_last());
        match events.last() {
            GamePlayEvent::EntityMoved(e) => {
                if e.0 < w.len() {
                    lemma_placements_are_placements(w, w[e.0 as int], w.len());
                }
            },
            _ => {},
        }
        assert forall|i: int| 0 <= i < derived_all(w, events).len() implies is_placement(
            #[trigger] derived_all(w, events)[i],
        ) by {
            if i < before.len() {
                assert(is_placement(before[i]));
            } else {
                assert(is_placement(added[i - before.len()]));
            }
        }
    }
}

/// What follows from a single event, and its cue.
proof fn lemma_single_event(w: Seq<Tags>, event: GamePlayEvent)
    ensures
        derived_all(w, seq![event]) == derived(w, event),
        cues(seq![event]) == (match cue(event) {
            Some(sound) => seq![sound],
            None => Seq::<Sound>::empty(),
        }),
{
    let events = seq![event];
    assert(events.drop_last() =~= Seq::<GamePlayEvent>::empty());
    assert(events.last() == event);
    assert(derived_all(w, events.drop_last()) =~= Seq::<GamePlayEvent>::empty());
    assert(cues(events.drop_last()) =~= Seq::<Sound>::empty());
    assert(derived_all(w, events) =~= derived(w, event));
    assert(cues(events) =~= (match cue(event) {
        Some(sound) => seq![sound],
        None => Seq::<Sound>::empty(),
    }));
}

/// An event that follows from the events of a queue is never handled
/// together with them. The cues of a queue depend on nothing but the queue
/// itself; what follows from it are placements of boxes, one cue each, which
/// sound when the events are consumed the next time; and nothing follows
/// from those.
pub proof fn law_derived_events_sound_one_drain_later(w: Seq<Tags>, events: Seq<GamePlayEvent>)
    ensures
        forall|i: int|
            0 <= i < derived_all(w, events).len() ==> is_placement(
                #[trigger] derived_all(w, events)[i],
            ),
        cues(derived_all(w, events)).len() == derived_all(w, events).len(),
        derived_all(w, derived_all(w, events)) == Seq::<GamePlayEvent>::empty(),
{
    lemma_derived_are_placements(w, events);
    lemma_placements_settle(w, derived_all(w, events));
}

/// The events for a box under which exactly one spot lies.
proof fn lemma_single_placement(w: Seq<Tags>, b: Tags, s: int, n: nat)
    requires
        0 <= s < w.len(),
        n <= w.len(),
        b.the_box is Some,
        b.position is Some,
        is_spot(w[s]),
        same_cell(b, w[s]),
        forall|j: int|
            0 <= j < w.len() && j != s && is_spot(#[trigger] w[j]) ==> !same_cell(b, w[j]),
    ensures
        placements(w, b, n) == (if n <= s {
            Seq::<GamePlayEvent>::empty()
        } else {
            seq![
                GamePlayEvent::BoxPlacedOnSpot(
                    w[s].box_spot.unwrap().color == b.the_box.unwrap().color,
                ),
            ]
        }),
    decreases n,
{
    if n > 0 {
        lemma_single_placement(w, b, s, (n - 1) as nat);
    }
}

/// A box that was moved onto a spot is heard one drain later. When the
/// move is consumed, no cue is given and the placement is queued, saying
/// whether the colors match; when the placement is consumed, the cue for a
/// correct or an incorrect placement is given and nothing more is queued.
pub proof fn law_box_on_spot_sounds_one_drain_later(w: Seq<Tags>, b: int, s: int)
    requires
        0 <= b < w.len() <= usize::MAX,
        0 <= s < w.len(),
        w[b].the_box is Some,
        w[b].position is Some,
        is_spot(w[s]),
        same_cell(w[b], w[s]),
        forall|j: int|
            0 <= j < w.len() && j != s && is_spot(#[trigger] w[j]) ==> !same_cell(w[b], w[j]),
    ensures
        ({
            let moved = seq![GamePlayEvent::EntityMoved(Entity(b as usize))];
            let matched = w[s].box_spot.unwrap().color == w[b].the_box.unwrap().color;
            let placed = seq![GamePlayEvent::BoxPlacedOnSpot(matched)];
            &&& cues(moved) == Seq::<Sound>::empty()
            &&& derived_all(w, moved) == placed
            &&& cues(placed) == seq![
                if matched {
                    Sound::Correct
                } else {
                    Sound::Incorrect
                },
            ]
            &&& derived_all(w, placed) == Seq::<GamePlayEvent>::empty()
        }),
{
    let moved = seq![GamePlayEvent::EntityMoved(Entity(b as usize))];
    let matched = w[s].box_spot.unwrap().color == w[b].the_box.unwrap().color;
    let placed = seq![GamePlayEvent::BoxPlacedOnSpot(matched)];
    lemma_single_placement(w, w[b], s, w.len());
    lemma_single_event(w, moved[0]);
    lemma_single_event(w, placed[0]);
    assert(moved =~= seq![moved[0]]);
    assert(placed =~= seq![placed[0]]);
}

} // verus!
