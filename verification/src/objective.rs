//! When a game is won: every box spot holds a box of its own color.

use vstd::prelude::*;

use crate::components::BoxColor;
use crate::occupancy::{
    lemma_occupant_none, lemma_occupant_some, occupant, occupies, CellIndex, Layer,
};
use crate::resources::{GamePlay, GamePlayState};
use crate::world::{Entity, Tags, World};

verus! {

/// Whether an entity with these tags is a box spot on the board.
pub open spec fn is_spot(t: Tags) -> bool {
    t.box_spot is Some && t.position is Some
}

/// The color of the box on cell (`x`, `y`). Where several boxes share the
/// cell, it is the color of the one created last.
pub open spec fn box_color_at(w: Seq<Tags>, x: u8, y: u8) -> Option<BoxColor> {
    match occupant(w, Layer::Boxes, x, y) {
        Some(e) => Some(w[e.0 as int].the_box.unwrap().color),
        None => None,
    }
}

/// Whether the spot `t` holds a box of its own color.
pub open spec fn spot_satisfied(w: Seq<Tags>, t: Tags) -> bool {
    box_color_at(w, t.position.unwrap().x, t.position.unwrap().y) == Some(
        t.box_spot.unwrap().color,
    )
}

/// Whether every spot among the first `n` entities is satisfied.
pub open spec fn spots_satisfied(w: Seq<Tags>, n: int) -> bool {
    forall|i: int| 0 <= i < n && is_spot(#[trigger] w[i]) ==> spot_satisfied(w, w[i])
}

/// The state of a game on board `w`: won if every spot is satisfied, which
/// includes a board without spots.
pub open spec fn objective(w: Seq<Tags>) -> GamePlayState {
    if spots_satisfied(w, w.len() as int) {
        GamePlayState::Won
    } else {
        GamePlayState::Playing
    }
}

/// The progress of a game after its objective was evaluated on board `w`:
/// the state is computed afresh, the steps stay.
pub open spec fn evaluated(w: Seq<Tags>, gameplay: GamePlay) -> GamePlay {
    GamePlay { state: objective(w), steps_taken: gameplay.steps_taken }
}

/// Looks at every box spot of the board and tells whether the game is won.
/// Stops at the first spot that holds no box of its color.
pub fn evaluate(world: &World) -> (state: GamePlayState)
    ensures
        state == objective(world@),
{
    let boxes = CellIndex::build(world, Layer::Boxes);
    let n = world.len();
    let mut i: usize = 0;
    while i < n
        invariant
            n == world@.len(),
            i <= n,
            forall|x: u8, y: u8| #[trigger] boxes.lookup(x, y) == occupant(world@, Layer::Boxes, x, y),
            spots_satisfied(world@, i as int),
        decreases n - i,
    {
        match world.get(Entity(i)) {
            Some(spot) => {
                match (spot.box_spot, spot.position) {
                    (Some(box_spot), Some(p)) => {
                        assert(is_spot(world@[i as int]));
                        assert(boxes.lookup(p.x, p.y) == occupant(world@, Layer::Boxes, p.x, p.y));
                        match boxes.get(p.x, p.y) {
                            Some(entity) => {
                                proof {
                                    lemma_occupant_some(world@, Layer::Boxes, p.x, p.y);
                                }
                                let color = match world.get(entity) {
                                    Some(components) => match components.the_box {
                                        Some(the_box) => Some(the_box.color),
                                        None => None,
                                    },
                                    None => None,
                                };
                                if color != Some(box_spot.color) {
                                    assert(!spot_satisfied(world@, world@[i as int]));
                                    return GamePlayState::Playing;
                                }
                            },
                            None => {
                                assert(!spot_satisfied(world@, world@[i as int]));
                                return GamePlayState::Playing;
                            },
                        }
                    },
                    _ => {},
                }
            },
            None => {},
        }
        i += 1;
    }
    GamePlayState::Won
}

/// Whether no two boxes stand on the same cell.
pub open spec fn boxes_apart(w: Seq<Tags>) -> bool {
    forall|a: int, b: int|
        #![trigger w[a], w[b]]
        0 <= a < b < w.len() && w[a].the_box is Some && w[b].the_box is Some && w[a].position
            is Some && w[b].position is Some ==> !(w[a].position.unwrap().x
            == w[b].position.unwrap().x && w[a].position.unwrap().y == w[b].position.unwrap().y)
}

/// Evaluating the objective a second time on the same board changes nothing.
pub proof fn law_evaluation_is_idempotent(w: Seq<Tags>, gameplay: GamePlay)
    ensures
        evaluated(w, evaluated(w, gameplay)) == evaluated(w, gameplay),
{
}

/// A game is won if and only if every box spot is satisfied.
pub proof fn law_won_iff_all_spots_satisfied(w: Seq<Tags>, gameplay: GamePlay)
    ensures
        evaluated(w, gameplay).state == GamePlayState::Won <==> forall|i: int|
            0 <= i < w.len() && is_spot(#[trigger] w[i]) ==> spot_satisfied(w, w[i]),
{
}

/// One spot that is not satisfied is enough for the game to be open again,
/// whatever its state was before.
pub proof fn law_unsatisfied_spot_means_playing(w: Seq<Tags>, i: int, gameplay: GamePlay)
    requires
        0 <= i < w.len(),
        is_spot(w[i]),
        !spot_satisfied(w, w[i]),
    ensures
        evaluated(w, gameplay).state == GamePlayState::Playing,
{
}

/// Where no two boxes share a cell, a spot is satisfied if and only if some
/// box of its color stands on its cell.
pub proof fn law_satisfied_iff_matching_box(w: Seq<Tags>, i: int)
    requires
        w.len() <= usize::MAX,
        boxes_apart(w),
        0 <= i < w.len(),
        is_spot(w[i]),
    ensures
        spot_satisfied(w, w[i]) <==> exists|j: int|
            0 <= j < w.len() && occupies(
                #[trigger] w[j],
                Layer::Boxes,
                w[i].position.unwrap().x,
                w[i].position.unwrap().y,
            ) && w[j].the_box.unwrap().color == w[i].box_spot.unwrap().color,
{
    let x = w[i].position.unwrap().x;
    let y = w[i].position.unwrap().y;
    let color = w[i].box_spot.unwrap().color;
    lemma_occupant_none(w, Layer::Boxes, x, y);
    if occupant(w, Layer::Boxes, x, y) is Some {
        lemma_occupant_some(w, Layer::Boxes, x, y);
        let found = occupant(w, Layer::Boxes, x, y).unwrap().0 as int;
        assert(occupies(w[found], Layer::Boxes, x, y));
        if exists|j: int|
            0 <= j < w.len() && occupies(#[trigger] w[j], Layer::Boxes, x, y)
                && w[j].the_box.unwrap().color == color {
            let j = choose|j: int|
                0 <= j < w.len() && occupies(#[trigger] w[j], Layer::Boxes, x, y)
                    && w[j].the_box.unwrap().color == color;
            if j < found {
                assert(w[j].position is Some && w[found].position is Some);
            } else if found < j {
                assert(w[found].position is Some && w[j].position is Some);
            }
            assert(j == found);
        }
    }
}

} // verus!
