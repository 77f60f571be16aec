//! Lookup of entities by the cell they stand on. An index is built from the
//! store whenever it is needed and never kept, because positions change
//! between turns.

use std::collections::HashMap;
use vstd::prelude::*;

use crate::world::{Components, Entity, Tags, World};

verus! {

broadcast use vstd::std_specs::hash::group_hash_axioms;

/// The groups of entities that are looked up by cell.
#[derive(Clone, Copy, Debug, PartialEq, Eq, Structural)]
pub enum Layer {
    /// Entities that can be pushed.
    Movable,
    /// Entities that block a push.
    Immovable,
    /// Boxes.
    Boxes,
}

/// Whether an entity with these tags belongs to `layer`.
pub open spec fn in_layer(t: Tags, layer: Layer) -> bool {
    match layer {
        Layer::Movable => t.movable,
        Layer::Immovable => t.immovable,
        Layer::Boxes => t.the_box is Some,
    }
}

/// Whether an entity with these tags stands on cell (`x`, `y`).
pub open spec fn stands_on(t: Tags, x: u8, y: u8) -> bool {
    t.position matches Some(p) && p.x == x && p.y == y
}

/// Whether an entity with these tags belongs to `layer` and stands on cell
/// (`x`, `y`).
pub open spec fn occupies(t: Tags, layer: Layer, x: u8, y: u8) -> bool {
    in_layer(t, layer) && stands_on(t, x, y)
}

/// The entity of `layer` on cell (`x`, `y`). Where several entities of the
/// layer share the cell, it is the one created last.
pub open spec fn occupant(w: Seq<Tags>, layer: Layer, x: u8, y: u8) -> Option<Entity>
    decreases w.len(),
{
    if w.len() == 0 {
        None
    } else if occupies(w.last(), layer, x, y) {
        Some(Entity((w.len() - 1) as usize))
    } else {
        occupant(w.drop_last(), layer, x, y)
    }
}

/// An occupant is an entity of the store that occupies the cell, and no
/// entity created after it does.
pub proof fn lemma_occupant_some(w: Seq<Tags>, layer: Layer, x: u8, y: u8)
    requires
        w.len() <= usize::MAX,
        occupant(w, layer, x, y) is Some,
    ensures
        occupant(w, layer, x, y).unwrap().0 < w.len(),
        occupies(w[occupant(w, layer, x, y).unwrap().0 as int], layer, x, y),
        forall|j: int|
            occupant(w, layer, x, y).unwrap().0 < j < w.len() ==> !occupies(
                #[trigger] w[j],
                layer,
                x,
                y,
            ),
    decreases w.len(),
{
    if !occupies(w.last(), layer, x, y) {
        let rest = w.drop_last();
        lemma_occupant_some(rest, layer, x, y);
        let found = occupant(rest, layer, x, y).unwrap().0 as int;
        assert(rest[found] == w[found]);
        assert forall|j: int| found < j < w.len() implies !occupies(
            #[trigger] w[j],
            layer,
            x,
            y,
        ) by {
            if j < rest.len() {
                assert(rest[j] == w[j]);
            }
        }
    }
}

/// A cell without occupant is one that no entity of the layer stands on.
pub proof fn lemma_occupant_none(w: Seq<Tags>, layer: Layer, x: u8, y: u8)
    ensures
        occupant(w, layer, x, y) is None <==> forall|j: int|
            0 <= j < w.len() ==> !occupies(#[trigger] w[j], layer, x, y),
    decreases w.len(),
{
    if w.len() > 0 {
        lemma_occupant_none(w.drop_last(), layer, x, y);
        if occupant(w, layer, x, y) is None {
            assert forall|j: int| 0 <= j < w.len() implies !occupies(
                #[trigger] w[j],
                layer,
                x,
                y,
            ) by {
                if j < w.len() - 1 {
                    assert(w.drop_last()[j] == w[j]);
                }
            }
        } else if !occupies(w.last(), layer, x, y) {
            let j = choose|j: int|
                0 <= j < w.drop_last().len() && occupies(
                    #[trigger] w.drop_last()[j],
                    layer,
                    x,
                    y,
                );
            assert(w[j] == w.drop_last()[j]);
        }
    }
}

/// The key under which a cell is filed.
pub open spec fn cell_key(x: u8, y: u8) -> u16 {
    (x as u16 * 256 + y as u16) as u16
}

/// Index from cells to the entities of one layer.
pub struct CellIndex {
    cells: HashMap<u16, Entity>,
}

impl CellIndex {
    /// The entity that the index holds for cell (`x`, `y`).
    pub closed spec fn lookup(&self, x: u8, y: u8) -> Option<Entity> {
        if self.cells@.contains_key(cell_key(x, y)) {
            Some(self.cells@[cell_key(x, y)])
        } else {
            None
        }
    }

    /// Reads the store once and files every entity of `layer` that has a
    /// position under its cell.
    pub fn build(world: &World, layer: Layer) -> (index: Self)
        ensures
            forall|x: u8, y: u8| #[trigger] index.lookup(x, y) == occupant(world@, layer, x, y),
    {
        let mut cells: HashMap<u16, Entity> = HashMap::new();
        let n = world.len();
        let mut i: usize = 0;
        while i < n
            invariant
                n == world@.len(),
                i <= n,
                forall|x: u8, y: u8|
                    #![trigger cell_key(x, y)]
                    (if cells@.contains_key(cell_key(x, y)) {
                        Some(cells@[cell_key(x, y)])
                    } else {
                        None
                    }) == occupant(world@.take(i as int), layer, x, y),
            decreases n - i,
        {
            let entity = Entity(i);
            proof {
                assert(world@.take(i + 1).drop_last() =~= world@.take(i as int));
                assert(world@.take(i + 1).last() == world@[i as int]);
            }
            match world.get(entity) {
                Some(components) => {
                    if belongs_to(components, layer) {
                        match components.position {
                            Some(p) => {
                                cells.insert(key_of(p.x, p.y), entity);
                                assert forall|x: u8, y: u8|
                                    #![trigger cell_key(x, y)]
                                    (if cells@.contains_key(cell_key(x, y)) {
                                        Some(cells@[cell_key(x, y)])
                                    } else {
                                        None
                                    }) == occupant(world@.take(i + 1), layer, x, y) by {
                                    assert(cell_key(x, y) == cell_key(p.x, p.y) <==> x == p.x && y
                                        == p.y);
                                }
                            },
                            None => {},
                        }
                    }
                },
                None => {},
            }
            i += 1;
        }
        assert(world@.take(n as int) =~= world@);
        CellIndex { cells }
    }

    /// The entity on cell (`x`, `y`), if there is one.
    pub fn get(&self, x: u8, y: u8) -> (r: Option<Entity>)
        ensures
            r == self.lookup(x, y),
    {
        match self.cells.get(&key_of(x, y)) {
            Some(entity) => Some(*entity),
            None => None,
        }
    }
}

/// Computes the key of a cell.
fn key_of(x: u8, y: u8) -> (k: u16)
    ensures
        k == cell_key(x, y),
{
    x as u16 * 256 + y as u16
}

/// Tells whether an entity belongs to a layer.
fn belongs_to(components: &Components, layer: Layer) -> (r: bool)
    ensures
        r == in_layer(components@, layer),
{
    match layer {
        Layer::Movable => components.movable.is_some(),
        Layer::Immovable => components.immovable.is_some(),
        Layer::Boxes => components.the_box.is_some(),
    }
}

/// The two indexes that a push is resolved against.
pub struct OccupancyIndex {
    pub movables: CellIndex,
    pub immovables: CellIndex,
}

impl OccupancyIndex {
    /// Whether the index holds, for every cell, the occupants that the board
    /// `w` has there.
    pub open spec fn reflects(&self, w: Seq<Tags>) -> bool {
        &&& forall|x: u8, y: u8| #[trigger]
            self.movables.lookup(x, y) == occupant(w, Layer::Movable, x, y)
        &&& forall|x: u8, y: u8| #[trigger]
            self.immovables.lookup(x, y) == occupant(w, Layer::Immovable, x, y)
    }

    /// Indexes the movable and the immovable entities of the store.
    pub fn build(world: &World) -> (index: Self)
        ensures
            index.reflects(world@),
    {
        OccupancyIndex {
            movables: CellIndex::build(world, Layer::Movable),
            immovables: CellIndex::build(world, Layer::Immovable),
        }
    }
}

} // verus!
