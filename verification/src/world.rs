//! The entity store: every entity of a game with the components it carries.

use vstd::prelude::*;

use crate::components::{Box, BoxSpot, Immovable, Movable, Player, Position, Renderable, Wall};

verus! {

/// Identity of an entity: its place in the store. Entities are never removed,
/// so an identity stays valid for as long as the store lives.
#[derive(Clone, Copy, Debug, PartialEq, Eq, Structural, Hash)]
pub struct Entity(pub usize);

/// The components of one entity. A missing component is `None`.
#[derive(Debug)]
pub struct Components {
    pub position: Option<Position>,
    pub renderable: Option<Renderable>,
    pub player: Option<Player>,
    pub the_box: Option<Box>,
    pub box_spot: Option<BoxSpot>,
    pub wall: Option<Wall>,
    pub movable: Option<Movable>,
    pub immovable: Option<Immovable>,
}

/// What the rules of the game see of one entity.
pub struct Tags {
    pub position: Option<Position>,
    pub renderable: Option<Seq<Seq<char>>>,
    pub player: bool,
    pub the_box: Option<Box>,
    pub box_spot: Option<BoxSpot>,
    pub wall: bool,
    pub movable: bool,
    pub immovable: bool,
}

impl View for Components {
    type V = Tags;

    open spec fn view(&self) -> Tags {
        Tags {
            position: self.position,
            renderable: match self.renderable {
                Some(r) => Some(r@),
                None => None,
            },
            player: self.player is Some,
            the_box: self.the_box,
            box_spot: self.box_spot,
            wall: self.wall is Some,
            movable: self.movable is Some,
            immovable: self.immovable is Some,
        }
    }
}

/// All entities of a game, in the order in which they were created.
pub struct World {
    entities: Vec<Components>,
}

impl View for World {
    type V = Seq<Tags>;

    closed spec fn view(&self) -> Seq<Tags> {
        Seq::new(self.entities@.len(), |i: int| self.entities@[i]@)
    }
}

impl World {
    /// A store without entities.
    pub fn new() -> (world: Self)
        ensures
            world@ == Seq::<Tags>::empty(),
    {
        let world = World { entities: Vec::new() };
        assert(world@ =~= Seq::<Tags>::empty());
        world
    }

    /// Number of entities.
    pub fn len(&self) -> (n: usize)
        ensures
            n == self@.len(),
    {
        self.entities.len()
    }

    /// Adds an entity with the given components and returns its identity.
    pub fn push(&mut self, components: Components) -> (entity: Entity)
        ensures
            final(self)@ == old(self)@.push(components@),
            entity.0 == old(self)@.len(),
    {
        let index = self.entities.len();
        self.entities.push(components);
        assert(self@ =~= old(self)@.push(components@));
        Entity(index)
    }

    /// The components of `entity`, if the store holds it.
    pub fn get(&self, entity: Entity) -> (r: Option<&Components>)
        ensures
            match r {
                Some(c) => entity.0 < self@.len() && c@ == self@[entity.0 as int],
                None => entity.0 >= self@.len(),
            },
    {
        if entity.0 < self.entities.len() {
            Some(&self.entities[entity.0])
        } else {
            None
        }
    }

    /// Moves `entity` to `position`. Nothing changes where the store does not
    /// hold the entity or the entity has no position.
    pub fn set_position(&mut self, entity: Entity, position: Position)
        ensures
            final(self)@ == (if entity.0 < old(self)@.len() && old(
                self,
            )@[entity.0 as int].position is Some {
                old(self)@.update(
                    entity.0 as int,
                    (Tags { position: Some(position), ..old(self)@[entity.0 as int] }),
                )
            } else {
                old(self)@
            }),
    {
        if entity.0 < self.entities.len() {
            if self.entities[entity.0].position.is_some() {
                self.entities[entity.0].position = Some(position);
                assert(self@ =~= old(self)@.update(
                    entity.0 as int,
                    (Tags { position: Some(position), ..old(self)@[entity.0 as int] }),
                ));
            }
        }
    }
}

} // verus!
