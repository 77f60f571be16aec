//! The kinds of entity that a board is made of, and how a board is filled.

use vstd::prelude::*;

use crate::components::{
    Box, BoxColor, BoxSpot, Immovable, Movable, Player, Position, Renderable, Wall,
};
use crate::game::{MAP_HEIGHT, MAP_WIDTH};
use crate::level::{chars_of, create_tile, parse_tile, tile_of, tile_tags, MapError};
use crate::world::{Components, Entity, Tags, World};

verus! {

/// Tags of an entity that has no component at all.
pub open spec fn bare() -> Tags {
    Tags {
        position: None,
        renderable: None,
        player: false,
        the_box: None,
        box_spot: None,
        wall: false,
        movable: false,
        immovable: false,
    }
}

/// Tags of the player on cell `pos`: movable, drawn above the floor and the
/// spots, animated with three images.
pub open spec fn player_tags(pos: Position) -> Tags {
    Tags {
        position: Some(Position { z: 10, ..pos }),
        renderable: Some(
            seq!["/images/player_1.png"@, "/images/player_2.png"@, "/images/player_3.png"@],
        ),
        player: true,
        movable: true,
        ..bare()
    }
}

/// Tags of a box of `color` on cell `pos`: movable, animated with two images
/// of its color.
pub open spec fn box_tags(pos: Position, color: BoxColor) -> Tags {
    Tags {
        position: Some(Position { z: 10, ..pos }),
        renderable: Some(
            match color {
                BoxColor::Red => seq!["/images/box_red_1.png"@, "/images/box_red_2.png"@],
                BoxColor::Blue => seq!["/images/box_blue_1.png"@, "/images/box_blue_2.png"@],
            },
        ),
        the_box: Some(Box { color }),
        movable: true,
        ..bare()
    }
}

/// Tags of a wall on cell `pos`: immovable.
pub open spec fn wall_tags(pos: Position) -> Tags {
    Tags {
        position: Some(Position { z: 10, ..pos }),
        renderable: Some(seq!["/images/wall.png"@]),
        wall: true,
        immovable: true,
        ..bare()
    }
}

/// Tags of a box spot of `color` on cell `pos`: neither movable nor
/// immovable, drawn below the boxes.
pub open spec fn box_spot_tags(pos: Position, color: BoxColor) -> Tags {
    Tags {
        position: Some(Position { z: 9, ..pos }),
        renderable: Some(
            match color {
                BoxColor::Red => seq!["/images/box_spot_red.png"@],
                BoxColor::Blue => seq!["/images/box_spot_blue.png"@],
            },
        ),
        box_spot: Some(BoxSpot { color }),
        ..bare()
    }
}

/// Tags of a piece of floor on cell `pos`: drawn below everything else.
pub open spec fn floor_tags(pos: Position) -> Tags {
    Tags {
        position: Some(Position { z: 5, ..pos }),
        renderable: Some(seq!["/images/floor.png"@]),
        ..bare()
    }
}

/// Components of an entity that so far has only a place and a look.
fn placed(pos: Position, z: u8, renderable: Renderable) -> (c: Components)
    ensures
        c@ == (Tags {
            position: Some(Position { z, ..pos }),
            renderable: Some(renderable@),
            ..bare()
        }),
{
    Components {
        position: Some(Position { x: pos.x, y: pos.y, z }),
        renderable: Some(renderable),
        player: None,
        the_box: None,
        box_spot: None,
        wall: None,
        movable: None,
        immovable: None,
    }
}

/// Adds the player on cell `pos`.
pub fn create_player(world: &mut World, pos: Position) -> (entity: Entity)
    ensures
        final(world)@ == old(world)@.push(player_tags(pos)),
        entity.0 == old(world)@.len(),
{
    let mut paths: Vec<String> = Vec::new();
    paths.push("/images/player_1.png".to_owned());
    paths.push("/images/player_2.png".to_owned());
    paths.push("/images/player_3.png".to_owned());
    let renderable = Renderable::new_animated(paths);
    assert(renderable@ =~= seq![
        "/images/player_1.png"@,
        "/images/player_2.png"@,
        "/images/player_3.png"@,
    ]);
    let mut components = placed(pos, 10, renderable);
    components.player = Some(Player);
    components.movable = Some(Movable);
    world.push(components)
}

/// Adds a box of `color` on cell `pos`.
pub fn create_box(world: &mut World, pos: Position, color: BoxColor) -> (entity: Entity)
    ensures
        final(world)@ == old(world)@.push(box_tags(pos, color)),
        entity.0 == old(world)@.len(),
{
    let mut paths: Vec<String> = Vec::new();
    match color {
        BoxColor::Red => {
            paths.push("/images/box_red_1.png".to_owned());
            paths.push("/images/box_red_2.png".to_owned());
        },
        BoxColor::Blue => {
            paths.push("/images/box_blue_1.png".to_owned());
            paths.push("/images/box_blue_2.png".to_owned());
        },
    }
    let renderable = Renderable::new_animated(paths);
    assert(Some(renderable@) =~= box_tags(pos, color).renderable);
    let mut components = placed(pos, 10, renderable);
    components.the_box = Some(Box { color });
    components.movable = Some(Movable);
    world.push(components)
}

/// Adds a wall on cell `pos`.
pub fn create_wall(world: &mut World, pos: Position) -> (entity: Entity)
    ensures
        final(world)@ == old(world)@.push(wall_tags(pos)),
        entity.0 == old(world)@.len(),
{
    let renderable = Renderable::new_static("/images/wall.png".to_owned());
    let mut components = placed(pos, 10, renderable);
    components.wall = Some(Wall);
    components.immovable = Some(Immovable);
    world.push(components)
}

/// Adds a box spot of `color` on cell `pos`.
pub fn create_box_spot(world: &mut World, pos: Position, color: BoxColor) -> (entity: Entity)
    ensures
        final(world)@ == old(world)@.push(box_spot_tags(pos, color)),
        entity.0 == old(world)@.len(),
{
    let path = match color {
        BoxColor::Red => "/images/box_spot_red.png".to_owned(),
        BoxColor::Blue => "/images/box_spot_blue.png".to_owned(),
    };
    let renderable = Renderable::new_static(path);
    let mut components = placed(pos, 9, renderable);
    components.box_spot = Some(BoxSpot { color });
    world.push(components)
}

/// Adds a piece of floor on cell `floor_pos`.
pub fn create_floor(world: &mut World, floor_pos: Position) -> (entity: Entity)
    ensures
        final(world)@ == old(world)@.push(floor_tags(floor_pos)),
        entity.0 == old(world)@.len(),
{
    let renderable = Renderable::new_static("/images/floor.png".to_owned());
    world.push(placed(floor_pos, 5, renderable))
}

/// Whether a cell is refused when a board is filled item by item: its
/// x-coordinate must be less than the width of the grid, its y-coordinate at
/// most the height.
pub open spec fn out_of_bounds(p: Position) -> bool {
    p.x >= MAP_WIDTH || p.y > MAP_HEIGHT
}

/// What is wrong with an item, if anything: its cell is checked first, then
/// its text.
pub open spec fn item_error(position: Position, text: Seq<char>) -> Option<MapError> {
    if out_of_bounds(position) {
        Some(MapError::OutOfBounds)
    } else if tile_of(text) is None {
        Some(MapError::InvalidItem)
    } else {
        None
    }
}

/// What filling a board with the first `n` items comes to: the entities
/// created, and the error at which the filling stopped, if it did. Items
/// are taken in order, and nothing is created for the item that is wrong
/// nor for those after it.
pub open spec fn filled(items: Seq<(Position, Seq<char>)>, n: nat) -> (Seq<Tags>, Option<MapError>)
    decreases n,
{
    if n == 0 {
        (Seq::empty(), None)
    } else {
        let (tags, error) = filled(items, (n - 1) as nat);
        let (position, text) = items[n - 1];
        if error is Some {
            (tags, error)
        } else if item_error(position, text) is Some {
            (tags, item_error(position, text))
        } else {
            (tags + tile_tags(tile_of(text).unwrap(), position), None)
        }
    }
}

/// Once the filling has stopped, further items change nothing.
proof fn lemma_filled_stops(items: Seq<(Position, Seq<char>)>, n: nat, m: nat)
    requires
        n <= m,
        filled(items, n).1 is Some,
    ensures
        filled(items, m) == filled(items, n),
    decreases m - n,
{
    if n < m {
        lemma_filled_stops(items, n, (m - 1) as nat);
    }
}

/// The items of a board as plain text.
pub open spec fn item_texts(map: Seq<(Position, &str)>) -> Seq<(Position, Seq<char>)> {
    Seq::new(map.len(), |i: int| (map[i].0, map[i].1@))
}

/// Fills the board with the tiles that `map` lists, each with its cell,
/// in order. Stops at the first item whose cell lies outside the grid or
/// whose text stands for no tile, and returns that error; the entities of
/// the items before it stay.
pub fn create_entities_from_map(world: &mut World, map: Vec<(Position, &str)>) -> (r: Result<
    (),
    MapError,
>)
    ensures
        final(world)@ == old(world)@ + filled(item_texts(map@), map@.len()).0,
        r == (match filled(item_texts(map@), map@.len()).1 {
            Some(e) => Err::<(), MapError>(e),
            None => Ok::<(), MapError>(()),
        }),
{
    let ghost items = item_texts(map@);
    let n = map.len();
    let mut i: usize = 0;
    assert(world@ =~= old(world)@ + Seq::<Tags>::empty());
    while i < n
        invariant
            n == map@.len(),
            i <= n,
            items == item_texts(map@),
            filled(items, i as nat).1 is None,
            world@ == old(world)@ + filled(items, i as nat).0,
        decreases n - i,
    {
        let (position, val) = map[i];
        assert(items[i as int] == (position, val@));
        if position.x >= MAP_WIDTH || position.y > MAP_HEIGHT {
            proof {
                lemma_filled_stops(items, (i + 1) as nat, n as nat);
            }
            return Err(MapError::OutOfBounds);
        }
        let text = chars_of(val);
        match parse_tile(text.as_slice()) {
            Some(tile) => {
                create_tile(world, tile, position);
                assert(world@ =~= old(world)@ + filled(items, (i + 1) as nat).0);
            },
            None => {
                proof {
                    lemma_filled_stops(items, (i + 1) as nat, n as nat);
                }
                return Err(MapError::InvalidItem);
            },
        }
        i += 1;
    }
    Ok(())
}

} // verus!
