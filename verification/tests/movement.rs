use sokoban::components::{BoxColor, Position};
use sokoban::entities::{create_box, create_box_spot, create_floor, create_player, create_wall};
use sokoban::movement::{resolve_push, shift_entities};
use sokoban::occupancy::OccupancyIndex;
use sokoban::resources::{
    GamePlay, GamePlayEvent, GamePlayEventQueue, GamePlayState, KeyCode, KeyPressedEventQueue,
};
use sokoban::systems::input_handling;
use sokoban::world::{Entity, World};

fn at(x: u8, y: u8) -> Position {
    Position { x, y, z: 0 }
}

fn cell(world: &World, entity: Entity) -> (u8, u8) {
    let p = world.get(entity).unwrap().position.unwrap();
    (p.x, p.y)
}

fn press(world: &mut World, key: KeyCode, events: &mut GamePlayEventQueue, gameplay: &mut GamePlay) {
    let mut keys = KeyPressedEventQueue { queue: vec![key] };
    input_handling(world, &mut keys, events, gameplay);
    assert!(keys.queue.is_empty());
}

fn fresh() -> (GamePlayEventQueue, GamePlay) {
    (
        GamePlayEventQueue { queue: Vec::new() },
        GamePlay { state: GamePlayState::Playing, steps_taken: 0 },
    )
}

#[test]
fn player_steps_onto_empty_cell_in_each_direction() {
    for (key, expected) in [
        (KeyCode::Up, (4, 3)),
        (KeyCode::Down, (4, 5)),
        (KeyCode::Left, (3, 4)),
        (KeyCode::Right, (5, 4)),
    ] {
        let mut world = World::new();
        let player = create_player(&mut world, at(4, 4));
        let (mut events, mut gameplay) = fresh();
        press(&mut world, key, &mut events, &mut gameplay);
        assert_eq!(cell(&world, player), expected);
        assert_eq!(gameplay.steps_taken, 1);
        assert_eq!(events.queue, vec![GamePlayEvent::EntityMoved(player)]);
    }
}

#[test]
fn single_push_moves_box_and_player_by_one_cell() {
    let mut world = World::new();
    let player = create_player(&mut world, at(2, 4));
    let the_box = create_box(&mut world, at(3, 4), BoxColor::Red);
    let (mut events, mut gameplay) = fresh();
    press(&mut world, KeyCode::Right, &mut events, &mut gameplay);
    assert_eq!(cell(&world, player), (3, 4));
    assert_eq!(cell(&world, the_box), (4, 4));
    assert_eq!(gameplay.steps_taken, 1);
    assert_eq!(
        events.queue,
        vec![GamePlayEvent::EntityMoved(player), GamePlayEvent::EntityMoved(the_box)]
    );
}

#[test]
fn chain_before_wall_does_not_move() {
    let mut world = World::new();
    let player = create_player(&mut world, at(1, 1));
    let first = create_box(&mut world, at(2, 1), BoxColor::Red);
    let second = create_box(&mut world, at(3, 1), BoxColor::Blue);
    let wall = create_wall(&mut world, at(4, 1));
    let (mut events, mut gameplay) = fresh();
    press(&mut world, KeyCode::Right, &mut events, &mut gameplay);
    assert_eq!(cell(&world, player), (1, 1));
    assert_eq!(cell(&world, first), (2, 1));
    assert_eq!(cell(&world, second), (3, 1));
    assert_eq!(cell(&world, wall), (4, 1));
    assert_eq!(gameplay.steps_taken, 0);
    assert_eq!(events.queue, vec![GamePlayEvent::HitObstacle]);
}

#[test]
fn player_against_wall_does_not_move() {
    let mut world = World::new();
    let player = create_player(&mut world, at(1, 1));
    create_wall(&mut world, at(1, 0));
    let (mut events, mut gameplay) = fresh();
    press(&mut world, KeyCode::Up, &mut events, &mut gameplay);
    assert_eq!(cell(&world, player), (1, 1));
    assert_eq!(gameplay.steps_taken, 0);
    assert_eq!(events.queue, vec![GamePlayEvent::HitObstacle]);
}

#[test]
fn chain_before_empty_cell_moves_as_a_whole() {
    let mut world = World::new();
    let player = create_player(&mut world, at(5, 6));
    let first = create_box(&mut world, at(5, 5), BoxColor::Red);
    let second = create_box(&mut world, at(5, 4), BoxColor::Blue);
    let third = create_box(&mut world, at(5, 3), BoxColor::Blue);
    let wall = create_wall(&mut world, at(5, 1));
    let (mut events, mut gameplay) = fresh();
    gameplay.steps_taken = 41;
    press(&mut world, KeyCode::Up, &mut events, &mut gameplay);
    assert_eq!(cell(&world, player), (5, 5));
    assert_eq!(cell(&world, first), (5, 4));
    assert_eq!(cell(&world, second), (5, 3));
    assert_eq!(cell(&world, third), (5, 2));
    assert_eq!(cell(&world, wall), (5, 1));
    assert_eq!(gameplay.steps_taken, 42);
    assert_eq!(
        events.queue,
        vec![
            GamePlayEvent::EntityMoved(player),
            GamePlayEvent::EntityMoved(first),
            GamePlayEvent::EntityMoved(second),
            GamePlayEvent::EntityMoved(third),
        ]
    );
}

#[test]
fn chain_that_reaches_the_far_edge_moves() {
    let mut world = World::new();
    let player = create_player(&mut world, at(7, 2));
    let the_box = create_box(&mut world, at(8, 2), BoxColor::Red);
    let (mut events, mut gameplay) = fresh();
    press(&mut world, KeyCode::Right, &mut events, &mut gameplay);
    assert_eq!(cell(&world, player), (8, 2));
    assert_eq!(cell(&world, the_box), (9, 2));
    assert_eq!(gameplay.steps_taken, 1);
}

#[test]
fn gap_ends_the_chain() {
    let mut world = World::new();
    let player = create_player(&mut world, at(1, 1));
    let near = create_box(&mut world, at(2, 1), BoxColor::Red);
    let far = create_box(&mut world, at(4, 1), BoxColor::Red);
    let (mut events, mut gameplay) = fresh();
    press(&mut world, KeyCode::Right, &mut events, &mut gameplay);
    assert_eq!(cell(&world, player), (2, 1));
    assert_eq!(cell(&world, near), (3, 1));
    assert_eq!(cell(&world, far), (4, 1));
}

#[test]
fn player_on_the_edge_pressing_towards_it_changes_nothing() {
    let mut world = World::new();
    let player = create_player(&mut world, at(0, 3));
    let (mut events, mut gameplay) = fresh();
    press(&mut world, KeyCode::Left, &mut events, &mut gameplay);
    assert_eq!(cell(&world, player), (0, 3));
    assert_eq!(gameplay.steps_taken, 0);
    assert!(events.queue.is_empty());

    let mut world = World::new();
    let player = create_player(&mut world, at(3, 0));
    press(&mut world, KeyCode::Up, &mut events, &mut gameplay);
    assert_eq!(cell(&world, player), (3, 0));
    assert_eq!(gameplay.steps_taken, 0);
    assert!(events.queue.is_empty());
}

#[test]
fn player_next_to_the_edge_steps_onto_the_empty_edge_cell() {
    let mut world = World::new();
    let player = create_player(&mut world, at(1, 3));
    let (mut events, mut gameplay) = fresh();
    press(&mut world, KeyCode::Left, &mut events, &mut gameplay);
    assert_eq!(cell(&world, player), (0, 3));
    assert_eq!(gameplay.steps_taken, 1);
    assert_eq!(events.queue, vec![GamePlayEvent::EntityMoved(player)]);
}

#[test]
fn coordinate_zero_saturates_for_a_pushed_box() {
    let mut world = World::new();
    let player = create_player(&mut world, at(1, 3));
    let the_box = create_box(&mut world, at(0, 3), BoxColor::Blue);
    let (mut events, mut gameplay) = fresh();
    press(&mut world, KeyCode::Left, &mut events, &mut gameplay);
    assert_eq!(cell(&world, the_box), (0, 3));
    assert_eq!(cell(&world, player), (0, 3));
    assert_eq!(gameplay.steps_taken, 1);
}

#[test]
fn press_without_player_changes_nothing() {
    let mut world = World::new();
    let the_box = create_box(&mut world, at(3, 3), BoxColor::Blue);
    let (mut events, mut gameplay) = fresh();
    press(&mut world, KeyCode::Down, &mut events, &mut gameplay);
    assert_eq!(cell(&world, the_box), (3, 3));
    assert_eq!(gameplay.steps_taken, 0);
    assert!(events.queue.is_empty());
}

#[test]
fn other_key_is_taken_off_the_queue_and_ignored() {
    let mut world = World::new();
    let player = create_player(&mut world, at(3, 3));
    let (mut events, mut gameplay) = fresh();
    press(&mut world, KeyCode::Other, &mut events, &mut gameplay);
    assert_eq!(cell(&world, player), (3, 3));
    assert_eq!(gameplay.steps_taken, 0);
    assert!(events.queue.is_empty());
}

#[test]
fn no_key_press_changes_nothing() {
    let mut world = World::new();
    let player = create_player(&mut world, at(3, 3));
    let mut keys = KeyPressedEventQueue { queue: Vec::new() };
    let mut events = GamePlayEventQueue { queue: vec![GamePlayEvent::HitObstacle] };
    let mut gameplay = GamePlay { state: GamePlayState::Won, steps_taken: 7 };
    input_handling(&mut world, &mut keys, &mut events, &mut gameplay);
    assert_eq!(cell(&world, player), (3, 3));
    assert_eq!(gameplay, GamePlay { state: GamePlayState::Won, steps_taken: 7 });
    assert_eq!(events.queue, vec![GamePlayEvent::HitObstacle]);
}

#[test]
fn oldest_key_press_is_resolved_first() {
    let mut world = World::new();
    let player = create_player(&mut world, at(4, 4));
    let mut keys = KeyPressedEventQueue { queue: vec![KeyCode::Up, KeyCode::Right] };
    let (mut events, mut gameplay) = fresh();
    input_handling(&mut world, &mut keys, &mut events, &mut gameplay);
    assert_eq!(cell(&world, player), (4, 3));
    assert_eq!(keys.queue, vec![KeyCode::Right]);
    input_handling(&mut world, &mut keys, &mut events, &mut gameplay);
    assert_eq!(cell(&world, player), (5, 3));
    assert!(keys.queue.is_empty());
    assert_eq!(gameplay.steps_taken, 2);
}

#[test]
fn move_keeps_draw_order_and_tags() {
    let mut world = World::new();
    let player = create_player(&mut world, Position { x: 2, y: 2, z: 77 });
    let (mut events, mut gameplay) = fresh();
    press(&mut world, KeyCode::Down, &mut events, &mut gameplay);
    let components = world.get(player).unwrap();
    assert_eq!(components.position, Some(Position { x: 2, y: 3, z: 10 }));
    assert!(components.player.is_some());
    assert!(components.movable.is_some());
    assert!(components.immovable.is_none());
    assert_eq!(components.renderable.as_ref().unwrap().len(), 3);
}

#[test]
fn floor_and_spots_do_not_block() {
    let mut world = World::new();
    create_floor(&mut world, at(2, 2));
    create_floor(&mut world, at(3, 2));
    let spot = create_box_spot(&mut world, at(3, 2), BoxColor::Red);
    let player = create_player(&mut world, at(2, 2));
    let (mut events, mut gameplay) = fresh();
    press(&mut world, KeyCode::Right, &mut events, &mut gameplay);
    assert_eq!(cell(&world, player), (3, 2));
    assert_eq!(cell(&world, spot), (3, 2));
    assert_eq!(events.queue, vec![GamePlayEvent::EntityMoved(player)]);
}

#[test]
fn events_are_appended_to_those_that_wait() {
    let mut world = World::new();
    let player = create_player(&mut world, at(2, 2));
    let mut events = GamePlayEventQueue { queue: vec![GamePlayEvent::BoxPlacedOnSpot(true)] };
    let mut gameplay = GamePlay { state: GamePlayState::Playing, steps_taken: 0 };
    press(&mut world, KeyCode::Right, &mut events, &mut gameplay);
    assert_eq!(
        events.queue,
        vec![GamePlayEvent::BoxPlacedOnSpot(true), GamePlayEvent::EntityMoved(player)]
    );
}

#[test]
fn resolver_lists_the_chain_and_changes_nothing() {
    let mut world = World::new();
    let player = create_player(&mut world, at(1, 1));
    let first = create_box(&mut world, at(1, 2), BoxColor::Red);
    let second = create_box(&mut world, at(1, 3), BoxColor::Blue);
    create_wall(&mut world, at(3, 1));
    let index = OccupancyIndex::build(&world);

    let down = resolve_push(&world, &index, KeyCode::Down);
    assert_eq!(down.to_move, vec![player, first, second]);
    assert_eq!(down.hits, 0);
    assert_eq!(cell(&world, player), (1, 1));

    let right = resolve_push(&world, &index, KeyCode::Right);
    assert_eq!(right.to_move, vec![player]);
    assert_eq!(right.hits, 0);

    let other = resolve_push(&world, &index, KeyCode::Other);
    assert!(other.to_move.is_empty());
    assert_eq!(other.hits, 0);

    shift_entities(&mut world, KeyCode::Down, &down.to_move);
    assert_eq!(cell(&world, player), (1, 2));
    assert_eq!(cell(&world, first), (1, 3));
    assert_eq!(cell(&world, second), (1, 4));
}

#[test]
fn resolver_counts_a_blocked_push() {
    let mut world = World::new();
    create_player(&mut world, at(1, 1));
    create_box(&mut world, at(2, 1), BoxColor::Red);
    create_wall(&mut world, at(3, 1));
    let index = OccupancyIndex::build(&world);
    let right = resolve_push(&world, &index, KeyCode::Right);
    assert!(right.to_move.is_empty());
    assert_eq!(right.hits, 1);
}

#[test]
fn shifting_saturates_at_zero_and_skips_unknown_entities() {

    let mut world = World::new();
    let the_box = create_box(&mut world, at(0, 0), BoxColor::Red);
    shift_entities(&mut world, KeyCode::Left, &vec![the_box, Entity(5)]);
    assert_eq!(cell(&world, the_box), (0, 0));
    shift_entities(&mut world, KeyCode::Up, &vec![the_box]);
    assert_eq!(cell(&world, the_box), (0, 0));
    shift_entities(&mut world, KeyCode::Right, &vec![the_box, the_box]);
    assert_eq!(cell(&world, the_box), (2, 0));
    shift_entities(&mut world, KeyCode::Other, &vec![the_box]);
    assert_eq!(cell(&world, the_box), (2, 0));
    assert_eq!(world.len(), 1);
}

#[test]
fn each_player_pushes_in_the_order_of_the_store() {
    let mut world = World::new();
    let upper = create_player(&mut world, at(1, 1));
    let lower = create_player(&mut world, at(1, 5));
    create_wall(&mut world, at(2, 5));
    let (mut events, mut gameplay) = fresh();
    press(&mut world, KeyCode::Right, &mut events, &mut gameplay);
    // The push of the second player is blocked, which also cancels the first.
    assert_eq!(cell(&world, upper), (1, 1));
    assert_eq!(cell(&world, lower), (1, 5));
    assert_eq!(gameplay.steps_taken, 0);
    assert_eq!(events.queue, vec![GamePlayEvent::HitObstacle]);

    let mut world = World::new();
    let lower = create_player(&mut world, at(1, 5));
    let upper = create_player(&mut world, at(1, 1));
    create_wall(&mut world, at(2, 5));
    let (mut events, mut gameplay) = fresh();
    press(&mut world, KeyCode::Right, &mut events, &mut gameplay);
    assert_eq!(cell(&world, upper), (2, 1));
    assert_eq!(cell(&world, lower), (1, 5));
    assert_eq!(gameplay.steps_taken, 1);
    assert_eq!(
        events.queue,
        vec![GamePlayEvent::HitObstacle, GamePlayEvent::EntityMoved(upper)]
    );
}

#[test]
fn player_on_the_last_column_steps_onto_the_empty_edge_coordinate() {
    let mut world = World::new();
    let player = create_player(&mut world, at(8, 2));
    let (mut events, mut gameplay) = fresh();
    press(&mut world, KeyCode::Right, &mut events, &mut gameplay);
    assert_eq!(cell(&world, player), (9, 2));
    assert_eq!(gameplay.steps_taken, 1);
    press(&mut world, KeyCode::Right, &mut events, &mut gameplay);
    assert_eq!(cell(&world, player), (9, 2));
    assert_eq!(gameplay.steps_taken, 1);
    assert_eq!(events.queue, vec![GamePlayEvent::EntityMoved(player)]);

    let mut world = World::new();
    let player = create_player(&mut world, at(3, 8));
    press(&mut world, KeyCode::Down, &mut events, &mut gameplay);
    assert_eq!(cell(&world, player), (3, 9));
    press(&mut world, KeyCode::Down, &mut events, &mut gameplay);
    assert_eq!(cell(&world, player), (3, 9));
    assert_eq!(gameplay.steps_taken, 2);
}
