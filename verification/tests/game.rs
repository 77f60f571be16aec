use sokoban::components::Position;
use sokoban::game::Game;
use sokoban::level::MapError;
use sokoban::resources::{GamePlay, GamePlayEvent, GamePlayState, KeyCode, Sound};
use sokoban::world::Entity;

const BOARD: &str = "\
    N N W W W W W W W
    W W W . . . . . W
    W . . . BB . . . W
    W . . RB . . . . W 
    W . P . . . . . W
    W . . . . RS . . W
    W . . BS . . . . W
    W . . . . . . . W
    W W W W W W W W W";

const SMALL: &str = "\
    W W W W W W W W W
    W P RB RS . . . . W
    W . . . . . . . W
    W . . . . . . . W
    W . . . . . . . W
    W . . . . . . . W
    W . . . . . . . W
    W . . . . . . . W
    W W W W W W W W W";

fn find(game: &Game, what: fn(&sokoban::world::Components) -> bool) -> Entity {
    for i in 0..game.world.len() {
        if what(game.world.get(Entity(i)).unwrap()) {
            return Entity(i);
        }
    }
    panic!("no such entity");
}

fn cell(game: &Game, entity: Entity) -> (u8, u8) {
    let p = game.world.get(entity).unwrap().position.unwrap();
    (p.x, p.y)
}

fn play(game: &mut Game, keys: &[KeyCode]) -> Vec<Sound> {
    let mut sounds = Vec::new();
    for key in keys {
        game.key_down_event(*key);
        sounds.extend(game.update());
    }
    sounds
}

#[test]
fn new_game_has_nothing_played_and_nothing_waiting() {
    let game = Game::new(BOARD).unwrap();
    assert_eq!(game.gameplay, GamePlay { state: GamePlayState::Playing, steps_taken: 0 });
    assert!(game.key_pressed_events.queue.is_empty());
    assert!(game.gameplay_events.queue.is_empty());
    assert_eq!(game.world.len(), 84);
}

#[test]
fn new_game_refuses_a_wrong_board() {
    assert_eq!(Game::new("P").err(), Some(MapError::IncorrectDimensions));
    assert_eq!(Game::new(&BOARD.replace("BB", "GB")).err(), Some(MapError::InvalidItem));
}

#[test]
fn key_presses_wait_in_order() {
    let mut game = Game::new(BOARD).unwrap();
    game.key_down_event(KeyCode::Left);
    game.key_down_event(KeyCode::Other);
    game.key_down_event(KeyCode::Up);
    assert_eq!(game.key_pressed_events.queue, vec![KeyCode::Left, KeyCode::Other, KeyCode::Up]);
    game.update();
    assert_eq!(game.key_pressed_events.queue, vec![KeyCode::Other, KeyCode::Up]);
}

#[test]
fn tick_without_key_press_only_evaluates() {
    let mut game = Game::new(BOARD).unwrap();
    let sounds = game.update();
    assert!(sounds.is_empty());
    assert_eq!(game.gameplay, GamePlay { state: GamePlayState::Playing, steps_taken: 0 });
    assert!(game.gameplay_events.queue.is_empty());
}

#[test]
fn box_on_matching_spot_sounds_one_tick_later() {
    let mut game = Game::new(SMALL).unwrap();
    let player = find(&game, |c| c.player.is_some());
    let the_box = find(&game, |c| c.the_box.is_some());

    game.key_down_event(KeyCode::Right);
    let sounds = game.update();
    assert!(sounds.is_empty());
    assert_eq!(cell(&game, player), (2, 1));
    assert_eq!(cell(&game, the_box), (3, 1));
    assert_eq!(game.gameplay_events.queue, vec![GamePlayEvent::BoxPlacedOnSpot(true)]);
    assert_eq!(game.gameplay, GamePlay { state: GamePlayState::Won, steps_taken: 1 });

    let sounds = game.update();
    assert_eq!(sounds, vec![Sound::Correct]);
    assert!(game.gameplay_events.queue.is_empty());

    let sounds = game.update();
    assert!(sounds.is_empty());
}

#[test]
fn pushing_the_box_off_its_spot_reopens_the_game() {
    let mut game = Game::new(SMALL).unwrap();
    let sounds = play(&mut game, &[KeyCode::Right, KeyCode::Right]);
    assert_eq!(sounds, vec![Sound::Correct]);
    assert_eq!(game.gameplay, GamePlay { state: GamePlayState::Playing, steps_taken: 2 });
    assert!(game.gameplay_events.queue.is_empty());
}

#[test]
fn box_on_spot_of_other_color_sounds_incorrect() {
    let mut game = Game::new(&SMALL.replace("RS", "BS")).unwrap();
    let sounds = play(&mut game, &[KeyCode::Right, KeyCode::Other]);
    assert_eq!(sounds, vec![Sound::Incorrect]);
    assert_eq!(game.gameplay, GamePlay { state: GamePlayState::Playing, steps_taken: 1 });
}

#[test]
fn wall_sounds_in_the_same_tick() {
    let mut game = Game::new(SMALL).unwrap();
    let player = find(&game, |c| c.player.is_some());
    let sounds = play(&mut game, &[KeyCode::Up]);
    assert_eq!(sounds, vec![Sound::Wall]);
    assert_eq!(cell(&game, player), (1, 1));
    assert_eq!(game.gameplay.steps_taken, 0);
    let sounds = play(&mut game, &[KeyCode::Left]);
    assert_eq!(sounds, vec![Sound::Wall]);
}

#[test]
fn box_against_the_wall_blocks_the_player() {
    let mut game = Game::new(SMALL).unwrap();
    let player = find(&game, |c| c.player.is_some());
    let the_box = find(&game, |c| c.the_box.is_some());
    let right = [KeyCode::Right; 7];
    let sounds = play(&mut game, &right);
    assert_eq!(cell(&game, the_box), (7, 1));
    assert_eq!(cell(&game, player), (6, 1));
    assert_eq!(game.gameplay.steps_taken, 5);
    assert_eq!(sounds, vec![Sound::Correct, Sound::Wall, Sound::Wall]);
}

#[test]
fn whole_board_can_be_solved() {
    let mut game = Game::new(BOARD).unwrap();
    let keys = [
        // Red box from (3, 3) to (5, 5).
        KeyCode::Up,
        KeyCode::Right,
        KeyCode::Right,
        KeyCode::Down,
        KeyCode::Right,
        KeyCode::Right,
        KeyCode::Up,
        KeyCode::Up,
        KeyCode::Left,
        KeyCode::Down,
        KeyCode::Down,
        // Blue box from (4, 2) to (3, 6).
        KeyCode::Up,
        KeyCode::Up,
        KeyCode::Left,
        KeyCode::Up,
        KeyCode::Left,
        KeyCode::Down,
        KeyCode::Down,
        KeyCode::Down,
        KeyCode::Down,
    ];
    let mut sounds = play(&mut game, &keys);
    sounds.extend(game.update());
    let red = find(&game, |c| match c.the_box {
        Some(b) => b.color == sokoban::components::BoxColor::Red,
        None => false,
    });
    let blue = find(&game, |c| match c.the_box {
        Some(b) => b.color == sokoban::components::BoxColor::Blue,
        None => false,
    });
    assert_eq!(cell(&game, red), (5, 5));
    assert_eq!(cell(&game, blue), (3, 6));
    assert_eq!(game.gameplay, GamePlay { state: GamePlayState::Won, steps_taken: 20 });
    assert_eq!(sounds, vec![Sound::Correct, Sound::Correct]);
    assert_eq!(
        game.world.get(blue).unwrap().position,
        Some(Position { x: 3, y: 6, z: 10 })
    );
}
