use sokoban::components::{BoxColor, Position};
use sokoban::entities::create_entities_from_map;
use sokoban::game::{load_map, MAP_HEIGHT, MAP_WIDTH};
use sokoban::level::{parse_tile, read_map, MapError, Tile};
use sokoban::world::{Entity, World};

const BOARD: &str = "\
    N N W W W W W W W
    W W W . . . . . W
    W . . . BB . . . W
    W . . RB . . . . W 
    W . P . . . . . W
    W . . . . RS . . W
    W . . BS . . . . W
    W . . . . . . . W
    W W W W W W W W W";

fn tile(text: &str) -> Option<Tile> {
    let chars: Vec<char> = text.chars().collect();
    parse_tile(&chars)
}

#[test]
fn grid_is_nine_by_nine() {
    assert_eq!(MAP_WIDTH, 9);
    assert_eq!(MAP_HEIGHT, 9);
}

#[test]
fn every_tile_has_its_text() {
    assert_eq!(tile("BB"), Some(Tile::BlueBox));
    assert_eq!(tile("RB"), Some(Tile::RedBox));
    assert_eq!(tile("BS"), Some(Tile::BlueBoxSpot));
    assert_eq!(tile("RS"), Some(Tile::RedBoxSpot));
    assert_eq!(tile("P"), Some(Tile::Player));
    assert_eq!(tile("W"), Some(Tile::Wall));
    assert_eq!(tile("."), Some(Tile::Floor));
    assert_eq!(tile("N"), Some(Tile::Nothing));
}

#[test]
fn other_text_is_no_tile() {
    assert_eq!(tile(""), None);
    assert_eq!(tile("B"), None);
    assert_eq!(tile("SB"), None);
    assert_eq!(tile("bb"), None);
    assert_eq!(tile("BBB"), None);
    assert_eq!(tile(" P"), None);
    assert_eq!(tile("X"), None);
}

#[test]
fn board_is_read_row_by_row() {
    let items = read_map(BOARD).unwrap();
    assert_eq!(items.len(), 81);
    assert_eq!(items[0], (Position { x: 0, y: 0, z: 0 }, Tile::Nothing));
    assert_eq!(items[2], (Position { x: 2, y: 0, z: 0 }, Tile::Wall));
    assert_eq!(items[9], (Position { x: 0, y: 1, z: 0 }, Tile::Wall));
    assert_eq!(items[2 * 9 + 4], (Position { x: 4, y: 2, z: 0 }, Tile::BlueBox));
    assert_eq!(items[3 * 9 + 3], (Position { x: 3, y: 3, z: 0 }, Tile::RedBox));
    assert_eq!(items[4 * 9 + 2], (Position { x: 2, y: 4, z: 0 }, Tile::Player));
    assert_eq!(items[5 * 9 + 5], (Position { x: 5, y: 5, z: 0 }, Tile::RedBoxSpot));
    assert_eq!(items[6 * 9 + 3], (Position { x: 3, y: 6, z: 0 }, Tile::BlueBoxSpot));
    assert_eq!(items[7 * 9 + 1], (Position { x: 1, y: 7, z: 0 }, Tile::Floor));
    assert_eq!(items[80], (Position { x: 8, y: 8, z: 0 }, Tile::Wall));
}

#[test]
fn white_space_around_a_line_does_not_count() {
    let padded = BOARD.replace('\n', " \t\r\n\u{a0}\u{2003} ");
    assert_eq!(read_map(&padded), read_map(BOARD));
    assert!(read_map(&padded).is_ok());
}

#[test]
fn too_few_or_too_many_rows_are_wrong_dimensions() {
    assert_eq!(read_map(""), Err(MapError::IncorrectDimensions));
    let eight: Vec<&str> = BOARD.split('\n').take(8).collect();
    assert_eq!(read_map(&eight.join("\n")), Err(MapError::IncorrectDimensions));
    let ten = format!("{}\nW W W W W W W W W", BOARD);
    assert_eq!(read_map(&ten), Err(MapError::IncorrectDimensions));
    let trailing = format!("{}\n", BOARD);
    assert_eq!(read_map(&trailing), Err(MapError::IncorrectDimensions));
}

#[test]
fn too_few_or_too_many_cells_are_wrong_dimensions() {
    let short = BOARD.replace("W . P . . . . . W", "W . P . . . . W");
    assert_eq!(read_map(&short), Err(MapError::IncorrectDimensions));
    let long = BOARD.replace("W . P . . . . . W", "W . P . . . . . . W");
    assert_eq!(read_map(&long), Err(MapError::IncorrectDimensions));
    let doubled = BOARD.replace("W . P . . . . . W", "W .  P . . . . . W");
    assert_eq!(read_map(&doubled), Err(MapError::IncorrectDimensions));
}

#[test]
fn unknown_cell_is_an_invalid_item() {
    let unknown = BOARD.replace("P", "Q");
    assert_eq!(read_map(&unknown), Err(MapError::InvalidItem));
    let tabbed = BOARD.replace("W . P . . . . . W", "W . P\t. . . . . W W");
    assert_eq!(read_map(&tabbed), Err(MapError::InvalidItem));
    // Two spaces in a row enclose an empty cell.
    let empty = BOARD.replace("W . P . . . . . W", "W .  P . . . . W");
    assert_eq!(read_map(&empty), Err(MapError::InvalidItem));
}

#[test]
fn first_error_from_the_top_is_reported() {
    let item_then_width = BOARD.replace("W W W . . . . . W", "W W X . . . . . W").replace(
        "W . P . . . . . W",
        "W . P",
    );
    assert_eq!(read_map(&item_then_width), Err(MapError::InvalidItem));
    let width_then_item = BOARD.replace("W W W . . . . . W", "W W W").replace("P", "Q");
    assert_eq!(read_map(&width_then_item), Err(MapError::IncorrectDimensions));
}

#[test]
fn loading_a_board_creates_its_entities_in_order() {
    let mut world = World::new();
    assert_eq!(load_map(&mut world, BOARD), Ok(()));
    // 2 cells hold nothing, 34 a wall, 45 floor; 5 of these also a box, a spot or the player.
    assert_eq!(world.len(), 34 + 45 + 5);
    let first = world.get(Entity(0)).unwrap();
    assert!(first.wall.is_some() && first.immovable.is_some());
    assert_eq!(first.position, Some(Position { x: 2, y: 0, z: 10 }));
    let mut players = Vec::new();
    let mut boxes = Vec::new();
    let mut spots = Vec::new();
    for i in 0..world.len() {
        let c = world.get(Entity(i)).unwrap();
        let p = c.position.unwrap();
        if c.player.is_some() {
            assert!(c.movable.is_some());
            players.push((p.x, p.y, p.z));
            let floor = world.get(Entity(i - 1)).unwrap();
            assert_eq!(floor.position, Some(Position { x: p.x, y: p.y, z: 5 }));
        }
        if let Some(b) = c.the_box {
            assert!(c.movable.is_some());
            boxes.push((p.x, p.y, p.z, b.color));
        }
        if let Some(s) = c.box_spot {
            assert!(c.movable.is_none() && c.immovable.is_none());
            spots.push((p.x, p.y, p.z, s.color));
        }
    }
    assert_eq!(players, vec![(2, 4, 10)]);
    assert_eq!(boxes, vec![(4, 2, 10, BoxColor::Blue), (3, 3, 10, BoxColor::Red)]);
    assert_eq!(spots, vec![(5, 5, 9, BoxColor::Red), (3, 6, 9, BoxColor::Blue)]);
}

#[test]
fn loading_a_wrong_board_leaves_the_store_alone() {
    let mut world = World::new();
    assert_eq!(load_map(&mut world, &BOARD.replace("RS", "SR")), Err(MapError::InvalidItem));
    assert_eq!(world.len(), 0);
    assert_eq!(load_map(&mut world, "W W W"), Err(MapError::IncorrectDimensions));
    assert_eq!(world.len(), 0);
}

#[test]
fn items_are_created_in_order() {
    let mut world = World::new();
    let map = vec![
        (Position { x: 0, y: 0, z: 3 }, "W"),
        (Position { x: 1, y: 0, z: 3 }, "N"),
        (Position { x: 8, y: 9, z: 3 }, "RB"),
        (Position { x: 2, y: 2, z: 3 }, "."),
    ];
    assert_eq!(create_entities_from_map(&mut world, map), Ok(()));
    assert_eq!(world.len(), 4);
    assert!(world.get(Entity(0)).unwrap().wall.is_some());
    assert_eq!(world.get(Entity(1)).unwrap().position, Some(Position { x: 8, y: 9, z: 5 }));
    let the_box = world.get(Entity(2)).unwrap();
    assert_eq!(the_box.the_box.unwrap().color, BoxColor::Red);
    assert_eq!(the_box.position, Some(Position { x: 8, y: 9, z: 10 }));
    assert_eq!(world.get(Entity(3)).unwrap().position, Some(Position { x: 2, y: 2, z: 5 }));
}

#[test]
fn item_outside_the_grid_stops_the_filling() {
    let mut world = World::new();
    let map = vec![
        (Position { x: 0, y: 0, z: 0 }, "P"),
        (Position { x: 9, y: 0, z: 0 }, "W"),
        (Position { x: 1, y: 1, z: 0 }, "W"),
    ];
    assert_eq!(create_entities_from_map(&mut world, map), Err(MapError::OutOfBounds));
    assert_eq!(world.len(), 2);

    let mut world = World::new();
    let map = vec![(Position { x: 0, y: 10, z: 0 }, "W")];
    assert_eq!(create_entities_from_map(&mut world, map), Err(MapError::OutOfBounds));
    assert_eq!(world.len(), 0);
}

#[test]
fn unknown_item_stops_the_filling() {
    let mut world = World::new();
    let map = vec![
        (Position { x: 0, y: 0, z: 0 }, "W"),
        (Position { x: 1, y: 0, z: 0 }, "?"),
        (Position { x: 2, y: 0, z: 0 }, "W"),
    ];
    assert_eq!(create_entities_from_map(&mut world, map), Err(MapError::InvalidItem));
    assert_eq!(world.len(), 1);
}

#[test]
fn cell_is_checked_before_text() {
    let mut world = World::new();
    let map = vec![(Position { x: 200, y: 0, z: 0 }, "?")];
    assert_eq!(create_entities_from_map(&mut world, map), Err(MapError::OutOfBounds));
}
