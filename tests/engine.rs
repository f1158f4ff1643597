use hex_tactics::game::{Game, GameError};
use hex_tactics::hex::{Content, Hex, Wall, WallKind};
use hex_tactics::hexmap::HexMap;
use hex_tactics::point::Point;
use hex_tactics::unit::Unit;

fn wall() -> Wall {
    Wall { kind: WallKind::Default }
}

// Test game is a game with 2x2 field
// There are 2 units (U) and 1 wall (W) on it
// U | W
// -----
//   | U
fn test_game() -> (Game, Unit, Wall) {
    let mut game = Game::new(2, 2);
    let unit = Unit::new(1, 5, [5, 5], 3);
    let wall = wall();
    assert!(game.set_unit(0, 0, Some(unit)).is_ok());
    assert!(game.set_unit(1, 1, Some(unit)).is_ok());
    assert!(game.set_content(1, 0, Some(Content::Wall(wall))).is_ok());

    (game, unit, wall)
}

// 0   | U |   |   |   |   |   |   |    0
// 1     | U |   |   |   |   |   |   |  1
// 2   |   |   |   |   | U |   | W |    2
// 3     |   |   |   |   |   |   |   |  3
// 4   |   |   |   |   |   |   |   |    4
// 5     |   | W |   |   |   |   |   |  5
// 6   |   |   |   |   |   |   |   |    6
// 7     |   |   |   |   | W | W |   |  7
// 8   |   |   |   |   | W | U | W |    8
// 9     |   | U |   |   | W | W | W |  9
// 10  |   |   |   |   |   |   | W |    10
// 11    |   |   |   |   |   | W |   |  11
fn test_big_game() -> Game {
    let mut game = Game::new(8, 12);
    let unit = Unit::new(1, 5, [5, 5], 3);
    let wall = wall();
    assert!(game.set_unit(0, 0, Some(unit)).is_ok());
    assert!(game.set_unit(1, 1, Some(unit)).is_ok());
    assert!(game.set_unit(4, 2, Some(unit)).is_ok());
    assert!(game.set_unit(5, 8, Some(unit)).is_ok());
    assert!(game.set_unit(2, 9, Some(unit)).is_ok());
    for (x, y) in [
        (6, 2),
        (2, 5),
        (5, 7),
        (6, 7),
        (4, 8),
        (6, 8),
        (5, 9),
        (6, 9),
        (7, 9),
        (6, 10),
        (6, 11),
    ] {
        assert!(game.set_content(x, y, Some(Content::Wall(wall))).is_ok());
    }

    game
}

fn neighbour_points(game: &Game, point: &Point) -> Vec<Point> {
    game.find_neighbours(point).iter().map(|hex| hex.to_point()).collect()
}

#[test]
fn game_get_hex_mut() {
    let mut game = Game::new(2, 2);

    let hex = game.get_hex_mut(0, 1);
    assert!(hex.is_some());

    let hex = hex.unwrap();
    assert_eq!(hex.x, 0);
    assert_eq!(hex.y, 1);

    let hex = game.get_hex_mut(5, 6);
    assert!(hex.is_none());
}

#[test]
fn set_get_unit() {
    let (mut game, unit, _) = test_game();

    assert!(game.get_unit(0, 0).unwrap().is_some());
    assert!(game.get_unit(1, 0).unwrap().is_none());
    assert!(game.get_unit(0, 1).unwrap().is_none());

    let result = game.set_unit(4, 5, Some(unit));
    assert!(result.is_err());
    match result.unwrap_err() {
        GameError::NoHex => {}
        _ => unreachable!("wrong error"),
    }

    let result = game.get_unit(4, 5);
    assert!(result.is_err());
    match result.unwrap_err() {
        GameError::NoHex => {}
        _ => unreachable!("wrong error"),
    }
}

#[test]
fn set_content() {
    let (mut game, _, wall) = test_game();

    let result = game.set_content(4, 5, Some(Content::Wall(wall)));
    assert!(result.is_err());
    match result.unwrap_err() {
        GameError::NoHex => {}
        _ => unreachable!("wrong error"),
    }
}

#[test]
fn move_unit_success() {
    let (mut game, _, _) = test_game();
    let from = Point { x: 0, y: 0 };
    let to = Point { x: 0, y: 1 };
    let from = game.get_hex(from.x, from.y).unwrap();
    assert!(game.move_unit_internal(from, to).is_ok());
    assert!(game.get_unit(from.x, from.y).unwrap().is_none());
    assert!(game.get_unit(to.x, to.y).unwrap().is_some());
}

#[test]
fn move_unit_into_unit() {
    let (mut game, _, _) = test_game();
    let from = Point { x: 0, y: 0 };
    let to = Point { x: 1, y: 1 };
    let from = game.get_hex(from.x, from.y).unwrap();
    assert!(game.move_unit_internal(from, to).is_err());
    assert!(game.get_unit(from.x, from.y).unwrap().is_some());
    assert!(game.get_unit(to.x, to.y).unwrap().is_some());
}

#[test]
fn move_unit_into_content() {
    let (mut game, _, _) = test_game();
    let from = Point { x: 0, y: 0 };
    let to = Point { x: 1, y: 0 };
    let from = game.get_hex(from.x, from.y).unwrap();
    assert!(game.move_unit_internal(from, to).is_err());
    assert!(game.get_unit(from.x, from.y).unwrap().is_some());
    assert!(game.get_hex(to.x, to.y).unwrap().get_content().is_some());
}

#[test]
fn move_unit_out_from_field() {
    let (mut game, _, _) = test_game();
    let from = Point { x: 0, y: 0 };
    let to = Point { x: 5, y: 6 };

    let from = game.get_hex(from.x, from.y).unwrap();
    let result = game.move_unit_internal(from, to);
    assert!(result.is_err());
    match result.unwrap_err() {
        GameError::NoHex => {}
        _ => unreachable!("wrong error"),
    }
    assert!(game.get_unit(from.x, from.y).unwrap().is_some());
}

#[test]
fn move_unit_from_hex_that_out_of_field() {
    let (mut game, _, _) = test_game();
    let from = Point { x: 5, y: 5 };
    let to = Point { x: 5, y: 6 };

    let from = Hex { x: from.x, y: from.y, unit: None, content: None };
    let result = game.move_unit_internal(from, to);
    assert!(result.is_err());
    match result.unwrap_err() {
        GameError::NoUnit => {}
        _ => unreachable!("wrong error"),
    }
}

#[test]
fn move_unit_from_hex_without_unit() {
    let (mut game, _, _) = test_game();
    let from = Point { x: 1, y: 0 };
    let to = Point { x: 0, y: 1 };

    let from = game.get_hex(from.x, from.y).unwrap();
    let result = game.move_unit_internal(from, to);
    assert!(result.is_err());
    match result.unwrap_err() {
        GameError::NoUnit => {}
        _ => unreachable!("wrong error"),
    }
}

#[test]
fn attack_unit_success_hurt() {
    let (mut game, unit, _) = test_game();
    let from = Point { x: 0, y: 0 };
    let to = Point { x: 1, y: 1 };
    // Customize unit by increasing it's damage
    let attacking_unit = Unit { damage: [unit.hp - 1, unit.hp - 1], ..unit };
    assert!(game.set_unit(from.x, from.y, Some(attacking_unit)).is_ok());

    let from = game.get_hex(from.x, from.y).unwrap();
    let result = game.attack_internal(from, to);

    assert!(result.is_ok());
    let (hurt, die) = result.unwrap();
    assert_eq!(hurt.len(), 1);
    assert_eq!(die.len(), 0);
    assert_eq!(hurt[0].unit.as_ref().unwrap().hp, unit.hp - attacking_unit.damage[0]);

    let hurt_unit = game.get_unit(to.x, to.y).unwrap().unwrap();
    assert_eq!(hurt_unit.hp, unit.hp - attacking_unit.damage[0]);
}

#[test]
fn attack_unit_success_die_attack_more_then_hp() {
    let (mut game, unit, _) = test_game();
    let from = Point { x: 0, y: 0 };
    let to = Point { x: 1, y: 1 };
    // Customize unit by increasing it's damage
    let attacking_unit = Unit { damage: [unit.hp + 1, unit.hp + 1], ..unit };
    assert!(game.set_unit(from.x, from.y, Some(attacking_unit)).is_ok());

    let from = game.get_hex(from.x, from.y).unwrap();
    let result = game.attack_internal(from, to);
    assert!(result.is_ok());
    let (hurt, die) = result.unwrap();
    assert_eq!(hurt.len(), 0);
    assert_eq!(die.len(), 1);
    assert_eq!(die[0].unit.as_ref().unwrap().hp, 0);
}

#[test]
fn attack_unit_success_die_attack_equals_hp() {
    let (mut game, unit, _) = test_game();
    let from = Point { x: 0, y: 0 };
    let to = Point { x: 1, y: 1 };
    // Customize unit by make it's damage equal to hp of another unit
    let attacking_unit = Unit { damage: [unit.hp, unit.hp], ..unit };
    assert!(game.set_unit(from.x, from.y, Some(attacking_unit)).is_ok());

    let from = game.get_hex(from.x, from.y).unwrap();
    let result = game.attack_internal(from, to);
    assert!(result.is_ok());
    let (hurt, die) = result.unwrap();
    assert_eq!(hurt.len(), 0);
    assert_eq!(die.len(), 1);
    assert_eq!(die[0].unit.as_ref().unwrap().hp, 0);
}

#[test]
fn attack_from_empty_hex() {
    let (mut game, _, _) = test_game();
    let from = Point { x: 0, y: 1 };
    let to = Point { x: 1, y: 1 };
    let from = game.get_hex(from.x, from.y).unwrap();
    let result = game.attack_internal(from, to);

    assert!(result.is_err());
    match result.unwrap_err() {
        GameError::NoUnit => {}
        _ => unreachable!("wrong error"),
    }
}

#[test]
fn attack_to_empty_hex() {
    let (mut game, _, _) = test_game();
    let from = Point { x: 0, y: 0 };
    let to = Point { x: 0, y: 1 };
    let from = game.get_hex(from.x, from.y).unwrap();
    let result = game.attack_internal(from, to);

    assert!(result.is_err());
    match result.unwrap_err() {
        GameError::NoUnit => {}
        _ => unreachable!("wrong error"),
    }
}

#[test]
fn attack_from_hex_out_of_grid() {
    let (mut game, _, _) = test_game();
    let from = Point { x: 0, y: 10 };
    let to = Point { x: 1, y: 1 };
    let from = Hex { x: from.x, y: from.y, unit: None, content: None };
    let result = game.attack_internal(from, to);

    assert!(result.is_err());
    match result.unwrap_err() {
        GameError::NoUnit => {}
        _ => unreachable!("wrong error"),
    }
}

#[test]
fn attack_to_hex_out_of_grid() {
    let (mut game, _, _) = test_game();
    let from = Point { x: 0, y: 0 };
    let to = Point { x: 0, y: 10 };
    let from = game.get_hex(from.x, from.y).unwrap();
    let result = game.attack_internal(from, to);

    assert!(result.is_err());
    match result.unwrap_err() {
        GameError::NoHex => {}
        _ => unreachable!("wrong error"),
    }
}

#[test]
fn find_neighbours_in_the_middle() {
    let game = test_big_game();
    // hex with nothing nearby for odd y
    let hex = game.get_hex(1, 9).unwrap();

    let neighbours = neighbour_points(&game, &hex.to_point());
    assert_eq!(neighbours.len(), 6);
    assert!(neighbours.contains(&Point { x: 0, y: 8 }));
    assert!(neighbours.contains(&Point { x: 1, y: 8 }));
    assert!(neighbours.contains(&Point { x: 0, y: 9 }));
    assert!(neighbours.contains(&Point { x: 2, y: 9 }));
    assert!(neighbours.contains(&Point { x: 0, y: 10 }));
    assert!(neighbours.contains(&Point { x: 1, y: 10 }));

    // hex with nothing nearby for even y
    let hex = game.get_hex(1, 10).unwrap();

    let neighbours = neighbour_points(&game, &hex.to_point());
    assert_eq!(neighbours.len(), 6);
    assert!(neighbours.contains(&Point { x: 1, y: 9 }));
    assert!(neighbours.contains(&Point { x: 2, y: 9 }));
    assert!(neighbours.contains(&Point { x: 0, y: 10 }));
    assert!(neighbours.contains(&Point { x: 2, y: 10 }));
    assert!(neighbours.contains(&Point { x: 1, y: 11 }));
    assert!(neighbours.contains(&Point { x: 2, y: 11 }));
}

#[test]
fn find_neighbours_on_boarder() {
    let game = test_big_game();
    // hex near boarder
    let hex = game.get_hex(1, 0).unwrap();

    let neighbours = neighbour_points(&game, &hex.to_point());
    assert_eq!(neighbours.len(), 4);
    assert!(neighbours.contains(&Point { x: 0, y: 0 }));
    assert!(neighbours.contains(&Point { x: 2, y: 0 }));
    assert!(neighbours.contains(&Point { x: 1, y: 1 }));
    assert!(neighbours.contains(&Point { x: 2, y: 1 }));
}

#[test]
fn find_neighbours_in_even_corner() {
    let game = test_big_game();
    let hex = game.get_hex(0, 0).unwrap();

    let neighbours = neighbour_points(&game, &hex.to_point());
    assert_eq!(neighbours.len(), 3);
    assert!(neighbours.contains(&Point { x: 1, y: 0 }));
    assert!(neighbours.contains(&Point { x: 0, y: 1 }));
    assert!(neighbours.contains(&Point { x: 1, y: 1 }));
}

#[test]
fn find_neighbours_in_odd_corner() {
    let game = test_big_game();
    let hex = game.get_hex(0, 11).unwrap();

    let neighbours = neighbour_points(&game, &hex.to_point());
    assert_eq!(neighbours.len(), 2);
    assert!(neighbours.contains(&Point { x: 0, y: 10 }));
    assert!(neighbours.contains(&Point { x: 1, y: 11 }));
}

#[test]
fn available_points_no_hex() {
    let game = test_big_game();

    let points = game.available_points(&None);
    assert!(points.is_empty());
}

#[test]
fn available_points_no_unit() {
    let game = test_big_game();
    let hex = game.get_hex(5, 5);

    let points = game.available_points(&hex);
    assert!(points.is_empty());
}

#[test]
fn available_points_for_unit_without_movements() {
    let game = test_big_game();
    let mut hex = game.get_hex(0, 0).unwrap();
    let unit = hex.get_unit_mut().unwrap();
    unit.change_movements(unit.speed);

    let points = game.available_points(&Some(hex));
    assert_eq!(points.len(), 1);
    assert!(points.contains(&hex.to_point()));
}

#[test]
fn available_points_for_unit_with_no_obstacle() {
    let game = test_big_game();
    let mut hex = game.get_hex(2, 9).unwrap();
    let unit = hex.get_unit_mut().unwrap();
    unit.change_movements(unit.speed - 1);

    let points = game.available_points(&Some(hex));
    assert_eq!(points.len(), 7);
    assert!(points.contains(&Point { x: 1, y: 8 }));
    assert!(points.contains(&Point { x: 2, y: 8 }));
    assert!(points.contains(&Point { x: 1, y: 9 }));
    assert!(points.contains(&Point { x: 2, y: 9 }));
    assert!(points.contains(&Point { x: 3, y: 9 }));
    assert!(points.contains(&Point { x: 1, y: 10 }));
    assert!(points.contains(&Point { x: 2, y: 10 }));
}

#[test]
fn available_points_for_unit_in_corner_with_other_unit_nearby() {
    let game = test_big_game();
    let hex = game.get_hex(0, 0);

    let points = game.available_points(&hex);
    assert_eq!(points.len(), 12);
    assert!(points.contains(&Point { x: 0, y: 0 }));
    assert!(points.contains(&Point { x: 1, y: 0 }));
    assert!(points.contains(&Point { x: 2, y: 0 }));
    assert!(points.contains(&Point { x: 3, y: 0 }));
    assert!(points.contains(&Point { x: 0, y: 1 }));
    assert!(points.contains(&Point { x: 2, y: 1 }));
    assert!(points.contains(&Point { x: 3, y: 1 }));
    assert!(points.contains(&Point { x: 1, y: 2 }));
    assert!(points.contains(&Point { x: 1, y: 2 }));
    assert!(points.contains(&Point { x: 2, y: 2 }));
    assert!(points.contains(&Point { x: 0, y: 3 }));
    assert!(points.contains(&Point { x: 1, y: 3 }));
}

#[test]
fn available_points_unit_interacts_with_wall() {
    let game = test_big_game();
    let hex = game.get_hex(4, 2);

    let points = game.available_points(&hex);
    assert!(!points.contains(&Point { x: 7, y: 2 }));
}

#[test]
fn available_points_unit_surrendered() {
    let game = test_big_game();
    let hex = game.get_hex(5, 8);

    let points = game.available_points(&hex);
    assert_eq!(points.len(), 1);
    assert!(points.contains(&Point { x: 5, y: 8 }));
}

#[test]
fn available_points_unit_speed_greaer_then_field() {
    let game = test_big_game();
    let mut hex = game.get_hex(2, 9).unwrap();
    let unit = hex.get_unit_mut().unwrap();
    unit.movements = 1000;

    let points = game.available_points(&Some(hex));

    assert_eq!(points.len(), 79);
}

fn hexmap() -> HexMap {
    let mut hexmap = HexMap::new(8, 12);

    // path
    hexmap.insert(Point { x: 0, y: 4 }, 0);
    hexmap.insert(Point { x: 1, y: 5 }, 1);
    hexmap.insert(Point { x: 1, y: 6 }, 2);
    hexmap.insert(Point { x: 2, y: 6 }, 3);
    hexmap.insert(Point { x: 3, y: 5 }, 4);
    hexmap.insert(Point { x: 3, y: 4 }, 5);

    // additional
    hexmap.insert(Point { x: 1, y: 3 }, 1);
    hexmap.insert(Point { x: 1, y: 4 }, 1);
    hexmap.insert(Point { x: 0, y: 5 }, 1);
    hexmap.insert(Point { x: 3, y: 7 }, 3);
    hexmap.insert(Point { x: 1, y: 8 }, 4);
    hexmap.insert(Point { x: 0, y: 8 }, 5);

    hexmap
}

fn assert_are_neighbours(game: &Game, point1: &Point, point2: &Point) {
    assert!(neighbour_points(game, point1).iter().any(|point| point == point2))
}

#[test]
fn restore_path_from_hexmap_correct_path() {
    let map = hexmap();
    let game = test_big_game();
    let start_point = Point { x: 0, y: 4 };
    let end_point = Point { x: 3, y: 4 };

    let path = game.restore_path_from_hexmap(start_point, end_point, &map);
    assert!(path.is_ok());
    let path = path.unwrap();
    assert_eq!(path.len(), 6);

    // check if previouse point in result is neighbour of current
    for (i, point) in path.iter().enumerate() {
        if i == 0 {
            // skip first one because it has no previous
            continue;
        }

        assert_are_neighbours(&game, point, &path[i - 1]);
    }

    assert_eq!(*path.first().unwrap(), start_point);
    assert_eq!(*path.last().unwrap(), end_point);
}

#[test]
fn restore_path_from_hexmap_no_start_hex() {
    let mut map = hexmap();
    let game = test_big_game();
    let start_point = Point { x: 0, y: 4 };
    let end_point = Point { x: 3, y: 4 };

    map.remove(&start_point);

    let path = game.restore_path_from_hexmap(start_point, end_point, &map);
    assert!(path.is_err());
    assert_eq!(GameError::NoHex, path.unwrap_err());
}

#[test]
fn restore_path_from_hexmap_no_finish_hex() {
    let mut map = hexmap();
    let game = test_big_game();
    let start_point = Point { x: 0, y: 4 };
    let end_point = Point { x: 3, y: 4 };

    map.remove(&end_point);

    let path = game.restore_path_from_hexmap(start_point, end_point, &map);
    assert!(path.is_err());
    assert_eq!(GameError::NoHex, path.unwrap_err());
}

#[test]
fn restore_path_from_hexmap_empty_hexmap() {
    let map = HexMap::new(8, 12);
    let game = test_big_game();
    let start_point = Point { x: 0, y: 4 };
    let end_point = Point { x: 3, y: 4 };

    let path = game.restore_path_from_hexmap(start_point, end_point, &map);
    assert!(path.is_err());
    assert_eq!(GameError::NoHex, path.unwrap_err());
}

#[test]
fn restore_path_from_hexmap_discontinuous() {
    let mut map = hexmap();
    let game = test_big_game();
    let start_point = Point { x: 0, y: 4 };
    let end_point = Point { x: 3, y: 4 };

    map.remove(&Point { x: 3, y: 5 });

    let path = game.restore_path_from_hexmap(start_point, end_point, &map);
    assert!(path.is_err());
    assert_eq!(GameError::NoHex, path.unwrap_err());
}

#[test]
fn restore_path_from_hexmap_from_equals_to() {
    let map = hexmap();
    let game = test_big_game();
    let start_point = Point { x: 0, y: 4 };

    let path = game.restore_path_from_hexmap(start_point, start_point, &map);
    assert!(path.is_ok());
    let path = path.unwrap();
    assert_eq!(path.len(), 1);
    assert_eq!(path[0], start_point);
}

#[test]
fn attack_unit_far_away() {
    let mut game = test_big_game();
    let from = Point { x: 0, y: 0 };
    let to = Point { x: 4, y: 2 };
    let from = game.get_hex(from.x, from.y).unwrap();
    let result = game.attack_internal(from, to);

    assert!(result.is_err());
    match result.unwrap_err() {
        GameError::WrongHex => {}
        _ => unreachable!("wrong error type"),
    }
}
