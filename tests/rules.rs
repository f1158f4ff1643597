use hex_tactics::api::{Command, Message};
use hex_tactics::game::{Action, Game, GameError};
use hex_tactics::hex::{Content, Wall, WallKind};
use hex_tactics::point::Point;
use hex_tactics::unit::Unit;

fn game_with_units() -> Game {
    let mut game = Game::new(4, 4);
    assert!(game.set_unit(0, 0, Some(Unit::new(0, 5, [1, 3], 3))).is_ok());
    assert!(game.set_unit(1, 0, Some(Unit::new(0, 5, [1, 3], 3))).is_ok());
    assert!(game.set_unit(3, 3, Some(Unit::new(1, 5, [1, 3], 3))).is_ok());
    game
}

#[test]
fn action_without_selection() {
    let game = game_with_units();
    let p = |x, y| Point { x, y };
    assert_eq!(game.get_current_action(p(2, 2), 0), Err(GameError::NoSelectedHex));
    assert_eq!(game.get_current_action(p(3, 3), 0), Err(GameError::SelectEnemy));
    assert_eq!(game.get_current_action(p(0, 0), 0), Ok(Action::Select));
    assert_eq!(game.get_current_action(p(9, 9), 0), Err(GameError::NoHex));
}

#[test]
fn action_with_selection() {
    let mut game = game_with_units();
    let p = |x, y| Point { x, y };
    assert!(game.select_unit(p(0, 0)).is_ok());
    assert_eq!(game.get_current_action(p(2, 2), 0), Ok(Action::Move));
    assert_eq!(game.get_current_action(p(3, 3), 0), Ok(Action::Attack));
    assert_eq!(game.get_current_action(p(0, 0), 0), Ok(Action::Deselect));
    assert_eq!(game.get_current_action(p(1, 0), 0), Ok(Action::Select));
}

#[test]
fn reselect_after_move_is_refused() {
    let mut game = game_with_units();
    let p = |x, y| Point { x, y };
    assert!(game.select_unit(p(0, 0)).is_ok());
    assert!(game.move_unit(p(0, 1)).is_ok());
    assert!(game.select_unit(p(0, 1)).is_ok());
    assert_eq!(game.get_current_action(p(1, 0), 0), Err(GameError::AlreadyMoved));
    assert_eq!(game.get_current_action(p(0, 1), 0), Ok(Action::Deselect));
}

#[test]
fn move_spends_movements_along_shortest_path() {
    let mut game = game_with_units();
    assert!(game.select_unit(Point { x: 0, y: 0 }).is_ok());
    let path = game.move_unit(Point { x: 0, y: 2 }).unwrap();
    assert_eq!(path.len(), 3);
    assert_eq!(path[0], Point { x: 0, y: 0 });
    assert_eq!(path[2], Point { x: 0, y: 2 });
    assert_eq!(game.get_unit(0, 2).unwrap().unwrap().movements, 1);
    assert!(game.get_unit(0, 0).unwrap().is_none());
}

#[test]
fn move_beyond_movements_is_refused() {
    let mut game = game_with_units();
    assert!(game.select_unit(Point { x: 0, y: 0 }).is_ok());
    assert_eq!(game.move_unit(Point { x: 3, y: 2 }), Err(GameError::NoHex));
}

#[test]
fn move_without_selection_or_moves() {
    let mut game = game_with_units();
    assert_eq!(game.move_unit(Point { x: 0, y: 1 }), Err(GameError::NoHex));
    let mut hex = game.get_hex(0, 0).unwrap();
    hex.get_unit_mut().unwrap().movements = 0;
    assert_eq!(game.move_unit_internal(hex, Point { x: 0, y: 1 }), Err(GameError::NoMoves));
}

#[test]
fn move_onto_start_costs_nothing() {
    let mut game = game_with_units();
    let hex = game.get_hex(0, 0).unwrap();
    let path = game.move_unit_internal(hex, Point { x: 0, y: 0 }).unwrap();
    assert_eq!(path, vec![Point { x: 0, y: 0 }]);
    assert_eq!(game.get_unit(0, 0).unwrap().unwrap().movements, 3);
}

#[test]
fn attack_without_selection() {
    let mut game = game_with_units();
    assert_eq!(game.attack(Point { x: 1, y: 0 }).unwrap_err(), GameError::NoHex);
}

#[test]
fn damage_exactly_hp_kills() {
    let mut game = game_with_units();
    let (hurt, die) = game.attack_with_damage(Point { x: 3, y: 3 }, 5);
    assert!(hurt.is_empty());
    assert_eq!(die.len(), 1);
    assert!(game.get_unit(3, 3).unwrap().is_none());
}

#[test]
fn damage_below_hp_hurts() {
    let mut game = game_with_units();
    let (hurt, die) = game.attack_with_damage(Point { x: 3, y: 3 }, 4);
    assert!(die.is_empty());
    assert_eq!(hurt[0].unit.unwrap().hp, 1);
    assert_eq!(game.get_unit(3, 3).unwrap().unwrap().hp, 1);
}

#[test]
fn ends_when_one_player_left() {
    let mut game = game_with_units();
    assert!(!game.ends());
    assert!(game.set_unit(3, 3, None).is_ok());
    assert!(game.ends());
    assert_eq!(game.field.players_alive().len(), 1);
}

#[test]
fn restore_movements_twice() {
    let mut game = game_with_units();
    assert!(game.select_unit(Point { x: 0, y: 0 }).is_ok());
    assert!(game.move_unit(Point { x: 0, y: 1 }).is_ok());
    let first = game.restore_movements(0);
    assert_eq!(first.len(), 1);
    assert_eq!(first[0].unit.unwrap().movements, 3);
    let second = game.restore_movements(0);
    assert!(second.is_empty());
    assert_eq!(game.get_unit(0, 1).unwrap().unwrap().movements, 3);
}

#[test]
fn restore_movements_of_other_player_untouched() {
    let mut game = game_with_units();
    assert!(game.select_unit(Point { x: 0, y: 0 }).is_ok());
    assert!(game.move_unit(Point { x: 0, y: 1 }).is_ok());
    assert!(game.restore_movements(1).is_empty());
    assert_eq!(game.get_unit(0, 1).unwrap().unwrap().movements, 2);
}

#[test]
fn hexes_from_points_off_field() {
    let game = game_with_units();
    let hexes = game.hexes_from_points(vec![Point { x: 0, y: 0 }, Point { x: 1, y: 0 }]).unwrap();
    assert_eq!(hexes[1].to_point(), Point { x: 1, y: 0 });
    assert!(hexes[1].unit.is_some());
    assert_eq!(game.hexes_from_points(vec![Point { x: 7, y: 0 }]).unwrap_err(), GameError::NoHex);
}

#[test]
fn neighbours_are_symmetric_on_small_field() {
    let game = Game::new(5, 6);
    for x in 0..5 {
        for y in 0..6 {
            let p = Point { x, y };
            for h in game.find_neighbours(&p) {
                let back: Vec<Point> = game.find_neighbours(&h.to_point()).iter().map(|n| n.to_point()).collect();
                assert!(back.contains(&p));
            }
        }
    }
}

#[test]
fn wall_blocks_reach() {
    let mut game = Game::new(3, 1);
    assert!(game.set_unit(0, 0, Some(Unit::new(0, 5, [1, 1], 5))).is_ok());
    assert!(game.set_content(1, 0, Some(Content::Wall(Wall { kind: WallKind::Default }))).is_ok());
    let points = game.available_points(&game.get_hex(0, 0));
    assert_eq!(points, vec![Point { x: 0, y: 0 }]);
}

#[test]
fn unit_change_hp_clamps_at_zero() {
    let mut unit = Unit::new(0, 5, [1, 2], 3);
    unit.change_hp(-7);
    assert_eq!(unit.hp, 0);
    unit.change_hp(4);
    assert_eq!(unit.hp, 4);
}

#[test]
fn unit_predicates() {
    let mut unit = Unit::new(2, 5, [1, 2], 3);
    assert!(!unit.has_moved());
    unit.change_movements(3);
    assert!(unit.has_moved());
    assert!(unit.has_no_moves());
    unit.restore_movements();
    assert_eq!(unit.movements, 3);
    assert!(unit.is_my(2));
    assert!(!unit.is_my(1));
}

#[test]
fn random_unit_within_ranges() {
    for _ in 0..50 {
        let unit = Unit::random((1, 10), (1, 5), (1, 5), (1, 8), 4);
        assert!((1..=10).contains(&unit.hp));
        assert!((1..5).contains(&unit.damage[0]));
        assert!((1..=5).contains(&(unit.damage[1] - unit.damage[0])));
        assert!((1..=8).contains(&unit.speed));
        assert_eq!(unit.movements, unit.speed);
        assert_eq!(unit.player, 4);
    }
}

#[test]
fn random_game_is_well_formed() {
    for _ in 0..20 {
        let game = Game::random(2).unwrap();
        assert!((5..=15).contains(&game.field.num_x));
        assert!((5..=15).contains(&game.field.num_y));
        assert_eq!(game.field.hexes.len(), (game.field.num_x * game.field.num_y) as usize);
        let alive = game.field.players_alive();
        assert_eq!(alive.len(), 2);
        let units = game.field.hexes.iter().filter(|h| h.unit.is_some()).count();
        assert!(units >= 4 && units <= 12 && units % 2 == 0);
        assert!(game.field.hexes.iter().all(|h| !(h.unit.is_some() && h.content.is_some())));
    }
}

#[test]
fn command_of_message() {
    let m = |s: &str| Message { cmd: s.to_string() };
    assert_eq!(m("click").command(), Some(Command::Click));
    assert_eq!(m("skip_turn").command(), Some(Command::SkipTurn));
    assert_eq!(m("start_game").command(), Some(Command::StartGame));
    assert_eq!(m("dance").command(), None);
}

#[test]
fn random_draws_vary() {
    let mut hps = std::collections::HashSet::new();
    let mut sizes = std::collections::HashSet::new();
    for _ in 0..200 {
        hps.insert(Unit::random((1, 10), (1, 5), (1, 5), (1, 8), 0).hp);
    }
    for _ in 0..30 {
        let game = Game::random(2).unwrap();
        sizes.insert((game.field.num_x, game.field.num_y));
    }
    assert!(hps.len() > 1);
    assert!(sizes.len() > 1);
}

#[test]
fn attack_damage_stays_in_range() {
    for _ in 0..50 {
        let mut game = Game::new(2, 1);
        assert!(game.set_unit(0, 0, Some(Unit::new(0, 5, [2, 4], 1))).is_ok());
        assert!(game.set_unit(1, 0, Some(Unit::new(1, 10, [1, 1], 1))).is_ok());
        assert!(game.select_unit(Point { x: 0, y: 0 }).is_ok());
        let (hurt, die) = game.attack(Point { x: 1, y: 0 }).unwrap();
        assert!(die.is_empty());
        let hp = hurt[0].unit.unwrap().hp;
        assert!((6..=8).contains(&hp));
    }
}

#[test]
fn unit_change_hp_saturates_above() {
    let mut unit = Unit::new(0, u32::MAX - 1, [1, 2], 3);
    unit.change_hp(5);
    assert_eq!(unit.hp, u32::MAX);
}

#[test]
fn random_game_for_two_players_counts() {
    for _ in 0..20 {
        let game = Game::random(2).unwrap();
        let cells = game.field.num_x * game.field.num_y;
        let walls = game.field.hexes.iter().filter(|h| h.content.is_some()).count() as u32;
        assert!(walls * 100 <= cells * 40);
        let of = |p: u32| game.field.hexes.iter().filter(|h| h.unit.map_or(false, |u| u.player == p)).count();
        assert_eq!(of(0), of(1));
        assert!((2..=6).contains(&of(0)));
        assert_eq!(of(2), 0);
    }
}

#[test]
fn random_with_fits_exactly() {
    let game = Game::random_with(2, 5, 5, 40, 6).unwrap();
    assert_eq!((game.field.num_x, game.field.num_y), (5, 5));
    let walls = game.field.hexes.iter().filter(|h| h.content.is_some()).count();
    assert_eq!(walls, 10);
    for p in 0..3u32 {
        let owned = game.field.hexes.iter().filter(|h| h.unit.map_or(false, |u| u.player == p)).count();
        assert_eq!(owned, if p < 2 { 6 } else { 0 });
    }
    let full = Game::random_with(3, 5, 5, 40, 5).unwrap();
    assert!(full.field.hexes.iter().all(|h| h.unit.is_some() || h.content.is_some()));
}

#[test]
fn random_with_too_many_units() {
    assert_eq!(Game::random_with(3, 5, 5, 40, 6).unwrap_err(), GameError::NoHex);
}

#[test]
fn random_with_many_players() {
    let game = Game::random_with(4, 15, 15, 0, 6).unwrap();
    assert_eq!(game.field.players_alive().len(), 4);
}
