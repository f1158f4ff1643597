use hex_tactics::api::{Click, EndState, StateKind};
use hex_tactics::game::Game;
use hex_tactics::hex::{Content, Wall, WallKind};
use hex_tactics::point::Point;
use hex_tactics::session::{Event, GameServer, Outgoing};
use hex_tactics::unit::Unit;

const A: u64 = 10;
const B: u64 = 20;
const C: u64 = 30;

fn playing(game: Game, clients: Vec<u64>, players: usize) -> GameServer {
    let mut server = GameServer::new();
    server.clients = clients;
    server.game = game;
    server.num_of_players = players;
    server.game_started = true;
    server
}

fn state_of(o: &Outgoing) -> Option<StateKind> {
    match &o.event {
        Event::State(s) => Some(s.state),
        _ => None,
    }
}

fn end_of(o: &Outgoing) -> Option<EndState> {
    match &o.event {
        Event::End(e) => Some(e.you_win),
        _ => None,
    }
}

// Grid 2x2: unit A of player 0 on (0,0), unit B of player 1 on (1,1), a
// wall on (1,0).
fn two_by_two() -> Game {
    let mut game = Game::new(2, 2);
    let a = Unit::new(0, 5, [5, 5], 3);
    let b = Unit::new(1, 5, [5, 5], 3);
    assert!(game.set_unit(0, 0, Some(a)).is_ok());
    assert!(game.set_unit(1, 1, Some(b)).is_ok());
    assert!(game.set_content(1, 0, Some(Content::Wall(Wall { kind: WallKind::Default }))).is_ok());
    game
}

#[test]
fn basic_attack_on_two_by_two_field_ends_the_match() {
    let mut server = playing(two_by_two(), vec![A, B], 2);

    server.handle_click(A, Click { target: Point { x: 0, y: 0 } });
    let out = server.take_outbox();
    assert_eq!(out.len(), 2);
    assert_eq!(out[0].recipients, vec![A]);
    match &out[0].event {
        Event::Selecting(s) => {
            assert_eq!(s.target, Point { x: 0, y: 0 });
            let mut points = s.highlight_hexes.clone();
            points.sort_by_key(|p| (p.x, p.y));
            assert_eq!(points, vec![Point { x: 0, y: 0 }, Point { x: 0, y: 1 }]);
        }
        _ => panic!("selecting expected"),
    }
    assert_eq!(state_of(&out[1]), Some(StateKind::Action));

    server.handle_click(A, Click { target: Point { x: 1, y: 1 } });
    let out = server.take_outbox();
    // deselecting and select state for A, then the attack for all
    match &out[0].event {
        Event::Deselecting(d) => assert_eq!(d.target, Point { x: 0, y: 0 }),
        _ => panic!("deselecting expected"),
    }
    assert_eq!(state_of(&out[1]), Some(StateKind::Select));
    match &out[2].event {
        Event::Attacking(a) => {
            assert_eq!(a.from, Point { x: 0, y: 0 });
            assert_eq!(a.to, Point { x: 1, y: 1 });
        }
        _ => panic!("attacking expected"),
    }
    assert_eq!(out[2].recipients, vec![A, B]);
    match (&out[3].event, &out[4].event) {
        (Event::Hurt(h), Event::Die(d)) => {
            assert!(h.hexes.is_empty());
            assert_eq!(d.hexes.len(), 1);
            assert_eq!(d.hexes[0].to_point(), Point { x: 1, y: 1 });
            assert_eq!(d.hexes[0].unit.unwrap().hp, 0);
        }
        _ => panic!("hurt and die expected"),
    }
    match &out[5].event {
        Event::Update(u) => assert!(u.hexes.is_empty()),
        _ => panic!("update expected"),
    }
    assert_eq!(end_of(&out[6]), Some(EndState::Win));
    assert_eq!(out[6].recipients, vec![A]);
    assert_eq!(end_of(&out[7]), Some(EndState::Lose));
    assert_eq!(out[7].recipients, vec![B]);
    assert_eq!(out.len(), 10);
    assert!(!server.game_started);
    assert!(server.game.get_unit(1, 1).unwrap().is_none());
}

#[test]
fn turn_skips_eliminated_player() {
    let mut game = Game::new(5, 5);
    for p in 0..3u32 {
        assert!(game.set_unit(p, 0, Some(Unit::new(p, 5, [1, 2], 2))).is_ok());
    }
    let mut server = playing(game, vec![A, B, C], 3);
    assert!(server.game.set_unit(1, 0, None).is_ok());
    server.change_player();
    assert_eq!(server.current_player, 2);
    server.change_player();
    assert_eq!(server.current_player, 0);
}

#[test]
fn turn_passes_to_next_player_with_units() {
    let mut game = Game::new(5, 5);
    for p in 0..3u32 {
        assert!(game.set_unit(p, 0, Some(Unit::new(p, 5, [1, 2], 2))).is_ok());
    }
    let mut server = playing(game, vec![A, B, C], 3);
    server.current_player = 2;
    server.change_player();
    assert_eq!(server.current_player, 0);
}

#[test]
fn spectator_join_mid_game_then_player_leaves() {
    let mut server = GameServer::new();
    server.handle_new_client(A);
    server.handle_new_client(B);
    server.take_outbox();
    server.handle_start_game();
    assert!(server.game_started);
    assert_eq!(server.num_of_players, 2);
    let out = server.take_outbox();
    assert!(out.iter().any(|o| matches!(o.event, Event::Field(_))));

    server.handle_new_client(C);
    let out = server.take_outbox();
    assert_eq!(out.len(), 3);
    assert!(out.iter().all(|o| matches!(o.event, Event::Queue(_))));
    for (i, o) in out.iter().enumerate() {
        assert_eq!(o.recipients, vec![[A, B, C][i]]);
        match &o.event {
            Event::Queue(q) => {
                assert_eq!(q.players_number, 3);
                assert_eq!(q.your_number, i as u32 + 1);
                assert!(q.game_started);
            }
            _ => unreachable!(),
        }
    }

    server.handle_loose_client(A);
    let out = server.take_outbox();
    assert_eq!(end_of(&out[0]), Some(EndState::Disconnected));
    assert_eq!(out[0].recipients, vec![B, C]);
    assert!(!server.game_started);
    assert!(out[1..].iter().all(|o| matches!(&o.event, Event::Queue(q) if !q.game_started)));
    assert_eq!(server.clients, vec![B, C]);
}

#[test]
fn spectator_leaving_keeps_the_match() {
    let mut server = playing(two_by_two(), vec![A, B, C], 2);
    server.handle_loose_client(C);
    assert!(server.game_started);
    let out = server.take_outbox();
    assert_eq!(out.len(), 2);
    assert!(out.iter().all(|o| matches!(o.event, Event::Queue(_))));
}

#[test]
fn click_from_other_player_is_dropped() {
    let mut server = playing(two_by_two(), vec![A, B], 2);
    server.handle_click(B, Click { target: Point { x: 1, y: 1 } });
    assert!(server.take_outbox().is_empty());
    assert!(server.game.selected_hex.is_none());
}

#[test]
fn refused_click_answers_with_error_to_current_player() {
    let mut server = playing(two_by_two(), vec![A, B], 2);
    server.handle_click(A, Click { target: Point { x: 1, y: 1 } });
    let out = server.take_outbox();
    assert_eq!(out.len(), 1);
    assert_eq!(out[0].recipients, vec![A]);
    match &out[0].event {
        Event::Error(e) => assert_eq!(e.message, "click"),
        _ => panic!("error expected"),
    }
}

#[test]
fn move_then_attack_state() {
    let mut server = playing(two_by_two(), vec![A, B], 2);
    server.handle_click(A, Click { target: Point { x: 0, y: 0 } });
    server.take_outbox();
    server.handle_click(A, Click { target: Point { x: 0, y: 1 } });
    let out = server.take_outbox();
    match &out[0].event {
        Event::Moving(m) => {
            let points: Vec<Point> = m.coords.iter().map(|h| h.to_point()).collect();
            assert_eq!(points, vec![Point { x: 0, y: 0 }, Point { x: 0, y: 1 }]);
        }
        _ => panic!("moving expected"),
    }
    assert_eq!(out[0].recipients, vec![A, B]);
    assert_eq!(state_of(&out[1]), Some(StateKind::Attack));
    let moved = server.game.get_unit(0, 1).unwrap().unwrap();
    assert_eq!(moved.movements, 2);
    assert_eq!(server.game.selected_hex.unwrap().to_point(), Point { x: 0, y: 1 });
}

#[test]
fn skip_turn_restores_and_passes() {
    let mut server = playing(two_by_two(), vec![A, B], 2);
    server.handle_click(A, Click { target: Point { x: 0, y: 0 } });
    server.handle_click(A, Click { target: Point { x: 0, y: 1 } });
    server.take_outbox();
    server.handle_skip_turn(A);
    assert_eq!(server.current_player, 1);
    assert_eq!(server.game.get_unit(0, 1).unwrap().unwrap().movements, 3);
    let out = server.take_outbox();
    match &out[0].event {
        Event::Update(u) => assert_eq!(u.hexes.len(), 1),
        _ => panic!("update expected"),
    }
    assert_eq!(state_of(out.last().unwrap()), Some(StateKind::Action));
    assert_eq!(out.last().unwrap().recipients, vec![B]);
}

#[test]
fn start_game_needs_two_clients() {
    let mut server = GameServer::new();
    server.handle_new_client(A);
    server.take_outbox();
    server.handle_start_game();
    assert!(!server.game_started);
    assert!(server.take_outbox().is_empty());
}

#[test]
fn new_game_tells_spectators_to_watch() {
    let mut server = GameServer::new();
    server.clients = vec![A, B, C];
    server.num_of_players = 2;
    server.new_game();
    assert!(server.game_started);
    let out = server.take_outbox();
    assert_eq!(state_of(&out[0]), Some(StateKind::Wait));
    assert_eq!(out[0].recipients, vec![A, B, C]);
    assert!(matches!(out[1].event, Event::Field(_)));
    assert_eq!(state_of(&out[2]), Some(StateKind::Watch));
    assert_eq!(out[2].recipients, vec![C]);
    assert_eq!(state_of(&out[3]), Some(StateKind::Action));
    assert_eq!(out[3].recipients, vec![A]);
}
