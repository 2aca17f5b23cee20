use ironvein::clients::Clients;
use ironvein::login::{after_lookup, player_key, row_key, username, DbPlayer, LoginStep};
use ironvein::session::{pong_for, Frame, Session, SessionAction, SessionEvent};
use ironvein::shared::{ClientToServerMsg, Coord, PlayerId, Position, ServerToClientMsg};
use ironvein::world::{ClientMessage, GameWorld, WorldCommand};

fn coord(value: f32) -> Coord {
    Coord { bits: value.to_bits() }
}

fn value(coord: Coord) -> f32 {
    f32::from_bits(coord.bits)
}

fn place(x: f32, y: f32) -> Position {
    Position { x: coord(x), y: coord(y) }
}

fn click(id: u64, x: f32, y: f32) -> ClientMessage {
    ClientMessage {
        player_id: PlayerId(id),
        message: ClientToServerMsg::ClickPosition { x: coord(x), y: coord(y) },
    }
}

fn ids(world: &GameWorld<&'static str>) -> Vec<u64> {
    world.players.iter().map(|p| p.player_id.0).collect()
}

/// Three clients, and the players 10, 20 and 30 in the world.
fn three_players() -> GameWorld<&'static str> {
    let mut world = GameWorld::new();
    let logins = world.handle_world_commands(vec![
        WorldCommand::Connect { client_tx: "a" },
        WorldCommand::Connect { client_tx: "b" },
        WorldCommand::Connect { client_tx: "c" },
    ]);
    assert_eq!(logins.len(), 3);
    world.finish_login(0, PlayerId(10), place(0.0, 0.0));
    world.finish_login(1, PlayerId(20), place(1.0, 2.0));
    world.finish_login(2, PlayerId(30), place(-3.0, 4.0));
    world
}

// --- Logins ---

#[test]
fn names_are_numbered() {
    assert_eq!(username(0), "Player_0");
    assert_eq!(username(7), "Player_7");
    assert_eq!(username(10), "Player_10");
    assert_eq!(username(90_210), "Player_90210");
    assert_eq!(username(usize::MAX), format!("Player_{}", usize::MAX));
    assert!(username(usize::MAX).len() <= 32);
    assert_ne!(username(1), username(11));
}

#[test]
fn a_known_player_logs_in_where_they_were() {
    let row = DbPlayer { id: 7, last_position_x: coord(1.5), last_position_y: coord(-2.0) };
    match after_lookup::<()>("Player_3".to_string(), Ok(Some(row))) {
        LoginStep::LoggedIn(id, at) => {
            assert_eq!(id, PlayerId(7));
            assert_eq!(at, place(1.5, -2.0));
        }
        other => panic!("{other:?}"),
    }
}

#[test]
fn an_unknown_player_gets_a_row() {
    for outcome in [Ok(None), Err("connection lost")] {
        match after_lookup("Player_3".to_string(), outcome) {
            LoginStep::CreatePlayer { username, password_hash } => {
                assert_eq!(username, "Player_3");
                assert_eq!(password_hash, "password");
            }
            other => panic!("{other:?}"),
        }
    }
}

#[test]
fn rows_and_players_are_one_to_one() {
    for id in [0i64, 1, 42, i64::MAX, -1, -42, i64::MIN] {
        let row = DbPlayer { id, last_position_x: coord(0.0), last_position_y: coord(0.0) };
        let (player_id, _) = row.start();
        assert_eq!(player_id.0, id as u64);
        assert_eq!(row_key(player_id), id);
        assert_eq!(player_key(id), player_id);
    }
    assert_eq!(row_key(PlayerId(u64::MAX)), -1);
}

// --- Clients ---

#[test]
fn clients_are_numbered_in_order() {
    let mut clients: Clients<&str> = Clients::new();
    assert_eq!(clients.add_client("a"), 0);
    assert_eq!(clients.add_client("b"), 1);
    assert_eq!(clients.get(1), Some(&"b"));
    assert_eq!(clients.get(2), None);
}

#[test]
fn broadcasts_leave_out_the_excluded_client() {
    let clients = Clients(vec!["a", "b", "c"]);
    let all = clients.broadcast_message(vec![1, 2], None);
    assert_eq!(all.message, vec![1, 2]);
    assert_eq!(all.recipients, vec![0, 1, 2]);
    assert_eq!(clients.broadcast_message(vec![], Some(1)).recipients, vec![0, 2]);
    assert_eq!(clients.broadcast_message(vec![], Some(9)).recipients, vec![0, 1, 2]);
    let nobody: Clients<u8> = Clients::new();
    assert!(nobody.broadcast_message(vec![], None).recipients.is_empty());
}

// --- Commands ---

#[test]
fn commands_number_clients_and_note_departures() {
    let mut world: GameWorld<&str> = GameWorld::new();
    let logins = world.handle_world_commands(vec![
        WorldCommand::Connect { client_tx: "a" },
        WorldCommand::Disconnect { player_id: PlayerId(5) },
        WorldCommand::Connect { client_tx: "b" },
    ]);
    let requests: Vec<(usize, &str)> =
        logins.iter().map(|l| (l.client_id, l.username.as_str())).collect();
    assert_eq!(requests, vec![(0, "Player_0"), (1, "Player_1")]);
    assert_eq!(world.clients.0, vec!["a", "b"]);
    assert!(world.players.is_empty());
    assert_eq!(world.disconnect_events.len(), 1);
    assert_eq!(world.disconnect_events[0].player_id, PlayerId(5));

    let more = world.handle_world_commands(vec![WorldCommand::Connect { client_tx: "c" }]);
    assert_eq!(more[0].client_id, 2);
    assert_eq!(more[0].username, "Player_2");
}

#[test]
fn a_newcomer_is_welcomed_and_announced() {
    let mut world = three_players();
    world.handle_world_commands(vec![WorldCommand::Connect { client_tx: "d" }]);
    let arrival = world.finish_login(3, PlayerId(40), place(7.0, 8.0)).unwrap();
    assert!(matches!(
        ServerToClientMsg::from_bytes(&arrival.welcome),
        Some(ServerToClientMsg::Welcome { player_id: PlayerId(40), config })
            if config.map_width == 800 && config.map_height == 600
    ));
    match ServerToClientMsg::from_bytes(&arrival.joined.message) {
        Some(ServerToClientMsg::PlayerJoined(id, at)) => {
            assert_eq!(id, PlayerId(40));
            assert_eq!(at, place(7.0, 8.0));
        }
        other => panic!("{other:?}"),
    }
    assert_eq!(arrival.joined.recipients, vec![0, 1, 2]);
    let player = world.players.last().unwrap();
    assert_eq!(player.player_id, PlayerId(40));
    assert_eq!(player.position, place(7.0, 8.0));
    assert_eq!(player.target.0, place(7.0, 8.0));
}

#[test]
fn a_login_of_no_client_is_not_announced() {
    let mut world: GameWorld<&str> = GameWorld::new();
    assert!(world.finish_login(0, PlayerId(1), place(0.0, 0.0)).is_none());
    assert_eq!(world.players.len(), 1);
}

// --- Messages ---

#[test]
fn a_click_sets_the_destination_of_its_player_alone() {
    let mut world = three_players();
    world.handle_client_messages(vec![click(20, 9.0, -9.0)]);
    assert_eq!(world.players[1].target.0, place(9.0, -9.0));
    assert_eq!(world.players[1].position, place(1.0, 2.0));
    assert_eq!(world.players[0].target.0, place(0.0, 0.0));
    assert_eq!(world.players[2].target.0, place(-3.0, 4.0));
}

#[test]
fn the_last_of_two_clicks_counts() {
    let mut world = three_players();
    world.handle_client_messages(vec![click(10, 1.0, 1.0), click(20, 5.0, 5.0), click(10, 2.0, 2.0)]);
    assert_eq!(world.players[0].target.0, place(2.0, 2.0));
    assert_eq!(world.players[1].target.0, place(5.0, 5.0));
}

#[test]
fn only_the_first_entity_of_a_player_follows_a_click() {
    let mut world = three_players();
    world.finish_login(0, PlayerId(10), place(6.0, 6.0));
    world.handle_client_messages(vec![click(10, 1.0, 1.0)]);
    assert_eq!(world.players[0].target.0, place(1.0, 1.0));
    assert_eq!(world.players[3].target.0, place(6.0, 6.0));
}

#[test]
fn clicks_of_two_players_can_be_swapped() {
    let mut one = three_players();
    let mut other = three_players();
    one.handle_client_messages(vec![click(10, 1.0, 1.0), click(20, 5.0, 5.0)]);
    other.handle_client_messages(vec![click(20, 5.0, 5.0), click(10, 1.0, 1.0)]);
    for i in 0..3 {
        assert_eq!(one.players[i].target, other.players[i].target);
    }
}

#[test]
fn pings_and_unknown_players_change_nothing() {
    let mut world = three_players();
    world.handle_client_messages(vec![
        ClientMessage { player_id: PlayerId(10), message: ClientToServerMsg::Ping },
        click(99, 1.0, 1.0),
    ]);
    assert_eq!(ids(&world), vec![10, 20, 30]);
    assert_eq!(world.players[0].target.0, place(0.0, 0.0));
    assert_eq!(world.players[1].target.0, place(1.0, 2.0));
    assert_eq!(world.players[2].target.0, place(-3.0, 4.0));
}

// --- Walking ---

fn walk(world: &mut GameWorld<&'static str>) {
    world.move_players_system(
        |a, b| coord(value(a) - value(b)),
        |from, distance| coord(value(from) + value(distance) * 0.1),
    );
}

#[test]
fn players_walk_a_tenth_of_the_way() {
    let mut world = three_players();
    world.handle_client_messages(vec![click(10, 10.0, 0.0)]);
    walk(&mut world);
    assert_eq!(world.players[0].position, place(1.0, 0.0));
    assert_eq!(world.players[0].target.0, place(10.0, 0.0));
    assert_eq!(world.players[0].player_id, PlayerId(10));
    walk(&mut world);
    assert_eq!(world.players[0].position, place(1.0 + 9.0 * 0.1, 0.0));
    assert_eq!(world.players[1].position, place(1.0, 2.0));
}

#[test]
fn players_close_to_their_destination_stay() {
    let mut world = three_players();
    world.handle_client_messages(vec![click(10, 0.01, -0.01)]);
    walk(&mut world);
    assert_eq!(world.players[0].position, place(0.0, 0.0));
    world.handle_client_messages(vec![click(10, 0.005, 0.5)]);
    walk(&mut world);
    assert_eq!(world.players[0].position, place(0.005 * 0.1, 0.5 * 0.1));
}

// --- Snapshots ---

#[test]
fn everybody_hears_where_everybody_is() {
    let world = three_players();
    let broadcast = world.broadcast_world_state_system().unwrap();
    assert_eq!(broadcast.recipients, vec![0, 1, 2]);
    match ServerToClientMsg::from_bytes(&broadcast.message) {
        Some(ServerToClientMsg::WorldStateSnapshot(players)) => assert_eq!(
            players,
            vec![
                (PlayerId(10), place(0.0, 0.0)),
                (PlayerId(20), place(1.0, 2.0)),
                (PlayerId(30), place(-3.0, 4.0)),
            ]
        ),
        other => panic!("{other:?}"),
    }
}

#[test]
fn an_empty_world_is_not_reported() {
    let mut world: GameWorld<&str> = GameWorld::new();
    world.handle_world_commands(vec![WorldCommand::Connect { client_tx: "a" }]);
    assert!(world.broadcast_world_state_system().is_none());
}

// --- Departures ---

#[test]
fn whoever_leaves_is_saved_and_removed() {
    let mut world = three_players();
    world.handle_world_commands(vec![
        WorldCommand::Disconnect { player_id: PlayerId(20) },
        WorldCommand::Disconnect { player_id: PlayerId(99) },
    ]);
    let saves = world.save_player_position_on_disconnect();
    assert_eq!(saves.len(), 1);
    assert_eq!(saves[0].id, 20);
    assert_eq!(saves[0].x, coord(1.0));
    assert_eq!(saves[0].y, coord(2.0));
    assert_eq!(ids(&world), vec![10, 30]);
    assert!(world.disconnect_events.is_empty());
    assert!(world.save_player_position_on_disconnect().is_empty());
}

#[test]
fn every_event_of_a_round_finds_the_world_as_it_was() {
    let mut world = three_players();
    world.finish_login(0, PlayerId(10), place(6.0, 6.0));
    world.handle_world_commands(vec![
        WorldCommand::Disconnect { player_id: PlayerId(10) },
        WorldCommand::Disconnect { player_id: PlayerId(10) },
    ]);
    let saves = world.save_player_position_on_disconnect();
    assert_eq!(saves.len(), 2);
    assert_eq!(saves[1].x, coord(0.0));
    assert_eq!(ids(&world), vec![20, 30, 10]);
}

#[test]
fn a_saved_player_comes_back_where_they_left() {
    let mut world = three_players();
    world.handle_world_commands(vec![WorldCommand::Disconnect { player_id: PlayerId(30) }]);
    let saves = world.save_player_position_on_disconnect();
    let row = DbPlayer {
        id: saves[0].id,
        last_position_x: saves[0].x,
        last_position_y: saves[0].y,
    };
    let (player_id, at) = row.start();
    assert_eq!(player_id, PlayerId(30));
    assert_eq!(at, place(-3.0, 4.0));
}

#[test]
fn a_round_does_commands_messages_and_departures() {
    let mut world = three_players();
    let (logins, saves, departures) = world.update(
        vec![
            WorldCommand::Connect { client_tx: "d" },
            WorldCommand::Disconnect { player_id: PlayerId(10) },
        ],
        vec![click(20, 5.0, 5.0)],
    );
    assert_eq!(logins[0].client_id, 3);
    assert_eq!(saves[0].id, 10);
    assert_eq!(departures.len(), saves.len());
    let left = ServerToClientMsg::PlayerLeft(PlayerId(10)).to_bytes();
    assert_eq!(departures[0].message, left);
    assert_eq!(departures[0].recipients, vec![0, 1, 2, 3]);
    assert_eq!(ids(&world), vec![20, 30]);
    assert_eq!(world.players[0].target.0, place(5.0, 5.0));
}

#[test]
fn every_departure_is_announced_to_all_clients() {
    let mut world = three_players();
    world.finish_login(2, PlayerId(u64::MAX), place(0.0, 0.0));
    let saves = {
        world.handle_world_commands(vec![
            WorldCommand::Disconnect { player_id: PlayerId(u64::MAX) },
            WorldCommand::Disconnect { player_id: PlayerId(99) },
            WorldCommand::Disconnect { player_id: PlayerId(20) },
        ]);
        world.save_player_position_on_disconnect()
    };
    assert_eq!(saves.iter().map(|p| p.id).collect::<Vec<i64>>(), vec![-1, 20]);
    let departures = world.departures(&saves);
    assert_eq!(departures.len(), 2);
    for (departure, id) in departures.iter().zip([u64::MAX, 20]) {
        assert!(matches!(
            ServerToClientMsg::from_bytes(&departure.message),
            Some(ServerToClientMsg::PlayerLeft(PlayerId(left))) if left == id
        ));
        assert_eq!(departure.recipients, vec![0, 1, 2]);
    }
    assert!(world.departures(&vec![]).is_empty());
}

#[test]
fn steps_are_the_plain_arithmetic_to_the_bit() {
    let values = [0.0, -0.0, 1.0, -7.25, 0.005, 1e-40, f32::MAX, f32::INFINITY, f32::NAN];
    for px in values {
        for py in values {
            for tx in values {
                for ty in values {
                    let mut world = three_players();
                    world.players[1].position = place(px, py);
                    world.players[1].target.0 = place(tx, ty);
                    world.move_players_system(
                        |a, b| coord(value(a) - value(b)),
                        |a, d| coord(value(a) + value(d) * 0.1),
                    );
                    let (dx, dy) = (tx - px, ty - py);
                    let (x, y) = if dx.abs() > 0.01 || dy.abs() > 0.01 {
                        (px + dx * 0.1, py + dy * 0.1)
                    } else {
                        (px, py)
                    };
                    let got = world.players[1].position;
                    for (got, expected) in [(got.x, x), (got.y, y)] {
                        let same = got.bits == expected.to_bits();
                        assert!(same || expected.is_nan() && value(got).is_nan());
                    }
                }
            }
        }
    }
}

#[test]
fn newcomers_stand_still() {
    let mut world = three_players();
    for _ in 0..5 {
        world.move_players_system(
            |a, b| coord(value(a) - value(b)),
            |a, d| coord(value(a) + value(d) * 0.1),
        );
    }
    assert_eq!(world.players[1].position, place(1.0, 2.0));
    assert_eq!(world.players[1].target.0, place(1.0, 2.0));
}

#[test]
fn players_on_one_way_move_alike() {
    let mut world = three_players();
    world.players[0].position = place(1.0, 2.0);
    world.handle_client_messages(vec![click(10, 50.0, -3.0), click(20, 50.0, -3.0)]);
    world.move_players_system(
        |a, b| coord(value(a) - value(b)),
        |a, d| coord(value(a) + value(d) * 0.1),
    );
    assert_eq!(world.players[0].position, world.players[1].position);
    assert_eq!(world.players[0].position, place(1.0 + 49.0 * 0.1, 2.0 - 5.0 * 0.1));
}

// --- Connections ---

#[test]
fn a_whole_connection_is_announced_once_and_reported_once() {
    let ping = || SessionEvent::Received(Frame::Binary(ClientToServerMsg::Ping.to_bytes()));
    let login = || SessionEvent::LoggedIn(PlayerId(4));
    let runs = vec![
        vec![SessionEvent::Opened, login(), ping(), SessionEvent::Ended, ping(), SessionEvent::Ended],
        vec![SessionEvent::Opened, ping(), SessionEvent::Ended, login(), ping(), SessionEvent::Opened],
        vec![SessionEvent::Opened, SessionEvent::Opened, login(), SessionEvent::Ended],
    ];
    for events in runs {
        let mut session = Session::new();
        let actions: Vec<SessionAction> =
            events.into_iter().map(|event| session.handle_event(event)).collect();
        assert!(matches!(actions[0], SessionAction::Connect));
        let connects = actions.iter().filter(|a| matches!(a, SessionAction::Connect)).count();
        assert_eq!(connects, 1);
        let end = actions
            .iter()
            .position(|a| matches!(a, SessionAction::Disconnect(PlayerId(4))))
            .unwrap();
        assert!(actions[end + 1..].iter().all(|a| matches!(a, SessionAction::Wait)));
    }
}

#[test]
fn a_ping_is_answered_with_a_pong() {
    let mut session = Session::new();
    session.handle_event(SessionEvent::LoggedIn(PlayerId(4)));
    let ping = ClientToServerMsg::Ping.to_bytes();
    match session.handle_event(SessionEvent::Received(Frame::Binary(ping))) {
        SessionAction::Forward(message) => {
            let answer = pong_for(&message).unwrap();
            assert!(matches!(
                ServerToClientMsg::from_bytes(&answer),
                Some(ServerToClientMsg::Pong)
            ));
        }
        other => panic!("{other:?}"),
    }
    assert!(pong_for(&click(4, 1.0, 2.0)).is_none());
}

#[test]
fn a_player_who_is_let_in_too_late_is_reported() {
    let mut session = Session::new();
    session.handle_event(SessionEvent::Ended);
    assert!(matches!(
        session.handle_event(SessionEvent::LoggedIn(PlayerId(4))),
        SessionAction::Disconnect(PlayerId(4))
    ));
    assert!(matches!(session.handle_event(SessionEvent::Ended), SessionAction::Wait));
    assert!(session.player_id.is_none() && session.closed);
}

#[test]
fn messages_are_forwarded_once_the_player_is_known() {
    let click = ClientToServerMsg::ClickPosition { x: coord(1.0), y: coord(2.0) }.to_bytes();
    let mut session = Session::new();
    let received = |bytes: &Vec<u8>| SessionEvent::Received(Frame::Binary(bytes.clone()));
    assert!(matches!(session.handle_event(received(&click)), SessionAction::Wait));
    assert!(matches!(
        session.handle_event(SessionEvent::LoggedIn(PlayerId(4))),
        SessionAction::Wait
    ));
    match session.handle_event(received(&click)) {
        SessionAction::Forward(message) => {
            assert_eq!(message.player_id, PlayerId(4));
            assert!(matches!(
                message.message,
                ClientToServerMsg::ClickPosition { x, y } if x == coord(1.0) && y == coord(2.0)
            ));
        }
        other => panic!("{other:?}"),
    }
    assert!(matches!(session.handle_event(received(&vec![9, 9])), SessionAction::Wait));
    assert!(matches!(
        session.handle_event(SessionEvent::Received(Frame::Other)),
        SessionAction::Wait
    ));
}

#[test]
fn the_end_of_a_players_connection_is_reported_once() {
    let mut session = Session::new();
    session.handle_event(SessionEvent::LoggedIn(PlayerId(4)));
    assert!(matches!(
        session.handle_event(SessionEvent::Ended),
        SessionAction::Disconnect(PlayerId(4))
    ));
    assert!(matches!(session.handle_event(SessionEvent::Ended), SessionAction::Wait));
    let ping = ClientToServerMsg::Ping.to_bytes();
    assert!(matches!(
        session.handle_event(SessionEvent::Received(Frame::Binary(ping))),
        SessionAction::Wait
    ));
}

#[test]
fn the_end_of_a_strangers_connection_is_not_reported() {
    let mut session = Session::new();
    assert!(matches!(session.handle_event(SessionEvent::Ended), SessionAction::Close));
    session.handle_event(SessionEvent::LoggedIn(PlayerId(4)));
    assert!(session.player_id.is_none());
}
