use ironvein::canvas::GameState;
use ironvein::client::{
    mouse_click_system, player_color, spawn_player_sprite, ClientWorld, PlayerColor, SPRITE_SIZE,
};
use ironvein::shared::{
    ClientToServerMsg, Coord, GameConfig, PlayerId, Position, ServerToClientMsg,
};
use ironvein::world::{GameWorld, WorldCommand};

fn coord(value: f32) -> Coord {
    Coord { bits: value.to_bits() }
}

fn place(x: f32, y: f32) -> Position {
    Position { x: coord(x), y: coord(y) }
}

fn welcome(id: u64) -> Vec<u8> {
    let config = GameConfig { map_width: 800, map_height: 600 };
    ServerToClientMsg::Welcome { player_id: PlayerId(id), config }.to_bytes()
}

fn joined(id: u64, x: f32, y: f32) -> Vec<u8> {
    ServerToClientMsg::PlayerJoined(PlayerId(id), place(x, y)).to_bytes()
}

fn left(id: u64) -> Vec<u8> {
    ServerToClientMsg::PlayerLeft(PlayerId(id)).to_bytes()
}

fn snapshot(players: &[(u64, f32, f32)]) -> Vec<u8> {
    let players = players.iter().map(|&(id, x, y)| (PlayerId(id), place(x, y))).collect();
    ServerToClientMsg::WorldStateSnapshot(players).to_bytes()
}

fn screen(world: &ClientWorld) -> Vec<(u64, f32, f32, PlayerColor)> {
    world
        .sprites
        .iter()
        .map(|s| {
            (
                s.player_id.0,
                f32::from_bits(s.position.x.bits),
                f32::from_bits(s.position.y.bits),
                s.color,
            )
        })
        .collect()
}

#[test]
fn a_welcome_tells_the_client_who_it_is() {
    let mut world = ClientWorld::new();
    assert!(world.local_player.is_none() && world.config.is_none() && world.sprites.is_empty());
    let gone = world.handle_web_socket_messages(vec![welcome(7)]);
    assert!(gone.is_empty());
    assert_eq!(world.local_player, Some(PlayerId(7)));
    let config = world.config.unwrap();
    assert_eq!((config.map_width, config.map_height), (800, 600));
    world.handle_web_socket_messages(vec![ServerToClientMsg::Pong.to_bytes()]);
    assert_eq!(world.local_player, Some(PlayerId(7)));
}

#[test]
fn the_local_player_is_blue_and_the_others_are_red() {
    let mut world = ClientWorld::new();
    world.handle_web_socket_messages(vec![welcome(7), snapshot(&[(7, 1.0, 2.0), (8, 3.0, 4.0)])]);
    assert_eq!(
        screen(&world),
        vec![(7, 1.0, 2.0, PlayerColor::Blue), (8, 3.0, 4.0, PlayerColor::Red)]
    );
    world.handle_web_socket_messages(vec![joined(9, 0.0, 0.0)]);
    assert_eq!(world.sprites[2].color, PlayerColor::Red);
    world.handle_web_socket_messages(vec![welcome(8)]);
    let colors: Vec<PlayerColor> = world.sprites.iter().map(|s| s.color).collect();
    assert_eq!(colors, vec![PlayerColor::Red, PlayerColor::Blue, PlayerColor::Red]);
}

#[test]
fn a_snapshot_moves_and_adds_players() {
    let mut world = ClientWorld::new();
    world.handle_web_socket_messages(vec![snapshot(&[(1, 0.0, 0.0), (2, 5.0, 5.0)])]);
    let gone = world.handle_web_socket_messages(vec![snapshot(&[(3, 9.0, 9.0), (1, 1.0, 1.0)])]);
    assert_eq!(gone, vec![false, false]);
    assert_eq!(
        screen(&world),
        vec![
            (1, 1.0, 1.0, PlayerColor::Red),
            (2, 5.0, 5.0, PlayerColor::Red),
            (3, 9.0, 9.0, PlayerColor::Red),
        ]
    );
}

#[test]
fn a_repeated_snapshot_adds_nobody() {
    let mut world = ClientWorld::new();
    let frame = snapshot(&[(1, 0.0, 0.0), (2, 5.0, 5.0)]);
    world.handle_web_socket_messages(vec![frame.clone()]);
    let before = screen(&world);
    let gone = world.handle_web_socket_messages(vec![frame.clone()]);
    assert_eq!(gone, vec![false, false]);
    assert_eq!(screen(&world), before);
    world.handle_web_socket_messages(vec![frame.clone(), frame]);
    assert_eq!(screen(&world), before);
}

#[test]
fn a_player_listed_twice_has_one_sprite() {
    let mut world = ClientWorld::new();
    world.handle_web_socket_messages(vec![joined(1, 0.0, 0.0)]);
    world.handle_web_socket_messages(vec![snapshot(&[
        (1, 2.0, 2.0),
        (1, 3.0, 3.0),
        (2, 5.0, 5.0),
        (2, 6.0, 6.0),
    ])]);
    assert_eq!(
        screen(&world),
        vec![(1, 2.0, 2.0, PlayerColor::Red), (2, 5.0, 5.0, PlayerColor::Red)]
    );
    world.handle_web_socket_messages(vec![snapshot(&[(1, 4.0, 4.0)])]);
    assert_eq!(
        screen(&world),
        vec![(1, 4.0, 4.0, PlayerColor::Red), (2, 5.0, 5.0, PlayerColor::Red)]
    );
}

#[test]
fn a_player_who_is_shown_joins_in_place() {
    let mut world = ClientWorld::new();
    world.handle_web_socket_messages(vec![joined(1, 0.0, 0.0)]);
    let gone = world.handle_web_socket_messages(vec![joined(1, 7.0, 8.0)]);
    assert_eq!(gone, vec![false]);
    assert_eq!(screen(&world), vec![(1, 7.0, 8.0, PlayerColor::Red)]);
}

#[test]
fn whoever_left_vanishes() {
    let mut world = ClientWorld::new();
    world.handle_web_socket_messages(vec![snapshot(&[(1, 0.0, 0.0), (2, 5.0, 5.0)])]);
    let gone = world.handle_web_socket_messages(vec![left(1), left(99)]);
    assert_eq!(gone, vec![true, false]);
    assert_eq!(screen(&world), vec![(2, 5.0, 5.0, PlayerColor::Red)]);
}

#[test]
fn one_batch_gives_a_player_one_sprite() {
    let mut world = ClientWorld::new();
    world.handle_web_socket_messages(vec![joined(1, 0.0, 0.0), snapshot(&[(1, 5.0, 5.0)])]);
    assert_eq!(screen(&world), vec![(1, 5.0, 5.0, PlayerColor::Red)]);
    let mut world = ClientWorld::new();
    world.handle_web_socket_messages(vec![
        snapshot(&[(1, 1.0, 1.0), (2, 2.0, 2.0)]),
        snapshot(&[(2, 3.0, 3.0), (1, 4.0, 4.0)]),
        joined(2, 6.0, 6.0),
    ]);
    assert_eq!(
        screen(&world),
        vec![(1, 4.0, 4.0, PlayerColor::Red), (2, 6.0, 6.0, PlayerColor::Red)]
    );
}

#[test]
fn messages_of_a_batch_are_handled_one_after_the_other() {
    let mut world = ClientWorld::new();
    // Whoever comes and leaves is not shown.
    world.handle_web_socket_messages(vec![joined(1, 0.0, 0.0), left(1)]);
    assert!(world.sprites.is_empty());
    // Whoever leaves and is reported again is shown, with a new sprite.
    world.handle_web_socket_messages(vec![joined(1, 0.0, 0.0)]);
    let gone = world.handle_web_socket_messages(vec![left(1), snapshot(&[(1, 2.0, 2.0)])]);
    assert_eq!(gone, vec![true]);
    assert_eq!(screen(&world), vec![(1, 2.0, 2.0, PlayerColor::Red)]);
    world.handle_web_socket_messages(vec![left(1), joined(1, 3.0, 3.0), left(1)]);
    assert!(world.sprites.is_empty());
}

#[test]
fn frames_without_a_message_are_skipped() {
    let mut world = ClientWorld::new();
    world.handle_web_socket_messages(vec![vec![], vec![200, 0, 0, 0], joined(1, 2.0, 3.0)]);
    assert_eq!(screen(&world), vec![(1, 2.0, 3.0, PlayerColor::Red)]);
    world.handle_web_socket_messages(vec![vec![1, 2, 3]]);
    assert_eq!(world.sprites.len(), 1);
}

#[test]
fn clients_show_the_servers_world() {
    let mut server: GameWorld<()> = GameWorld::new();
    server.handle_world_commands(vec![
        WorldCommand::Connect { client_tx: () },
        WorldCommand::Connect { client_tx: () },
    ]);
    let mut client = ClientWorld::new();
    let arrival = server.finish_login(0, PlayerId(1), place(1.0, 1.0)).unwrap();
    client.handle_web_socket_messages(vec![arrival.welcome]);
    let second = server.finish_login(1, PlayerId(2), place(-8.0, 3.0)).unwrap();
    assert_eq!(second.joined.recipients, vec![0]);
    client.handle_web_socket_messages(vec![second.joined.message]);
    let broadcast = server.broadcast_world_state_system().unwrap();
    client.handle_web_socket_messages(vec![broadcast.message]);
    assert_eq!(
        screen(&client),
        vec![(2, -8.0, 3.0, PlayerColor::Red), (1, 1.0, 1.0, PlayerColor::Blue)]
    );
}

#[test]
fn clients_forget_whoever_leaves_the_servers_world() {
    let mut server: GameWorld<()> = GameWorld::new();
    server.handle_world_commands(vec![
        WorldCommand::Connect { client_tx: () },
        WorldCommand::Connect { client_tx: () },
    ]);
    server.finish_login(0, PlayerId(1), place(1.0, 1.0));
    server.finish_login(1, PlayerId(2), place(-8.0, 3.0));
    let mut client = ClientWorld::new();
    let broadcast = server.broadcast_world_state_system().unwrap();
    client.handle_web_socket_messages(vec![broadcast.message]);
    assert_eq!(client.sprites.len(), 2);
    let disconnect = WorldCommand::Disconnect { player_id: PlayerId(2) };
    let (_, _, departures) = server.update(vec![disconnect], vec![]);
    let frames = departures.into_iter().map(|departure| departure.message).collect();
    let gone = client.handle_web_socket_messages(frames);
    assert_eq!(gone, vec![false, true]);
    assert_eq!(screen(&client), vec![(1, 1.0, 1.0, PlayerColor::Red)]);
}

#[test]
fn all_sprites_have_one_size() {
    let mut world = ClientWorld::new();
    world.handle_web_socket_messages(vec![joined(1, 0.0, 0.0), snapshot(&[(2, 5.0, 5.0)])]);
    world.handle_web_socket_messages(vec![welcome(1), snapshot(&[(1, 3.0, 3.0)])]);
    let sizes: Vec<u32> = world.sprites.iter().map(|s| s.size).collect();
    assert_eq!(sizes, vec![10, 10]);
}

#[test]
fn sprites_have_the_colour_of_their_player() {
    let own = spawn_player_sprite(PlayerId(1), place(2.0, 3.0), true);
    assert_eq!(own.color, PlayerColor::Blue);
    assert_eq!(own.player_id, PlayerId(1));
    assert_eq!(own.position, place(2.0, 3.0));
    assert_eq!(own.size, 10);
    assert_eq!(spawn_player_sprite(PlayerId(2), place(0.0, 0.0), false).size, SPRITE_SIZE);
    assert_eq!(spawn_player_sprite(PlayerId(1), place(2.0, 3.0), false).color, PlayerColor::Red);
    assert_eq!(player_color(Some(PlayerId(1)), PlayerId(1)), PlayerColor::Blue);
    assert_eq!(player_color(Some(PlayerId(2)), PlayerId(1)), PlayerColor::Red);
    assert_eq!(player_color(None, PlayerId(1)), PlayerColor::Red);
}

#[test]
fn a_click_is_sent_with_y_pointing_up() {
    let bytes = mouse_click_system(true, Some(place(10.0, 20.0))).unwrap();
    match ClientToServerMsg::from_bytes(&bytes) {
        Some(ClientToServerMsg::ClickPosition { x, y }) => {
            assert_eq!(x.bits, 10.0f32.to_bits());
            assert_eq!(y.bits, (-20.0f32).to_bits());
        }
        other => panic!("{other:?}"),
    }
    assert!(mouse_click_system(false, Some(place(10.0, 20.0))).is_none());
    assert!(mouse_click_system(true, None).is_none());
}

#[test]
fn every_player_is_drawn_once() {
    let mut state = GameState::new();
    assert!(state.render_game().is_empty());
    state.players.insert(1, place(1.0, 2.0));
    state.players.insert(2, place(3.0, 4.0));
    state.local_player_id = Some(PlayerId(2));
    let mut balls = state.render_game();
    balls.sort_by_key(|b| b.player_id.0);
    assert_eq!(balls.len(), 2);
    assert_eq!(balls[0].player_id, PlayerId(1));
    assert_eq!(balls[0].position, place(1.0, 2.0));
    assert_eq!(balls[0].color.css_name(), "red");
    assert_eq!((balls[0].radius, balls[1].radius), (5, 5));
    assert_eq!(balls[1].player_id, PlayerId(2));
    assert_eq!(balls[1].position, place(3.0, 4.0));
    assert_eq!(balls[1].color.css_name(), "blue");
}
