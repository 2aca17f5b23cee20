//! The game world on the server: the players in it, and what commands and messages
//! do to them.
use crate::clients::{everyone_but, Broadcast, Clients};
use crate::login::{
    player_key, player_of_row, row_key, row_of_player, username, username_of, LoginRequest,
};
use crate::shared::{
    ClientToServerMsg, Coord, GameConfig, Player, PlayerId, Position, ServerNews,
    ServerToClientMsg, TargetDestination,
};
use crate::wire::server_msg_bytes;
use vstd::prelude::*;

verus! {

/// The width of the map.
pub const MAP_WIDTH: u32 = 800;

/// The height of the map.
pub const MAP_HEIGHT: u32 = 600;

/// A command sent from the web server to the world.
#[derive(Debug)]
pub enum WorldCommand<S> {
    Connect { client_tx: S },
    Disconnect { player_id: PlayerId },
}

/// A message sent from a client's websocket to the world.
#[derive(Debug)]
pub struct ClientMessage {
    pub player_id: PlayerId,
    pub message: ClientToServerMsg,
}

/// The news that a player is gone.
#[derive(Debug, Clone, Copy)]
pub struct PlayerDisconnectEvent {
    pub player_id: PlayerId,
}

/// A player in the world.
#[derive(Debug)]
pub struct PlayerEntity {
    pub marker: Player,
    pub player_id: PlayerId,
    pub position: Position,
    pub target: TargetDestination,
}

/// A position to be written to a player's row.
#[derive(Debug, Clone, Copy)]
pub struct SavedPosition {
    pub id: i64,
    pub x: Coord,
    pub y: Coord,
}

/// What is sent when a player enters the world.
#[derive(Debug)]
pub struct Arrival {
    /// For the new client alone.
    pub welcome: Vec<u8>,
    /// For the other clients.
    pub joined: Broadcast,
}

/// The state of the game: the clients, the players in the world, and the departures
/// that have not been dealt with yet.
#[derive(Debug)]
pub struct GameWorld<S> {
    pub clients: Clients<S>,
    pub players: Vec<PlayerEntity>,
    pub disconnect_events: Vec<PlayerDisconnectEvent>,
}

// ---------------------------------------------------------------------------
// Commands
// ---------------------------------------------------------------------------

/// The senders of the clients that connect, in order.
pub open spec fn connecting<S>(commands: Seq<WorldCommand<S>>) -> Seq<S>
    decreases commands.len(),
{
    if commands.len() == 0 {
        Seq::empty()
    } else {
        let before = connecting(commands.drop_last());
        match commands.last() {
            WorldCommand::Connect { client_tx } => before.push(client_tx),
            WorldCommand::Disconnect { player_id } => before,
        }
    }
}

/// The events of the players that disconnect, in order.
pub open spec fn disconnecting<S>(commands: Seq<WorldCommand<S>>) -> Seq<PlayerDisconnectEvent>
    decreases commands.len(),
{
    if commands.len() == 0 {
        Seq::empty()
    } else {
        let before = disconnecting(commands.drop_last());
        match commands.last() {
            WorldCommand::Connect { client_tx } => before,
            WorldCommand::Disconnect { player_id } => before.push(
                PlayerDisconnectEvent { player_id },
            ),
        }
    }
}

// ---------------------------------------------------------------------------
// Players
// ---------------------------------------------------------------------------

/// Whether the player is in the world.
pub open spec fn present(players: Seq<PlayerEntity>, player_id: PlayerId) -> bool {
    exists|i: int| 0 <= i < players.len() && (#[trigger] players[i]).player_id == player_id
}

/// Whether the entity at `i` is the first of that player.
pub open spec fn is_first(players: Seq<PlayerEntity>, player_id: PlayerId, i: int) -> bool {
    &&& 0 <= i < players.len()
    &&& players[i].player_id == player_id
    &&& forall|j: int| 0 <= j < i ==> (#[trigger] players[j]).player_id != player_id
}

/// The place of the player's first entity.
pub open spec fn first_of(players: Seq<PlayerEntity>, player_id: PlayerId) -> int {
    choose|i: int| is_first(players, player_id, i)
}

/// The players after one of them was sent to a new destination: the player's first
/// entity has it, and nothing else changes.
pub open spec fn sent_to(
    players: Seq<PlayerEntity>,
    player_id: PlayerId,
    target: TargetDestination,
) -> Seq<PlayerEntity> {
    Seq::new(
        players.len(),
        |i: int|
            if is_first(players, player_id, i) {
                PlayerEntity { target, ..players[i] }
            } else {
                players[i]
            },
    )
}

/// The players after one message.
pub open spec fn after_message(
    players: Seq<PlayerEntity>,
    message: ClientMessage,
) -> Seq<PlayerEntity> {
    match message.message {
        ClientToServerMsg::ClickPosition { x, y } => sent_to(
            players,
            message.player_id,
            TargetDestination(Position { x, y }),
        ),
        ClientToServerMsg::Ping => players,
    }
}

/// The players after all messages, the first one first.
pub open spec fn after_messages(
    players: Seq<PlayerEntity>,
    messages: Seq<ClientMessage>,
) -> Seq<PlayerEntity>
    decreases messages.len(),
{
    if messages.len() == 0 {
        players
    } else {
        after_message(after_messages(players, messages.drop_last()), messages.last())
    }
}

/// Whether one of the events removes the entity at `i`.
pub open spec fn leaves(
    players: Seq<PlayerEntity>,
    events: Seq<PlayerDisconnectEvent>,
    i: int,
) -> bool {
    exists|k: int|
        0 <= k < events.len() && is_first(players, (#[trigger] events[k]).player_id, i)
}

/// Those of the first `n` entities that no event removes, in order.
pub open spec fn staying(
    players: Seq<PlayerEntity>,
    events: Seq<PlayerDisconnectEvent>,
    n: nat,
) -> Seq<PlayerEntity>
    decreases n,
{
    if n == 0 {
        Seq::empty()
    } else {
        let before = staying(players, events, (n - 1) as nat);
        if leaves(players, events, n - 1) {
            before
        } else {
            before.push(players[n - 1])
        }
    }
}

/// An entity's position, addressed to its player's row.
pub open spec fn saved(player: PlayerEntity) -> SavedPosition {
    SavedPosition {
        id: row_of_player(player.player_id),
        x: player.position.x,
        y: player.position.y,
    }
}

/// The positions to save for the events, in order: one for each event whose player is
/// in the world.
pub open spec fn saves(
    players: Seq<PlayerEntity>,
    events: Seq<PlayerDisconnectEvent>,
) -> Seq<SavedPosition>
    decreases events.len(),
{
    if events.len() == 0 {
        Seq::empty()
    } else {
        let before = saves(players, events.drop_last());
        let player_id = events.last().player_id;
        if present(players, player_id) {
            before.push(saved(players[first_of(players, player_id)]))
        } else {
            before
        }
    }
}

/// Whether the broadcast tells each of `n` clients that the player whose position was
/// saved has left.
pub open spec fn announces(n: nat, position: SavedPosition, broadcast: Broadcast) -> bool {
    &&& broadcast.message@ == server_msg_bytes(
        ServerNews::PlayerLeft(player_of_row(position.id)),
    )
    &&& broadcast.recipients@ == everyone_but(n, None)
}

/// All players with their positions, in order.
pub open spec fn roster(players: Seq<PlayerEntity>) -> Seq<(PlayerId, Position)> {
    players.map_values(|p: PlayerEntity| (p.player_id, p.position))
}

/// The entity of a player who has just entered the world: standing still.
pub open spec fn newcomer(player_id: PlayerId, start_pos: Position) -> PlayerEntity {
    PlayerEntity {
        marker: Player,
        player_id,
        position: start_pos,
        target: TargetDestination(start_pos),
    }
}

/// Whether `d` is the way from `b` to `a`. From a number to itself it is zero; all else
/// is up to `difference`.
pub open spec fn way<D: Fn(Coord, Coord) -> Coord>(
    difference: D,
    a: Coord,
    b: Coord,
    d: Coord,
) -> bool {
    if a == b && a.finite() {
        d == Coord { bits: 0 }
    } else {
        call_ensures(difference, (a, b), d)
    }
}

/// Whether one step takes the entity from `before` to `after`. Where either coordinate
/// is far from the destination's, both advance by what is left of the way; otherwise
/// the entity stays. Nothing but its position changes.
pub open spec fn stepped<D: Fn(Coord, Coord) -> Coord, A: Fn(Coord, Coord) -> Coord>(
    difference: D,
    advance: A,
    before: PlayerEntity,
    after: PlayerEntity,
) -> bool {
    let pos = before.position;
    let target = before.target.0;
    &&& after == PlayerEntity { position: after.position, ..before }
    &&& exists|dx: Coord, dy: Coord| #[trigger]
        way(difference, target.x, pos.x, dx) && #[trigger] way(
            difference,
            target.y,
            pos.y,
            dy,
        ) && if dx.far() || dy.far() {
            call_ensures(advance, (pos.x, dx), after.position.x) && call_ensures(
                advance,
                (pos.y, dy),
                after.position.y,
            )
        } else {
            after.position == pos
        }
}

/// The configuration that every client gets.
pub open spec fn game_config() -> GameConfig {
    GameConfig { map_width: MAP_WIDTH, map_height: MAP_HEIGHT }
}

/// The place of the first entity of a player.
fn find_player(players: &Vec<PlayerEntity>, player_id: PlayerId) -> (r: Option<usize>)
    ensures
        match r {
            Some(i) => is_first(players@, player_id, i as int),
            None => !present(players@, player_id),
        },
{
    for i in 0..players.len()
        invariant
            forall|j: int| 0 <= j < i ==> (#[trigger] players@[j]).player_id != player_id,
    {
        if players[i].player_id == player_id {
            return Some(i);
        }
    }
    None
}

/// The way from `b` to `a`.
fn way_to<D: Fn(Coord, Coord) -> Coord>(difference: &D, a: Coord, b: Coord) -> (d: Coord)
    requires
        call_requires(difference, (a, b)),
    ensures
        way(*difference, a, b, d),
{
    if a.bits == b.bits && a.is_finite() {
        Coord { bits: 0 }
    } else {
        difference(a, b)
    }
}

impl<S> GameWorld<S> {
    /// A world without clients and players.
    pub fn new() -> (r: GameWorld<S>)
        ensures
            r.clients@ == Seq::<S>::empty(),
            r.players@ == Seq::<PlayerEntity>::empty(),
            r.disconnect_events@ == Seq::<PlayerDisconnectEvent>::empty(),
    {
        GameWorld { clients: Clients::new(), players: Vec::new(), disconnect_events: Vec::new() }
    }

    /// Handles commands sent from the web server, like connect and disconnect. A
    /// client that connects gets the next number, and its login is handed back to be
    /// carried out. A player that disconnects is noted.
    pub fn handle_world_commands(&mut self, commands: Vec<WorldCommand<S>>) -> (logins: Vec<
        LoginRequest,
    >)
        ensures
            final(self).clients@ == old(self).clients@ + connecting(commands@),
            final(self).players@ == old(self).players@,
            final(self).disconnect_events@ == old(self).disconnect_events@ + disconnecting(
                commands@,
            ),
            logins@.len() == connecting(commands@).len(),
            forall|i: int|
                0 <= i < logins@.len() ==> {
                    &&& (#[trigger] logins@[i]).client_id == old(self).clients@.len() + i
                    &&& logins@[i].username@ == username_of((old(self).clients@.len() + i) as nat)
                },
    {
        let mut logins: Vec<LoginRequest> = Vec::new();
        let ghost all = commands@;
        for command in it: commands
            invariant
                it.seq() == all,
                self.clients@ == old(self).clients@ + connecting(all.take(it.index() as int)),
                self.players@ == old(self).players@,
                self.disconnect_events@ == old(self).disconnect_events@ + disconnecting(
                    all.take(it.index() as int),
                ),
                logins@.len() == connecting(all.take(it.index() as int)).len(),
                forall|i: int|
                    0 <= i < logins@.len() ==> {
                        &&& (#[trigger] logins@[i]).client_id == old(self).clients@.len() + i
                        &&& logins@[i].username@ == username_of(
                            (old(self).clients@.len() + i) as nat,
                        )
                    },
        {
            let ghost done = it.index() as int;
            assert(all.take(done + 1).drop_last() =~= all.take(done));
            assert(all.take(done + 1).last() == command);
            match command {
                WorldCommand::Connect { client_tx } => {
                    let client_id: usize = self.clients.add_client(client_tx);
                    let name = username(client_id);
                    logins.push(LoginRequest { client_id, username: name });
                },
                WorldCommand::Disconnect { player_id } => {
                    self.disconnect_events.push(PlayerDisconnectEvent { player_id });
                },
            }
        }
        assert(all.take(all.len() as int) =~= all);
        logins
    }

    /// Carries out a login whose player has been found or created: the player enters
    /// the world, and if the client is known it is welcomed and the others are told.
    pub fn finish_login(
        &mut self,
        client_id: usize,
        player_id: PlayerId,
        start_pos: Position,
    ) -> (r: Option<Arrival>)
        ensures
            final(self).clients@ == old(self).clients@,
            final(self).players@ == old(self).players@.push(newcomer(player_id, start_pos)),
            final(self).disconnect_events@ == old(self).disconnect_events@,
            match r {
                Some(arrival) => {
                    &&& client_id < old(self).clients@.len()
                    &&& arrival.welcome@ == server_msg_bytes(
                        ServerNews::Welcome { player_id, config: game_config() },
                    )
                    &&& arrival.joined.message@ == server_msg_bytes(
                        ServerNews::PlayerJoined(player_id, start_pos),
                    )
                    &&& arrival.joined.recipients@ == everyone_but(
                        old(self).clients@.len(),
                        Some(client_id),
                    )
                },
                None => client_id >= old(self).clients@.len(),
            },
    {
        self.players.push(
            PlayerEntity {
                marker: Player,
                player_id,
                position: start_pos,
                target: TargetDestination(start_pos),
            },
        );
        match self.clients.get(client_id) {
            None => None,
            Some(_) => {
                let config = GameConfig { map_width: MAP_WIDTH, map_height: MAP_HEIGHT };
                let welcome_msg = ServerToClientMsg::Welcome { player_id, config };
                let joined_msg = ServerToClientMsg::PlayerJoined(player_id, start_pos);
                let welcome = welcome_msg.to_bytes();
                let joined = self.clients.broadcast_message(joined_msg.to_bytes(), Some(client_id));
                Some(Arrival { welcome, joined })
            },
        }
    }

    /// Handles incoming messages from all connected clients: a click gives the player
    /// a new destination.
    pub fn handle_client_messages(&mut self, messages: Vec<ClientMessage>)
        ensures
            final(self).clients@ == old(self).clients@,
            final(self).players@ == after_messages(old(self).players@, messages@),
            final(self).disconnect_events@ == old(self).disconnect_events@,
    {
        for i in 0..messages.len()
            invariant
                self.clients@ == old(self).clients@,
                self.players@ == after_messages(old(self).players@, messages@.take(i as int)),
                self.disconnect_events@ == old(self).disconnect_events@,
        {
            let ghost before = self.players@;
            assert(messages@.take(i + 1).drop_last() =~= messages@.take(i as int));
            assert(messages@.take(i + 1).last() == messages@[i as int]);
            let player_id = messages[i].player_id;
            match &messages[i].message {
                ClientToServerMsg::ClickPosition { x, y } => {
                    let target = TargetDestination(Position { x: *x, y: *y });
                    match find_player(&self.players, player_id) {
                        Some(k) => {
                            self.players[k].target = target;
                        },
                        None => {},
                    }
                    assert(self.players@ =~= sent_to(before, player_id, target));
                },
                ClientToServerMsg::Ping => {},
            }
        }
        assert(messages@.take(messages@.len() as int) =~= messages@);
    }

    /// Moves every player who is not at their destination yet a step closer to it. The
    /// arithmetic is the caller's: `difference` subtracts its second argument from its
    /// first, and `advance` goes part of the way, from where the player is and the
    /// distance that is left. Nothing is subtracted where a coordinate is the
    /// destination's already.
    pub fn move_players_system<
        D: Fn(Coord, Coord) -> Coord,
        A: Fn(Coord, Coord) -> Coord,
    >(&mut self, difference: D, advance: A)
        requires
            forall|a: Coord, b: Coord| call_requires(difference, (a, b)),
            forall|a: Coord, b: Coord| call_requires(advance, (a, b)),
        ensures
            final(self).clients@ == old(self).clients@,
            final(self).disconnect_events@ == old(self).disconnect_events@,
            final(self).players@.len() == old(self).players@.len(),
            forall|i: int|
                0 <= i < final(self).players@.len() ==> stepped(
                    difference,
                    advance,
                    old(self).players@[i],
                    #[trigger] final(self).players@[i],
                ),
    {
        let n: usize = self.players.len();
        for i in 0..n
            invariant
                forall|a: Coord, b: Coord| call_requires(difference, (a, b)),
                forall|a: Coord, b: Coord| call_requires(advance, (a, b)),
                self.clients@ == old(self).clients@,
                self.disconnect_events@ == old(self).disconnect_events@,
                self.players@.len() == old(self).players@.len() == n,
                forall|k: int|
                    i <= k < n ==> #[trigger] self.players@[k] == old(self).players@[k],
                forall|k: int|
                    0 <= k < i ==> stepped(
                        difference,
                        advance,
                        old(self).players@[k],
                        #[trigger] self.players@[k],
                    ),
        {
            let pos = self.players[i].position;
            let target = self.players[i].target;
            let dx = way_to(&difference, target.0.x, pos.x);
            let dy = way_to(&difference, target.0.y, pos.y);
            if dx.is_far() || dy.is_far() {
                let x = advance(pos.x, dx);
                let y = advance(pos.y, dy);
                self.players[i].position = Position { x, y };
            }
            assert(stepped(difference, advance, old(self).players@[i as int], self.players@[i as int]));
        }
    }

    /// The state of the world for all clients: where every player is. An empty world
    /// is not reported.
    pub fn broadcast_world_state_system(&self) -> (r: Option<Broadcast>)
        requires
            12 + 16 * self.players@.len() <= isize::MAX,
        ensures
            match r {
                Some(broadcast) => {
                    &&& self.players@.len() > 0
                    &&& broadcast.message@ == server_msg_bytes(
                        ServerNews::WorldStateSnapshot(roster(self.players@)),
                    )
                    &&& broadcast.recipients@ == everyone_but(self.clients@.len(), None)
                },
                None => self.players@.len() == 0,
            },
    {
        let mut players: Vec<(PlayerId, Position)> = Vec::new();
        for i in 0..self.players.len()
            invariant
                players@ == roster(self.players@).take(i as int),
        {
            players.push((self.players[i].player_id, self.players[i].position));
            assert(players@ =~= roster(self.players@).take(i + 1));
        }
        assert(players@ =~= roster(self.players@));
        if players.len() == 0 {
            return None;
        }
        let msg = ServerToClientMsg::WorldStateSnapshot(players);
        Some(self.clients.broadcast_message(msg.to_bytes(), None))
    }

    /// Deals with the departures noted so far: hands back the last position of each
    /// player that left, to be saved, and takes their entities out of the world. Until
    /// all of them are dealt with, every event finds the world as it was.
    pub fn save_player_position_on_disconnect(&mut self) -> (r: Vec<SavedPosition>)
        ensures
            final(self).clients@ == old(self).clients@,
            final(self).players@ == staying(
                old(self).players@,
                old(self).disconnect_events@,
                old(self).players@.len(),
            ),
            final(self).disconnect_events@ == Seq::<PlayerDisconnectEvent>::empty(),
            r@ == saves(old(self).players@, old(self).disconnect_events@),
    {
        let ghost players = self.players@;
        let ghost events = self.disconnect_events@;
        let mut positions: Vec<SavedPosition> = Vec::new();
        let mut gone: Vec<bool> = Vec::new();
        for i in 0..self.players.len()
            invariant
                gone@.len() == i,
                forall|k: int| 0 <= k < i ==> gone@[k] == false,
        {
            gone.push(false);
        }
        for i in 0..self.disconnect_events.len()
            invariant
                self.players@ == players,
                self.disconnect_events@ == events,
                gone@.len() == players.len(),
                positions@ == saves(players, events.take(i as int)),
                forall|k: int|
                    0 <= k < players.len() ==> #[trigger] gone@[k] == leaves(
                        players,
                        events.take(i as int),
                        k,
                    ),
        {
            let player_id = self.disconnect_events[i].player_id;
            let ghost before = gone@;
            assert(events.take(i + 1).drop_last() =~= events.take(i as int));
            assert(events.take(i + 1).last() == events[i as int]);
            match find_player(&self.players, player_id) {
                Some(k) => {
                    assert(first_of(players, player_id) == k);
                    let position = self.players[k].position;
                    positions.push(
                        SavedPosition { id: row_key(player_id), x: position.x, y: position.y },
                    );
                    gone.set(k, true);
                },
                None => {},
            }
            assert forall|k: int| 0 <= k < players.len() implies #[trigger] gone@[k] == leaves(
                players,
                events.take(i + 1),
                k,
            ) by {
                let now = events.take(i + 1);
                let earlier = events.take(i as int);
                assert(before[k] == leaves(players, earlier, k));
                if leaves(players, earlier, k) {
                    let e = choose|e: int|
                        0 <= e < earlier.len() && is_first(
                            players,
                            (#[trigger] earlier[e]).player_id,
                            k,
                        );
                    assert(now[e] == earlier[e]);
                }
                if is_first(players, player_id, k) {
                    assert(now[i as int].player_id == player_id);
                }
                if leaves(players, now, k) && !leaves(players, earlier, k) {
                    let e = choose|e: int|
                        0 <= e < now.len() && is_first(players, (#[trigger] now[e]).player_id, k);
                    if e < i {
                        assert(earlier[e] == now[e]);
                    }
                }
            }
        }
        assert(events.take(events.len() as int) =~= events);
        let mut old_players: Vec<PlayerEntity> = Vec::new();
        std::mem::swap(&mut old_players, &mut self.players);
        let mut i: usize = 0;
        for player in it: old_players
            invariant
                self.clients@ == old(self).clients@,
                it.seq() == players,
                i == it.index(),
                gone@.len() == players.len(),
                forall|k: int|
                    0 <= k < players.len() ==> #[trigger] gone@[k] == leaves(players, events, k),
                self.players@ == staying(players, events, i as nat),
        {
            assert(i < gone.len());
            if !gone[i] {
                self.players.push(player);
            }
            i = i + 1;
        }
        self.disconnect_events.clear();
        positions
    }

    /// What the clients are told when the players whose positions were saved have left:
    /// one message for each, to every client. The connection of a player who has left is
    /// over, and nothing reaches it.
    pub fn departures(&self, saves: &Vec<SavedPosition>) -> (r: Vec<Broadcast>)
        ensures
            r@.len() == saves@.len(),
            forall|i: int|
                0 <= i < r@.len() ==> announces(
                    self.clients@.len(),
                    saves@[i],
                    #[trigger] r@[i],
                ),
    {
        let mut departures: Vec<Broadcast> = Vec::new();
        for i in 0..saves.len()
            invariant
                departures@.len() == i,
                forall|k: int|
                    0 <= k < i ==> announces(
                        self.clients@.len(),
                        saves@[k],
                        #[trigger] departures@[k],
                    ),
        {
            let left_msg = ServerToClientMsg::PlayerLeft(player_key(saves[i].id));
            departures.push(self.clients.broadcast_message(left_msg.to_bytes(), None));
        }
        departures
    }

    /// One round of the server's work: commands, then messages, then departures. Handed
    /// back are the logins to carry out, the positions to save, and what the clients are
    /// told about those who have left.
    pub fn update(
        &mut self,
        commands: Vec<WorldCommand<S>>,
        messages: Vec<ClientMessage>,
    ) -> (r: (Vec<LoginRequest>, Vec<SavedPosition>, Vec<Broadcast>))
        ensures
            final(self).clients@ == old(self).clients@ + connecting(commands@),
            final(self).disconnect_events@ == Seq::<PlayerDisconnectEvent>::empty(),
            ({
                let players = after_messages(old(self).players@, messages@);
                let events = old(self).disconnect_events@ + disconnecting(commands@);
                &&& final(self).players@ == staying(players, events, players.len())
                &&& r.1@ == saves(players, events)
            }),
            r.0@.len() == connecting(commands@).len(),
            forall|i: int|
                0 <= i < r.0@.len() ==> {
                    &&& (#[trigger] r.0@[i]).client_id == old(self).clients@.len() + i
                    &&& r.0@[i].username@ == username_of((old(self).clients@.len() + i) as nat)
                },
            r.2@.len() == r.1@.len(),
            forall|i: int|
                0 <= i < r.2@.len() ==> announces(
                    final(self).clients@.len(),
                    r.1@[i],
                    #[trigger] r.2@[i],
                ),
    {
        let logins = self.handle_world_commands(commands);
        self.handle_client_messages(messages);
        let positions = self.save_player_position_on_disconnect();
        let departures = self.departures(&positions);
        (logins, positions, departures)
    }
}

} // verus!
