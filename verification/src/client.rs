//! The game as a client sees it: the sprites of all players, and the clicks that it
//! sends.
use crate::laws::batches_keep_one_sprite_each;
use crate::shared::{
    ClientToServerMsg, GameConfig, PlayerId, Position, ServerNews, ServerToClientMsg,
};
use crate::wire::{client_msg_bytes, parse_server_msg};
use std::collections::{HashMap, HashSet};
use vstd::prelude::*;

verus! {

/// The width and the height of a player's sprite.
pub const SPRITE_SIZE: u32 = 10;

/// The colours in which players are drawn.
#[derive(Debug, Clone, Copy, PartialEq, Eq, Structural)]
pub enum PlayerColor {
    /// The client's own player.
    Blue,
    /// Everybody else.
    Red,
}

/// A player on the screen: a square around their position.
#[derive(Debug, Clone, Copy)]
pub struct PlayerSprite {
    pub player_id: PlayerId,
    pub position: Position,
    pub color: PlayerColor,
    /// The width and the height.
    pub size: u32,
}

/// All that a client knows: who it is and how the game is set up, once it has been
/// welcomed, and the players that it shows.
#[derive(Debug)]
pub struct ClientWorld {
    pub local_player: Option<PlayerId>,
    pub config: Option<GameConfig>,
    pub sprites: Vec<PlayerSprite>,
}

// ---------------------------------------------------------------------------
// Sprites
// ---------------------------------------------------------------------------

/// The colour of a player on the screen of the local player.
pub open spec fn color_of(local_player: Option<PlayerId>, player_id: PlayerId) -> PlayerColor {
    if local_player == Some(player_id) {
        PlayerColor::Blue
    } else {
        PlayerColor::Red
    }
}

/// The sprite of a player on the screen of the local player.
pub open spec fn sprite_of(
    local_player: Option<PlayerId>,
    player: (PlayerId, Position),
) -> PlayerSprite {
    PlayerSprite {
        player_id: player.0,
        position: player.1,
        color: color_of(local_player, player.0),
        size: SPRITE_SIZE,
    }
}

/// A sprite in the colour that it has on the screen of the local player.
pub open spec fn recolored(local_player: Option<PlayerId>, sprite: PlayerSprite) -> PlayerSprite {
    PlayerSprite { color: color_of(local_player, sprite.player_id), ..sprite }
}

/// The colour of a player.
pub fn player_color(local_player: Option<PlayerId>, player_id: PlayerId) -> (r: PlayerColor)
    ensures
        r == color_of(local_player, player_id),
{
    match local_player {
        Some(id) => if id == player_id {
            PlayerColor::Blue
        } else {
            PlayerColor::Red
        },
        None => PlayerColor::Red,
    }
}

/// A player's sprite: blue for the local player, red for the others, and of the size that
/// all sprites have.
pub fn spawn_player_sprite(
    player_id: PlayerId,
    position: Position,
    is_local_player: bool,
) -> (r: PlayerSprite)
    ensures
        r == (PlayerSprite {
            player_id,
            position,
            color: if is_local_player {
                PlayerColor::Blue
            } else {
                PlayerColor::Red
            },
            size: SPRITE_SIZE,
        }),
{
    let color = if is_local_player {
        PlayerColor::Blue
    } else {
        PlayerColor::Red
    };
    PlayerSprite { player_id, position, color, size: SPRITE_SIZE }
}

/// Whether the player has a sprite.
pub open spec fn shown(sprites: Seq<PlayerSprite>, player_id: PlayerId) -> bool {
    exists|i: int| 0 <= i < sprites.len() && (#[trigger] sprites[i]).player_id == player_id
}

/// Every player on the screen has one sprite.
pub open spec fn one_sprite_each(sprites: Seq<PlayerSprite>) -> bool {
    forall|i: int, j: int|
        0 <= i < j < sprites.len() ==> (#[trigger] sprites[i]).player_id != (
        #[trigger] sprites[j]).player_id
}

/// Whether the list has the player.
pub open spec fn listed(players: Seq<(PlayerId, Position)>, player_id: PlayerId) -> bool {
    exists|k: int| 0 <= k < players.len() && (#[trigger] players[k]).0 == player_id
}

/// Whether the list's entry at `k` is the first of that player.
pub open spec fn is_first_entry(
    players: Seq<(PlayerId, Position)>,
    player_id: PlayerId,
    k: int,
) -> bool {
    &&& 0 <= k < players.len()
    &&& players[k].0 == player_id
    &&& forall|j: int| 0 <= j < k ==> (#[trigger] players[j]).0 != player_id
}

/// Where the list first has the player.
pub open spec fn listed_position(
    players: Seq<(PlayerId, Position)>,
    player_id: PlayerId,
) -> Position {
    players[choose|k: int| is_first_entry(players, player_id, k)].1
}

/// The sprites where a list of players puts them. Those of other players stay.
pub open spec fn moved(
    sprites: Seq<PlayerSprite>,
    players: Seq<(PlayerId, Position)>,
) -> Seq<PlayerSprite> {
    Seq::new(
        sprites.len(),
        |i: int|
            if listed(players, sprites[i].player_id) {
                PlayerSprite {
                    position: listed_position(players, sprites[i].player_id),
                    ..sprites[i]
                }
            } else {
                sprites[i]
            },
    )
}

/// Players where another list of players puts them. Those that it does not have stay.
pub open spec fn relocated(
    old_players: Seq<(PlayerId, Position)>,
    players: Seq<(PlayerId, Position)>,
) -> Seq<(PlayerId, Position)> {
    Seq::new(
        old_players.len(),
        |i: int|
            if listed(players, old_players[i].0) {
                (old_players[i].0, listed_position(players, old_players[i].0))
            } else {
                old_players[i]
            },
    )
}

/// A list of players without one of them.
pub open spec fn without(
    players: Seq<(PlayerId, Position)>,
    player_id: PlayerId,
) -> Seq<(PlayerId, Position)>
    decreases players.len(),
{
    if players.len() == 0 {
        Seq::empty()
    } else {
        let before = without(players.drop_last(), player_id);
        if players.last().0 == player_id {
            before
        } else {
            before.push(players.last())
        }
    }
}

// ---------------------------------------------------------------------------
// A batch of messages
// ---------------------------------------------------------------------------

/// A batch of messages half way through: what the client will know, the sprites that
/// were there when it began, which of them are to go, and who is to appear.
pub ghost struct BatchState {
    pub local_player: Option<PlayerId>,
    pub config: Option<GameConfig>,
    pub sprites: Seq<PlayerSprite>,
    pub gone: Seq<bool>,
    pub arriving: Seq<(PlayerId, Position)>,
}

impl BatchState {
    /// Whether the sprite at `i` is there and is not to go.
    pub open spec fn stands(self, i: int) -> bool {
        0 <= i < self.sprites.len() && !self.gone[i]
    }

    /// Whether the sprite at `i` is the first of that player that is not to go.
    pub open spec fn is_first_standing(self, player_id: PlayerId, i: int) -> bool {
        &&& self.stands(i)
        &&& self.sprites[i].player_id == player_id
        &&& forall|j: int|
            0 <= j < i && self.stands(j) ==> (#[trigger] self.sprites[j]).player_id != player_id
    }

    /// Whether the player has a sprite that is not to go, or is to appear.
    pub open spec fn shows(self, player_id: PlayerId) -> bool {
        ||| exists|i: int|
            self.stands(i) && (#[trigger] self.sprites[i]).player_id == player_id
        ||| listed(self.arriving, player_id)
    }

    /// Whether the list's entry at `k` needs a sprite: its player has none, and no
    /// earlier entry provides it.
    pub open spec fn needs_sprite(self, players: Seq<(PlayerId, Position)>, k: int) -> bool {
        !self.shows(players[k].0) && is_first_entry(players, players[k].0, k)
    }

    /// Those of the list's first `n` entries that need a sprite, in order.
    pub open spec fn arrivals(self, players: Seq<(PlayerId, Position)>, n: nat) -> Seq<
        (PlayerId, Position),
    >
        decreases n,
    {
        if n == 0 {
            Seq::empty()
        } else {
            let before = self.arrivals(players, (n - 1) as nat);
            if self.needs_sprite(players, n - 1) {
                before.push(players[n - 1])
            } else {
                before
            }
        }
    }

    /// The batch after word of where these players are: those that are shown move
    /// there, and the others are to appear there.
    pub open spec fn placing(self, players: Seq<(PlayerId, Position)>) -> BatchState {
        BatchState {
            sprites: moved(self.sprites, players),
            arriving: relocated(self.arriving, players) + self.arrivals(players, players.len()),
            ..self
        }
    }

    /// The batch after word that a player has left.
    pub open spec fn removing(self, player_id: PlayerId) -> BatchState {
        BatchState {
            gone: Seq::new(
                self.gone.len(),
                |i: int| self.gone[i] || self.is_first_standing(player_id, i),
            ),
            arriving: without(self.arriving, player_id),
            ..self
        }
    }

    /// The batch after one message.
    pub open spec fn after_news(self, news: ServerNews) -> BatchState {
        match news {
            ServerNews::Welcome { player_id, config } => BatchState {
                local_player: Some(player_id),
                config: Some(config),
                ..self
            },
            ServerNews::WorldStateSnapshot(players) => self.placing(players),
            ServerNews::PlayerJoined(player_id, position) => self.placing(
                seq![(player_id, position)],
            ),
            ServerNews::PlayerLeft(player_id) => self.removing(player_id),
            ServerNews::Pong => self,
        }
    }

    /// The batch after all frames, the first one first. A frame that holds no message is
    /// skipped.
    pub open spec fn after_frames(self, frames: Seq<Vec<u8>>) -> BatchState
        decreases frames.len(),
    {
        if frames.len() == 0 {
            self
        } else {
            let before = self.after_frames(frames.drop_last());
            match parse_server_msg(frames.last()@) {
                Some(news) => before.after_news(news),
                None => before,
            }
        }
    }

    /// Those of the first `n` sprites that do not go.
    pub open spec fn remaining(self, n: nat) -> Seq<PlayerSprite>
        decreases n,
    {
        if n == 0 {
            Seq::empty()
        } else {
            let before = self.remaining((n - 1) as nat);
            if self.gone[n - 1] {
                before
            } else {
                before.push(self.sprites[n - 1])
            }
        }
    }

    /// The sprites at the end of the batch, in the colours that they have then: those that
    /// remain, then those that appear.
    pub open spec fn outcome(self) -> Seq<PlayerSprite> {
        self.remaining(self.sprites.len()).map_values(
            |sprite: PlayerSprite| recolored(self.local_player, sprite),
        ) + self.arriving.map_values(
            |player: (PlayerId, Position)| sprite_of(self.local_player, player),
        )
    }
}

/// A batch of messages half way through.
struct Batch {
    local_player: Option<PlayerId>,
    config: Option<GameConfig>,
    sprites: Vec<PlayerSprite>,
    gone: Vec<bool>,
    arriving: Vec<(PlayerId, Position)>,
}

impl View for Batch {
    type V = BatchState;

    closed spec fn view(&self) -> BatchState {
        BatchState {
            local_player: self.local_player,
            config: self.config,
            sprites: self.sprites@,
            gone: self.gone@,
            arriving: self.arriving@,
        }
    }
}

impl Batch {
    /// The players that are shown: those with a sprite that is not to go, and those that
    /// are to appear.
    fn shown_players(&self) -> (existing: HashSet<u64>)
        requires
            self@.gone.len() == self@.sprites.len(),
        ensures
            forall|id: u64| #[trigger] existing@.contains(id) <==> self@.shows(PlayerId(id)),
    {
        let mut existing: HashSet<u64> = HashSet::new();
        for i in 0..self.sprites.len()
            invariant
                self@.gone.len() == self@.sprites.len(),
                forall|id: u64| #[trigger]
                    existing@.contains(id) <==> exists|j: int|
                        0 <= j < i && self@.stands(j) && (
                        #[trigger] self@.sprites[j]).player_id == PlayerId(id),
        {
            let ghost before = existing@;
            let player_id = self.sprites[i].player_id;
            if !self.gone[i] {
                existing.insert(player_id.0);
            }
            assert forall|id: u64| #[trigger] existing@.contains(id) <==> exists|j: int|
                0 <= j < i + 1 && self@.stands(j) && (#[trigger] self@.sprites[j]).player_id
                    == PlayerId(id) by {
                assert(existing@.contains(id) <==> before.contains(id) || (self@.stands(i as int)
                    && id == player_id.0));
                assert(self@.sprites[i as int].player_id == player_id);
            }
        }
        for i in 0..self.arriving.len()
            invariant
                forall|id: u64| #[trigger]
                    existing@.contains(id) <==> (exists|j: int|
                        self@.stands(j) && (#[trigger] self@.sprites[j]).player_id == PlayerId(
                            id,
                        )) || (exists|j: int|
                        0 <= j < i && (#[trigger] self@.arriving[j]).0 == PlayerId(id)),
        {
            let ghost before = existing@;
            let player_id = self.arriving[i].0;
            existing.insert(player_id.0);
            assert forall|id: u64| #[trigger] existing@.contains(id) <==> (exists|j: int|
                self@.stands(j) && (#[trigger] self@.sprites[j]).player_id == PlayerId(id)) || (
            exists|j: int| 0 <= j < i + 1 && (#[trigger] self@.arriving[j]).0 == PlayerId(id)) by {
                assert(existing@.contains(id) <==> before.contains(id) || id == player_id.0);
                assert(self@.arriving[i as int].0 == player_id);
            }
        }
        existing
    }

    /// Takes note of where players are: those that are shown move, and the others are to
    /// appear.
    fn place_players(&mut self, players: &Vec<(PlayerId, Position)>)
        requires
            old(self)@.gone.len() == old(self)@.sprites.len(),
        ensures
            final(self)@ == old(self)@.placing(players@),
    {
        let ghost start = self@;
        let n: usize = self.sprites.len();
        let m: usize = self.arriving.len();
        let existing = self.shown_players();
        let mut positions: HashMap<u64, Position> = HashMap::new();
        for k in 0..players.len()
            invariant
                self@ == (BatchState {
                    arriving: start.arriving + start.arrivals(players@, k as nat),
                    ..start
                }),
                forall|id: u64| #[trigger] existing@.contains(id) <==> start.shows(PlayerId(id)),
                forall|id: u64| #[trigger]
                    positions@.contains_key(id) <==> exists|j: int|
                        0 <= j < k && (#[trigger] players@[j]).0 == PlayerId(id),
                forall|id: u64| #[trigger]
                    positions@.contains_key(id) ==> exists|j: int|
                        0 <= j < k && is_first_entry(players@, PlayerId(id), j) && (
                        #[trigger] players@[j]).1 == positions@[id],
        {
            let (player_id, position) = players[k];
            assert(PlayerId(player_id.0) == player_id);
            assert(players@[k as int] == (player_id, position));
            if !positions.contains_key(&player_id.0) {
                positions.insert(player_id.0, position);
                assert(is_first_entry(players@, player_id, k as int));
                if !existing.contains(&player_id.0) {
                    self.arriving.push((player_id, position));
                }
            }
            assert(self.arriving@ =~= start.arriving + start.arrivals(
                players@,
                (k + 1) as nat,
            ));
        }
        let ghost new = start.arrivals(players@, players@.len());
        for i in 0..n
            invariant
                n == start.sprites.len(),
                self@ == (BatchState {
                    sprites: self.sprites@,
                    arriving: start.arriving + new,
                    ..start
                }),
                self.sprites@.len() == n,
                forall|id: u64| #[trigger]
                    positions@.contains_key(id) <==> listed(players@, PlayerId(id)),
                forall|id: u64| #[trigger]
                    positions@.contains_key(id) ==> exists|j: int|
                        is_first_entry(players@, PlayerId(id), j) && (#[trigger] players@[j]).1
                            == positions@[id],
                forall|j: int|
                    0 <= j < i ==> #[trigger] self.sprites@[j] == moved(
                        start.sprites,
                        players@,
                    )[j],
                forall|j: int| i <= j < n ==> #[trigger] self.sprites@[j] == start.sprites[j],
        {
            let player_id = self.sprites[i].player_id;
            assert(PlayerId(player_id.0) == player_id);
            match positions.get(&player_id.0) {
                Some(position) => {
                    self.sprites[i].position = *position;
                },
                None => {},
            }
        }
        assert(self.sprites@ =~= moved(start.sprites, players@));
        for i in 0..m
            invariant
                m == start.arriving.len(),
                self@ == (BatchState {
                    sprites: moved(start.sprites, players@),
                    arriving: self.arriving@,
                    ..start
                }),
                self.arriving@.len() == m + new.len(),
                forall|id: u64| #[trigger]
                    positions@.contains_key(id) <==> listed(players@, PlayerId(id)),
                forall|id: u64| #[trigger]
                    positions@.contains_key(id) ==> exists|j: int|
                        is_first_entry(players@, PlayerId(id), j) && (#[trigger] players@[j]).1
                            == positions@[id],
                forall|j: int|
                    0 <= j < i ==> #[trigger] self.arriving@[j] == relocated(
                        start.arriving,
                        players@,
                    )[j],
                forall|j: int|
                    i <= j < self.arriving@.len() ==> #[trigger] self.arriving@[j] == (
                    start.arriving + new)[j],
        {
            let player_id = self.arriving[i].0;
            assert(PlayerId(player_id.0) == player_id);
            match positions.get(&player_id.0) {
                Some(position) => {
                    self.arriving.set(i, (player_id, *position));
                },
                None => {},
            }
        }
        assert(self.arriving@ =~= relocated(start.arriving, players@) + new);
    }

    /// Takes note that a player has left.
    fn remove_player(&mut self, player_id: PlayerId)
        requires
            old(self)@.gone.len() == old(self)@.sprites.len(),
        ensures
            final(self)@ == old(self)@.removing(player_id),
    {
        let ghost start = self@;
        let n: usize = self.sprites.len();
        let mut i: usize = 0;
        while i < n && (self.gone[i] || self.sprites[i].player_id != player_id)
            invariant
                self@ == start,
                start.gone.len() == start.sprites.len() == n,
                i <= n,
                forall|j: int|
                    0 <= j < i && start.stands(j) ==> (#[trigger] start.sprites[j]).player_id
                        != player_id,
            decreases n - i,
        {
            i = i + 1;
        }
        if i < n {
            self.gone.set(i, true);
        }
        assert(self.gone@ =~= start.removing(player_id).gone);
        let mut arriving: Vec<(PlayerId, Position)> = Vec::new();
        for k in 0..self.arriving.len()
            invariant
                self.arriving@ == start.arriving,
                arriving@ == without(start.arriving.take(k as int), player_id),
        {
            assert(start.arriving.take(k + 1).drop_last() =~= start.arriving.take(k as int));
            if self.arriving[k].0 != player_id {
                arriving.push(self.arriving[k]);
            }
        }
        assert(start.arriving.take(start.arriving.len() as int) =~= start.arriving);
        self.arriving = arriving;
    }

    /// Applies one message.
    fn handle_message(&mut self, msg: ServerToClientMsg)
        requires
            old(self)@.gone.len() == old(self)@.sprites.len(),
        ensures
            final(self)@ == old(self)@.after_news(msg@),
            final(self)@.gone.len() == final(self)@.sprites.len() == old(self)@.sprites.len(),
    {
        match msg {
            ServerToClientMsg::Welcome { player_id, config } => {
                self.local_player = Some(player_id);
                self.config = Some(config);
            },
            ServerToClientMsg::PlayerJoined(player_id, position) => {
                let mut players: Vec<(PlayerId, Position)> = Vec::new();
                players.push((player_id, position));
                assert(players@ =~= seq![(player_id, position)]);
                self.place_players(&players);
            },
            ServerToClientMsg::PlayerLeft(player_id) => {
                self.remove_player(player_id);
            },
            ServerToClientMsg::WorldStateSnapshot(players) => {
                self.place_players(&players);
            },
            ServerToClientMsg::Pong => {},
        }
    }
}

impl ClientWorld {
    /// A client that has heard nothing yet.
    pub fn new() -> (r: ClientWorld)
        ensures
            r.local_player is None,
            r.config is None,
            r.sprites@ == Seq::<PlayerSprite>::empty(),
    {
        ClientWorld { local_player: None, config: None, sprites: Vec::new() }
    }

    /// The beginning of a batch of messages.
    pub open spec fn batch(self) -> BatchState {
        BatchState {
            local_player: self.local_player,
            config: self.config,
            sprites: self.sprites@,
            gone: Seq::new(self.sprites@.len(), |i: int| false),
            arriving: Seq::empty(),
        }
    }

    /// Handles the messages that have come in since the last time, one after the other: a
    /// player that is reported somewhere is shown there, and a player that has left is
    /// taken off the screen. The result tells which of the earlier sprites have vanished;
    /// the new ones stand at the end of the list.
    pub fn handle_web_socket_messages(&mut self, frames: Vec<Vec<u8>>) -> (gone: Vec<bool>)
        ensures
            ({
                let end = old(self).batch().after_frames(frames@);
                &&& final(self).local_player == end.local_player
                &&& final(self).config == end.config
                &&& final(self).sprites@ == end.outcome()
                &&& gone@ == end.gone
            }),
            gone@.len() == old(self).sprites@.len(),
            one_sprite_each(old(self).sprites@) ==> one_sprite_each(final(self).sprites@),
    {
        proof {
            if one_sprite_each(self.sprites@) {
                batches_keep_one_sprite_each(*self, frames@);
            }
        }
        let ghost start = self.batch();
        let mut sprites: Vec<PlayerSprite> = Vec::new();
        std::mem::swap(&mut sprites, &mut self.sprites);
        let n: usize = sprites.len();
        let mut gone: Vec<bool> = Vec::new();
        for i in 0..n
            invariant
                gone@ == Seq::new(i as nat, |k: int| false),
        {
            gone.push(false);
            assert(gone@ =~= Seq::new((i + 1) as nat, |k: int| false));
        }
        let mut batch = Batch {
            local_player: self.local_player,
            config: self.config,
            sprites,
            gone,
            arriving: Vec::new(),
        };
        assert(frames@.take(0) =~= Seq::<Vec<u8>>::empty());
        for i in 0..frames.len()
            invariant
                batch@ == start.after_frames(frames@.take(i as int)),
                batch@.gone.len() == batch@.sprites.len() == n,
        {
            assert(frames@.take(i + 1).drop_last() =~= frames@.take(i as int));
            match ServerToClientMsg::from_bytes(frames[i].as_slice()) {
                Some(msg) => {
                    batch.handle_message(msg);
                },
                None => {},
            }
        }
        assert(frames@.take(frames@.len() as int) =~= frames@);
        let ghost end = batch@;
        self.local_player = batch.local_player;
        self.config = batch.config;
        for i in 0..n
            invariant
                self.local_player == end.local_player,
                self.config == end.config,
                batch@ == end,
                end.gone.len() == end.sprites.len() == n,
                self.sprites@ == end.remaining(i as nat).map_values(
                    |sprite: PlayerSprite| recolored(end.local_player, sprite),
                ),
        {
            if !batch.gone[i] {
                let sprite = batch.sprites[i];
                let color = player_color(self.local_player, sprite.player_id);
                self.sprites.push(PlayerSprite { color, ..sprite });
            }
            assert(self.sprites@ =~= end.remaining((i + 1) as nat).map_values(
                |sprite: PlayerSprite| recolored(end.local_player, sprite),
            ));
        }
        let ghost staying = self.sprites@;
        for i in 0..batch.arriving.len()
            invariant
                self.local_player == end.local_player,
                self.config == end.config,
                batch@ == end,
                self.sprites@ == staying + end.arriving.take(i as int).map_values(
                    |player: (PlayerId, Position)| sprite_of(end.local_player, player),
                ),
        {
            let (player_id, position) = batch.arriving[i];
            let is_local_player: bool = match self.local_player {
                Some(id) => id == player_id,
                None => false,
            };
            self.sprites.push(spawn_player_sprite(player_id, position, is_local_player));
            assert(self.sprites@ =~= staying + end.arriving.take(i + 1).map_values(
                |player: (PlayerId, Position)| sprite_of(end.local_player, player),
            ));
        }
        assert(end.arriving.take(end.arriving.len() as int) =~= end.arriving);
        batch.gone
    }
}

// ---------------------------------------------------------------------------
// Clicks
// ---------------------------------------------------------------------------

/// The message for a click, if there was one inside the window. The cursor is given
/// relative to the middle of the window with `y` pointing down the screen; in the
/// world `y` points up.
pub fn mouse_click_system(just_pressed: bool, cursor: Option<Position>) -> (r: Option<Vec<u8>>)
    ensures
        match r {
            Some(bytes) => just_pressed && (cursor matches Some(position) && bytes@
                == client_msg_bytes(
                ClientToServerMsg::ClickPosition { x: position.x, y: position.y.negated() },
            )),
            None => !just_pressed || cursor is None,
        },
{
    if just_pressed {
        match cursor {
            Some(position) => {
                let msg = ClientToServerMsg::ClickPosition {
                    x: position.x,
                    y: position.y.negate(),
                };
                Some(msg.to_bytes())
            },
            None => None,
        }
    } else {
        None
    }
}

} // verus!
