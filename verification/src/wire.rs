//! Messages as bytes.
//!
//! A message is the number of its variant, then the variant's fields in order. Every
//! integer has a fixed width and is little endian; a coordinate is its bit pattern; a
//! list is preceded by its length as a 64-bit integer. That is `bincode`'s encoding,
//! and `bincode` writes and reads it.
use crate::shared::{
    ClientToServerMsg, Coord, GameConfig, PlayerId, Position, ServerNews, ServerToClientMsg,
};
use vstd::prelude::*;

verus! {

/// The number of [`ClientToServerMsg::ClickPosition`].
pub const CLICK_POSITION: u32 = 0;

/// The number of [`ClientToServerMsg::Ping`].
pub const PING: u32 = 1;

/// The number of [`ServerToClientMsg::Welcome`].
pub const WELCOME: u32 = 0;

/// The number of [`ServerToClientMsg::WorldStateSnapshot`].
pub const WORLD_STATE_SNAPSHOT: u32 = 1;

/// The number of [`ServerToClientMsg::PlayerJoined`].
pub const PLAYER_JOINED: u32 = 2;

/// The number of [`ServerToClientMsg::PlayerLeft`].
pub const PLAYER_LEFT: u32 = 3;

/// The number of [`ServerToClientMsg::Pong`].
pub const PONG: u32 = 4;

// ---------------------------------------------------------------------------
// Integers as bytes
// ---------------------------------------------------------------------------

/// The four bytes of `x`, the least significant first.
pub open spec fn le32(x: u32) -> Seq<u8> {
    seq![
        (x % 256) as u8,
        (x / 256 % 256) as u8,
        (x / 65536 % 256) as u8,
        (x / 16777216) as u8,
    ]
}

/// The eight bytes of `x`, the least significant first.
pub open spec fn le64(x: u64) -> Seq<u8> {
    le32((x % 0x1_0000_0000) as u32) + le32((x / 0x1_0000_0000) as u32)
}

/// The number that the four bytes of `b` from `i` on stand for.
pub open spec fn u32_at(b: Seq<u8>, i: int) -> u32 {
    (b[i] + 256 * b[i + 1] + 65536 * b[i + 2] + 16777216 * b[i + 3]) as u32
}

/// The number that the eight bytes of `b` from `i` on stand for.
pub open spec fn u64_at(b: Seq<u8>, i: int) -> u64 {
    (u32_at(b, i) + 0x1_0000_0000 * u32_at(b, i + 4)) as u64
}

/// One row of a snapshot: an identifier and two coordinates.
pub open spec fn row_bytes(row: (u64, u32, u32)) -> Seq<u8> {
    le64(row.0) + le32(row.1) + le32(row.2)
}

/// Rows, one after the other.
pub open spec fn rows_bytes(rows: Seq<(u64, u32, u32)>) -> Seq<u8>
    decreases rows.len(),
{
    if rows.len() == 0 {
        Seq::empty()
    } else {
        rows_bytes(rows.drop_last()) + row_bytes(rows.last())
    }
}

/// The row that starts at `i`.
pub open spec fn row_at(b: Seq<u8>, i: int) -> (u64, u32, u32) {
    (u64_at(b, i), u32_at(b, i + 8), u32_at(b, i + 12))
}

/// Whether `b` holds, after four bytes, a length and as many rows.
pub open spec fn holds_rows(b: Seq<u8>) -> bool {
    b.len() >= 12 && b.len() >= 12 + 16 * u64_at(b, 4)
}

/// The rows that `b` holds after four bytes and their number.
pub open spec fn rows_at(b: Seq<u8>) -> Seq<(u64, u32, u32)> {
    Seq::new(u64_at(b, 4) as nat, |i: int| row_at(b, 12 + 16 * i))
}

// ---------------------------------------------------------------------------
// bincode
// ---------------------------------------------------------------------------

/// `bincode::serialize` on a `u32`: its four bytes, little endian. The call does not
/// fail on an integer.
#[verifier::external_body]
fn serialize_tag(tag: u32) -> (r: Vec<u8>)
    ensures
        r@ == le32(tag),
{
    bincode::serialize(&tag).unwrap()
}

/// `bincode::serialize` on a tuple of integers: the fields' bytes in order, each
/// little endian and in full width. The call does not fail on integers.
#[verifier::external_body]
fn serialize_tag_u32_u32(tag: u32, a: u32, b: u32) -> (r: Vec<u8>)
    ensures
        r@ == le32(tag) + le32(a) + le32(b),
{
    bincode::serialize(&(tag, a, b)).unwrap()
}

/// `bincode::serialize` on a tuple of integers: the fields' bytes in order, each
/// little endian and in full width. The call does not fail on integers.
#[verifier::external_body]
fn serialize_tag_u64(tag: u32, id: u64) -> (r: Vec<u8>)
    ensures
        r@ == le32(tag) + le64(id),
{
    bincode::serialize(&(tag, id)).unwrap()
}

/// `bincode::serialize` on a tuple of integers: the fields' bytes in order, each
/// little endian and in full width. The call does not fail on integers.
#[verifier::external_body]
fn serialize_tag_row(tag: u32, id: u64, a: u32, b: u32) -> (r: Vec<u8>)
    ensures
        r@ == le32(tag) + row_bytes((id, a, b)),
{
    bincode::serialize(&(tag, id, a, b)).unwrap()
}

/// `bincode::serialize` on an integer and a vector of integer tuples: the integer,
/// the vector's length as a `u64`, then the tuples in order. The call does not fail;
/// it allocates the whole result at once, which an allocator refuses beyond
/// `isize::MAX` bytes.
#[verifier::external_body]
fn serialize_tag_rows(tag: u32, rows: &Vec<(u64, u32, u32)>) -> (r: Vec<u8>)
    requires
        12 + 16 * rows@.len() <= isize::MAX,
    ensures
        r@ == le32(tag) + le64(rows@.len() as u64) + rows_bytes(rows@),
{
    bincode::serialize(&(tag, rows)).unwrap()
}

/// `bincode::deserialize` to a `u32`: the first four bytes, little endian. What
/// follows them is left unread, and the call fails only where there are fewer.
#[verifier::external_body]
fn deserialize_tag(bytes: &[u8]) -> (r: Option<u32>)
    ensures
        r == (if bytes@.len() < 4 {
            None
        } else {
            Some(u32_at(bytes@, 0))
        }),
{
    bincode::deserialize::<u32>(bytes).ok()
}

/// `bincode::deserialize` to a tuple of integers: each from the bytes that follow the
/// field before it, little endian. What follows the last is left unread, and the call
/// fails only where there are too few bytes.
#[verifier::external_body]
fn deserialize_tag_u32_u32(bytes: &[u8]) -> (r: Option<(u32, u32, u32)>)
    ensures
        r == (if bytes@.len() < 12 {
            None
        } else {
            Some((u32_at(bytes@, 0), u32_at(bytes@, 4), u32_at(bytes@, 8)))
        }),
{
    bincode::deserialize::<(u32, u32, u32)>(bytes).ok()
}

/// `bincode::deserialize` to a tuple of integers: each from the bytes that follow the
/// field before it, little endian. What follows the last is left unread, and the call
/// fails only where there are too few bytes.
#[verifier::external_body]
fn deserialize_tag_u64(bytes: &[u8]) -> (r: Option<(u32, u64)>)
    ensures
        r == (if bytes@.len() < 12 {
            None
        } else {
            Some((u32_at(bytes@, 0), u64_at(bytes@, 4)))
        }),
{
    bincode::deserialize::<(u32, u64)>(bytes).ok()
}

/// `bincode::deserialize` to a tuple of integers: each from the bytes that follow the
/// field before it, little endian. What follows the last is left unread, and the call
/// fails only where there are too few bytes.
#[verifier::external_body]
fn deserialize_tag_row(bytes: &[u8]) -> (r: Option<(u32, u64, u32, u32)>)
    ensures
        r == (if bytes@.len() < 20 {
            None
        } else {
            Some(
                (
                    u32_at(bytes@, 0),
                    u64_at(bytes@, 4),
                    u32_at(bytes@, 12),
                    u32_at(bytes@, 16),
                ),
            )
        }),
{
    bincode::deserialize::<(u32, u64, u32, u32)>(bytes).ok()
}

/// `bincode::deserialize` to an integer and a vector of integer tuples: the integer,
/// the vector's length as a `u64`, then as many tuples. What follows the last is left
/// unread, and the call fails only where there are too few bytes.
#[verifier::external_body]
fn deserialize_tag_rows(bytes: &[u8]) -> (r: Option<(u32, Vec<(u64, u32, u32)>)>)
    ensures
        match r {
            Some(v) => holds_rows(bytes@) && v.0 == u32_at(bytes@, 0) && v.1@ == rows_at(bytes@),
            None => !holds_rows(bytes@),
        },
{
    bincode::deserialize::<(u32, Vec<(u64, u32, u32)>)>(bytes).ok()
}

// ---------------------------------------------------------------------------
// The formats
// ---------------------------------------------------------------------------

/// A player's line in a snapshot, as integers.
pub open spec fn player_row(player: (PlayerId, Position)) -> (u64, u32, u32) {
    (player.0.0, player.1.x.bits, player.1.y.bits)
}

/// A line of a snapshot, as a player.
pub open spec fn row_player(row: (u64, u32, u32)) -> (PlayerId, Position) {
    (PlayerId(row.0), Position { x: Coord { bits: row.1 }, y: Coord { bits: row.2 } })
}

/// The bytes of a message to the server.
pub open spec fn client_msg_bytes(msg: ClientToServerMsg) -> Seq<u8> {
    match msg {
        ClientToServerMsg::ClickPosition { x, y } => le32(CLICK_POSITION) + le32(x.bits) + le32(
            y.bits,
        ),
        ClientToServerMsg::Ping => le32(PING),
    }
}

/// The message to the server that `b` begins with, if there is one.
pub open spec fn parse_client_msg(b: Seq<u8>) -> Option<ClientToServerMsg> {
    if b.len() < 4 {
        None
    } else if u32_at(b, 0) == CLICK_POSITION {
        if b.len() < 12 {
            None
        } else {
            Some(
                ClientToServerMsg::ClickPosition {
                    x: Coord { bits: u32_at(b, 4) },
                    y: Coord { bits: u32_at(b, 8) },
                },
            )
        }
    } else if u32_at(b, 0) == PING {
        Some(ClientToServerMsg::Ping)
    } else {
        None
    }
}

/// The bytes of a message to the client.
pub open spec fn server_msg_bytes(msg: ServerNews) -> Seq<u8> {
    match msg {
        ServerNews::Welcome { player_id, config } => le32(WELCOME) + row_bytes(
            (player_id.0, config.map_width, config.map_height),
        ),
        ServerNews::WorldStateSnapshot(players) => le32(WORLD_STATE_SNAPSHOT) + le64(
            players.len() as u64,
        ) + rows_bytes(players.map_values(|p: (PlayerId, Position)| player_row(p))),
        ServerNews::PlayerJoined(player_id, position) => le32(PLAYER_JOINED) + row_bytes(
            player_row((player_id, position)),
        ),
        ServerNews::PlayerLeft(player_id) => le32(PLAYER_LEFT) + le64(player_id.0),
        ServerNews::Pong => le32(PONG),
    }
}

/// The message to the client that `b` begins with, if there is one.
pub open spec fn parse_server_msg(b: Seq<u8>) -> Option<ServerNews> {
    if b.len() < 4 {
        None
    } else if u32_at(b, 0) == WELCOME {
        if b.len() < 20 {
            None
        } else {
            Some(
                ServerNews::Welcome {
                    player_id: PlayerId(u64_at(b, 4)),
                    config: GameConfig { map_width: u32_at(b, 12), map_height: u32_at(b, 16) },
                },
            )
        }
    } else if u32_at(b, 0) == WORLD_STATE_SNAPSHOT {
        if holds_rows(b) {
            Some(
                ServerNews::WorldStateSnapshot(
                    rows_at(b).map_values(|r: (u64, u32, u32)| row_player(r)),
                ),
            )
        } else {
            None
        }
    } else if u32_at(b, 0) == PLAYER_JOINED {
        if b.len() < 20 {
            None
        } else {
            let player = row_player(row_at(b, 4));
            Some(ServerNews::PlayerJoined(player.0, player.1))
        }
    } else if u32_at(b, 0) == PLAYER_LEFT {
        if b.len() < 12 {
            None
        } else {
            Some(ServerNews::PlayerLeft(PlayerId(u64_at(b, 4))))
        }
    } else if u32_at(b, 0) == PONG {
        Some(ServerNews::Pong)
    } else {
        None
    }
}

/// Whether the message's bytes fit into one allocation.
pub open spec fn sendable(msg: ServerNews) -> bool {
    msg matches ServerNews::WorldStateSnapshot(players) ==> 12 + 16 * players.len() <= isize::MAX
}

// ---------------------------------------------------------------------------
// Writing and reading
// ---------------------------------------------------------------------------

/// A snapshot's players as rows of integers.
fn to_rows(players: &Vec<(PlayerId, Position)>) -> (rows: Vec<(u64, u32, u32)>)
    ensures
        rows@ == players@.map_values(|p: (PlayerId, Position)| player_row(p)),
{
    let mut rows: Vec<(u64, u32, u32)> = Vec::new();
    for i in 0..players.len()
        invariant
            rows@.len() == i,
            forall|j: int| 0 <= j < i ==> rows@[j] == player_row(players@[j]),
    {
        let player = players[i];
        rows.push((player.0.0, player.1.x.bits, player.1.y.bits));
    }
    rows
}

/// Rows of integers as a snapshot's players.
fn from_rows(rows: &Vec<(u64, u32, u32)>) -> (players: Vec<(PlayerId, Position)>)
    ensures
        players@ == rows@.map_values(|r: (u64, u32, u32)| row_player(r)),
{
    let mut players: Vec<(PlayerId, Position)> = Vec::new();
    for i in 0..rows.len()
        invariant
            players@.len() == i,
            forall|j: int| 0 <= j < i ==> players@[j] == row_player(rows@[j]),
    {
        let row = rows[i];
        players.push(
            (PlayerId(row.0), Position { x: Coord { bits: row.1 }, y: Coord { bits: row.2 } }),
        );
    }
    players
}

impl ClientToServerMsg {
    /// The message as bytes.
    pub fn to_bytes(&self) -> (r: Vec<u8>)
        ensures
            r@ == client_msg_bytes(*self),
    {
        match self {
            ClientToServerMsg::ClickPosition { x, y } => serialize_tag_u32_u32(
                CLICK_POSITION,
                x.bits,
                y.bits,
            ),
            ClientToServerMsg::Ping => serialize_tag(PING),
        }
    }

    /// Reads a message from the front of `bytes`; `None` where they hold none.
    pub fn from_bytes(bytes: &[u8]) -> (r: Option<ClientToServerMsg>)
        ensures
            r == parse_client_msg(bytes@),
    {
        match deserialize_tag(bytes) {
            None => None,
            Some(tag) => if tag == CLICK_POSITION {
                match deserialize_tag_u32_u32(bytes) {
                    None => None,
                    Some((_, x, y)) => Some(
                        ClientToServerMsg::ClickPosition {
                            x: Coord { bits: x },
                            y: Coord { bits: y },
                        },
                    ),
                }
            } else if tag == PING {
                Some(ClientToServerMsg::Ping)
            } else {
                None
            },
        }
    }
}

impl ServerToClientMsg {
    /// The message as bytes.
    pub fn to_bytes(&self) -> (r: Vec<u8>)
        requires
            sendable(self@),
        ensures
            r@ == server_msg_bytes(self@),
    {
        match self {
            ServerToClientMsg::Welcome { player_id, config } => serialize_tag_row(
                WELCOME,
                player_id.0,
                config.map_width,
                config.map_height,
            ),
            ServerToClientMsg::WorldStateSnapshot(players) => {
                let rows = to_rows(players);
                serialize_tag_rows(WORLD_STATE_SNAPSHOT, &rows)
            },
            ServerToClientMsg::PlayerJoined(player_id, position) => serialize_tag_row(
                PLAYER_JOINED,
                player_id.0,
                position.x.bits,
                position.y.bits,
            ),
            ServerToClientMsg::PlayerLeft(player_id) => serialize_tag_u64(
                PLAYER_LEFT,
                player_id.0,
            ),
            ServerToClientMsg::Pong => serialize_tag(PONG),
        }
    }

    /// Reads a message from the front of `bytes`; `None` where they hold none.
    pub fn from_bytes(bytes: &[u8]) -> (r: Option<ServerToClientMsg>)
        ensures
            match r {
                Some(msg) => parse_server_msg(bytes@) == Some(msg@),
                None => parse_server_msg(bytes@) is None,
            },
    {
        match deserialize_tag(bytes) {
            None => None,
            Some(tag) => if tag == WELCOME {
                match deserialize_tag_row(bytes) {
                    None => None,
                    Some((_, id, map_width, map_height)) => Some(
                        ServerToClientMsg::Welcome {
                            player_id: PlayerId(id),
                            config: GameConfig { map_width, map_height },
                        },
                    ),
                }
            } else if tag == WORLD_STATE_SNAPSHOT {
                match deserialize_tag_rows(bytes) {
                    None => None,
                    Some((_, rows)) => {
                        let players = from_rows(&rows);
                        Some(ServerToClientMsg::WorldStateSnapshot(players))
                    },
                }
            } else if tag == PLAYER_JOINED {
                match deserialize_tag_row(bytes) {
                    None => None,
                    Some((_, id, x, y)) => Some(
                        ServerToClientMsg::PlayerJoined(
                            PlayerId(id),
                            Position { x: Coord { bits: x }, y: Coord { bits: y } },
                        ),
                    ),
                }
            } else if tag == PLAYER_LEFT {
                match deserialize_tag_u64(bytes) {
                    None => None,
                    Some((_, id)) => Some(ServerToClientMsg::PlayerLeft(PlayerId(id))),
                }
            } else if tag == PONG {
                Some(ServerToClientMsg::Pong)
            } else {
                None
            },
        }
    }
}

// ---------------------------------------------------------------------------
// What is written is what is read
// ---------------------------------------------------------------------------

proof fn lemma_u32_at(b: Seq<u8>, i: int, x: u32)
    requires
        0 <= i,
        i + 4 <= b.len(),
        b.subrange(i, i + 4) == le32(x),
    ensures
        u32_at(b, i) == x,
{
    let s = b.subrange(i, i + 4);
    assert(s[0] == b[i] && s[1] == b[i + 1] && s[2] == b[i + 2] && s[3] == b[i + 3]);
    assert(x == x % 256 + 256 * (x / 256 % 256) + 65536 * (x / 65536 % 256) + 16777216 * (x
        / 16777216));
}

proof fn lemma_u64_at(b: Seq<u8>, i: int, x: u64)
    requires
        0 <= i,
        i + 8 <= b.len(),
        b.subrange(i, i + 8) == le64(x),
    ensures
        u64_at(b, i) == x,
{
    let low = (x % 0x1_0000_0000) as u32;
    let high = (x / 0x1_0000_0000) as u32;
    assert(b.subrange(i, i + 4) =~= le64(x).subrange(0, 4));
    assert(b.subrange(i, i + 4) =~= le32(low));
    assert(b.subrange(i + 4, i + 8) =~= le64(x).subrange(4, 8));
    assert(b.subrange(i + 4, i + 8) =~= le32(high));
    lemma_u32_at(b, i, low);
    lemma_u32_at(b, i + 4, high);
}

proof fn lemma_row_at(b: Seq<u8>, i: int, row: (u64, u32, u32))
    requires
        0 <= i,
        i + 16 <= b.len(),
        b.subrange(i, i + 16) == row_bytes(row),
    ensures
        row_at(b, i) == row,
{
    assert(b.subrange(i, i + 8) =~= row_bytes(row).subrange(0, 8));
    assert(b.subrange(i, i + 8) =~= le64(row.0));
    assert(b.subrange(i + 8, i + 12) =~= row_bytes(row).subrange(8, 12));
    assert(b.subrange(i + 8, i + 12) =~= le32(row.1));
    assert(b.subrange(i + 12, i + 16) =~= row_bytes(row).subrange(12, 16));
    assert(b.subrange(i + 12, i + 16) =~= le32(row.2));
    lemma_u64_at(b, i, row.0);
    lemma_u32_at(b, i + 8, row.1);
    lemma_u32_at(b, i + 12, row.2);
}

proof fn lemma_rows_bytes(rows: Seq<(u64, u32, u32)>)
    ensures
        rows_bytes(rows).len() == 16 * rows.len(),
        forall|i: int|
            0 <= i < rows.len() ==> rows_bytes(rows).subrange(16 * i, 16 * i + 16) == row_bytes(
                #[trigger] rows[i],
            ),
    decreases rows.len(),
{
    if rows.len() > 0 {
        let front = rows.drop_last();
        lemma_rows_bytes(front);
        assert forall|i: int| 0 <= i < rows.len() implies rows_bytes(rows).subrange(
            16 * i,
            16 * i + 16,
        ) == row_bytes(#[trigger] rows[i]) by {
            if i < front.len() {
                assert(front[i] == rows[i]);
                assert(rows_bytes(rows).subrange(16 * i, 16 * i + 16) =~= rows_bytes(
                    front,
                ).subrange(16 * i, 16 * i + 16));
            } else {
                assert(rows_bytes(rows).subrange(16 * i, 16 * i + 16) =~= row_bytes(rows.last()));
            }
        }
    }
}

/// A message to the server is read back as it was written, whatever bytes follow it.
pub proof fn client_msg_read_back(msg: ClientToServerMsg, rest: Seq<u8>)
    ensures
        parse_client_msg(client_msg_bytes(msg) + rest) == Some(msg),
{
    let b = client_msg_bytes(msg) + rest;
    match msg {
        ClientToServerMsg::ClickPosition { x, y } => {
            assert(b.subrange(0, 4) =~= le32(CLICK_POSITION));
            assert(b.subrange(4, 8) =~= le32(x.bits));
            assert(b.subrange(8, 12) =~= le32(y.bits));
            lemma_u32_at(b, 0, CLICK_POSITION);
            lemma_u32_at(b, 4, x.bits);
            lemma_u32_at(b, 8, y.bits);
        },
        ClientToServerMsg::Ping => {
            assert(b.subrange(0, 4) =~= le32(PING));
            lemma_u32_at(b, 0, PING);
        },
    }
}

#[verifier::spinoff_prover]
proof fn lemma_head(tag: u32, n: u64)
    ensures
        (le32(tag) + le64(n)).len() == 12,
        u32_at(le32(tag) + le64(n), 0) == tag,
        u64_at(le32(tag) + le64(n), 4) == n,
{
    let b = le32(tag) + le64(n);
    assert(b.subrange(0, 4) =~= le32(tag));
    assert(b.subrange(4, 12) =~= le64(n));
    lemma_u32_at(b, 0, tag);
    lemma_u64_at(b, 4, n);
}

proof fn lemma_head_of(head: Seq<u8>, rest: Seq<u8>)
    requires
        head.len() == 12,
    ensures
        u32_at(head + rest, 0) == u32_at(head, 0),
        u64_at(head + rest, 4) == u64_at(head, 4),
{
}

#[verifier::spinoff_prover]
proof fn lemma_welcome_read_back(player_id: PlayerId, config: GameConfig, rest: Seq<u8>)
    ensures
        parse_server_msg(
            server_msg_bytes(ServerNews::Welcome { player_id, config }) + rest,
        ) == Some(ServerNews::Welcome { player_id, config }),
{
    let row = (player_id.0, config.map_width, config.map_height);
    let b = le32(WELCOME) + row_bytes(row) + rest;
    assert(b.subrange(0, 4) =~= le32(WELCOME));
    assert(b.subrange(4, 20) =~= row_bytes(row));
    lemma_u32_at(b, 0, WELCOME);
    lemma_row_at(b, 4, row);
}

#[verifier::spinoff_prover]
proof fn lemma_joined_read_back(player_id: PlayerId, position: Position, rest: Seq<u8>)
    ensures
        parse_server_msg(
            server_msg_bytes(ServerNews::PlayerJoined(player_id, position)) + rest,
        ) == Some(ServerNews::PlayerJoined(player_id, position)),
{
    let row = player_row((player_id, position));
    let b = le32(PLAYER_JOINED) + row_bytes(row) + rest;
    assert(b.subrange(0, 4) =~= le32(PLAYER_JOINED));
    assert(b.subrange(4, 20) =~= row_bytes(row));
    lemma_u32_at(b, 0, PLAYER_JOINED);
    lemma_row_at(b, 4, row);
}

#[verifier::spinoff_prover]
proof fn lemma_left_read_back(player_id: PlayerId, rest: Seq<u8>)
    ensures
        parse_server_msg(server_msg_bytes(ServerNews::PlayerLeft(player_id)) + rest) == Some(
            ServerNews::PlayerLeft(player_id),
        ),
{
    lemma_head(PLAYER_LEFT, player_id.0);
    lemma_head_of(le32(PLAYER_LEFT) + le64(player_id.0), rest);
}

#[verifier::spinoff_prover]
proof fn lemma_pong_read_back(rest: Seq<u8>)
    ensures
        parse_server_msg(server_msg_bytes(ServerNews::Pong) + rest) == Some(ServerNews::Pong),
{
    let b = le32(PONG) + rest;
    assert(b.subrange(0, 4) =~= le32(PONG));
    lemma_u32_at(b, 0, PONG);
}

#[verifier::spinoff_prover]
proof fn lemma_rows_read_back(head: Seq<u8>, rows: Seq<(u64, u32, u32)>, rest: Seq<u8>)
    requires
        head.len() == 12,
    ensures
        forall|i: int|
            0 <= i < rows.len() ==> row_at(head + rows_bytes(rows) + rest, 12 + 16 * i)
                == #[trigger] rows[i],
{
    let b = head + rows_bytes(rows) + rest;
    lemma_rows_bytes(rows);
    assert forall|i: int| 0 <= i < rows.len() implies row_at(b, 12 + 16 * i)
        == #[trigger] rows[i] by {
        assert(b.subrange(12 + 16 * i, 12 + 16 * i + 16) =~= rows_bytes(rows).subrange(
            16 * i,
            16 * i + 16,
        ));
        lemma_row_at(b, 12 + 16 * i, rows[i]);
    }
}

proof fn lemma_player_rows(players: Seq<(PlayerId, Position)>)
    ensures
        players.map_values(|p: (PlayerId, Position)| player_row(p)).map_values(
            |r: (u64, u32, u32)| row_player(r),
        ) == players,
{
    assert(players.map_values(|p: (PlayerId, Position)| player_row(p)).map_values(
        |r: (u64, u32, u32)| row_player(r),
    ) =~= players);
}

#[verifier::spinoff_prover]
proof fn lemma_snapshot_at(head: Seq<u8>, rows: Seq<(u64, u32, u32)>, rest: Seq<u8>)
    requires
        head.len() == 12,
        u32_at(head, 0) == WORLD_STATE_SNAPSHOT,
        u64_at(head, 4) == rows.len(),
    ensures
        parse_server_msg(head + rows_bytes(rows) + rest) == Some(
            ServerNews::WorldStateSnapshot(rows.map_values(|r: (u64, u32, u32)| row_player(r))),
        ),
{
    let b = head + rows_bytes(rows) + rest;
    lemma_rows_bytes(rows);
    lemma_rows_read_back(head, rows, rest);
    lemma_head_of(head, rows_bytes(rows) + rest);
    assert(b =~= head + (rows_bytes(rows) + rest));
    assert(rows_at(b) =~= rows);
}

#[verifier::spinoff_prover]
proof fn lemma_snapshot_read_back(players: Seq<(PlayerId, Position)>, rest: Seq<u8>)
    requires
        players.len() <= u64::MAX,
    ensures
        parse_server_msg(
            server_msg_bytes(ServerNews::WorldStateSnapshot(players)) + rest,
        ) == Some(ServerNews::WorldStateSnapshot(players)),
{
    let rows = players.map_values(|p: (PlayerId, Position)| player_row(p));
    let n = players.len() as u64;
    lemma_head(WORLD_STATE_SNAPSHOT, n);
    lemma_snapshot_at(le32(WORLD_STATE_SNAPSHOT) + le64(n), rows, rest);
    lemma_player_rows(players);
}

/// A message to the client is read back as it was written, whatever bytes follow it.
pub proof fn server_msg_read_back(msg: ServerNews, rest: Seq<u8>)
    requires
        sendable(msg),
    ensures
        parse_server_msg(server_msg_bytes(msg) + rest) == Some(msg),
{
    match msg {
        ServerNews::Welcome { player_id, config } => {
            lemma_welcome_read_back(player_id, config, rest);
        },
        ServerNews::WorldStateSnapshot(players) => {
            lemma_snapshot_read_back(players, rest);
        },
        ServerNews::PlayerJoined(player_id, position) => {
            lemma_joined_read_back(player_id, position, rest);
        },
        ServerNews::PlayerLeft(player_id) => {
            lemma_left_read_back(player_id, rest);
        },
        ServerNews::Pong => {
            lemma_pong_read_back(rest);
        },
    }
}

/// Two messages to the server that are written alike are the same message.
pub proof fn client_msg_bytes_tell_apart(a: ClientToServerMsg, b: ClientToServerMsg)
    requires
        client_msg_bytes(a) == client_msg_bytes(b),
    ensures
        a == b,
{
    client_msg_read_back(a, Seq::empty());
    client_msg_read_back(b, Seq::empty());
}

/// Two messages to the client that are written alike say the same.
pub proof fn server_msg_bytes_tell_apart(a: ServerNews, b: ServerNews)
    requires
        sendable(a),
        sendable(b),
        server_msg_bytes(a) == server_msg_bytes(b),
    ensures
        a == b,
{
    server_msg_read_back(a, Seq::empty());
    server_msg_read_back(b, Seq::empty());
}

} // verus!
