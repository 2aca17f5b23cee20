//! What messages are as bytes, byte by byte, and that nothing else is read as a message.
use crate::shared::{
    ClientToServerMsg, Coord, GameConfig, PlayerId, Position, ServerNews, ServerToClientMsg,
};
use crate::wire::{
    client_msg_bytes, client_msg_read_back, holds_rows, le32, le64, parse_client_msg,
    parse_server_msg, player_row, row_at, row_bytes, row_player, rows_at, rows_bytes, sendable,
    server_msg_bytes, server_msg_read_back, u32_at, u64_at,
};
use vstd::prelude::*;

verus! {

/// The number that `n` bytes from `i` on stand for, the least significant first.
pub open spec fn number_at(b: Seq<u8>, i: int, n: nat) -> int
    decreases n,
{
    if n == 0 {
        0
    } else {
        b[i] + 256 * number_at(b, i + 1, (n - 1) as nat)
    }
}

proof fn lemma_number4(b: Seq<u8>, i: int)
    ensures
        number_at(b, i, 4) == u32_at(b, i),
        0 <= number_at(b, i, 4) < 0x1_0000_0000,
{
    reveal_with_fuel(number_at, 5);
}

proof fn lemma_number8(b: Seq<u8>, i: int)
    ensures
        number_at(b, i, 8) == u64_at(b, i),
{
    lemma_number4(b, i);
    lemma_number4(b, i + 4);
    assert(number_at(b, i, 8) == number_at(b, i, 4) + 0x1_0000_0000 * number_at(b, i + 4, 4)) by {
        reveal_with_fuel(number_at, 9);
    }
}

/// What a message to the client says is what it is made of.
pub proof fn a_message_says_what_it_holds(msg: ServerToClientMsg)
    ensures
        match msg {
            ServerToClientMsg::Welcome { player_id, config } => msg@ == (ServerNews::Welcome {
                player_id,
                config,
            }),
            ServerToClientMsg::WorldStateSnapshot(players) => msg@
                == ServerNews::WorldStateSnapshot(players@),
            ServerToClientMsg::PlayerJoined(player_id, position) => msg@
                == ServerNews::PlayerJoined(player_id, position),
            ServerToClientMsg::PlayerLeft(player_id) => msg@ == ServerNews::PlayerLeft(player_id),
            ServerToClientMsg::Pong => msg@ == ServerNews::Pong,
        },
{
}

// ---------------------------------------------------------------------------
// What is written
// ---------------------------------------------------------------------------

/// A click is the number 0 and the bits of its coordinates, in four bytes each.
pub proof fn a_click_as_bytes(x: Coord, y: Coord)
    ensures
        ({
            let b = client_msg_bytes(ClientToServerMsg::ClickPosition { x, y });
            &&& b.len() == 12
            &&& number_at(b, 0, 4) == 0
            &&& number_at(b, 4, 4) == x.bits
            &&& number_at(b, 8, 4) == y.bits
        }),
{
    let msg = ClientToServerMsg::ClickPosition { x, y };
    let b = client_msg_bytes(msg);
    client_msg_read_back(msg, Seq::empty());
    assert(b + Seq::<u8>::empty() =~= b);
    lemma_number4(b, 0);
    lemma_number4(b, 4);
    lemma_number4(b, 8);
}

/// A ping is the number 1 in four bytes.
pub proof fn a_ping_as_bytes()
    ensures
        client_msg_bytes(ClientToServerMsg::Ping).len() == 4,
        number_at(client_msg_bytes(ClientToServerMsg::Ping), 0, 4) == 1,
{
    let b = client_msg_bytes(ClientToServerMsg::Ping);
    client_msg_read_back(ClientToServerMsg::Ping, Seq::empty());
    assert(b + Seq::<u8>::empty() =~= b);
    lemma_number4(b, 0);
}

proof fn lemma_reads_itself(news: ServerNews)
    requires
        sendable(news),
    ensures
        parse_server_msg(server_msg_bytes(news)) == Some(news),
{
    let b = server_msg_bytes(news);
    lemma_nothing_added(b);
    server_msg_read_back(news, Seq::empty());
}

proof fn lemma_nothing_added(b: Seq<u8>)
    ensures
        b + Seq::<u8>::empty() == b,
{
    assert(b + Seq::<u8>::empty() =~= b);
}

#[verifier::spinoff_prover]
proof fn lemma_welcome_numbers(b: Seq<u8>, player_id: PlayerId, config: GameConfig)
    requires
        parse_server_msg(b) == Some(ServerNews::Welcome { player_id, config }),
    ensures
        number_at(b, 0, 4) == 0,
        number_at(b, 4, 8) == player_id.0,
        number_at(b, 12, 4) == config.map_width,
        number_at(b, 16, 4) == config.map_height,
{
    lemma_number4(b, 0);
    lemma_number8(b, 4);
    lemma_number4(b, 12);
    lemma_number4(b, 16);
}

/// A welcome is the number 0, the player's number in eight bytes, and the width and the
/// height of the map in four bytes each.
pub proof fn a_welcome_as_bytes(player_id: PlayerId, config: GameConfig)
    ensures
        ({
            let b = server_msg_bytes(ServerNews::Welcome { player_id, config });
            &&& b.len() == 20
            &&& number_at(b, 0, 4) == 0
            &&& number_at(b, 4, 8) == player_id.0
            &&& number_at(b, 12, 4) == config.map_width
            &&& number_at(b, 16, 4) == config.map_height
        }),
{
    let b = server_msg_bytes(ServerNews::Welcome { player_id, config });
    lemma_reads_itself(ServerNews::Welcome { player_id, config });
    lemma_welcome_numbers(b, player_id, config);
}

#[verifier::spinoff_prover]
proof fn lemma_snapshot_numbers(b: Seq<u8>, players: Seq<(PlayerId, Position)>)
    requires
        parse_server_msg(b) == Some(ServerNews::WorldStateSnapshot(players)),
    ensures
        number_at(b, 0, 4) == 1,
        number_at(b, 4, 8) == players.len(),
        forall|i: int|
            0 <= i < players.len() ==> {
                &&& number_at(b, 12 + 16 * i, 8) == (#[trigger] players[i]).0.0
                &&& number_at(b, 12 + 16 * i + 8, 4) == players[i].1.x.bits
                &&& number_at(b, 12 + 16 * i + 12, 4) == players[i].1.y.bits
            },
{
    lemma_number4(b, 0);
    lemma_number8(b, 4);
    let read = rows_at(b).map_values(|r: (u64, u32, u32)| row_player(r));
    assert(read == players);
    assert(read.len() == u64_at(b, 4));
    assert forall|i: int| 0 <= i < players.len() implies {
        &&& number_at(b, 12 + 16 * i, 8) == (#[trigger] players[i]).0.0
        &&& number_at(b, 12 + 16 * i + 8, 4) == players[i].1.x.bits
        &&& number_at(b, 12 + 16 * i + 12, 4) == players[i].1.y.bits
    } by {
        assert(read[i] == row_player(row_at(b, 12 + 16 * i)));
        lemma_number8(b, 12 + 16 * i);
        lemma_number4(b, 12 + 16 * i + 8);
        lemma_number4(b, 12 + 16 * i + 12);
    }
}

/// A snapshot is the number 1, the number of players in eight bytes, and for each player
/// their number in eight bytes and the bits of their coordinates in four bytes each.
#[verifier::spinoff_prover]
pub proof fn a_snapshot_as_bytes(players: Seq<(PlayerId, Position)>)
    requires
        sendable(ServerNews::WorldStateSnapshot(players)),
    ensures
        ({
            let b = server_msg_bytes(ServerNews::WorldStateSnapshot(players));
            &&& b.len() == 12 + 16 * players.len()
            &&& number_at(b, 0, 4) == 1
            &&& number_at(b, 4, 8) == players.len()
            &&& forall|i: int|
                0 <= i < players.len() ==> {
                    &&& number_at(b, 12 + 16 * i, 8) == (#[trigger] players[i]).0.0
                    &&& number_at(b, 12 + 16 * i + 8, 4) == players[i].1.x.bits
                    &&& number_at(b, 12 + 16 * i + 12, 4) == players[i].1.y.bits
                }
        }),
{
    let b = server_msg_bytes(ServerNews::WorldStateSnapshot(players));
    lemma_reads_itself(ServerNews::WorldStateSnapshot(players));
    lemma_snapshot_len(players);
    lemma_snapshot_numbers(b, players);
}

proof fn lemma_snapshot_len(players: Seq<(PlayerId, Position)>)
    ensures
        server_msg_bytes(ServerNews::WorldStateSnapshot(players)).len() == 12 + 16 * players.len(),
{
    lemma_rows_len(players.map_values(|p: (PlayerId, Position)| player_row(p)));
}

proof fn lemma_rows_len(rows: Seq<(u64, u32, u32)>)
    ensures
        rows_bytes(rows).len() == 16 * rows.len(),
    decreases rows.len(),
{
    if rows.len() > 0 {
        lemma_rows_len(rows.drop_last());
    }
}

#[verifier::spinoff_prover]
proof fn lemma_joined_numbers(b: Seq<u8>, player_id: PlayerId, position: Position)
    requires
        parse_server_msg(b) == Some(ServerNews::PlayerJoined(player_id, position)),
    ensures
        number_at(b, 0, 4) == 2,
        number_at(b, 4, 8) == player_id.0,
        number_at(b, 12, 4) == position.x.bits,
        number_at(b, 16, 4) == position.y.bits,
{
    lemma_number4(b, 0);
    lemma_number8(b, 4);
    lemma_number4(b, 12);
    lemma_number4(b, 16);
}

/// Word that a player has joined is the number 2, the player's number in eight bytes, and
/// the bits of their coordinates in four bytes each.
pub proof fn a_join_as_bytes(player_id: PlayerId, position: Position)
    ensures
        ({
            let b = server_msg_bytes(ServerNews::PlayerJoined(player_id, position));
            &&& b.len() == 20
            &&& number_at(b, 0, 4) == 2
            &&& number_at(b, 4, 8) == player_id.0
            &&& number_at(b, 12, 4) == position.x.bits
            &&& number_at(b, 16, 4) == position.y.bits
        }),
{
    let b = server_msg_bytes(ServerNews::PlayerJoined(player_id, position));
    lemma_reads_itself(ServerNews::PlayerJoined(player_id, position));
    lemma_joined_numbers(b, player_id, position);
}

/// Word that a player has left is the number 3 and the player's number in eight bytes; a
/// pong is the number 4.
pub proof fn a_departure_and_a_pong_as_bytes(player_id: PlayerId)
    ensures
        ({
            let b = server_msg_bytes(ServerNews::PlayerLeft(player_id));
            &&& b.len() == 12
            &&& number_at(b, 0, 4) == 3
            &&& number_at(b, 4, 8) == player_id.0
        }),
        server_msg_bytes(ServerNews::Pong).len() == 4,
        number_at(server_msg_bytes(ServerNews::Pong), 0, 4) == 4,
{
    let left = server_msg_bytes(ServerNews::PlayerLeft(player_id));
    server_msg_read_back(ServerNews::PlayerLeft(player_id), Seq::empty());
    assert(left + Seq::<u8>::empty() =~= left);
    lemma_number4(left, 0);
    lemma_number8(left, 4);
    let pong = server_msg_bytes(ServerNews::Pong);
    server_msg_read_back(ServerNews::Pong, Seq::empty());
    assert(pong + Seq::<u8>::empty() =~= pong);
    lemma_number4(pong, 0);
}

// ---------------------------------------------------------------------------
// What is read
// ---------------------------------------------------------------------------

proof fn lemma_quarters(b0: u8, b1: u8, b2: u8, b3: u8)
    ensures
        ({
            let x = (b0 + 256 * b1 + 65536 * b2 + 16777216 * b3) as u32;
            &&& x % 256 == b0
            &&& x / 256 % 256 == b1
            &&& x / 65536 % 256 == b2
            &&& x / 16777216 == b3
        }),
{
    let x = (b0 + 256 * b1 + 65536 * b2 + 16777216 * b3) as u32;
    assert(x / 256 == b1 + 256 * b2 + 65536 * b3);
    assert(x / 65536 == b2 + 256 * b3);
}

#[verifier::spinoff_prover]
proof fn lemma_le32_at(b: Seq<u8>, i: int)
    requires
        0 <= i,
        i + 4 <= b.len(),
    ensures
        le32(u32_at(b, i)) == b.subrange(i, i + 4),
{
    lemma_quarters(b[i], b[i + 1], b[i + 2], b[i + 3]);
    assert(le32(u32_at(b, i)) =~= b.subrange(i, i + 4));
}

proof fn lemma_halves(low: u32, high: u32)
    ensures
        ((low + 0x1_0000_0000 * high) as u64 % 0x1_0000_0000) as u32 == low,
        ((low + 0x1_0000_0000 * high) as u64 / 0x1_0000_0000) as u32 == high,
{
}

#[verifier::spinoff_prover]
proof fn lemma_le64_at(b: Seq<u8>, i: int)
    requires
        0 <= i,
        i + 8 <= b.len(),
    ensures
        le64(u64_at(b, i)) == b.subrange(i, i + 8),
{
    lemma_le32_at(b, i);
    lemma_le32_at(b, i + 4);
    lemma_halves(u32_at(b, i), u32_at(b, i + 4));
    lemma_glue(b, i, i + 4, i + 8);
}

#[verifier::spinoff_prover]
proof fn lemma_row_bytes_at(b: Seq<u8>, i: int)
    requires
        0 <= i,
        i + 16 <= b.len(),
    ensures
        row_bytes(row_at(b, i)) == b.subrange(i, i + 16),
{
    lemma_le64_at(b, i);
    lemma_le32_at(b, i + 8);
    lemma_le32_at(b, i + 12);
    lemma_glue(b, i, i + 8, i + 12);
    lemma_glue(b, i, i + 12, i + 16);
}

#[verifier::spinoff_prover]
proof fn lemma_rows_bytes_at(b: Seq<u8>, rows: Seq<(u64, u32, u32)>)
    requires
        b.len() >= 12 + 16 * rows.len(),
        forall|i: int| 0 <= i < rows.len() ==> #[trigger] rows[i] == row_at(b, 12 + 16 * i),
    ensures
        rows_bytes(rows) == b.subrange(12, (12 + 16 * rows.len()) as int),
    decreases rows.len(),
{
    let n = rows.len() as int;
    if n > 0 {
        let front = rows.drop_last();
        assert forall|i: int| 0 <= i < front.len() implies #[trigger] front[i] == row_at(
            b,
            12 + 16 * i,
        ) by {
            assert(front[i] == rows[i]);
        }
        lemma_rows_bytes_at(b, front);
        lemma_row_bytes_at(b, 12 + 16 * (n - 1));
        assert(rows.last() == rows[n - 1]);
        lemma_glue(b, 12, 12 + 16 * (n - 1), 12 + 16 * n);
    } else {
        assert(b.subrange(12, 12) =~= Seq::<u8>::empty());
    }
}

/// The server reads a message exactly where its bytes stand first, whatever follows them.
pub proof fn the_server_reads_what_is_written(b: Seq<u8>, msg: ClientToServerMsg)
    ensures
        parse_client_msg(b) == Some(msg) <==> client_msg_bytes(msg).is_prefix_of(b),
{
    let w = client_msg_bytes(msg);
    if w.is_prefix_of(b) {
        client_msg_read_back(msg, b.skip(w.len() as int));
        assert(w + b.skip(w.len() as int) =~= b);
    }
    if parse_client_msg(b) == Some(msg) {
        lemma_le32_at(b, 0);
        match msg {
            ClientToServerMsg::ClickPosition { x, y } => {
                lemma_le32_at(b, 4);
                lemma_le32_at(b, 8);
                assert(w =~= b.subrange(0, 12));
            },
            ClientToServerMsg::Ping => {
                assert(w =~= b.subrange(0, 4));
            },
        }
    }
}

#[verifier::spinoff_prover]
proof fn lemma_welcome_prefix(b: Seq<u8>, player_id: PlayerId, config: GameConfig)
    requires
        parse_server_msg(b) == Some(ServerNews::Welcome { player_id, config }),
    ensures
        server_msg_bytes(ServerNews::Welcome { player_id, config }).is_prefix_of(b),
{
    lemma_le32_at(b, 0);
    lemma_row_bytes_at(b, 4);
    lemma_glue(b, 0, 4, 20);
    assert(row_at(b, 4) == (player_id.0, config.map_width, config.map_height));
}

#[verifier::spinoff_prover]
proof fn lemma_joined_prefix(b: Seq<u8>, player_id: PlayerId, position: Position)
    requires
        parse_server_msg(b) == Some(ServerNews::PlayerJoined(player_id, position)),
    ensures
        server_msg_bytes(ServerNews::PlayerJoined(player_id, position)).is_prefix_of(b),
{
    lemma_le32_at(b, 0);
    lemma_row_bytes_at(b, 4);
    lemma_glue(b, 0, 4, 20);
    assert(player_row((player_id, position)) == row_at(b, 4));
}

#[verifier::spinoff_prover]
proof fn lemma_left_prefix(b: Seq<u8>, player_id: PlayerId)
    requires
        parse_server_msg(b) == Some(ServerNews::PlayerLeft(player_id)),
    ensures
        server_msg_bytes(ServerNews::PlayerLeft(player_id)).is_prefix_of(b),
{
    lemma_le32_at(b, 0);
    lemma_le64_at(b, 4);
    lemma_glue(b, 0, 4, 12);
}

#[verifier::spinoff_prover]
proof fn lemma_pong_prefix(b: Seq<u8>)
    requires
        parse_server_msg(b) == Some(ServerNews::Pong),
    ensures
        server_msg_bytes(ServerNews::Pong).is_prefix_of(b),
{
    lemma_le32_at(b, 0);
}

proof fn lemma_glue(b: Seq<u8>, i: int, j: int, k: int)
    requires
        0 <= i <= j <= k <= b.len(),
    ensures
        b.subrange(i, j) + b.subrange(j, k) == b.subrange(i, k),
{
    assert(b.subrange(i, j) + b.subrange(j, k) =~= b.subrange(i, k));
}

#[verifier::spinoff_prover]
proof fn lemma_prefix_is_read(b: Seq<u8>, news: ServerNews)
    requires
        sendable(news),
        server_msg_bytes(news).is_prefix_of(b),
    ensures
        parse_server_msg(b) == Some(news),
{
    let w = server_msg_bytes(news);
    let rest = b.skip(w.len() as int);
    lemma_split(b, w);
    server_msg_read_back(news, rest);
}

proof fn lemma_split(b: Seq<u8>, w: Seq<u8>)
    requires
        w.is_prefix_of(b),
    ensures
        w + b.skip(w.len() as int) == b,
{
    assert(w + b.skip(w.len() as int) =~= b);
}

/// A client reads a message only where its bytes stand first, and reads it there whatever
/// follows them.
pub proof fn a_client_reads_what_is_written(b: Seq<u8>, news: ServerNews)
    ensures
        parse_server_msg(b) == Some(news) ==> server_msg_bytes(news).is_prefix_of(b),
        sendable(news) && server_msg_bytes(news).is_prefix_of(b) ==> parse_server_msg(b) == Some(
            news,
        ),
{
    if sendable(news) && server_msg_bytes(news).is_prefix_of(b) {
        lemma_prefix_is_read(b, news);
    } else if parse_server_msg(b) == Some(news) {
        match news {
            ServerNews::Welcome { player_id, config } => {
                lemma_welcome_prefix(b, player_id, config);
            },
            ServerNews::WorldStateSnapshot(players) => {
                lemma_snapshot_prefix(b, players);
            },
            ServerNews::PlayerJoined(player_id, position) => {
                lemma_joined_prefix(b, player_id, position);
            },
            ServerNews::PlayerLeft(player_id) => {
                lemma_left_prefix(b, player_id);
            },
            ServerNews::Pong => {
                lemma_pong_prefix(b);
            },
        }
    }
}

#[verifier::spinoff_prover]
proof fn lemma_snapshot_prefix(b: Seq<u8>, players: Seq<(PlayerId, Position)>)
    requires
        parse_server_msg(b) == Some(ServerNews::WorldStateSnapshot(players)),
    ensures
        server_msg_bytes(ServerNews::WorldStateSnapshot(players)).is_prefix_of(b),
{
    let rows = rows_at(b);
    assert(players == rows.map_values(|r: (u64, u32, u32)| row_player(r)));
    assert(players.map_values(|p: (PlayerId, Position)| player_row(p)) =~= rows);
    assert(holds_rows(b));
    lemma_le32_at(b, 0);
    lemma_le64_at(b, 4);
    lemma_rows_bytes_at(b, rows);
    lemma_glue(b, 0, 4, 12);
    lemma_glue(b, 0, 12, (12 + 16 * rows.len()) as int);
}

} // verus!
