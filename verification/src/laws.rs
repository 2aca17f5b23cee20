//! What holds of the game as a whole.
pub mod bytes;
pub mod lists;
pub mod numbers;
pub mod rounds;
pub mod screens;
pub mod sessions;
pub mod steps;
use crate::client::{
    is_first_entry, listed, listed_position, moved, one_sprite_each, recolored, shown, without,
    BatchState, ClientWorld, PlayerSprite, SPRITE_SIZE,
};
use crate::clients::Broadcast;
use crate::login::{player_of_row, player_of_saved_row, DbPlayer};
use crate::session::{Frame, Session, SessionAction, SessionEvent};
use crate::shared::{
    ClientToServerMsg, Coord, PlayerId, Position, ServerNews, TargetDestination, MAGNITUDE_BITS,
};
use crate::wire::{
    client_msg_bytes, client_msg_read_back, parse_server_msg, sendable, server_msg_bytes,
    server_msg_read_back,
};
use crate::world::{
    after_message, after_messages, announces, first_of, game_config, is_first, leaves, newcomer,
    present, roster, saved, saves, sent_to, staying, stepped, way, ClientMessage,
    PlayerDisconnectEvent, PlayerEntity,
};
use vstd::prelude::*;

verus! {

// ---------------------------------------------------------------------------
// Clicks
// ---------------------------------------------------------------------------

/// A message leaves everybody where they are, and leaves the destinations of all
/// players but its sender as they were.
pub proof fn messages_touch_only_their_sender(players: Seq<PlayerEntity>, message: ClientMessage)
    ensures
        after_message(players, message).len() == players.len(),
        roster(after_message(players, message)) == roster(players),
        forall|i: int|
            0 <= i < players.len() && players[i].player_id != message.player_id
                ==> #[trigger] after_message(players, message)[i] == players[i],
{
    assert(roster(after_message(players, message)) =~= roster(players));
}

/// No number of messages moves or removes anybody, or lets anybody in.
pub proof fn messages_keep_the_roster(players: Seq<PlayerEntity>, messages: Seq<ClientMessage>)
    ensures
        roster(after_messages(players, messages)) == roster(players),
    decreases messages.len(),
{
    if messages.len() > 0 {
        messages_keep_the_roster(players, messages.drop_last());
        messages_touch_only_their_sender(
            after_messages(players, messages.drop_last()),
            messages.last(),
        );
    }
}

proof fn lemma_first_exists(players: Seq<PlayerEntity>, player_id: PlayerId, i: int)
    requires
        0 <= i < players.len(),
        players[i].player_id == player_id,
    ensures
        exists|k: int| is_first(players, player_id, k),
    decreases i,
{
    if !is_first(players, player_id, i) {
        let j = choose|j: int| 0 <= j < i && (#[trigger] players[j]).player_id == player_id;
        lemma_first_exists(players, player_id, j);
    }
}

proof fn lemma_first_of(players: Seq<PlayerEntity>, player_id: PlayerId)
    requires
        present(players, player_id),
    ensures
        is_first(players, player_id, first_of(players, player_id)),
{
    let i = choose|i: int|
        0 <= i < players.len() && (#[trigger] players[i]).player_id == player_id;
    lemma_first_exists(players, player_id, i);
}

/// A click sends its player to where it pointed.
pub proof fn a_click_sets_the_destination(
    players: Seq<PlayerEntity>,
    player_id: PlayerId,
    x: Coord,
    y: Coord,
)
    requires
        present(players, player_id),
    ensures
        ({
            let message = ClientMessage {
                player_id,
                message: ClientToServerMsg::ClickPosition { x, y },
            };
            let k = first_of(players, player_id);
            &&& 0 <= k < players.len()
            &&& players[k].player_id == player_id
            &&& after_message(players, message)[k] == PlayerEntity {
                target: TargetDestination(Position { x, y }),
                ..players[k]
            }
        }),
{
    lemma_first_of(players, player_id);
}

/// Of two clicks of a player the second one counts.
pub proof fn the_last_click_counts(
    players: Seq<PlayerEntity>,
    player_id: PlayerId,
    first: TargetDestination,
    second: TargetDestination,
)
    ensures
        sent_to(sent_to(players, player_id, first), player_id, second) == sent_to(
            players,
            player_id,
            second,
        ),
{
    let once = sent_to(players, player_id, first);
    assert forall|i: int| is_first(once, player_id, i) <==> is_first(players, player_id, i) by {
        lemma_same_ids(players, once, player_id, i);
    }
    assert(sent_to(once, player_id, second) =~= sent_to(players, player_id, second));
}

proof fn lemma_same_ids(
    a: Seq<PlayerEntity>,
    b: Seq<PlayerEntity>,
    player_id: PlayerId,
    i: int,
)
    requires
        a.len() == b.len(),
        forall|j: int|
            0 <= j < a.len() ==> (#[trigger] a[j]).player_id == (#[trigger] b[j]).player_id,
    ensures
        is_first(a, player_id, i) <==> is_first(b, player_id, i),
{
    if is_first(a, player_id, i) {
        assert forall|j: int| 0 <= j < i implies (#[trigger] b[j]).player_id != player_id by {
            assert(a[j].player_id == b[j].player_id);
        }
    }
    if is_first(b, player_id, i) {
        assert forall|j: int| 0 <= j < i implies (#[trigger] a[j]).player_id != player_id by {
            assert(a[j].player_id == b[j].player_id);
        }
    }
}

/// The clicks of two players do not get in each other's way.
pub proof fn clicks_of_two_players_commute(
    players: Seq<PlayerEntity>,
    a: PlayerId,
    to_a: TargetDestination,
    b: PlayerId,
    to_b: TargetDestination,
)
    requires
        a != b,
    ensures
        sent_to(sent_to(players, a, to_a), b, to_b) == sent_to(sent_to(players, b, to_b), a, to_a),
{
    let a_first = sent_to(players, a, to_a);
    let b_first = sent_to(players, b, to_b);
    assert forall|i: int| is_first(a_first, b, i) <==> is_first(players, b, i) by {
        lemma_same_ids(players, a_first, b, i);
    }
    assert forall|i: int| is_first(b_first, a, i) <==> is_first(players, a, i) by {
        lemma_same_ids(players, b_first, a, i);
    }
    assert(sent_to(a_first, b, to_b) =~= sent_to(b_first, a, to_a));
}

/// Keep-alive messages change nothing.
pub proof fn pings_change_nothing(players: Seq<PlayerEntity>, messages: Seq<ClientMessage>)
    requires
        forall|i: int| 0 <= i < messages.len() ==> (#[trigger] messages[i]).message is Ping,
    ensures
        after_messages(players, messages) == players,
    decreases messages.len(),
{
    if messages.len() > 0 {
        let front = messages.drop_last();
        assert forall|i: int| 0 <= i < front.len() implies (#[trigger] front[i]).message is Ping by {
            assert(front[i] == messages[i]);
        }
        pings_change_nothing(players, front);
        assert(messages[messages.len() - 1].message is Ping);
    }
}

/// A click on a client's screen, sent over its connection, becomes the destination of
/// that client's player.
pub proof fn a_clients_click_moves_its_player(
    session: Session,
    player_id: PlayerId,
    x: Coord,
    y: Coord,
    bytes: Vec<u8>,
    players: Seq<PlayerEntity>,
)
    requires
        !session.closed,
        session.player_id == Some(player_id),
        bytes@ == client_msg_bytes(ClientToServerMsg::ClickPosition { x, y }),
        present(players, player_id),
    ensures
        session.response(SessionEvent::Received(Frame::Binary(bytes))) matches
            SessionAction::Forward(message) && after_message(players, message) == sent_to(
            players,
            player_id,
            TargetDestination(Position { x, y }),
        ),
{
    let message = ClientToServerMsg::ClickPosition { x, y };
    client_msg_read_back(message, Seq::empty());
    assert(bytes@ + Seq::<u8>::empty() =~= bytes@);
}

// ---------------------------------------------------------------------------
// Coming and going
// ---------------------------------------------------------------------------

/// Every player in the world has one entity.
pub open spec fn one_entity_each(players: Seq<PlayerEntity>) -> bool {
    forall|i: int, j: int|
        0 <= i < j < players.len() ==> (#[trigger] players[i]).player_id != (
        #[trigger] players[j]).player_id
}

/// Whether an event names the player.
pub open spec fn named(events: Seq<PlayerDisconnectEvent>, player_id: PlayerId) -> bool {
    exists|k: int| 0 <= k < events.len() && (#[trigger] events[k]).player_id == player_id
}

/// A player who was not in the world enters with one entity, at rest where they were
/// last seen.
pub proof fn arriving_keeps_one_entity_each(
    players: Seq<PlayerEntity>,
    player_id: PlayerId,
    start_pos: Position,
)
    requires
        one_entity_each(players),
        !present(players, player_id),
    ensures
        one_entity_each(players.push(newcomer(player_id, start_pos))),
        present(players.push(newcomer(player_id, start_pos)), player_id),
        newcomer(player_id, start_pos).position == start_pos,
        newcomer(player_id, start_pos).target.0 == start_pos,
{
    let after = players.push(newcomer(player_id, start_pos));
    assert forall|i: int, j: int| 0 <= i < j < after.len() implies (#[trigger] after[i]).player_id
        != (#[trigger] after[j]).player_id by {
        assert(after[i] == players[i]);
        if j < players.len() {
            assert(after[j] == players[j]);
        }
    }
    assert(after[players.len() as int].player_id == player_id);
}

/// Messages keep one entity for every player.
pub proof fn messages_keep_one_entity_each(
    players: Seq<PlayerEntity>,
    messages: Seq<ClientMessage>,
)
    requires
        one_entity_each(players),
    ensures
        one_entity_each(after_messages(players, messages)),
{
    messages_keep_the_roster(players, messages);
    let after = after_messages(players, messages);
    assert(roster(after).len() == roster(players).len());
    assert forall|i: int, j: int| 0 <= i < j < after.len() implies (#[trigger] after[i]).player_id
        != (#[trigger] after[j]).player_id by {
        assert(roster(after)[i].0 == roster(players)[i].0);
        assert(roster(after)[j].0 == roster(players)[j].0);
        assert(players[i].player_id != players[j].player_id);
    }
}

proof fn lemma_staying(players: Seq<PlayerEntity>, events: Seq<PlayerDisconnectEvent>, n: nat)
    requires
        n <= players.len(),
    ensures
        forall|k: int|
            0 <= k < staying(players, events, n).len() ==> exists|j: int|
                0 <= j < n && !leaves(players, events, j) && #[trigger] staying(
                    players,
                    events,
                    n,
                )[k] == #[trigger] players[j],
        forall|j: int|
            0 <= j < n && !leaves(players, events, j) ==> staying(players, events, n).contains(
                #[trigger] players[j],
            ),
        one_entity_each(players) ==> one_entity_each(staying(players, events, n)),
    decreases n,
{
    if n > 0 {
        let m = (n - 1) as nat;
        lemma_staying(players, events, m);
        let before = staying(players, events, m);
        let after = staying(players, events, n);
        assert forall|j: int| 0 <= j < n && !leaves(players, events, j) implies after.contains(
            #[trigger] players[j],
        ) by {
            if j < m {
                assert(before.contains(players[j]));
                let k = choose|k: int| 0 <= k < before.len() && before[k] == players[j];
                assert(after[k] == players[j]);
            } else {
                assert(after[before.len() as int] == players[j]);
            }
        }
        assert forall|k: int| 0 <= k < after.len() implies exists|j: int|
            0 <= j < n && !leaves(players, events, j) && #[trigger] after[k]
                == #[trigger] players[j] by {
            if k < before.len() {
                assert(after[k] == before[k]);
            } else {
                assert(after[k] == players[m as int]);
            }
        }
        if one_entity_each(players) {
            assert forall|i: int, j: int| 0 <= i < j < after.len() implies (
            #[trigger] after[i]).player_id != (#[trigger] after[j]).player_id by {
                assert(after[i] == before[i]);
                if j < before.len() {
                    assert(after[j] == before[j]);
                } else {
                    let p = choose|p: int|
                        0 <= p < m && !leaves(players, events, p) && before[i] == #[trigger] players[p];
                    assert(after[j] == players[m as int]);
                }
            }
        }
    }
}

/// Who is named as gone is no longer in the world, and everybody else still is, as
/// they were.
pub proof fn the_departed_are_gone(
    players: Seq<PlayerEntity>,
    events: Seq<PlayerDisconnectEvent>,
)
    requires
        one_entity_each(players),
    ensures
        one_entity_each(staying(players, events, players.len())),
        forall|p: PlayerId| #[trigger]
            present(staying(players, events, players.len()), p) <==> present(players, p) && !named(
                events,
                p,
            ),
        forall|i: int|
            0 <= i < players.len() && !named(events, (#[trigger] players[i]).player_id)
                ==> staying(players, events, players.len()).contains(players[i]),
{
    let n = players.len();
    let after = staying(players, events, n);
    lemma_staying(players, events, n);
    assert forall|i: int| 0 <= i < n implies (leaves(players, events, i) <==> named(
        events,
        (#[trigger] players[i]).player_id,
    )) by {
        let p = players[i].player_id;
        if leaves(players, events, i) {
            let k = choose|k: int|
                0 <= k < events.len() && is_first(players, (#[trigger] events[k]).player_id, i);
            assert(events[k].player_id == p);
        }
        if named(events, p) {
            let k = choose|k: int| 0 <= k < events.len() && (#[trigger] events[k]).player_id == p;
            assert(is_first(players, events[k].player_id, i));
        }
    }
    assert forall|p: PlayerId| #[trigger] present(after, p) <==> present(players, p) && !named(
        events,
        p,
    ) by {
        if present(after, p) {
            let k = choose|k: int| 0 <= k < after.len() && (#[trigger] after[k]).player_id == p;
            let j = choose|j: int|
                0 <= j < n && !leaves(players, events, j) && after[k] == #[trigger] players[j];
            assert(players[j].player_id == p);
        }
        if present(players, p) && !named(events, p) {
            let i = choose|i: int| 0 <= i < n && (#[trigger] players[i]).player_id == p;
            assert(after.contains(players[i]));
            let k = choose|k: int| 0 <= k < after.len() && after[k] == players[i];
            assert(after[k].player_id == p);
        }
    }
}

/// A round of messages and departures keeps one entity for every player.
pub proof fn rounds_keep_one_entity_each(
    players: Seq<PlayerEntity>,
    messages: Seq<ClientMessage>,
    events: Seq<PlayerDisconnectEvent>,
)
    requires
        one_entity_each(players),
    ensures
        ({
            let heard = after_messages(players, messages);
            one_entity_each(staying(heard, events, heard.len()))
        }),
{
    messages_keep_one_entity_each(players, messages);
    the_departed_are_gone(after_messages(players, messages), events);
}

/// Walking keeps one entity for every player.
pub proof fn steps_keep_one_entity_each<
    D: Fn(Coord, Coord) -> Coord,
    A: Fn(Coord, Coord) -> Coord,
>(difference: D, advance: A, before: Seq<PlayerEntity>, after: Seq<PlayerEntity>)
    requires
        one_entity_each(before),
        after.len() == before.len(),
        forall|i: int|
            0 <= i < after.len() ==> stepped(difference, advance, before[i], #[trigger] after[i]),
    ensures
        one_entity_each(after),
{
    assert forall|i: int, j: int| 0 <= i < j < after.len() implies (#[trigger] after[i]).player_id
        != (#[trigger] after[j]).player_id by {
        assert(stepped(difference, advance, before[i], after[i]));
        assert(stepped(difference, advance, before[j], after[j]));
    }
}

/// A step changes positions alone: the same players are in the world, in the same order,
/// with the same destinations.
pub proof fn steps_change_positions_alone<
    D: Fn(Coord, Coord) -> Coord,
    A: Fn(Coord, Coord) -> Coord,
>(difference: D, advance: A, before: Seq<PlayerEntity>, after: Seq<PlayerEntity>)
    requires
        after.len() == before.len(),
        forall|i: int|
            0 <= i < after.len() ==> stepped(
                difference,
                advance,
                before[i],
                #[trigger] after[i],
            ),
    ensures
        after.map_values(|p: PlayerEntity| (p.player_id, p.target)) == before.map_values(
            |p: PlayerEntity| (p.player_id, p.target),
        ),
{
    assert forall|i: int| 0 <= i < after.len() implies (#[trigger] after[i]).player_id
        == before[i].player_id && after[i].target == before[i].target by {
        assert(stepped(difference, advance, before[i], after[i]));
    }
    assert(after.map_values(|p: PlayerEntity| (p.player_id, p.target)) =~= before.map_values(
        |p: PlayerEntity| (p.player_id, p.target),
    ));
}

/// A player who has reached their destination, to a hundredth, stays where they are.
pub proof fn whoever_has_arrived_stays<
    D: Fn(Coord, Coord) -> Coord,
    A: Fn(Coord, Coord) -> Coord,
>(difference: D, advance: A, before: PlayerEntity, after: PlayerEntity)
    requires
        stepped(difference, advance, before, after),
        forall|d: Coord|
            way(difference, before.target.0.x, before.position.x, d) ==> !d.far(),
        forall|d: Coord|
            way(difference, before.target.0.y, before.position.y, d) ==> !d.far(),
    ensures
        after == before,
{
}

/// Whether the function gives one result for each pair of arguments.
pub open spec fn single_valued<F: Fn(Coord, Coord) -> Coord>(f: F) -> bool {
    forall|a: Coord, b: Coord, r: Coord, s: Coord| #[trigger]
        call_ensures(f, (a, b), r) && #[trigger] call_ensures(f, (a, b), s) ==> r == s
}

/// A step depends on where the player is and where they go, and on nothing else: two
/// players at one place with one destination come to one place, whoever they are and
/// whoever else is in the world.
pub proof fn steps_depend_on_the_way_alone<
    D: Fn(Coord, Coord) -> Coord,
    A: Fn(Coord, Coord) -> Coord,
>(
    difference: D,
    advance: A,
    first: PlayerEntity,
    first_after: PlayerEntity,
    second: PlayerEntity,
    second_after: PlayerEntity,
)
    requires
        single_valued(difference),
        single_valued(advance),
        first.position == second.position,
        first.target == second.target,
        stepped(difference, advance, first, first_after),
        stepped(difference, advance, second, second_after),
    ensures
        first_after.position == second_after.position,
        first_after.target == second_after.target,
{
}

/// Whether each of the entities is what one step makes of the one before it.
pub open spec fn walked<D: Fn(Coord, Coord) -> Coord, A: Fn(Coord, Coord) -> Coord>(
    difference: D,
    advance: A,
    entities: Seq<PlayerEntity>,
) -> bool
    decreases entities.len(),
{
    entities.len() > 1 ==> {
        &&& walked(difference, advance, entities.drop_last())
        &&& stepped(difference, advance, entities.drop_last().last(), entities.last())
    }
}

/// A player who enters the world and is sent nowhere stays where they started, for any
/// number of steps and whatever the arithmetic.
pub proof fn newcomers_stay_where_they_start<
    D: Fn(Coord, Coord) -> Coord,
    A: Fn(Coord, Coord) -> Coord,
>(
    difference: D,
    advance: A,
    player_id: PlayerId,
    start_pos: Position,
    entities: Seq<PlayerEntity>,
)
    requires
        start_pos.x.finite(),
        start_pos.y.finite(),
        entities.len() > 0,
        entities[0] == newcomer(player_id, start_pos),
        walked(difference, advance, entities),
    ensures
        entities.last() == newcomer(player_id, start_pos),
    decreases entities.len(),
{
    if entities.len() > 1 {
        newcomers_stay_where_they_start(
            difference,
            advance,
            player_id,
            start_pos,
            entities.drop_last(),
        );
        assert(!(Coord { bits: 0 }).far()) by {
            assert(0u32 & MAGNITUDE_BITS == 0) by (bit_vector);
        }
    }
}

/// Nobody leaves without their position being handed over for saving.
pub proof fn whoever_leaves_is_saved(
    players: Seq<PlayerEntity>,
    events: Seq<PlayerDisconnectEvent>,
    i: int,
)
    requires
        leaves(players, events, i),
    ensures
        saves(players, events).contains(saved(players[i])),
    decreases events.len(),
{
    if events.len() > 0 {
        let front = events.drop_last();
        let last = events.last().player_id;
        let k = choose|k: int|
            0 <= k < events.len() && is_first(players, (#[trigger] events[k]).player_id, i);
        let all = saves(players, events);
        if k < front.len() {
            assert(front[k] == events[k]);
            whoever_leaves_is_saved(players, front, i);
            let before = saves(players, front);
            let s = choose|s: int| 0 <= s < before.len() && before[s] == saved(players[i]);
            assert(all[s] == saved(players[i]));
        } else {
            assert(players[i].player_id == last);
            lemma_first_of(players, last);
            assert(first_of(players, last) == i);
            assert(all[all.len() - 1] == saved(players[i]));
        }
    }
}

/// Only the positions of those who leave are saved.
pub proof fn whoever_is_saved_leaves(
    players: Seq<PlayerEntity>,
    events: Seq<PlayerDisconnectEvent>,
    s: int,
)
    requires
        0 <= s < saves(players, events).len(),
    ensures
        exists|i: int|
            leaves(players, events, i) && saves(players, events)[s] == saved(
                #[trigger] players[i],
            ),
    decreases events.len(),
{
    let front = events.drop_last();
    let last = events.last().player_id;
    let before = saves(players, front);
    if s < before.len() {
        whoever_is_saved_leaves(players, front, s);
        let i = choose|i: int|
            leaves(players, front, i) && before[s] == saved(#[trigger] players[i]);
        let k = choose|k: int|
            0 <= k < front.len() && is_first(players, (#[trigger] front[k]).player_id, i);
        assert(events[k] == front[k]);
        assert(leaves(players, events, i));
        assert(saves(players, events)[s] == before[s]);
    } else {
        lemma_first_of(players, last);
        let i = first_of(players, last);
        assert(events[events.len() - 1].player_id == last);
        assert(leaves(players, events, i));
        assert(saves(players, events)[s] == saved(players[i]));
    }
}

/// A player who left comes back as the same player, where they were.
pub proof fn players_return_where_they_left(player: PlayerEntity, row: DbPlayer)
    requires
        row.id == saved(player).id,
        row.last_position_x == saved(player).x,
        row.last_position_y == saved(player).y,
    ensures
        player_of_row(row.id) == player.player_id,
        row.last_position() == player.position,
{
    player_of_saved_row(player.player_id);
}

/// When a player is taken out of the world, one of the messages about the departures
/// says so.
pub proof fn whoever_leaves_is_announced(
    players: Seq<PlayerEntity>,
    events: Seq<PlayerDisconnectEvent>,
    i: int,
    n: nat,
    departures: Seq<Broadcast>,
)
    requires
        leaves(players, events, i),
        departures.len() == saves(players, events).len(),
        forall|k: int|
            0 <= k < departures.len() ==> announces(
                n,
                saves(players, events)[k],
                #[trigger] departures[k],
            ),
    ensures
        exists|k: int|
            0 <= k < departures.len() && announces(
                n,
                saved(players[i]),
                #[trigger] departures[k],
            ),
{
    whoever_leaves_is_saved(players, events, i);
    let positions = saves(players, events);
    let k = choose|k: int| 0 <= k < positions.len() && positions[k] == saved(players[i]);
    assert(announces(n, saved(players[i]), departures[k]));
}

// ---------------------------------------------------------------------------
// The client's screen
// ---------------------------------------------------------------------------

/// At the end of every batch of messages the local player is blue and everybody else
/// is red.
pub proof fn colors_tell_the_local_player(batch: BatchState)
    ensures
        forall|i: int|
            0 <= i < batch.outcome().len() ==> ((#[trigger] batch.outcome()[i]).color is Blue
                <==> batch.local_player == Some(batch.outcome()[i].player_id)),
{
}

/// A welcome tells the client who it is, and is remembered until the next one.
pub proof fn a_welcome_is_remembered(batch: BatchState, news: ServerNews)
    ensures
        batch.after_news(news).local_player == (match news {
            ServerNews::Welcome { player_id, config } => Some(player_id),
            _ => batch.local_player,
        }),
        batch.after_news(news).config == (match news {
            ServerNews::Welcome { player_id, config } => Some(config),
            _ => batch.config,
        }),
{
}

/// Frames that hold no message change nothing.
pub proof fn noise_changes_nothing(batch: BatchState, frames: Seq<Vec<u8>>)
    requires
        forall|i: int|
            0 <= i < frames.len() ==> parse_server_msg((#[trigger] frames[i])@) is None,
    ensures
        batch.after_frames(frames) == batch,
    decreases frames.len(),
{
    if frames.len() > 0 {
        let front = frames.drop_last();
        assert forall|i: int| 0 <= i < front.len() implies parse_server_msg(
            (#[trigger] front[i])@,
        ) is None by {
            assert(front[i] == frames[i]);
        }
        noise_changes_nothing(batch, front);
        assert(parse_server_msg(frames[frames.len() - 1]@) is None);
    }
}

/// A player at a place has a sprite there.
pub open spec fn shown_at(sprites: Seq<PlayerSprite>, player: (PlayerId, Position)) -> bool {
    exists|i: int|
        0 <= i < sprites.len() && (#[trigger] sprites[i]).player_id == player.0
            && sprites[i].position == player.1
}

/// A list has every player once.
pub open spec fn listed_once(players: Seq<(PlayerId, Position)>) -> bool {
    forall|j: int, k: int|
        0 <= j < k < players.len() ==> (#[trigger] players[j]).0 != (#[trigger] players[k]).0
}

/// Half way through a batch, every player is shown once: by a sprite that stands, or by
/// one that is to appear.
pub open spec fn shown_once(batch: BatchState) -> bool {
    &&& batch.gone.len() == batch.sprites.len()
    &&& forall|i: int, j: int|
        i < j && batch.stands(i) && batch.stands(j) ==> (#[trigger] batch.sprites[i]).player_id
            != (#[trigger] batch.sprites[j]).player_id
    &&& forall|i: int|
        batch.stands(i) ==> !listed(batch.arriving, (#[trigger] batch.sprites[i]).player_id)
    &&& listed_once(batch.arriving)
}

/// Whether the sprite is one of the first `n`, and stands.
spec fn stands_among(batch: BatchState, n: nat, sprite: PlayerSprite) -> bool {
    exists|i: int| i < n && batch.stands(i) && #[trigger] batch.sprites[i] == sprite
}

proof fn lemma_remaining(batch: BatchState, n: nat)
    requires
        n <= batch.sprites.len(),
    ensures
        forall|k: int|
            0 <= k < batch.remaining(n).len() ==> stands_among(
                batch,
                n,
                #[trigger] batch.remaining(n)[k],
            ),
        shown_once(batch) ==> one_sprite_each(batch.remaining(n)),
    decreases n,
{
    if n > 0 {
        let m = (n - 1) as nat;
        lemma_remaining(batch, m);
        let before = batch.remaining(m);
        let after = batch.remaining(n);
        assert forall|k: int| 0 <= k < after.len() implies stands_among(
            batch,
            n,
            #[trigger] after[k],
        ) by {
            if k < before.len() {
                assert(after[k] == before[k]);
                assert(stands_among(batch, m, before[k]));
            } else {
                assert(batch.stands(n - 1));
            }
        }
        if shown_once(batch) {
            assert forall|j: int, k: int| 0 <= j < k < after.len() implies (
            #[trigger] after[j]).player_id != (#[trigger] after[k]).player_id by {
                assert(after[j] == before[j]);
                if k < before.len() {
                    assert(after[k] == before[k]);
                } else {
                    assert(stands_among(batch, m, before[j]));
                    assert(batch.stands(n - 1));
                }
            }
        }
    }
}

proof fn lemma_standing_remain(batch: BatchState, n: nat, i: int)
    requires
        i < n <= batch.sprites.len(),
        batch.stands(i),
    ensures
        batch.remaining(n).contains(batch.sprites[i]),
    decreases n,
{
    let before = batch.remaining((n - 1) as nat);
    let after = batch.remaining(n);
    if i < n - 1 {
        lemma_standing_remain(batch, (n - 1) as nat, i);
        let k = choose|k: int| 0 <= k < before.len() && before[k] == batch.sprites[i];
        assert(after[k] == batch.sprites[i]);
    } else {
        assert(after[before.len() as int] == batch.sprites[i]);
    }
}

proof fn lemma_standing_are_shown(batch: BatchState, i: int)
    requires
        batch.stands(i),
    ensures
        shown_at(batch.outcome(), (batch.sprites[i].player_id, batch.sprites[i].position)),
{
    let n = batch.sprites.len();
    let staying = batch.remaining(n);
    let out = batch.outcome();
    lemma_standing_remain(batch, n, i);
    let k = choose|k: int| 0 <= k < staying.len() && staying[k] == batch.sprites[i];
    assert(out[k].player_id == batch.sprites[i].player_id);
}

proof fn lemma_arriving_are_shown(batch: BatchState, a: int)
    requires
        0 <= a < batch.arriving.len(),
    ensures
        shown_at(batch.outcome(), batch.arriving[a]),
{
    let k = batch.remaining(batch.sprites.len()).len() + a;
    assert(batch.outcome()[k].player_id == batch.arriving[a].0);
}

/// Whether the player is new to the screen, and first listed among the first `n`.
spec fn new_among(
    batch: BatchState,
    players: Seq<(PlayerId, Position)>,
    n: nat,
    player: (PlayerId, Position),
) -> bool {
    !batch.shows(player.0) && exists|k: int|
        k < n && is_first_entry(players, player.0, k) && #[trigger] players[k] == player
}

proof fn lemma_arrivals_are_new(batch: BatchState, players: Seq<(PlayerId, Position)>, n: nat)
    requires
        n <= players.len(),
    ensures
        forall|a: int|
            0 <= a < batch.arrivals(players, n).len() ==> new_among(
                batch,
                players,
                n,
                #[trigger] batch.arrivals(players, n)[a],
            ),
        listed_once(batch.arrivals(players, n)),
    decreases n,
{
    if n > 0 {
        let m = (n - 1) as nat;
        lemma_arrivals_are_new(batch, players, m);
        let before = batch.arrivals(players, m);
        let after = batch.arrivals(players, n);
        let last = players[m as int];
        assert forall|a: int| 0 <= a < after.len() implies new_among(
            batch,
            players,
            n,
            #[trigger] after[a],
        ) by {
            if a < before.len() {
                assert(after[a] == before[a]);
                assert(new_among(batch, players, m, before[a]));
            } else {
                assert(after[a] == last);
            }
        }
        assert forall|a: int, b: int| 0 <= a < b < after.len() implies (#[trigger] after[a]).0 != (
        #[trigger] after[b]).0 by {
            assert(after[a] == before[a]);
            assert(new_among(batch, players, m, before[a]));
            if b < before.len() {
                assert(after[b] == before[b]);
            } else {
                assert(after[b] == last);
            }
        }
    }
}

proof fn lemma_arrivals(batch: BatchState, players: Seq<(PlayerId, Position)>, n: nat, k: int)
    requires
        0 <= k < n <= players.len(),
        batch.needs_sprite(players, k),
    ensures
        batch.arrivals(players, n).contains(players[k]),
    decreases n,
{
    let before = batch.arrivals(players, (n - 1) as nat);
    let after = batch.arrivals(players, n);
    if k < n - 1 {
        lemma_arrivals(batch, players, (n - 1) as nat, k);
        let a = choose|a: int| 0 <= a < before.len() && before[a] == players[k];
        assert(after[a] == players[k]);
    } else {
        assert(after[before.len() as int] == players[k]);
    }
}

proof fn lemma_placed_at(batch: BatchState, players: Seq<(PlayerId, Position)>, k: int)
    requires
        is_first_entry(players, players[k].0, k),
    ensures
        shown_at(batch.placing(players).outcome(), players[k]),
{
    let id = players[k].0;
    let end = batch.placing(players);
    let new = batch.arrivals(players, players.len());
    assert(listed(players, id));
    assert(listed_position(players, id) == players[k].1);
    if exists|i: int| batch.stands(i) && (#[trigger] batch.sprites[i]).player_id == id {
        let i = choose|i: int| batch.stands(i) && (#[trigger] batch.sprites[i]).player_id == id;
        assert(end.stands(i));
        assert(end.sprites[i].position == players[k].1);
        lemma_standing_are_shown(end, i);
    } else if listed(batch.arriving, id) {
        let a = choose|a: int|
            0 <= a < batch.arriving.len() && (#[trigger] batch.arriving[a]).0 == id;
        assert(end.arriving[a] == players[k]);
        lemma_arriving_are_shown(end, a);
    } else {
        lemma_arrivals(batch, players, players.len(), k);
        let a = choose|a: int| 0 <= a < new.len() && new[a] == players[k];
        assert(end.arriving[batch.arriving.len() + a] == players[k]);
        lemma_arriving_are_shown(end, batch.arriving.len() + a);
    }
}

/// A snapshot puts every player that it lists on the screen, where it says they are,
/// whatever came before it: somebody who had left is back.
pub proof fn a_snapshot_is_shown(batch: BatchState, players: Seq<(PlayerId, Position)>, k: int)
    requires
        listed_once(players),
        0 <= k < players.len(),
    ensures
        shown_at(
            batch.after_news(ServerNews::WorldStateSnapshot(players)).outcome(),
            players[k],
        ),
{
    assert(is_first_entry(players, players[k].0, k));
    lemma_placed_at(batch, players, k);
}

/// A player who joins is on the screen, where they start, whatever came before.
pub proof fn whoever_joins_is_shown(batch: BatchState, player_id: PlayerId, position: Position)
    ensures
        shown_at(
            batch.after_news(ServerNews::PlayerJoined(player_id, position)).outcome(),
            (player_id, position),
        ),
{
    let players = seq![(player_id, position)];
    assert(is_first_entry(players, players[0].0, 0));
    lemma_placed_at(batch, players, 0);
}

proof fn lemma_no_arrivals(batch: BatchState, players: Seq<(PlayerId, Position)>, n: nat)
    requires
        n <= players.len(),
        forall|k: int| 0 <= k < players.len() ==> batch.shows((#[trigger] players[k]).0),
    ensures
        batch.arrivals(players, n).len() == 0,
    decreases n,
{
    if n > 0 {
        lemma_no_arrivals(batch, players, (n - 1) as nat);
        assert(batch.shows(players[n - 1].0));
    }
}

proof fn lemma_same_remain(batch: BatchState, end: BatchState, n: nat)
    requires
        end.gone == batch.gone,
        n <= batch.sprites.len(),
        forall|i: int|
            0 <= i < batch.sprites.len() ==> (#[trigger] end.sprites[i]).player_id
                == batch.sprites[i].player_id,
    ensures
        end.remaining(n).len() == batch.remaining(n).len(),
        forall|k: int|
            0 <= k < batch.remaining(n).len() ==> (#[trigger] end.remaining(n)[k]).player_id
                == batch.remaining(n)[k].player_id,
    decreases n,
{
    if n > 0 {
        lemma_same_remain(batch, end, (n - 1) as nat);
        assert(end.sprites[n - 1].player_id == batch.sprites[n - 1].player_id);
    }
}

/// A snapshot of players that are all shown adds no sprites, and removes none: every
/// sprite keeps its place in the list and its player.
pub proof fn a_known_snapshot_adds_nobody(
    batch: BatchState,
    players: Seq<(PlayerId, Position)>,
)
    requires
        forall|k: int| 0 <= k < players.len() ==> batch.shows((#[trigger] players[k]).0),
    ensures
        ({
            let end = batch.after_news(ServerNews::WorldStateSnapshot(players));
            &&& end.gone == batch.gone
            &&& end.outcome().len() == batch.outcome().len()
            &&& forall|i: int|
                0 <= i < batch.outcome().len() ==> (#[trigger] end.outcome()[i]).player_id
                    == batch.outcome()[i].player_id
        }),
{
    let end = batch.after_news(ServerNews::WorldStateSnapshot(players));
    let n = batch.sprites.len();
    let m = batch.remaining(n).len();
    lemma_no_arrivals(batch, players, players.len());
    lemma_same_remain(batch, end, n);
    assert forall|i: int| 0 <= i < batch.outcome().len() implies (
    #[trigger] end.outcome()[i]).player_id == batch.outcome()[i].player_id by {
        if i < m {
            assert(end.remaining(n)[i].player_id == batch.remaining(n)[i].player_id);
        } else {
            assert(end.arriving[i - m].0 == batch.arriving[i - m].0);
        }
    }
}

proof fn lemma_first_entry(players: Seq<(PlayerId, Position)>, player_id: PlayerId, k: int)
    requires
        0 <= k < players.len(),
        players[k].0 == player_id,
    ensures
        exists|j: int| is_first_entry(players, player_id, j),
    decreases k,
{
    if !is_first_entry(players, player_id, k) {
        let j = choose|j: int| 0 <= j < k && (#[trigger] players[j]).0 == player_id;
        lemma_first_entry(players, player_id, j);
    }
}

proof fn lemma_placed_are_shown(batch: BatchState, players: Seq<(PlayerId, Position)>, k: int)
    requires
        0 <= k < players.len(),
    ensures
        batch.placing(players).shows(players[k].0),
{
    let id = players[k].0;
    let end = batch.placing(players);
    if exists|i: int| batch.stands(i) && (#[trigger] batch.sprites[i]).player_id == id {
        let i = choose|i: int| batch.stands(i) && (#[trigger] batch.sprites[i]).player_id == id;
        assert(end.stands(i) && end.sprites[i].player_id == id);
    } else if listed(batch.arriving, id) {
        let a = choose|a: int|
            0 <= a < batch.arriving.len() && (#[trigger] batch.arriving[a]).0 == id;
        assert(end.arriving[a].0 == id);
    } else {
        let new = batch.arrivals(players, players.len());
        lemma_first_entry(players, id, k);
        let j = choose|j: int| is_first_entry(players, id, j);
        lemma_arrivals(batch, players, players.len(), j);
        let a = choose|a: int| 0 <= a < new.len() && new[a] == players[j];
        assert(end.arriving[batch.arriving.len() + a].0 == id);
    }
}

/// Whether the player, if the list has them, is where the list first has them.
spec fn placed(players: Seq<(PlayerId, Position)>, player: (PlayerId, Position)) -> bool {
    listed(players, player.0) ==> player.1 == listed_position(players, player.0)
}

proof fn lemma_arriving_are_placed(batch: BatchState, players: Seq<(PlayerId, Position)>, a: int)
    requires
        0 <= a < batch.placing(players).arriving.len(),
    ensures
        placed(players, batch.placing(players).arriving[a]),
{
    let end = batch.placing(players);
    let m = batch.arriving.len();
    if a >= m {
        let new = batch.arrivals(players, players.len());
        let player = new[a - m];
        lemma_arrivals_are_new(batch, players, players.len());
        assert(new_among(batch, players, players.len(), player));
        let k = choose|k: int|
            k < players.len() && is_first_entry(players, player.0, k) && #[trigger] players[k]
                == player;
        let j = choose|j: int| is_first_entry(players, player.0, j);
        assert(j == k);
    }
}

/// The same snapshot once more changes nothing.
pub proof fn a_repeated_snapshot_changes_nothing(
    batch: BatchState,
    players: Seq<(PlayerId, Position)>,
)
    ensures
        ({
            let news = ServerNews::WorldStateSnapshot(players);
            batch.after_news(news).after_news(news) == batch.after_news(news)
        }),
{
    let once = batch.placing(players);
    let twice = once.placing(players);
    assert forall|k: int| 0 <= k < players.len() implies once.shows((#[trigger] players[k]).0) by {
        lemma_placed_are_shown(batch, players, k);
    }
    lemma_no_arrivals(once, players, players.len());
    assert forall|a: int| 0 <= a < once.arriving.len() implies #[trigger] twice.arriving[a]
        == once.arriving[a] by {
        lemma_arriving_are_placed(batch, players, a);
    }
    assert(twice.arriving =~= once.arriving);
    assert(twice.sprites =~= once.sprites);
}

proof fn lemma_all_remain(batch: BatchState, n: nat)
    requires
        n <= batch.sprites.len(),
        forall|i: int| 0 <= i < batch.sprites.len() ==> batch.stands(i),
    ensures
        batch.remaining(n) == batch.sprites.take(n as int),
    decreases n,
{
    if n > 0 {
        lemma_all_remain(batch, (n - 1) as nat);
        assert(batch.stands(n - 1));
    }
    assert(batch.remaining(n) =~= batch.sprites.take(n as int));
}

proof fn lemma_outcome_is_placed(batch: BatchState, players: Seq<(PlayerId, Position)>, i: int)
    requires
        0 <= i < batch.placing(players).outcome().len(),
    ensures
        ({
            let end = batch.placing(players);
            let sprite = end.outcome()[i];
            &&& placed(players, (sprite.player_id, sprite.position))
            &&& sprite == recolored(end.local_player, sprite)
        }),
{
    let end = batch.placing(players);
    let n = end.sprites.len();
    let staying = end.remaining(n);
    if i < staying.len() {
        lemma_remaining(end, n);
        assert(stands_among(end, n, staying[i]));
        let j = choose|j: int| j < n && end.stands(j) && #[trigger] end.sprites[j] == staying[i];
        assert(end.sprites[j] == moved(batch.sprites, players)[j]);
    } else {
        lemma_arriving_are_placed(batch, players, i - staying.len());
    }
}

/// A client that is sent the same snapshot once more, in the next batch, shows what it
/// showed before.
pub proof fn a_repeated_snapshot_is_no_news(
    batch: BatchState,
    players: Seq<(PlayerId, Position)>,
    world: ClientWorld,
)
    requires
        world.sprites@ == batch.after_news(ServerNews::WorldStateSnapshot(players)).outcome(),
        world.local_player == batch.local_player,
    ensures
        world.batch().after_news(ServerNews::WorldStateSnapshot(players)).outcome()
            == world.sprites@,
{
    let start = world.batch();
    let end = start.placing(players);
    let n = end.sprites.len();
    assert forall|k: int| 0 <= k < players.len() implies start.shows((#[trigger] players[k]).0) by {
        let id = players[k].0;
        lemma_first_entry(players, id, k);
        let j = choose|j: int| is_first_entry(players, id, j);
        lemma_placed_at(batch, players, j);
        let i = choose|i: int|
            0 <= i < world.sprites@.len() && (#[trigger] world.sprites@[i]).player_id == id;
        assert(start.stands(i) && start.sprites[i].player_id == id);
    }
    lemma_no_arrivals(start, players, players.len());
    assert forall|i: int| 0 <= i < n implies end.stands(i) by {}
    lemma_all_remain(end, n);
    assert forall|i: int| 0 <= i < n implies #[trigger] end.outcome()[i] == world.sprites@[i] by {
        lemma_outcome_is_placed(batch, players, i);
        assert(end.sprites[i] == world.sprites@[i]);
    }
    assert(end.outcome() =~= world.sprites@);
}

/// Every sprite has the size that sprites are given when they appear.
pub open spec fn one_size(sprites: Seq<PlayerSprite>) -> bool {
    forall|i: int| 0 <= i < sprites.len() ==> (#[trigger] sprites[i]).size == SPRITE_SIZE
}

proof fn lemma_frames_keep_one_size(batch: BatchState, frames: Seq<Vec<u8>>)
    requires
        one_size(batch.sprites),
    ensures
        one_size(batch.after_frames(frames).sprites),
    decreases frames.len(),
{
    if frames.len() > 0 {
        lemma_frames_keep_one_size(batch, frames.drop_last());
    }
}

/// Whatever frames a client receives, all its sprites keep the one size that they have.
pub proof fn batches_keep_one_size(world: ClientWorld, frames: Seq<Vec<u8>>)
    requires
        one_size(world.sprites@),
    ensures
        one_size(world.batch().after_frames(frames).outcome()),
{
    let end = world.batch().after_frames(frames);
    let n = end.sprites.len();
    let staying = end.remaining(n);
    let out = end.outcome();
    lemma_frames_keep_one_size(world.batch(), frames);
    lemma_remaining(end, n);
    assert forall|i: int| 0 <= i < out.len() implies (#[trigger] out[i]).size == SPRITE_SIZE by {
        if i < staying.len() {
            assert(stands_among(end, n, staying[i]));
        }
    }
}

proof fn lemma_without(players: Seq<(PlayerId, Position)>, player_id: PlayerId)
    ensures
        forall|id: PlayerId| #[trigger]
            listed(without(players, player_id), id) ==> listed(players, id) && id != player_id,
        listed_once(players) ==> listed_once(without(players, player_id)),
    decreases players.len(),
{
    if players.len() > 0 {
        let front = players.drop_last();
        lemma_without(front, player_id);
        let before = without(front, player_id);
        let after = without(players, player_id);
        assert forall|id: PlayerId| #[trigger] listed(front, id) implies listed(players, id) by {
            let k = choose|k: int| 0 <= k < front.len() && (#[trigger] front[k]).0 == id;
            assert(players[k].0 == id);
        }
        assert forall|id: PlayerId| #[trigger] listed(after, id) implies listed(players, id) && id
            != player_id by {
            let k = choose|k: int| 0 <= k < after.len() && (#[trigger] after[k]).0 == id;
            if k < before.len() {
                assert(before[k].0 == id);
                assert(listed(before, id));
            } else {
                assert(players[players.len() - 1].0 == id);
            }
        }
        if listed_once(players) {
            assert forall|j: int, k: int| 0 <= j < k < front.len() implies (#[trigger] front[j]).0
                != (#[trigger] front[k]).0 by {
                assert(players[j].0 != players[k].0);
            }
            assert forall|j: int, k: int| 0 <= j < k < after.len() implies (#[trigger] after[j]).0
                != (#[trigger] after[k]).0 by {
                assert(after[j] == before[j]);
                if k < before.len() {
                    assert(after[k] == before[k]);
                } else {
                    assert(listed(before, before[j].0));
                    let i = choose|i: int|
                        0 <= i < front.len() && (#[trigger] front[i]).0 == before[j].0;
                    assert(players[i].0 != players[players.len() - 1].0);
                }
            }
        }
    }
}

proof fn lemma_placing_shows_once(batch: BatchState, players: Seq<(PlayerId, Position)>)
    requires
        shown_once(batch),
    ensures
        shown_once(batch.placing(players)),
{
    let end = batch.placing(players);
    let m = batch.arriving.len();
    let new = batch.arrivals(players, players.len());
    lemma_arrivals_are_new(batch, players, players.len());
    assert forall|a: int| 0 <= a < m implies (#[trigger] end.arriving[a]).0
        == batch.arriving[a].0 by {}
    assert forall|a: int| m <= a < end.arriving.len() implies !batch.shows(
        (#[trigger] end.arriving[a]).0,
    ) by {
        assert(end.arriving[a] == new[a - m]);
        assert(new_among(batch, players, players.len(), new[a - m]));
    }
    assert forall|i: int| end.stands(i) implies !listed(
        end.arriving,
        (#[trigger] end.sprites[i]).player_id,
    ) by {
        let id = end.sprites[i].player_id;
        assert(batch.stands(i) && batch.sprites[i].player_id == id);
        if listed(end.arriving, id) {
            let a = choose|a: int|
                0 <= a < end.arriving.len() && (#[trigger] end.arriving[a]).0 == id;
            if a < m {
                assert(batch.arriving[a].0 == id);
            } else {
                assert(batch.shows(id));
            }
        }
    }
    assert forall|i: int, j: int| i < j && end.stands(i) && end.stands(j) implies (
    #[trigger] end.sprites[i]).player_id != (#[trigger] end.sprites[j]).player_id by {
        assert(batch.sprites[i].player_id != batch.sprites[j].player_id);
    }
    assert forall|a: int, b: int| 0 <= a < b < end.arriving.len() implies (
    #[trigger] end.arriving[a]).0 != (#[trigger] end.arriving[b]).0 by {
        if b < m {
            assert(batch.arriving[a].0 != batch.arriving[b].0);
        } else if a < m {
            assert(listed(batch.arriving, batch.arriving[a].0));
            assert(batch.shows(end.arriving[a].0));
        } else {
            assert(new[a - m].0 != new[b - m].0);
        }
    }
}

proof fn lemma_removing_shows_once(batch: BatchState, player_id: PlayerId)
    requires
        shown_once(batch),
    ensures
        shown_once(batch.removing(player_id)),
{
    let end = batch.removing(player_id);
    lemma_without(batch.arriving, player_id);
    assert forall|i: int| end.stands(i) implies batch.stands(i) by {}
    assert forall|i: int, j: int| i < j && end.stands(i) && end.stands(j) implies (
    #[trigger] end.sprites[i]).player_id != (#[trigger] end.sprites[j]).player_id by {
        assert(batch.stands(i) && batch.stands(j));
    }
}

/// No message makes a player that is shown once shown twice.
pub proof fn messages_show_everybody_once(batch: BatchState, news: ServerNews)
    requires
        shown_once(batch),
    ensures
        shown_once(batch.after_news(news)),
{
    match news {
        ServerNews::Welcome { player_id, config } => {
            let end = batch.after_news(news);
            assert forall|i: int| end.stands(i) <==> batch.stands(i) by {}
        },
        ServerNews::WorldStateSnapshot(players) => {
            lemma_placing_shows_once(batch, players);
        },
        ServerNews::PlayerJoined(player_id, position) => {
            lemma_placing_shows_once(batch, seq![(player_id, position)]);
        },
        ServerNews::PlayerLeft(player_id) => {
            lemma_removing_shows_once(batch, player_id);
        },
        ServerNews::Pong => {},
    }
}

/// No number of frames makes a player that is shown once shown twice.
pub proof fn batches_show_everybody_once(batch: BatchState, frames: Seq<Vec<u8>>)
    requires
        shown_once(batch),
    ensures
        shown_once(batch.after_frames(frames)),
    decreases frames.len(),
{
    if frames.len() > 0 {
        batches_show_everybody_once(batch, frames.drop_last());
        let before = batch.after_frames(frames.drop_last());
        match parse_server_msg(frames.last()@) {
            Some(news) => {
                messages_show_everybody_once(before, news);
            },
            None => {},
        }
    }
}

/// When every player is shown once half way through a batch, every player has one sprite
/// at its end.
pub proof fn whoever_is_shown_once_has_one_sprite(batch: BatchState)
    requires
        shown_once(batch),
    ensures
        one_sprite_each(batch.outcome()),
{
    let n = batch.sprites.len();
    let staying = batch.remaining(n);
    let m = staying.len();
    let out = batch.outcome();
    lemma_remaining(batch, n);
    assert forall|i: int, j: int| 0 <= i < j < out.len() implies (#[trigger] out[i]).player_id != (
    #[trigger] out[j]).player_id by {
        if j < m {
            assert(out[i].player_id == staying[i].player_id);
            assert(out[j].player_id == staying[j].player_id);
        } else {
            assert(out[j].player_id == batch.arriving[j - m].0);
            if i < m {
                assert(out[i].player_id == staying[i].player_id);
                assert(stands_among(batch, n, staying[i]));
                assert(listed(batch.arriving, out[j].player_id));
            } else {
                assert(out[i].player_id == batch.arriving[i - m].0);
            }
        }
    }
}

/// Whatever frames a client receives in one batch, every player keeps one sprite.
pub proof fn batches_keep_one_sprite_each(world: ClientWorld, frames: Seq<Vec<u8>>)
    requires
        one_sprite_each(world.sprites@),
    ensures
        one_sprite_each(world.batch().after_frames(frames).outcome()),
{
    batches_show_everybody_once(world.batch(), frames);
    whoever_is_shown_once_has_one_sprite(world.batch().after_frames(frames));
}

/// A player who has left is no longer on the screen, wherever in a batch the message
/// stands: not even if the same batch has let them in.
pub proof fn whoever_left_is_not_shown(batch: BatchState, player_id: PlayerId)
    requires
        shown_once(batch),
    ensures
        !shown(batch.after_news(ServerNews::PlayerLeft(player_id)).outcome(), player_id),
{
    let end = batch.after_news(ServerNews::PlayerLeft(player_id));
    let n = end.sprites.len();
    let staying = end.remaining(n);
    let out = end.outcome();
    lemma_without(batch.arriving, player_id);
    lemma_remaining(end, n);
    if shown(out, player_id) {
        let k = choose|k: int| 0 <= k < out.len() && (#[trigger] out[k]).player_id == player_id;
        if k < staying.len() {
            assert(stands_among(end, n, staying[k]));
            let i = choose|i: int|
                i < n && end.stands(i) && #[trigger] end.sprites[i] == staying[k];
            assert(batch.stands(i));
            assert(batch.is_first_standing(player_id, i));
        } else {
            assert(end.arriving[k - staying.len()].0 == player_id);
            assert(listed(end.arriving, player_id));
        }
    }
}

/// A client that hears that a player has left no longer shows them.
pub proof fn whoever_leaves_vanishes(
    player: PlayerEntity,
    n: nat,
    broadcast: Broadcast,
    client: ClientWorld,
)
    requires
        announces(n, saved(player), broadcast),
        one_sprite_each(client.sprites@),
    ensures
        parse_server_msg(broadcast.message@) == Some(ServerNews::PlayerLeft(player.player_id)),
        !shown(
            client.batch().after_frames(seq![broadcast.message]).outcome(),
            player.player_id,
        ),
{
    let news = ServerNews::PlayerLeft(player.player_id);
    player_of_saved_row(player.player_id);
    server_msg_read_back(news, Seq::empty());
    assert(broadcast.message@ + Seq::<u8>::empty() =~= broadcast.message@);
    lemma_one_frame(client.batch(), broadcast.message);
    whoever_left_is_not_shown(client.batch(), player.player_id);
}

/// A client that hears a world's broadcast shows every player of that world where they
/// are.
pub proof fn the_world_is_shown(
    players: Seq<PlayerEntity>,
    frame: Vec<u8>,
    client: ClientWorld,
    i: int,
)
    requires
        one_entity_each(players),
        sendable(ServerNews::WorldStateSnapshot(roster(players))),
        frame@ == server_msg_bytes(ServerNews::WorldStateSnapshot(roster(players))),
        0 <= i < players.len(),
    ensures
        shown_at(
            client.batch().after_frames(seq![frame]).outcome(),
            (players[i].player_id, players[i].position),
        ),
{
    let news = ServerNews::WorldStateSnapshot(roster(players));
    server_msg_read_back(news, Seq::empty());
    assert(frame@ + Seq::<u8>::empty() =~= frame@);
    lemma_one_frame(client.batch(), frame);
    assert forall|j: int, k: int| 0 <= j < k < roster(players).len() implies (
    #[trigger] roster(players)[j]).0 != (#[trigger] roster(players)[k]).0 by {
        assert(players[j].player_id != players[k].player_id);
    }
    a_snapshot_is_shown(client.batch(), roster(players), i);
}

proof fn lemma_one_frame(batch: BatchState, frame: Vec<u8>)
    ensures
        batch.after_frames(seq![frame]) == (match parse_server_msg(frame@) {
            Some(news) => batch.after_news(news),
            None => batch,
        }),
{
    reveal_with_fuel(BatchState::after_frames, 2);
    assert(seq![frame].drop_last() =~= Seq::<Vec<u8>>::empty());
}

/// The new client learns from its welcome who it is, and the other clients learn from
/// their message who has come, and where to.
pub proof fn an_arrival_is_understood(player_id: PlayerId, start_pos: Position)
    ensures
        parse_server_msg(
            server_msg_bytes(ServerNews::Welcome { player_id, config: game_config() }),
        ) == Some(ServerNews::Welcome { player_id, config: game_config() }),
        parse_server_msg(server_msg_bytes(ServerNews::PlayerJoined(player_id, start_pos))) == Some(
            ServerNews::PlayerJoined(player_id, start_pos),
        ),
{
    let welcome = ServerNews::Welcome { player_id, config: game_config() };
    let joined = ServerNews::PlayerJoined(player_id, start_pos);
    server_msg_read_back(welcome, Seq::empty());
    server_msg_read_back(joined, Seq::empty());
    assert(server_msg_bytes(welcome) + Seq::<u8>::empty() =~= server_msg_bytes(welcome));
    assert(server_msg_bytes(joined) + Seq::<u8>::empty() =~= server_msg_bytes(joined));
}

} // verus!
