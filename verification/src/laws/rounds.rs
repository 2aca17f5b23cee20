//! What a round of the server's work does, in terms of what came in and what was there.
use crate::clients::{everyone_but, Broadcast};
use crate::laws::lists::{lemma_chosen, lemma_chosen_contains, lemma_places_where, places_where};
use crate::login::player_of_row;
use crate::shared::{
    ClientToServerMsg, Coord, GameConfig, Player, PlayerId, Position, ServerNews,
    TargetDestination,
};
use crate::wire::{parse_server_msg, server_msg_read_back};
use crate::world::{
    after_message, after_messages, announces, connecting, disconnecting, first_of, game_config,
    is_first, leaves, newcomer, present, roster, saved, saves, staying, ClientMessage,
    PlayerDisconnectEvent, PlayerEntity, SavedPosition, WorldCommand,
};
use vstd::prelude::*;

verus! {

// ---------------------------------------------------------------------------
// Commands
// ---------------------------------------------------------------------------

/// The clients that connect are those of the connect commands, one for one and in order,
/// whatever stands between them.
pub proof fn every_connect_is_taken_in<S>(commands: Seq<WorldCommand<S>>)
    ensures
        connecting(commands) == commands.filter_map(
            |command: WorldCommand<S>|
                match command {
                    WorldCommand::Connect { client_tx } => Some(client_tx),
                    WorldCommand::Disconnect { player_id } => None,
                },
        ),
    decreases commands.len(),
{
    if commands.len() > 0 {
        every_connect_is_taken_in(commands.drop_last());
    }
    assert(connecting(commands) =~= commands.filter_map(
        |command: WorldCommand<S>|
            match command {
                WorldCommand::Connect { client_tx } => Some(client_tx),
                WorldCommand::Disconnect { player_id } => None,
            },
    ));
}

/// The departures that are noted are those of the disconnect commands, one for one and in
/// order, whatever stands between them.
pub proof fn every_disconnect_is_noted<S>(commands: Seq<WorldCommand<S>>)
    ensures
        disconnecting(commands) == commands.filter_map(
            |command: WorldCommand<S>|
                match command {
                    WorldCommand::Connect { client_tx } => None,
                    WorldCommand::Disconnect { player_id } => Some(
                        PlayerDisconnectEvent { player_id },
                    ),
                },
        ),
        forall|i: int|
            0 <= i < commands.len() ==> ((#[trigger] commands[i]) matches
                WorldCommand::Disconnect { player_id } ==> disconnecting(commands).contains(
                PlayerDisconnectEvent { player_id },
            )),
    decreases commands.len(),
{
    let noted = disconnecting(commands);
    if commands.len() > 0 {
        let front = commands.drop_last();
        let before = disconnecting(front);
        every_disconnect_is_noted(front);
        assert forall|i: int| 0 <= i < commands.len() implies ((#[trigger] commands[i]) matches
            WorldCommand::Disconnect { player_id } ==> noted.contains(
            PlayerDisconnectEvent { player_id },
        )) by {
            if let WorldCommand::Disconnect { player_id } = commands[i] {
                let event = PlayerDisconnectEvent { player_id };
                if i < front.len() {
                    assert(front[i] == commands[i]);
                    assert(before.contains(event));
                    let k = choose|k: int| 0 <= k < before.len() && before[k] == event;
                    assert(noted[k] == event);
                } else {
                    assert(noted[noted.len() - 1] == event);
                }
            }
        }
    }
    assert(noted =~= commands.filter_map(
        |command: WorldCommand<S>|
            match command {
                WorldCommand::Connect { client_tx } => None,
                WorldCommand::Disconnect { player_id } => Some(
                    PlayerDisconnectEvent { player_id },
                ),
            },
    ));
}

/// Commands that come in two parts do what they do together.
pub proof fn commands_add_up<S>(a: Seq<WorldCommand<S>>, b: Seq<WorldCommand<S>>)
    ensures
        connecting(a + b) == connecting(a) + connecting(b),
        disconnecting(a + b) == disconnecting(a) + disconnecting(b),
        connecting(a).len() + disconnecting(a).len() == a.len(),
    decreases a.len() + b.len(),
{
    if b.len() > 0 {
        assert((a + b).drop_last() =~= a + b.drop_last());
        assert((a + b).last() == b.last());
        commands_add_up(a, b.drop_last());
        assert(connecting(a + b) =~= connecting(a) + connecting(b));
        assert(disconnecting(a + b) =~= disconnecting(a) + disconnecting(b));
    } else {
        assert(a + b =~= a);
        assert(connecting(a) + connecting(b) =~= connecting(a));
        assert(disconnecting(a) + disconnecting(b) =~= disconnecting(a));
        if a.len() > 0 {
            commands_add_up(a.drop_last(), b);
            assert(a.drop_last() + b =~= a.drop_last());
        }
    }
}

// ---------------------------------------------------------------------------
// Messages
// ---------------------------------------------------------------------------

/// Whether the entity at `i` is the one that its player's clicks go to: none before it is
/// of the same player.
pub open spec fn leads(players: Seq<PlayerEntity>, i: int) -> bool {
    &&& 0 <= i < players.len()
    &&& forall|j: int| 0 <= j < i ==> (#[trigger] players[j]).player_id != players[i].player_id
}

/// Whether the message at `m` is the player's last click, and where it points.
pub open spec fn last_click(
    messages: Seq<ClientMessage>,
    m: int,
    player_id: PlayerId,
    x: Coord,
    y: Coord,
) -> bool {
    &&& 0 <= m < messages.len()
    &&& messages[m].player_id == player_id
    &&& messages[m].message == (ClientToServerMsg::ClickPosition { x, y })
    &&& forall|l: int|
        m < l < messages.len() && (#[trigger] messages[l]).player_id == player_id
            ==> messages[l].message is Ping
}

/// One message changes one thing at most: a click of a player sets the destination of
/// that player's leading entity.
pub proof fn a_message_sets_one_destination(players: Seq<PlayerEntity>, message: ClientMessage)
    ensures
        after_message(players, message).len() == players.len(),
        forall|i: int|
            0 <= i < players.len() ==> #[trigger] after_message(players, message)[i] == (
            PlayerEntity {
                marker: Player,
                player_id: players[i].player_id,
                position: players[i].position,
                target: match message.message {
                    ClientToServerMsg::ClickPosition { x, y } => if leads(players, i)
                        && players[i].player_id == message.player_id {
                        TargetDestination(Position { x, y })
                    } else {
                        players[i].target
                    },
                    ClientToServerMsg::Ping => players[i].target,
                },
            }),
{
}

/// Messages that come in two parts do what they do together.
pub proof fn messages_add_up(
    players: Seq<PlayerEntity>,
    a: Seq<ClientMessage>,
    b: Seq<ClientMessage>,
)
    ensures
        after_messages(players, a + b) == after_messages(after_messages(players, a), b),
        forall|message: ClientMessage| #[trigger]
            after_messages(players, seq![message]) == after_message(players, message),
        after_messages(players, Seq::empty()) == players,
    decreases b.len(),
{
    reveal_with_fuel(after_messages, 2);
    assert forall|message: ClientMessage| #[trigger]
        after_messages(players, seq![message]) == after_message(players, message) by {
        assert(seq![message].drop_last() =~= Seq::<ClientMessage>::empty());
    }
    if b.len() > 0 {
        assert((a + b).drop_last() =~= a + b.drop_last());
        assert((a + b).last() == b.last());
        messages_add_up(players, a, b.drop_last());
    } else {
        assert(a + b =~= a);
    }
}

proof fn lemma_players_stay(players: Seq<PlayerEntity>, messages: Seq<ClientMessage>)
    ensures
        after_messages(players, messages).len() == players.len(),
        forall|i: int|
            0 <= i < players.len() ==> {
                let after = #[trigger] after_messages(players, messages)[i];
                &&& after.player_id == players[i].player_id
                &&& after.position == players[i].position
            },
    decreases messages.len(),
{
    if messages.len() > 0 {
        lemma_players_stay(players, messages.drop_last());
        a_message_sets_one_destination(
            after_messages(players, messages.drop_last()),
            messages.last(),
        );
    }
}

proof fn lemma_leads_stay(players: Seq<PlayerEntity>, messages: Seq<ClientMessage>, i: int)
    ensures
        leads(after_messages(players, messages), i) == leads(players, i),
{
    let after = after_messages(players, messages);
    lemma_players_stay(players, messages);
    if leads(after, i) {
        assert forall|j: int| 0 <= j < i implies (#[trigger] players[j]).player_id
            != players[i].player_id by {
            assert(after[j].player_id == players[j].player_id);
        }
    }
    if leads(players, i) {
        assert forall|j: int| 0 <= j < i implies (#[trigger] after[j]).player_id
            != after[i].player_id by {
            assert(after[j].player_id == players[j].player_id);
        }
    }
}

/// After any messages, everybody is where they were, and every player's leading entity
/// goes where their last click pointed, whatever other messages came before, between and
/// after.
pub proof fn everybodys_last_click_counts(
    players: Seq<PlayerEntity>,
    messages: Seq<ClientMessage>,
    i: int,
    m: int,
    x: Coord,
    y: Coord,
)
    requires
        leads(players, i),
        last_click(messages, m, players[i].player_id, x, y),
    ensures
        after_messages(players, messages).len() == players.len(),
        after_messages(players, messages)[i] == (PlayerEntity {
            target: TargetDestination(Position { x, y }),
            ..players[i]
        }),
    decreases messages.len(),
{
    let front = messages.drop_last();
    let before = after_messages(players, front);
    lemma_players_stay(players, messages);
    lemma_players_stay(players, front);
    lemma_leads_stay(players, front, i);
    a_message_sets_one_destination(before, messages.last());
    assert(before[i].player_id == players[i].player_id);
    if m < front.len() {
        assert(messages[messages.len() - 1] == messages.last());
        assert forall|l: int|
            m < l < front.len() && (#[trigger] front[l]).player_id
                == players[i].player_id implies front[l].message is Ping by {
            assert(messages[l] == front[l]);
        }
        everybodys_last_click_counts(players, front, i, m, x, y);
    }
}

/// Who has not clicked keeps their destination, and so does every entity that is not its
/// player's leading one.
pub proof fn who_has_not_clicked_goes_on(
    players: Seq<PlayerEntity>,
    messages: Seq<ClientMessage>,
    i: int,
)
    requires
        0 <= i < players.len(),
        !leads(players, i) || forall|m: int|
            0 <= m < messages.len() && (#[trigger] messages[m]).player_id == players[i].player_id
                ==> messages[m].message is Ping,
    ensures
        after_messages(players, messages)[i] == players[i],
    decreases messages.len(),
{
    if messages.len() > 0 {
        let front = messages.drop_last();
        let before = after_messages(players, front);
        assert(messages[messages.len() - 1] == messages.last());
        assert forall|m: int| 0 <= m < front.len() implies #[trigger] front[m] == messages[m] by {}
        who_has_not_clicked_goes_on(players, front, i);
        lemma_players_stay(players, front);
        lemma_leads_stay(players, front, i);
        a_message_sets_one_destination(before, messages.last());
    }
}

/// Pings can be left out.
pub proof fn pings_can_be_left_out(players: Seq<PlayerEntity>, messages: Seq<ClientMessage>)
    ensures
        after_messages(players, messages.filter(|m: ClientMessage| !(m.message is Ping)))
            == after_messages(players, messages),
    decreases messages.len(),
{
    reveal(Seq::filter);
    let clicks = |m: ClientMessage| !(m.message is Ping);
    if messages.len() > 0 {
        let front = messages.drop_last();
        pings_can_be_left_out(players, front);
        if !(messages.last().message is Ping) {
            assert(messages.filter(clicks).drop_last() =~= front.filter(clicks));
        } else {
            a_message_sets_one_destination(after_messages(players, front), messages.last());
            assert(after_messages(players, messages) =~= after_messages(players, front));
        }
    }
}

// ---------------------------------------------------------------------------
// Departures
// ---------------------------------------------------------------------------

/// Whether the entity at `i` is its player's leading one, and one of the events is of
/// that player.
pub open spec fn goes(
    players: Seq<PlayerEntity>,
    events: Seq<PlayerDisconnectEvent>,
    i: int,
) -> bool {
    &&& leads(players, i)
    &&& exists|k: int|
        0 <= k < events.len() && (#[trigger] events[k]).player_id == players[i].player_id
}

proof fn lemma_goes(players: Seq<PlayerEntity>, events: Seq<PlayerDisconnectEvent>, i: int)
    ensures
        goes(players, events, i) == leaves(players, events, i),
{
    if goes(players, events, i) {
        let k = choose|k: int|
            0 <= k < events.len() && (#[trigger] events[k]).player_id == players[i].player_id;
        assert(is_first(players, events[k].player_id, i));
    }
    if leaves(players, events, i) {
        let k = choose|k: int|
            0 <= k < events.len() && is_first(players, (#[trigger] events[k]).player_id, i);
        assert(events[k].player_id == players[i].player_id);
    }
}

proof fn lemma_staying_places(
    players: Seq<PlayerEntity>,
    events: Seq<PlayerDisconnectEvent>,
    n: nat,
)
    requires
        n <= players.len(),
    ensures
        staying(players, events, n) == places_where(
            n,
            |i: int| !goes(players, events, i),
        ).map_values(|i: int| players[i]),
    decreases n,
{
    let wanted = |i: int| !goes(players, events, i);
    lemma_places_where(n, wanted);
    if n > 0 {
        lemma_staying_places(players, events, (n - 1) as nat);
        lemma_goes(players, events, n - 1);
    }
    assert(staying(players, events, n) =~= places_where(n, wanted).map_values(
        |i: int| players[i],
    ));
}

/// Whoever is not reported gone stays, as they were and in the same order, and nobody else
/// does.
pub proof fn the_others_stay_in_order(
    players: Seq<PlayerEntity>,
    events: Seq<PlayerDisconnectEvent>,
)
    ensures
        staying(players, events, players.len()) == places_where(
            players.len(),
            |i: int| !goes(players, events, i),
        ).map_values(|i: int| players[i]),
{
    lemma_staying_places(players, events, players.len());
}

/// Departures that come in two parts are saved as they are together.
pub proof fn saves_add_up(
    players: Seq<PlayerEntity>,
    a: Seq<PlayerDisconnectEvent>,
    b: Seq<PlayerDisconnectEvent>,
)
    ensures
        saves(players, a + b) == saves(players, a) + saves(players, b),
    decreases b.len(),
{
    if b.len() > 0 {
        assert((a + b).drop_last() =~= a + b.drop_last());
        assert((a + b).last() == b.last());
        saves_add_up(players, a, b.drop_last());
    } else {
        assert(a + b =~= a);
    }
    assert(saves(players, a + b) =~= saves(players, a) + saves(players, b));
}

/// When a player leaves, the position of their leading entity is saved, to the row with
/// their number: the same bits, read with a sign.
pub proof fn a_departure_saves_the_position(
    players: Seq<PlayerEntity>,
    event: PlayerDisconnectEvent,
    i: int,
)
    requires
        leads(players, i),
        players[i].player_id == event.player_id,
    ensures
        saves(players, seq![event]).len() == 1,
        saves(players, seq![event])[0].x == players[i].position.x,
        saves(players, seq![event])[0].y == players[i].position.y,
        (saves(players, seq![event])[0].id as int) % 0x1_0000_0000_0000_0000
            == event.player_id.0,
{
    reveal_with_fuel(saves, 2);
    assert(seq![event].drop_last() =~= Seq::<PlayerDisconnectEvent>::empty());
    assert(players[i].player_id == event.player_id);
    assert(present(players, event.player_id));
    assert(is_first(players, event.player_id, i));
    let k = first_of(players, event.player_id);
    assert(is_first(players, event.player_id, k));
    assert(k == i);
}

/// Nothing is saved for a player who is not in the world.
pub proof fn the_absent_are_not_saved(players: Seq<PlayerEntity>, event: PlayerDisconnectEvent)
    requires
        forall|i: int|
            0 <= i < players.len() ==> (#[trigger] players[i]).player_id != event.player_id,
    ensures
        saves(players, seq![event]).len() == 0,
{
    reveal_with_fuel(saves, 2);
    assert(seq![event].drop_last() =~= Seq::<PlayerDisconnectEvent>::empty());
}

proof fn lemma_saved_somewhere(
    players: Seq<PlayerEntity>,
    events: Seq<PlayerDisconnectEvent>,
    i: int,
    k: int,
)
    requires
        leads(players, i),
        0 <= k < events.len(),
        events[k].player_id == players[i].player_id,
    ensures
        exists|s: int|
            0 <= s < saves(players, events).len() && {
                let position = #[trigger] saves(players, events)[s];
                &&& position.x == players[i].position.x
                &&& position.y == players[i].position.y
                &&& (position.id as int) % 0x1_0000_0000_0000_0000 == players[i].player_id.0
            },
{
    let head = events.take(k);
    let one = seq![events[k]];
    let tail = events.skip(k + 1);
    assert(events =~= head + one + tail);
    saves_add_up(players, head + one, tail);
    saves_add_up(players, head, one);
    a_departure_saves_the_position(players, events[k], i);
    let s = saves(players, head).len() as int;
    assert(saves(players, events)[s] == saves(players, one)[0]);
}

/// A player whose disconnect comes in a round is out of the world after it, and their
/// position is handed over for saving, whatever else the round brings and wherever in it
/// the disconnect stands.
pub proof fn a_disconnect_is_carried_out<S>(
    players: Seq<PlayerEntity>,
    noted: Seq<PlayerDisconnectEvent>,
    commands: Seq<WorldCommand<S>>,
    messages: Seq<ClientMessage>,
    c: int,
    i: int,
)
    requires
        forall|j: int, k: int|
            0 <= j < k < players.len() ==> (#[trigger] players[j]).player_id != (
            #[trigger] players[k]).player_id,
        0 <= i < players.len(),
        0 <= c < commands.len(),
        commands[c] == (WorldCommand::<S>::Disconnect { player_id: players[i].player_id }),
    ensures
        ({
            let heard = after_messages(players, messages);
            let events = noted + disconnecting(commands);
            &&& forall|k: int|
                0 <= k < staying(heard, events, heard.len()).len() ==> (#[trigger] staying(
                    heard,
                    events,
                    heard.len(),
                )[k]).player_id != players[i].player_id
            &&& exists|s: int|
                0 <= s < saves(heard, events).len() && {
                    let position = #[trigger] saves(heard, events)[s];
                    &&& position.x == players[i].position.x
                    &&& position.y == players[i].position.y
                    &&& (position.id as int) % 0x1_0000_0000_0000_0000 == players[i].player_id.0
                }
        }),
{
    let heard = after_messages(players, messages);
    let events = noted + disconnecting(commands);
    let event = PlayerDisconnectEvent { player_id: players[i].player_id };
    lemma_players_stay(players, messages);
    every_disconnect_is_noted(commands);
    assert(disconnecting(commands).contains(event));
    let d = choose|d: int|
        0 <= d < disconnecting(commands).len() && disconnecting(commands)[d] == event;
    assert(events[noted.len() + d] == event);
    assert(leads(players, i));
    lemma_leads_stay(players, messages, i);
    lemma_saved_somewhere(heard, events, i, noted.len() + d);
    let wanted = |j: int| !goes(heard, events, j);
    let rest = staying(heard, events, heard.len());
    the_others_stay_in_order(heard, events);
    let chosen = places_where(heard.len(), wanted);
    assert forall|k: int| 0 <= k < rest.len() implies (#[trigger] rest[k]).player_id
        != players[i].player_id by {
        lemma_chosen(heard.len(), wanted, k);
        let j = chosen[k];
        assert(rest[k] == heard[j]);
        if heard[j].player_id == players[i].player_id {
            assert(players[j].player_id == players[i].player_id);
            assert(j == i);
            assert(goes(heard, events, i));
        }
    }
}

/// A player whom no disconnect of the round or before names is in the world after it, at
/// the same place.
pub proof fn the_others_are_still_there<S>(
    players: Seq<PlayerEntity>,
    noted: Seq<PlayerDisconnectEvent>,
    commands: Seq<WorldCommand<S>>,
    messages: Seq<ClientMessage>,
    i: int,
)
    requires
        0 <= i < players.len(),
        forall|k: int|
            0 <= k < noted.len() ==> (#[trigger] noted[k]).player_id != players[i].player_id,
        forall|c: int|
            0 <= c < commands.len() ==> #[trigger] commands[c] != (WorldCommand::<
                S,
            >::Disconnect { player_id: players[i].player_id }),
    ensures
        ({
            let heard = after_messages(players, messages);
            let events = noted + disconnecting(commands);
            exists|k: int|
                0 <= k < staying(heard, events, heard.len()).len() && {
                    let player = #[trigger] staying(heard, events, heard.len())[k];
                    &&& player.player_id == players[i].player_id
                    &&& player.position == players[i].position
                }
        }),
{
    let heard = after_messages(players, messages);
    let events = noted + disconnecting(commands);
    let id = players[i].player_id;
    lemma_players_stay(players, messages);
    lemma_noted_were_named(commands, id);
    assert(heard[i].player_id == id);
    assert(!goes(heard, events, i)) by {
        if goes(heard, events, i) {
            let k = choose|k: int|
                0 <= k < events.len() && (#[trigger] events[k]).player_id == heard[i].player_id;
            if k < noted.len() {
                assert(noted[k].player_id == id);
            } else {
                assert(disconnecting(commands)[k - noted.len()].player_id == id);
            }
        }
    }
    let wanted = |j: int| !goes(heard, events, j);
    the_others_stay_in_order(heard, events);
    lemma_chosen_contains(heard.len(), wanted, i);
    let chosen = places_where(heard.len(), wanted);
    let k = choose|k: int| 0 <= k < chosen.len() && chosen[k] == i;
    assert(staying(heard, events, heard.len())[k] == heard[i]);
}

proof fn lemma_noted_were_named<S>(commands: Seq<WorldCommand<S>>, player_id: PlayerId)
    requires
        forall|c: int|
            0 <= c < commands.len() ==> #[trigger] commands[c] != (WorldCommand::<
                S,
            >::Disconnect { player_id }),
    ensures
        forall|k: int|
            0 <= k < disconnecting(commands).len() ==> (#[trigger] disconnecting(
                commands,
            )[k]).player_id != player_id,
    decreases commands.len(),
{
    if commands.len() > 0 {
        let front = commands.drop_last();
        assert forall|c: int| 0 <= c < front.len() implies #[trigger] front[c] != (WorldCommand::<
            S,
        >::Disconnect { player_id }) by {
            assert(front[c] == commands[c]);
        }
        lemma_noted_were_named(front, player_id);
        assert(commands[commands.len() - 1] == commands.last());
        let before = disconnecting(front);
        let noted = disconnecting(commands);
        assert forall|k: int| 0 <= k < noted.len() implies (#[trigger] noted[k]).player_id
            != player_id by {
            if k < before.len() {
                assert(noted[k] == before[k]);
            } else {
                assert(commands.last() == (WorldCommand::<S>::Disconnect {
                    player_id: noted[k].player_id,
                }));
            }
        }
    }
}

// ---------------------------------------------------------------------------
// Arrivals and reports
// ---------------------------------------------------------------------------

/// Who enters the world stands where they were last seen, and is going nowhere.
pub proof fn newcomers_stand_at_their_start(player_id: PlayerId, start_pos: Position)
    ensures
        newcomer(player_id, start_pos).player_id == player_id,
        newcomer(player_id, start_pos).position == start_pos,
        newcomer(player_id, start_pos).target == TargetDestination(start_pos),
{
}

/// Every client is told that the map is 800 wide and 600 high.
pub proof fn the_map_has_this_size()
    ensures
        game_config() == (GameConfig { map_width: 800, map_height: 600 }),
{
}

/// The state of the world that is sent names every player in it, in order, and where
/// they are.
pub proof fn the_roster_is_everybody(players: Seq<PlayerEntity>)
    ensures
        roster(players).len() == players.len(),
        forall|i: int|
            0 <= i < players.len() ==> #[trigger] roster(players)[i] == (
                players[i].player_id,
                players[i].position,
            ),
{
}

/// What is saved of an entity is its position, addressed to its player's number: the same
/// bits, read with a sign.
pub proof fn what_is_saved(player: PlayerEntity)
    ensures
        saved(player).x == player.position.x,
        saved(player).y == player.position.y,
        (saved(player).id as int) % 0x1_0000_0000_0000_0000 == player.player_id.0,
{
}

/// A broadcast goes to the clients with the numbers below `n`, in order, but for the
/// excluded one.
pub proof fn a_broadcast_goes_to_the_others(n: nat, exclude_id: Option<usize>)
    requires
        n <= usize::MAX,
    ensures
        everyone_but(n, exclude_id) == places_where(
            n,
            |i: int| exclude_id != Some(i as usize),
        ).map_values(|i: int| i as usize),
    decreases n,
{
    let wanted = |i: int| exclude_id != Some(i as usize);
    lemma_places_where(n, wanted);
    if n > 0 {
        a_broadcast_goes_to_the_others((n - 1) as nat, exclude_id);
    }
    assert(everyone_but(n, exclude_id) =~= places_where(n, wanted).map_values(
        |i: int| i as usize,
    ));
}

/// Whom a departure is announced to, and as what: every client hears of the player with
/// the saved row's number.
pub proof fn a_departure_is_told_to_all(n: nat, position: SavedPosition, broadcast: Broadcast)
    requires
        n <= usize::MAX,
        announces(n, position, broadcast),
    ensures
        parse_server_msg(broadcast.message@) matches Some(ServerNews::PlayerLeft(player_id))
            && player_id.0 == (position.id as int) % 0x1_0000_0000_0000_0000,
        broadcast.recipients@.len() == n,
        forall|i: int| 0 <= i < n ==> #[trigger] broadcast.recipients@[i] == i,
{
    let player_id = player_of_row(position.id);
    let news = ServerNews::PlayerLeft(player_id);
    server_msg_read_back(news, Seq::empty());
    assert(broadcast.message@ + Seq::<u8>::empty() =~= broadcast.message@);
    lemma_everyone(n);
}

proof fn lemma_everyone(n: nat)
    requires
        n <= usize::MAX,
    ensures
        everyone_but(n, None).len() == n,
        forall|i: int| 0 <= i < n ==> #[trigger] everyone_but(n, None)[i] == i,
    decreases n,
{
    if n > 0 {
        lemma_everyone((n - 1) as nat);
    }
}

} // verus!
