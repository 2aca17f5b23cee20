//! One client's connection to the server.
use crate::shared::{ClientToServerMsg, PlayerId, ServerNews, ServerToClientMsg};
use crate::wire::{
    client_msg_bytes, client_msg_read_back, parse_client_msg, parse_server_msg, server_msg_bytes,
    server_msg_read_back,
};
use crate::world::ClientMessage;
use vstd::prelude::*;

verus! {

/// What a client sends over its socket.
#[derive(Debug)]
pub enum Frame {
    /// Bytes.
    Binary(Vec<u8>),
    /// Text and control frames, which carry no messages.
    Other,
}

/// What happens to a connection.
#[derive(Debug)]
pub enum SessionEvent {
    /// The client's socket is open.
    Opened,
    /// The world has let the client's player in.
    LoggedIn(PlayerId),
    /// The client has sent a frame.
    Received(Frame),
    /// Nothing more can be sent to the client, received from it, or passed on to the
    /// world.
    Ended,
}

/// What is to be done about it.
#[derive(Debug)]
pub enum SessionAction {
    /// Nothing.
    Wait,
    /// Tell the world that there is a new client.
    Connect,
    /// Pass the message on to the world.
    Forward(ClientMessage),
    /// Tell the world that the player is gone, and close the connection.
    Disconnect(PlayerId),
    /// Close the connection.
    Close,
}

/// The state of a connection: whether the world knows of it, whose it is, once that is
/// known, and whether it is over.
#[derive(Debug, Clone, Copy)]
pub struct Session {
    pub connected: bool,
    pub player_id: Option<PlayerId>,
    pub closed: bool,
}

impl Session {
    /// A new connection, of no player yet.
    pub open spec fn fresh() -> Session {
        Session { connected: false, player_id: None, closed: false }
    }

    /// A new connection, of no player yet.
    pub fn new() -> (r: Session)
        ensures
            r == Session::fresh(),
    {
        Session { connected: false, player_id: None, closed: false }
    }

    /// The connection after an event.
    pub open spec fn after(self, event: SessionEvent) -> Session {
        if self.closed {
            self
        } else {
            match event {
                SessionEvent::Opened => Session { connected: true, ..self },
                SessionEvent::LoggedIn(player_id) => Session {
                    player_id: Some(player_id),
                    ..self
                },
                SessionEvent::Received(frame) => self,
                SessionEvent::Ended => Session { closed: true, ..self },
            }
        }
    }

    /// What is to be done about an event.
    pub open spec fn response(self, event: SessionEvent) -> SessionAction {
        if self.closed {
            match event {
                SessionEvent::LoggedIn(player_id) => SessionAction::Disconnect(player_id),
                _ => SessionAction::Wait,
            }
        } else {
            match event {
                SessionEvent::Opened => if self.connected {
                    SessionAction::Wait
                } else {
                    SessionAction::Connect
                },
                SessionEvent::LoggedIn(player_id) => SessionAction::Wait,
                SessionEvent::Received(frame) => match (self.player_id, frame) {
                    (Some(player_id), Frame::Binary(bytes)) => match parse_client_msg(bytes@) {
                        Some(message) => SessionAction::Forward(
                            ClientMessage { player_id, message },
                        ),
                        None => SessionAction::Wait,
                    },
                    _ => SessionAction::Wait,
                },
                SessionEvent::Ended => match self.player_id {
                    Some(player_id) => SessionAction::Disconnect(player_id),
                    None => SessionAction::Close,
                },
            }
        }
    }

    /// Takes note of an event and says what is to be done about it. When the socket is
    /// open the world is told, once. A frame is passed on if it holds a message and the
    /// player is known; the end of the connection is reported to the world if the player
    /// is known, and a player who is let in when the connection is over already is
    /// reported at once.
    pub fn handle_event(&mut self, event: SessionEvent) -> (r: SessionAction)
        ensures
            *final(self) == old(self).after(event),
            r == old(self).response(event),
    {
        if self.closed {
            return match event {
                SessionEvent::LoggedIn(player_id) => SessionAction::Disconnect(player_id),
                _ => SessionAction::Wait,
            };
        }
        match event {
            SessionEvent::Opened => {
                if self.connected {
                    SessionAction::Wait
                } else {
                    self.connected = true;
                    SessionAction::Connect
                }
            },
            SessionEvent::LoggedIn(player_id) => {
                self.player_id = Some(player_id);
                SessionAction::Wait
            },
            SessionEvent::Received(frame) => match frame {
                Frame::Binary(bytes) => match ClientToServerMsg::from_bytes(bytes.as_slice()) {
                    Some(message) => match self.player_id {
                        Some(player_id) => SessionAction::Forward(
                            ClientMessage { player_id, message },
                        ),
                        None => SessionAction::Wait,
                    },
                    None => SessionAction::Wait,
                },
                Frame::Other => SessionAction::Wait,
            },
            SessionEvent::Ended => {
                self.closed = true;
                match self.player_id {
                    Some(player_id) => SessionAction::Disconnect(player_id),
                    None => SessionAction::Close,
                }
            },
        }
    }
}

/// What a client that has sent this message is answered at once: a ping gets a pong.
pub fn pong_for(message: &ClientMessage) -> (r: Option<Vec<u8>>)
    ensures
        match r {
            Some(bytes) => message.message is Ping && bytes@ == server_msg_bytes(ServerNews::Pong),
            None => !(message.message is Ping),
        },
{
    match message.message {
        ClientToServerMsg::Ping => Some(ServerToClientMsg::Pong.to_bytes()),
        ClientToServerMsg::ClickPosition { x, y } => None,
    }
}

/// The connection after events, the first one first.
pub open spec fn after_events(session: Session, events: Seq<SessionEvent>) -> Session
    decreases events.len(),
{
    if events.len() == 0 {
        session
    } else {
        after_events(session, events.drop_last()).after(events.last())
    }
}

/// What is done about events, the first one first.
pub open spec fn responses(session: Session, events: Seq<SessionEvent>) -> Seq<SessionAction> {
    Seq::new(
        events.len(),
        |i: int| after_events(session, events.take(i)).response(events[i]),
    )
}

/// A client acts for no one but the player of its own connection: whatever it sends,
/// a message that is passed on names that player.
pub proof fn messages_are_the_players_own(session: Session, event: SessionEvent)
    ensures
        session.response(event) matches SessionAction::Forward(message) ==> session.player_id
            == Some(message.player_id),
{
}

/// Before its player is known, nothing that a client sends is passed on, and its end
/// is not reported to the world.
pub proof fn strangers_are_not_heard(session: Session, event: SessionEvent)
    requires
        session.player_id is None,
        !(session.closed && event is LoggedIn),
    ensures
        !(session.response(event) is Forward),
        !(session.response(event) is Disconnect),
{
}

/// Once a connection is over it stays over, and nothing more is done for it: its end
/// is reported to the world once. Only a player who is let in too late is reported.
pub proof fn the_end_is_final(session: Session, events: Seq<SessionEvent>, event: SessionEvent)
    requires
        session.closed,
    ensures
        after_events(session, events) == session,
        after_events(session, events).response(event) == (match event {
            SessionEvent::LoggedIn(player_id) => SessionAction::Disconnect(player_id),
            _ => SessionAction::Wait,
        }),
    decreases events.len(),
{
    if events.len() > 0 {
        the_end_is_final(session, events.drop_last(), event);
    }
}

/// The world hears of the end of a connection whose player it has let in, whichever of
/// the two comes first, and hears of it once.
pub proof fn whoever_is_let_in_is_reported(session: Session, player_id: PlayerId)
    requires
        session.player_id is None,
        !session.closed,
    ensures
        ({
            let login = SessionEvent::LoggedIn(player_id);
            let end = SessionEvent::Ended;
            &&& session.response(login) is Wait
            &&& session.after(login).response(end) == SessionAction::Disconnect(player_id)
            &&& session.response(end) is Close
            &&& session.after(end).response(login) == SessionAction::Disconnect(player_id)
        }),
{
}

/// At most one player is let in.
pub open spec fn one_login(events: Seq<SessionEvent>) -> bool {
    forall|i: int, j: int|
        0 <= i < j < events.len() ==> !((#[trigger] events[i]) is LoggedIn && (
        #[trigger] events[j]) is LoggedIn)
}

/// Whether one of the first `n` events lets the player in.
pub open spec fn let_in(events: Seq<SessionEvent>, n: int, player_id: PlayerId) -> bool {
    exists|k: int| 0 <= k < n && #[trigger] events[k] == SessionEvent::LoggedIn(player_id)
}

/// Whether one of the first `n` things done is to report that the player is gone.
pub open spec fn reported(actions: Seq<SessionAction>, n: int, player_id: PlayerId) -> bool {
    exists|k: int| 0 <= k < n && #[trigger] actions[k] == SessionAction::Disconnect(player_id)
}

proof fn lemma_run(events: Seq<SessionEvent>, n: int)
    requires
        0 <= n <= events.len(),
        one_login(events),
    ensures
        ({
            let now = after_events(Session::fresh(), events.take(n));
            let actions = responses(Session::fresh(), events);
            &&& forall|k: int| 0 <= k < n && (#[trigger] events[k]) is Ended ==> now.closed
            &&& forall|k: int| 0 <= k < n && (#[trigger] actions[k]) is Connect ==> now.connected
            &&& forall|k: int|
                0 <= k < n && (#[trigger] actions[k]) is Disconnect ==> now.closed && let_in(
                    events,
                    n,
                    actions[k]->Disconnect_0,
                )
            &&& forall|id: PlayerId|
                now.player_id == Some(id) ==> #[trigger] let_in(events, n, id)
            &&& forall|id: PlayerId| #[trigger]
                let_in(events, n, id) ==> (!now.closed && now.player_id == Some(id)) || reported(
                    actions,
                    n,
                    id,
                )
        }),
    decreases n,
{
    if n > 0 {
        let m = n - 1;
        lemma_run(events, m);
        let before = after_events(Session::fresh(), events.take(m));
        let now = after_events(Session::fresh(), events.take(n));
        let actions = responses(Session::fresh(), events);
        let event = events[m];
        assert(events.take(n).drop_last() =~= events.take(m));
        assert(events.take(n).last() == event);
        assert(now == before.after(event));
        assert(actions[m] == before.response(event));
        assert forall|id: PlayerId| #[trigger] let_in(events, m, id) implies let_in(
            events,
            n,
            id,
        ) by {
            let k = choose|k: int|
                0 <= k < m && #[trigger] events[k] == SessionEvent::LoggedIn(id);
            assert(events[k] == SessionEvent::LoggedIn(id));
        }
        assert forall|k: int| 0 <= k < n && (
        #[trigger] actions[k]) is Disconnect implies now.closed && let_in(
            events,
            n,
            actions[k]->Disconnect_0,
        ) by {
            if k < m {
                assert(let_in(events, m, actions[k]->Disconnect_0));
            } else if !(event is LoggedIn) {
                assert(before.player_id == Some(actions[k]->Disconnect_0));
                assert(let_in(events, m, actions[k]->Disconnect_0));
            } else {
                assert(events[m] == SessionEvent::LoggedIn(actions[k]->Disconnect_0));
            }
        }
        assert forall|id: PlayerId| now.player_id == Some(id) implies #[trigger] let_in(
            events,
            n,
            id,
        ) by {
            if before.player_id == Some(id) {
                assert(let_in(events, m, id));
            } else {
                assert(events[m] == SessionEvent::LoggedIn(id));
            }
        }
        assert forall|id: PlayerId| #[trigger] let_in(events, n, id) implies (!now.closed
            && now.player_id == Some(id)) || reported(actions, n, id) by {
            let k = choose|k: int|
                0 <= k < n && #[trigger] events[k] == SessionEvent::LoggedIn(id);
            if k < m {
                assert(let_in(events, m, id));
                assert(!(event is LoggedIn));
                if reported(actions, m, id) {
                    let j = choose|j: int|
                        0 <= j < m && #[trigger] actions[j] == SessionAction::Disconnect(id);
                    assert(actions[j] == SessionAction::Disconnect(id));
                } else if event is Ended {
                    assert(actions[m] == SessionAction::Disconnect(id));
                }
            } else if before.closed {
                assert(actions[m] == SessionAction::Disconnect(id));
            }
        }
    }
}

/// Whatever happens to a connection that lets in at most one player, the world is told of
/// the client at most once and of its end at most once, and after its end it is told
/// nothing more: no message is passed on, and nothing is reported. The player who is
/// reported gone is the one who was let in.
pub proof fn the_end_is_reported_once(events: Seq<SessionEvent>)
    requires
        one_login(events),
    ensures
        ({
            let actions = responses(Session::fresh(), events);
            &&& forall|i: int, j: int|
                0 <= i < j < actions.len() && (#[trigger] actions[i]) is Connect ==> !((
                #[trigger] actions[j]) is Connect)
            &&& forall|i: int, j: int|
                0 <= i < j < actions.len() && (#[trigger] actions[i]) is Disconnect ==> (
                #[trigger] actions[j]) is Wait
            &&& forall|i: int|
                0 <= i < actions.len() && (#[trigger] actions[i]) is Disconnect ==> let_in(
                    events,
                    i + 1,
                    actions[i]->Disconnect_0,
                )
        }),
{
    let actions = responses(Session::fresh(), events);
    assert forall|i: int, j: int|
        0 <= i < j < actions.len() && (#[trigger] actions[i]) is Connect implies !((
    #[trigger] actions[j]) is Connect) by {
        lemma_run(events, j);
    }
    assert forall|i: int, j: int|
        0 <= i < j < actions.len() && (#[trigger] actions[i]) is Disconnect implies (
    #[trigger] actions[j]) is Wait by {
        lemma_run(events, j);
        let id = actions[i]->Disconnect_0;
        assert(let_in(events, j, id));
        let k = choose|k: int| 0 <= k < j && #[trigger] events[k] == SessionEvent::LoggedIn(id);
        assert(events[k] is LoggedIn);
        assert(!(events[j] is LoggedIn));
    }
    assert forall|i: int| 0 <= i < actions.len() && (
    #[trigger] actions[i]) is Disconnect implies let_in(
        events,
        i + 1,
        actions[i]->Disconnect_0,
    ) by {
        lemma_run(events, i + 1);
    }
}

/// A connection that has ended and that has let a player in, in whatever order, has
/// reported that player gone.
pub proof fn the_end_is_reported(events: Seq<SessionEvent>, player_id: PlayerId, end: int)
    requires
        one_login(events),
        let_in(events, events.len() as int, player_id),
        0 <= end < events.len(),
        events[end] is Ended,
    ensures
        reported(responses(Session::fresh(), events), events.len() as int, player_id),
{
    lemma_run(events, events.len() as int);
}

proof fn lemma_connected(events: Seq<SessionEvent>, n: int)
    requires
        1 <= n <= events.len(),
        events[0] is Opened,
    ensures
        after_events(Session::fresh(), events.take(n)).connected,
    decreases n,
{
    assert(events.take(n).drop_last() =~= events.take(n - 1));
    assert(events.take(n).last() == events[n - 1]);
    if n == 1 {
        assert(events.take(0) =~= Seq::<SessionEvent>::empty());
    } else {
        lemma_connected(events, n - 1);
    }
}

/// A connection begins with word to the world that there is a new client. That comes
/// before anything else that is done for it, and comes once.
pub proof fn the_world_is_told_first(events: Seq<SessionEvent>)
    requires
        events.len() > 0,
        events[0] is Opened,
    ensures
        ({
            let actions = responses(Session::fresh(), events);
            &&& actions[0] is Connect
            &&& forall|i: int| 0 < i < actions.len() ==> !((#[trigger] actions[i]) is Connect)
        }),
{
    let actions = responses(Session::fresh(), events);
    assert(events.take(0) =~= Seq::<SessionEvent>::empty());
    assert(actions[0] == Session::fresh().response(events[0]));
    assert forall|i: int| 0 < i < actions.len() implies !((#[trigger] actions[i]) is Connect) by {
        lemma_connected(events, i);
    }
}

/// What a client sends, its own socket hands to the world as it was meant: the bytes
/// of a message, received on a player's open connection, are passed on as that
/// message.
pub proof fn sent_messages_are_forwarded(
    session: Session,
    player_id: PlayerId,
    message: ClientToServerMsg,
    bytes: Vec<u8>,
)
    requires
        !session.closed,
        session.player_id == Some(player_id),
        bytes@ == client_msg_bytes(message),
    ensures
        session.response(SessionEvent::Received(Frame::Binary(bytes))) == SessionAction::Forward(
            ClientMessage { player_id, message },
        ),
{
    client_msg_read_back(message, Seq::empty());
    assert(bytes@ + Seq::<u8>::empty() =~= bytes@);
}

/// A client that pings gets an answer that it understands: its bytes are taken for a
/// ping of its player, and the answer's bytes for a pong.
pub proof fn a_ping_is_answered(session: Session, player_id: PlayerId, bytes: Vec<u8>)
    requires
        !session.closed,
        session.player_id == Some(player_id),
        bytes@ == client_msg_bytes(ClientToServerMsg::Ping),
    ensures
        session.response(SessionEvent::Received(Frame::Binary(bytes))) matches
            SessionAction::Forward(message) && message.player_id == player_id
            && message.message is Ping,
        parse_server_msg(server_msg_bytes(ServerNews::Pong)) == Some(ServerNews::Pong),
{
    sent_messages_are_forwarded(session, player_id, ClientToServerMsg::Ping, bytes);
    server_msg_read_back(ServerNews::Pong, Seq::empty());
    assert(server_msg_bytes(ServerNews::Pong) + Seq::<u8>::empty() =~= server_msg_bytes(
        ServerNews::Pong,
    ));
}

} // verus!
