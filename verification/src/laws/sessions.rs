//! What is done for a connection, in terms of all that has happened to it.
use crate::session::{after_events, responses, Frame, Session, SessionAction, SessionEvent};
use crate::shared::PlayerId;
use crate::wire::parse_client_msg;
use crate::world::ClientMessage;
use vstd::prelude::*;

verus! {

/// Whether the connection has ended among the first `n` events.
pub open spec fn over_by(events: Seq<SessionEvent>, n: int) -> bool {
    exists|k: int| 0 <= k < n && (#[trigger] events[k]) is Ended
}

/// Whether the socket was opened among the first `n` events.
pub open spec fn opened_by(events: Seq<SessionEvent>, n: int) -> bool {
    exists|k: int| 0 <= k < n && (#[trigger] events[k]) is Opened
}

/// Whether the event at `k` is the last of the first `n` that lets a player in, and lets
/// this one in.
pub open spec fn last_let_in(
    events: Seq<SessionEvent>,
    n: int,
    k: int,
    player_id: PlayerId,
) -> bool {
    &&& 0 <= k < n
    &&& events[k] == SessionEvent::LoggedIn(player_id)
    &&& forall|l: int| k < l < n ==> !((#[trigger] events[l]) is LoggedIn)
}

/// Whether nobody is let in among the first `n` events.
pub open spec fn nobody_let_in(events: Seq<SessionEvent>, n: int) -> bool {
    forall|l: int| 0 <= l < n ==> !((#[trigger] events[l]) is LoggedIn)
}

proof fn lemma_state(events: Seq<SessionEvent>, n: int)
    requires
        0 <= n <= events.len(),
    ensures
        ({
            let now = after_events(Session::fresh(), events.take(n));
            &&& now.closed == over_by(events, n)
            &&& !over_by(events, n) ==> now.connected == opened_by(events, n)
            &&& !over_by(events, n) && nobody_let_in(events, n) ==> now.player_id is None
            &&& !over_by(events, n) ==> forall|k: int, id: PlayerId| #[trigger]
                last_let_in(events, n, k, id) ==> now.player_id == Some(id)
        }),
    decreases n,
{
    if n > 0 {
        let m = n - 1;
        lemma_state(events, m);
        let before = after_events(Session::fresh(), events.take(m));
        let now = after_events(Session::fresh(), events.take(n));
        let event = events[m];
        assert(events.take(n).drop_last() =~= events.take(m));
        assert(events.take(n).last() == event);
        assert(now == before.after(event));
        assert(over_by(events, n) == (over_by(events, m) || event is Ended)) by {
            if over_by(events, m) {
                let k = choose|k: int| 0 <= k < m && (#[trigger] events[k]) is Ended;
                assert(events[k] is Ended);
            }
            if event is Ended {
                assert(events[m] is Ended);
            }
        }
        assert(opened_by(events, n) == (opened_by(events, m) || event is Opened)) by {
            if opened_by(events, m) {
                let k = choose|k: int| 0 <= k < m && (#[trigger] events[k]) is Opened;
                assert(events[k] is Opened);
            }
            if event is Opened {
                assert(events[m] is Opened);
            }
        }
        if nobody_let_in(events, n) {
            assert(!(events[m] is LoggedIn));
        }
        if !over_by(events, n) {
            assert forall|k: int, id: PlayerId| #[trigger]
                last_let_in(events, n, k, id) implies now.player_id == Some(id) by {
                if k < m {
                    assert(last_let_in(events, m, k, id));
                    assert(!(events[m] is LoggedIn));
                }
            }
        }
    }
}

/// While a connection is not over, every message that it receives is passed on as one of
/// the player who was let in last. Bytes that hold no message, and other frames, are not.
pub proof fn what_players_send_is_passed_on(
    events: Seq<SessionEvent>,
    j: int,
    k: int,
    player_id: PlayerId,
    frame: Frame,
)
    requires
        0 <= j < events.len(),
        !over_by(events, j),
        last_let_in(events, j, k, player_id),
        events[j] == SessionEvent::Received(frame),
    ensures
        responses(Session::fresh(), events)[j] == (match frame {
            Frame::Binary(bytes) => match parse_client_msg(bytes@) {
                Some(message) => SessionAction::Forward(ClientMessage { player_id, message }),
                None => SessionAction::Wait,
            },
            Frame::Other => SessionAction::Wait,
        }),
{
    lemma_state(events, j);
}

/// Until a player is let in, nothing that a connection receives is passed on.
pub proof fn what_strangers_send_is_not_passed_on(
    events: Seq<SessionEvent>,
    j: int,
    frame: Frame,
)
    requires
        0 <= j < events.len(),
        !over_by(events, j),
        nobody_let_in(events, j),
        events[j] == SessionEvent::Received(frame),
    ensures
        responses(Session::fresh(), events)[j] == SessionAction::Wait,
{
    lemma_state(events, j);
}

/// When a connection ends, the player who was let in last is reported gone; without one
/// the connection is closed.
pub proof fn ends_are_reported(
    events: Seq<SessionEvent>,
    j: int,
    k: int,
    player_id: PlayerId,
)
    requires
        0 <= j < events.len(),
        !over_by(events, j),
        events[j] is Ended,
    ensures
        last_let_in(events, j, k, player_id) ==> responses(Session::fresh(), events)[j]
            == SessionAction::Disconnect(player_id),
        nobody_let_in(events, j) ==> responses(Session::fresh(), events)[j]
            == SessionAction::Close,
{
    lemma_state(events, j);
}

/// When the socket opens for the first time, and the connection is not over, the world is
/// told. When it opens again, nothing is done; and letting a player in is no cause to do
/// anything while the connection lasts.
pub proof fn openings_are_told_once(events: Seq<SessionEvent>, j: int)
    requires
        0 <= j < events.len(),
        !over_by(events, j),
    ensures
        events[j] is Opened ==> responses(Session::fresh(), events)[j] == (if opened_by(events, j) {
            SessionAction::Wait
        } else {
            SessionAction::Connect
        }),
        events[j] is LoggedIn ==> responses(Session::fresh(), events)[j] == SessionAction::Wait,
{
    lemma_state(events, j);
}

/// Once a connection is over nothing is done for it any more, but that a player who is let
/// in is reported gone.
pub proof fn what_comes_after_the_end(events: Seq<SessionEvent>, j: int)
    requires
        0 <= j < events.len(),
        over_by(events, j),
    ensures
        responses(Session::fresh(), events)[j] == (match events[j] {
            SessionEvent::LoggedIn(player_id) => SessionAction::Disconnect(player_id),
            _ => SessionAction::Wait,
        }),
{
    lemma_state(events, j);
}

/// Events that come in two parts do what they do together.
pub proof fn events_add_up(session: Session, a: Seq<SessionEvent>, b: Seq<SessionEvent>)
    ensures
        after_events(session, a + b) == after_events(after_events(session, a), b),
        after_events(session, Seq::empty()) == session,
    decreases b.len(),
{
    if b.len() > 0 {
        assert((a + b).drop_last() =~= a + b.drop_last());
        assert((a + b).last() == b.last());
        events_add_up(session, a, b.drop_last());
    } else {
        assert(a + b =~= a);
    }
}

} // verus!
