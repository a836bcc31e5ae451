//! The connection relay: what is done with one accepted connection, step by
//! step, and what a refused peer is sent.

use crate::addr::SocketAddress;
use vstd::prelude::*;
use vstd::string::StringExecFns;

verus! {

/// The response code of every refusal.
pub const SERVICE_UNAVAILABLE: u16 = 503;

/// Seconds after which an attempt to connect counts as failed.
pub const CONNECT_TIMEOUT: u64 = 5;

/// What a peer is sent in place of a relay.
#[derive(Clone, Debug, PartialEq, Eq)]
pub struct ErrorMsg {
    pub response_code: u16,
    pub response_text: String,
}

/// The listener a connection came in on, and so the side it is relayed to.
#[derive(Clone, Copy, Debug, PartialEq, Eq, Structural)]
pub enum Route {
    /// Single tier: from a client to a logic server.
    ClientToLogic,
    /// Two tiers: from a logic server to a data server.
    LogicToData,
    /// Two tiers: from a data server to a logic server.
    DataToLogic,
}

/// Why a connection is refused.
#[derive(Clone, Copy, Debug, PartialEq, Eq, Structural)]
pub enum Refusal {
    /// No server of the other side is up.
    Unavailable,
    /// The selected server could not be connected to.
    Unreachable,
}

/// The text that tells a peer why it is refused.
pub open spec fn refusal_text(route: Route, refusal: Refusal) -> Seq<char> {
    match (route, refusal) {
        (Route::ClientToLogic, Refusal::Unavailable) => "No available backend"@,
        (Route::ClientToLogic, Refusal::Unreachable) => "Could not connect to backend"@,
        (Route::LogicToData, Refusal::Unavailable) => "No backend available"@,
        (Route::LogicToData, Refusal::Unreachable) => "Failed to connect to backend"@,
        (Route::DataToLogic, Refusal::Unavailable) => "No frontend available"@,
        (Route::DataToLogic, Refusal::Unreachable) => "Failed to connect to frontend"@,
    }
}

/// The name of the member that holds the code.
pub open spec fn code_key() -> Seq<char> {
    "response_code"@
}

/// The name of the member that holds the text.
pub open spec fn text_key() -> Seq<char> {
    "response_text"@
}

/// The bytes of a JSON object, compact, with two members: a number under
/// one name and a string under another.
pub uninterp spec fn json_object(
    code_key: Seq<char>,
    code: u16,
    text_key: Seq<char>,
    text: Seq<char>,
) -> Seq<u8>;

/// `serde_json::to_vec` on a `serde_json::Value::Object` that holds, put in
/// by `serde_json::Map::insert`, the number under the first name and the
/// string under the second: the result is the JSON text of that object,
/// which these four values determine.
#[verifier::external_body]
fn encode_object(code_key: &str, code: u16, text_key: &str, text: &str) -> (out: Vec<u8>)
    ensures
        out@ == json_object(code_key@, code, text_key@, text@),
{
    let mut members = serde_json::Map::new();
    members.insert(code_key.to_string(), serde_json::Value::from(code));
    members.insert(text_key.to_string(), serde_json::Value::from(text));
    serde_json::to_vec(&serde_json::Value::Object(members)).unwrap_or_default()
}

impl ErrorMsg {
    /// What a peer that is refused on `route` for `refusal` is sent.
    pub fn refusing(route: Route, refusal: Refusal) -> (e: ErrorMsg)
        ensures
            e.response_code == SERVICE_UNAVAILABLE,
            e.response_text@ == refusal_text(route, refusal),
    {
        let text = match (route, refusal) {
            (Route::ClientToLogic, Refusal::Unavailable) => "No available backend",
            (Route::ClientToLogic, Refusal::Unreachable) => "Could not connect to backend",
            (Route::LogicToData, Refusal::Unavailable) => "No backend available",
            (Route::LogicToData, Refusal::Unreachable) => "Failed to connect to backend",
            (Route::DataToLogic, Refusal::Unavailable) => "No frontend available",
            (Route::DataToLogic, Refusal::Unreachable) => "Failed to connect to frontend",
        };
        ErrorMsg { response_code: SERVICE_UNAVAILABLE, response_text: String::from_str(text) }
    }

    /// The bytes to write to the peer: one JSON object with the code under
    /// `response_code` and the text under `response_text`.
    pub fn to_json(&self) -> (out: Vec<u8>)
        ensures
            out@ == json_object(code_key(), self.response_code, text_key(), self.response_text@),
    {
        encode_object(
            "response_code",
            self.response_code,
            "response_text",
            self.response_text.as_str(),
        )
    }
}

/// How far a connection has come.
#[derive(Clone, Copy, Debug, PartialEq, Eq, Structural)]
pub enum Phase {
    /// Accepted; no destination asked for yet.
    Accepted,
    /// A connection to the destination is being made.
    Dialing { dest: SocketAddress },
    /// Bytes go both ways between the peer and the destination.
    Relaying { dest: SocketAddress },
    /// Done with, either way.
    Closed,
}

/// What has happened to a connection.
#[derive(Clone, Copy, Debug, PartialEq, Eq)]
pub enum Event {
    /// The selector has answered.
    Selected(Option<SocketAddress>),
    /// The destination has accepted the connection.
    Connected,
    /// The destination could not be connected to in time.
    ConnectFailed,
    /// One side has closed or failed.
    Finished,
}

/// What is to be done with a connection next.
#[derive(Clone, Copy, Debug, PartialEq, Eq, Structural)]
pub enum Action {
    /// Connect to this address.
    Dial(SocketAddress),
    /// Write the refusal to the peer and close.
    Refuse(Refusal),
    /// Relay bytes both ways until one side closes or fails.
    Splice,
    /// Close what is open.
    Close,
}

/// The next phase of a connection and what is to be done, by its phase and
/// what has happened. An event that the phase does not wait for closes the
/// connection.
pub open spec fn step(phase: Phase, event: Event) -> (Phase, Action) {
    match (phase, event) {
        (Phase::Accepted, Event::Selected(Some(dest))) => (
            Phase::Dialing { dest },
            Action::Dial(dest),
        ),
        (Phase::Accepted, Event::Selected(None)) => (
            Phase::Closed,
            Action::Refuse(Refusal::Unavailable),
        ),
        (Phase::Dialing { dest }, Event::Connected) => (Phase::Relaying { dest }, Action::Splice),
        (Phase::Dialing { .. }, Event::ConnectFailed) => (
            Phase::Closed,
            Action::Refuse(Refusal::Unreachable),
        ),
        _ => (Phase::Closed, Action::Close),
    }
}

/// Reads `step(phase, event)`.
pub fn advance(phase: Phase, event: Event) -> (r: (Phase, Action))
    ensures
        r == step(phase, event),
{
    match (phase, event) {
        (Phase::Accepted, Event::Selected(Some(dest))) => (
            Phase::Dialing { dest },
            Action::Dial(dest),
        ),
        (Phase::Accepted, Event::Selected(None)) => (
            Phase::Closed,
            Action::Refuse(Refusal::Unavailable),
        ),
        (Phase::Dialing { dest }, Event::Connected) => (Phase::Relaying { dest }, Action::Splice),
        (Phase::Dialing { .. }, Event::ConnectFailed) => (
            Phase::Closed,
            Action::Refuse(Refusal::Unreachable),
        ),
        _ => (Phase::Closed, Action::Close),
    }
}

/// The phase that a connection in `phase` is in after these events.
pub open spec fn phase_after(phase: Phase, events: Seq<Event>) -> Phase
    decreases events.len(),
{
    if events.len() == 0 {
        phase
    } else {
        step(phase_after(phase, events.drop_last()), events.last()).0
    }
}

/// What is done on the `i`-th of these events to a connection that was in
/// `phase` before them.
pub open spec fn action_at(phase: Phase, events: Seq<Event>, i: int) -> Action {
    step(phase_after(phase, events.take(i)), events[i]).1
}

/// Once closed, a connection stays closed and nothing more is done with it.
pub proof fn lemma_closed_is_final(events: Seq<Event>)
    ensures
        phase_after(Phase::Closed, events) == Phase::Closed,
        forall|i: int|
            0 <= i < events.len() ==> #[trigger] action_at(Phase::Closed, events, i)
                == Action::Close,
    decreases events.len(),
{
    if events.len() > 0 {
        lemma_closed_is_final(events.drop_last());
    }
    assert forall|i: int| 0 <= i < events.len() implies #[trigger] action_at(
        Phase::Closed,
        events,
        i,
    ) == Action::Close by {
        lemma_closed_is_final(events.take(i));
    }
}

/// Going through events one after another is going through them at once.
proof fn lemma_phase_after_first(phase: Phase, events: Seq<Event>)
    requires
        events.len() > 0,
    ensures
        phase_after(phase, events) == phase_after(step(phase, events[0]).0, events.drop_first()),
    decreases events.len(),
{
    if events.len() == 1 {
        assert(events.drop_last() == Seq::<Event>::empty());
        assert(events.drop_first() == Seq::<Event>::empty());
        assert(phase_after(phase, events.drop_last()) == phase);
    } else {
        lemma_phase_after_first(phase, events.drop_last());
        assert(events.drop_last().drop_first() == events.drop_first().drop_last());
        assert(events.drop_last()[0] == events[0]);
    }
}

/// A connection for which no server is available is refused at once and
/// never dialled: whatever happens after, nothing is done but closing.
pub proof fn lemma_unavailable_never_dials(events: Seq<Event>)
    requires
        events.len() > 0,
        events[0] == Event::Selected(None),
    ensures
        action_at(Phase::Accepted, events, 0) == Action::Refuse(Refusal::Unavailable),
        forall|i: int|
            0 < i < events.len() ==> #[trigger] action_at(Phase::Accepted, events, i)
                == Action::Close,
        phase_after(Phase::Accepted, events) == Phase::Closed,
{
    assert(events.take(0) == Seq::<Event>::empty());
    assert forall|i: int| 0 < i <= events.len() implies phase_after(
        Phase::Accepted,
        #[trigger] events.take(i),
    ) == Phase::Closed by {
        let front = events.take(i);
        lemma_phase_after_first(Phase::Accepted, front);
        lemma_closed_is_final(front.drop_first());
    }
    assert(events.take(events.len() as int) == events);
}

/// A connection whose destination cannot be reached is refused and never
/// relayed: after the one attempt to connect nothing is done but closing.
pub proof fn lemma_unreachable_never_relays(events: Seq<Event>, dest: SocketAddress)
    requires
        events.len() > 1,
        events[0] == Event::Selected(Some(dest)),
        events[1] == Event::ConnectFailed,
    ensures
        action_at(Phase::Accepted, events, 0) == Action::Dial(dest),
        action_at(Phase::Accepted, events, 1) == Action::Refuse(Refusal::Unreachable),
        forall|i: int|
            1 < i < events.len() ==> #[trigger] action_at(Phase::Accepted, events, i)
                == Action::Close,
        phase_after(Phase::Accepted, events) == Phase::Closed,
{
    assert(events.take(0) == Seq::<Event>::empty());
    assert(phase_after(Phase::Accepted, events.take(1)) == Phase::Dialing { dest }) by {
        let one = events.take(1);
        assert(one.drop_last() == Seq::<Event>::empty());
        assert(one.last() == events[0]);
    }
    assert forall|i: int| 1 < i <= events.len() implies phase_after(
        Phase::Accepted,
        #[trigger] events.take(i),
    ) == Phase::Closed by {
        let front = events.take(i);
        lemma_phase_after_first(Phase::Accepted, front);
        let rest = front.drop_first();
        lemma_phase_after_first(Phase::Dialing { dest }, rest);
        lemma_closed_is_final(rest.drop_first());
    }
    assert(events.take(events.len() as int) == events);
}

} // verus!
