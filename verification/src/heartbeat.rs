//! The heartbeat protocol: what a datagram from a server means, what it
//! does to the registry and what is sent back.

use crate::addr::{socket_addr, SocketAddress};
use crate::registry::{bound_slot, identified, refreshed, slot_of, Registry, Server};
use crate::text::{
    chars_of, decode_lossy, lemma_find_contains, lossy_text, position, split_whitespace, tokens,
    trim, trimmed, views,
};
use vstd::prelude::*;

verus! {

/// The number of bytes of a datagram that are read; what is beyond is cut off.
pub const DATAGRAM_LIMIT: usize = 128;

/// What the text of a datagram says.
#[derive(Clone, Copy, Debug, PartialEq, Eq)]
pub enum Message {
    /// The liveness token.
    Liveness,
    /// A server names the pair of addresses it was configured with.
    Identify { tcp_addr: SocketAddress, udp_addr: SocketAddress },
    /// Two tokens, of which one at least is no socket address.
    Unparseable,
    /// A space in it, but not two tokens.
    Malformed,
    /// Anything else.
    Unexpected,
}

/// The liveness token, `OK`.
pub open spec fn liveness_token() -> Seq<char> {
    seq!['O', 'K']
}

/// What `text` says, the white space at its two ends set aside.
pub open spec fn classify(text: Seq<char>) -> Message {
    let m = trim(text);
    if m == liveness_token() {
        Message::Liveness
    } else if m.contains(' ') {
        let parts = tokens(m);
        if parts.len() == 2 {
            match (socket_addr(parts[0]), socket_addr(parts[1])) {
                (Some(tcp_addr), Some(udp_addr)) => Message::Identify { tcp_addr, udp_addr },
                _ => Message::Unparseable,
            }
        } else {
            Message::Malformed
        }
    } else {
        Message::Unexpected
    }
}

/// Reads a message.
pub fn read_message(text: &[char]) -> (m: Message)
    ensures
        m == classify(text@),
{
    let body = trimmed(text);
    if body.len() == 2 && body[0] == 'O' && body[1] == 'K' {
        assert(body@ == liveness_token());
        return Message::Liveness;
    }
    assert(body@ != liveness_token()) by {
        if body@ == liveness_token() {
            assert(body@.len() == 2 && body@[0] == 'O' && body@[1] == 'K');
        }
    }
    proof {
        lemma_find_contains(body@, ' ');
    }
    if position(body, ' ') >= body.len() {
        return Message::Unexpected;
    }
    let parts = split_whitespace(body);
    if parts.len() != 2 {
        return Message::Malformed;
    }
    assert(views(parts@)[0] == parts@[0]@);
    assert(views(parts@)[1] == parts@[1]@);
    match (SocketAddress::parse(parts[0]), SocketAddress::parse(parts[1])) {
        (Some(tcp_addr), Some(udp_addr)) => Message::Identify { tcp_addr, udp_addr },
        _ => Message::Unparseable,
    }
}

/// What the registry made of a datagram.
#[derive(Clone, Copy, Debug, PartialEq, Eq)]
pub enum Outcome {
    /// The sender is now bound to this slot, which is up.
    Identified { slot: usize },
    /// The sender's slot is alive; `back_online` where it was down before.
    Alive { slot: usize, back_online: bool },
    /// A liveness token from an address that no slot is bound to.
    UnknownSender,
    /// An identification with a pair that no slot was configured with.
    UnknownPair { tcp_addr: SocketAddress, udp_addr: SocketAddress },
    /// See `Message::Unparseable`.
    Unparseable,
    /// See `Message::Malformed`.
    Malformed,
    /// See `Message::Unexpected`.
    Unexpected,
}

/// What the proxy sends back to a server.
#[derive(Clone, Copy, Debug, PartialEq, Eq)]
pub enum Reply {
    /// `OK`: the identification is accepted.
    Ack,
    /// `AUTH`: the sender is asked to identify itself.
    Challenge,
}

/// The reply that an outcome calls for, if it calls for one.
pub open spec fn reply_to(o: Outcome) -> Option<Reply> {
    match o {
        Outcome::Identified { .. } => Some(Reply::Ack),
        Outcome::UnknownSender => Some(Reply::Challenge),
        _ => None,
    }
}

impl Outcome {
    /// The reply that this outcome calls for, if it calls for one.
    pub fn reply(&self) -> (r: Option<Reply>)
        ensures
            r == reply_to(*self),
    {
        match self {
            Outcome::Identified { .. } => Some(Reply::Ack),
            Outcome::UnknownSender => Some(Reply::Challenge),
            _ => None,
        }
    }
}

impl Reply {
    /// The text of the reply on the wire.
    pub open spec fn spec_text(self) -> Seq<char> {
        match self {
            Reply::Ack => "OK"@,
            Reply::Challenge => "AUTH"@,
        }
    }

    /// The text of the reply on the wire.
    pub fn text(&self) -> (t: &'static str)
        ensures
            t@ == self.spec_text(),
    {
        match self {
            Reply::Ack => "OK",
            Reply::Challenge => "AUTH",
        }
    }
}

/// The registry after a message with this text has come from `from` at time
/// `now`, and what came of it.
pub open spec fn handled(servers: Seq<Server>, text: Seq<char>, from: SocketAddress, now: u64) -> (
    Seq<Server>,
    Outcome,
) {
    match classify(text) {
        Message::Liveness => match bound_slot(servers, from) {
            Some(k) => (
                refreshed(servers, k, now),
                Outcome::Alive { slot: k as usize, back_online: !servers[k].is_up },
            ),
            None => (servers, Outcome::UnknownSender),
        },
        Message::Identify { tcp_addr, udp_addr } => match slot_of(servers, tcp_addr, udp_addr) {
            Some(k) => (
                identified(servers, k, from, now),
                Outcome::Identified { slot: k as usize },
            ),
            None => (servers, Outcome::UnknownPair { tcp_addr, udp_addr }),
        },
        Message::Unparseable => (servers, Outcome::Unparseable),
        Message::Malformed => (servers, Outcome::Malformed),
        Message::Unexpected => (servers, Outcome::Unexpected),
    }
}

impl Registry {
    /// Takes a message in that came from `from` at time `now`.
    pub fn handle_message(&mut self, text: &[char], from: SocketAddress, now: u64) -> (o: Outcome)
        ensures
            (final(self)@, o) == handled(old(self)@, text@, from, now),
            old(self).wf() ==> final(self).wf(),
    {
        match read_message(text) {
            Message::Liveness => match self.find_by_identifier(from) {
                Some(k) => {
                    let back_online = self.refresh(k, now);
                    Outcome::Alive { slot: k, back_online }
                },
                None => Outcome::UnknownSender,
            },
            Message::Identify { tcp_addr, udp_addr } => match self.find_by_pair(
                tcp_addr,
                udp_addr,
            ) {
                Some(k) => {
                    self.bind(k, from, now);
                    Outcome::Identified { slot: k }
                },
                None => Outcome::UnknownPair { tcp_addr, udp_addr },
            },
            Message::Unparseable => Outcome::Unparseable,
            Message::Malformed => Outcome::Malformed,
            Message::Unexpected => Outcome::Unexpected,
        }
    }

    /// Takes a datagram in that came from `from` at time `now`: its bytes
    /// are decoded as UTF-8, malformed parts replaced, and handled as a
    /// message. Well-formed UTF-8 is handled as the text that it encodes.
    pub fn handle_datagram(&mut self, datagram: &[u8], from: SocketAddress, now: u64) -> (o:
        Outcome)
        ensures
            (final(self)@, o) == handled(old(self)@, lossy_text(datagram@), from, now),
            vstd::utf8::valid_utf8(datagram@) ==> (final(self)@, o) == handled(
                old(self)@,
                vstd::utf8::decode_utf8(datagram@),
                from,
                now,
            ),
            old(self).wf() ==> final(self).wf(),
    {
        let text = chars_of(decode_lossy(datagram).as_str());
        self.handle_message(text.as_slice(), from, now)
    }
}

} // verus!
