//! The registry over time: what holds of it after any run of datagrams and
//! sweeps.

use crate::addr::{is_address_char, lemma_socket_addr_text, socket_addr, SocketAddress};
use crate::expiry::{elapsed, stale, swept, times_out, NANOS_PER_SEC, TIMEOUT};
use crate::heartbeat::{
    classify, handled, liveness_token, reply_to, Message, Outcome, Reply,
};
use crate::registry::{
    bound_slot, identified, is_bound_slot, is_slot_of, lemma_bound_slot_is, lemma_identified_wf,
    lemma_refreshed_wf, lemma_slot_of_is, refreshed, registry_wf, slot_of, Server,
};
use crate::text::{is_whitespace, lemma_tokens_of_pair, tokens, trim};
use vstd::prelude::*;

verus! {

/// One thing that happens to a registry.
pub enum Input {
    /// A datagram with this text comes from `from` at time `now`.
    Datagram { text: Seq<char>, from: SocketAddress, now: u64 },
    /// The expiry monitor sweeps at time `now`.
    Sweep { now: u64 },
}

/// The slots after one input.
pub open spec fn after_input(servers: Seq<Server>, input: Input) -> Seq<Server> {
    match input {
        Input::Datagram { text, from, now } => handled(servers, text, from, now).0,
        Input::Sweep { now } => swept(servers, now),
    }
}

/// The slots after a run of inputs, the first one first.
pub open spec fn after(servers: Seq<Server>, inputs: Seq<Input>) -> Seq<Server>
    decreases inputs.len(),
{
    if inputs.len() == 0 {
        servers
    } else {
        after(after_input(servers, inputs[0]), inputs.drop_first())
    }
}

/// The first slot of each kind is a slot.
proof fn lemma_first_slots_in_range(servers: Seq<Server>)
    ensures
        forall|from: SocketAddress|
            (#[trigger] bound_slot(servers, from)) matches Some(k) ==> is_bound_slot(
                servers,
                from,
                k,
            ),
        forall|tcp_addr: SocketAddress, udp_addr: SocketAddress|
            (#[trigger] slot_of(servers, tcp_addr, udp_addr)) matches Some(k) ==> is_slot_of(
                servers,
                tcp_addr,
                udp_addr,
                k,
            ),
{
}

/// One input keeps a registry well formed, its slots in number and place,
/// and the two configured addresses of each.
pub proof fn lemma_input_keeps_registry(servers: Seq<Server>, input: Input)
    requires
        registry_wf(servers),
    ensures
        registry_wf(after_input(servers, input)),
        after_input(servers, input).len() == servers.len(),
        forall|i: int|
            0 <= i < servers.len() ==> (#[trigger] after_input(servers, input)[i]).tcp_addr
                == servers[i].tcp_addr && after_input(servers, input)[i].udp_addr
                == servers[i].udp_addr,
{
    lemma_first_slots_in_range(servers);
    match input {
        Input::Datagram { text, from, now } => {
            match classify(text) {
                Message::Liveness => {
                    if let Some(k) = bound_slot(servers, from) {
                        lemma_refreshed_wf(servers, k, now);
                    }
                },
                Message::Identify { tcp_addr, udp_addr } => {
                    if let Some(k) = slot_of(servers, tcp_addr, udp_addr) {
                        lemma_identified_wf(servers, k, from, now);
                    }
                },
                _ => {},
            }
        },
        Input::Sweep { now } => {
            lemma_swept_wf(servers, now);
        },
    }
}

/// A sweep keeps a registry well formed.
pub proof fn lemma_swept_wf(servers: Seq<Server>, now: u64)
    requires
        registry_wf(servers),
    ensures
        registry_wf(swept(servers, now)),
{
}

/// Whatever datagrams and sweeps a well-formed registry goes through, it
/// stays well formed, keeps its slots in number and place, and keeps the two
/// configured addresses of each; and a slot that has never been heard of is
/// down.
pub proof fn lemma_down_until_heard(servers: Seq<Server>, inputs: Seq<Input>)
    requires
        registry_wf(servers),
    ensures
        registry_wf(after(servers, inputs)),
        after(servers, inputs).len() == servers.len(),
        forall|i: int|
            0 <= i < servers.len() ==> (#[trigger] after(servers, inputs)[i]).tcp_addr
                == servers[i].tcp_addr && after(servers, inputs)[i].udp_addr
                == servers[i].udp_addr,
        forall|i: int|
            0 <= i < servers.len() && (#[trigger] after(servers, inputs)[i]).last_heartbeat
                is None ==> !after(servers, inputs)[i].is_up,
    decreases inputs.len(),
{
    if inputs.len() > 0 {
        let next = after_input(servers, inputs[0]);
        lemma_input_keeps_registry(servers, inputs[0]);
        lemma_down_until_heard(next, inputs.drop_first());
        assert forall|i: int| 0 <= i < servers.len() implies (#[trigger] after(
            servers,
            inputs,
        )[i]).tcp_addr == servers[i].tcp_addr && after(servers, inputs)[i].udp_addr
            == servers[i].udp_addr by {
            assert(next[i].tcp_addr == servers[i].tcp_addr);
        }
    }
}

/// Only a sweep takes a slot down: after a datagram every slot that was up
/// is up.
pub proof fn lemma_datagram_never_lowers(
    servers: Seq<Server>,
    text: Seq<char>,
    from: SocketAddress,
    now: u64,
    i: int,
)
    requires
        0 <= i < servers.len(),
        servers[i].is_up,
    ensures
        handled(servers, text, from, now).0[i].is_up,
{
    lemma_first_slots_in_range(servers);
}

/// Only a datagram brings a slot up: after a sweep no slot is up that was
/// down.
pub proof fn lemma_sweep_never_raises(servers: Seq<Server>, now: u64, i: int)
    requires
        0 <= i < servers.len(),
        !servers[i].is_up,
    ensures
        !swept(servers, now)[i].is_up,
{
}

/// An identification with the pair that slot `k` is the first to be
/// configured with binds the sender to that slot, brings the slot up and is
/// answered with `OK`.
pub proof fn lemma_identify_binds(
    servers: Seq<Server>,
    text: Seq<char>,
    tcp_addr: SocketAddress,
    udp_addr: SocketAddress,
    from: SocketAddress,
    now: u64,
    k: int,
)
    requires
        classify(text) == (Message::Identify { tcp_addr, udp_addr }),
        is_slot_of(servers, tcp_addr, udp_addr, k),
    ensures
        handled(servers, text, from, now).0[k].addr_identifier == Some(from),
        handled(servers, text, from, now).0[k].is_up,
        handled(servers, text, from, now).0[k].last_heartbeat == Some(now),
        handled(servers, text, from, now).1 == (Outcome::Identified { slot: k as usize }),
        reply_to(handled(servers, text, from, now).1) == Some(Reply::Ack),
{
    lemma_slot_of_is(servers, tcp_addr, udp_addr, k);
}

/// Two texts that each write a socket address, with one space between them,
/// are an identification with that pair.
pub proof fn lemma_pair_is_identification(
    t: Seq<char>,
    u: Seq<char>,
    tcp_addr: SocketAddress,
    udp_addr: SocketAddress,
)
    requires
        socket_addr(t) == Some(tcp_addr),
        socket_addr(u) == Some(udp_addr),
    ensures
        classify(t + seq![' '] + u) == (Message::Identify { tcp_addr, udp_addr }),
{
    let m = t + seq![' '] + u;
    assert(trim(m) == m && tokens(m) == seq![t, u]) by {
        lemma_socket_addr_text(t);
        lemma_socket_addr_text(u);
        assert forall|i: int| 0 <= i < t.len() implies !is_whitespace(#[trigger] t[i]) by {
            assert(is_address_char(t[i]));
        }
        assert forall|i: int| 0 <= i < u.len() implies !is_whitespace(#[trigger] u[i]) by {
            assert(is_address_char(u[i]));
        }
        lemma_tokens_of_pair(t, u);
    }
    assert(m.contains(' ')) by {
        assert(m[t.len() as int] == ' ');
    }
    assert(m != liveness_token()) by {
        assert(m.len() == t.len() + 1 + u.len());
        assert(liveness_token().len() == 2);
    }
    let parts = tokens(m);
    assert(parts.len() == 2 && parts[0] == t && parts[1] == u);
}

/// A liveness token from an address that no slot is bound to changes
/// nothing, so brings no slot up, and is answered with `AUTH`.
pub proof fn lemma_unknown_sender_challenged(
    servers: Seq<Server>,
    text: Seq<char>,
    from: SocketAddress,
    now: u64,
)
    requires
        classify(text) == Message::Liveness,
        forall|i: int|
            0 <= i < servers.len() ==> (#[trigger] servers[i]).addr_identifier != Some(from),
    ensures
        handled(servers, text, from, now).0 == servers,
        handled(servers, text, from, now).1 == Outcome::UnknownSender,
        reply_to(handled(servers, text, from, now).1) == Some(Reply::Challenge),
{
    assert forall|i: int| !is_bound_slot(servers, from, i) by {
        if is_bound_slot(servers, from, i) {
            assert(servers[i].addr_identifier == Some(from));
        }
    }
}

/// Whether a run holds nothing but liveness tokens from `from` and sweeps,
/// with every sweep no later than the timeout after the last sign of life
/// before it, which at the start was at `last`.
pub open spec fn paced(inputs: Seq<Input>, from: SocketAddress, last: u64) -> bool
    decreases inputs.len(),
{
    if inputs.len() == 0 {
        true
    } else {
        match inputs[0] {
            Input::Datagram { text, from: sender, now } => sender == from && classify(text)
                == Message::Liveness && paced(inputs.drop_first(), from, now),
            Input::Sweep { now } => elapsed(last, now) <= TIMEOUT * NANOS_PER_SEC && paced(
                inputs.drop_first(),
                from,
                last,
            ),
        }
    }
}

/// A slot that is up, with its sender bound to it, stays up for as long as
/// the sender's liveness tokens keep coming in time, however many sweeps
/// there are between them.
pub proof fn lemma_heartbeats_keep_up(
    servers: Seq<Server>,
    from: SocketAddress,
    k: int,
    last: u64,
    inputs: Seq<Input>,
)
    requires
        registry_wf(servers),
        is_bound_slot(servers, from, k),
        servers[k].is_up,
        servers[k].last_heartbeat == Some(last),
        paced(inputs, from, last),
    ensures
        after(servers, inputs).len() == servers.len(),
        after(servers, inputs)[k].is_up,
        after(servers, inputs)[k].addr_identifier == Some(from),
    decreases inputs.len(),
{
    if inputs.len() > 0 {
        let next = after_input(servers, inputs[0]);
        lemma_input_keeps_registry(servers, inputs[0]);
        lemma_bound_slot_is(servers, from, k);
        match inputs[0] {
            Input::Datagram { text, from: sender, now } => {
                assert(next == refreshed(servers, k, now));
                assert(is_bound_slot(next, from, k));
                lemma_heartbeats_keep_up(next, from, k, now, inputs.drop_first());
            },
            Input::Sweep { now } => {
                assert(!stale(servers[k], now));
                assert(is_bound_slot(next, from, k));
                lemma_heartbeats_keep_up(next, from, k, last, inputs.drop_first());
            },
        }
    }
}

/// A slot whose last sign of life is older than the timeout is down after
/// the sweep. The sweep reports the slot just where it was up before, and no
/// later sweep reports it again unless a datagram has brought it up between.
pub proof fn lemma_silence_goes_down(servers: Seq<Server>, k: int, last: u64, now: u64)
    requires
        0 <= k < servers.len(),
        servers[k].last_heartbeat == Some(last),
        elapsed(last, now) > TIMEOUT * NANOS_PER_SEC,
    ensures
        !swept(servers, now)[k].is_up,
        times_out(servers, now, k) == servers[k].is_up,
        forall|later: u64| !#[trigger] times_out(swept(servers, now), later, k),
{
}

} // verus!
