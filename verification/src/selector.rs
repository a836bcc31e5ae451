//! Round-robin selection over the slots that are up.

use crate::addr::SocketAddress;
use crate::registry::Server;
use vstd::arithmetic::div_mod::{
    lemma_add_mod_noop, lemma_mod_twice, lemma_small_mod, lemma_sub_mod_noop,
};
use vstd::prelude::*;

verus! {

/// The live set: the slots that are up, in the registry's order.
pub open spec fn live(servers: Seq<Server>) -> Seq<Server> {
    servers.filter(|s: Server| s.is_up)
}

/// The place in the live set that the cursor points at once it has been
/// advanced `k` times.
pub open spec fn turn(servers: Seq<Server>, cursor: usize, k: int) -> int {
    (cursor + k) % (live(servers).len() as int)
}

/// The address that a selection with this cursor gives: none where no slot
/// is up, else that of the live slot whose turn it is.
pub open spec fn pick(servers: Seq<Server>, cursor: usize) -> Option<SocketAddress> {
    if live(servers).len() == 0 {
        None
    } else {
        Some(live(servers)[turn(servers, cursor, 0)].tcp_addr)
    }
}

/// The addresses of the live set, in its order.
pub open spec fn live_addresses(servers: Seq<Server>) -> Seq<SocketAddress> {
    live(servers).map_values(|s: Server| s.tcp_addr)
}

/// The addresses to relay to of the slots that are up, in the registry's order.
pub fn live_addrs(servers: &Vec<Server>) -> (out: Vec<SocketAddress>)
    ensures
        out@ == live_addresses(servers@),
{
    let mut out: Vec<SocketAddress> = Vec::new();
    let mut i: usize = 0;
    proof {
        reveal(Seq::filter);
    }
    while i < servers.len()
        invariant
            i <= servers.len(),
            out@ == live_addresses(servers@.take(i as int)),
        decreases servers.len() - i,
    {
        proof {
            reveal(Seq::filter);
            assert(servers@.take(i + 1).drop_last() == servers@.take(i as int));
        }
        if servers[i].is_up {
            out.push(servers[i].tcp_addr);
        }
        i += 1;
    }
    assert(servers@.take(servers@.len() as int) == servers@);
    out
}

/// The address in `addrs` whose turn it is, if `addrs` holds any.
pub open spec fn at_turn(addrs: Seq<SocketAddress>, cursor: usize) -> Option<SocketAddress> {
    if addrs.len() == 0 {
        None
    } else {
        Some(addrs[cursor as int % addrs.len() as int])
    }
}

/// Reads `at_turn(addrs, cursor)`.
pub fn address_at_turn(addrs: &Vec<SocketAddress>, cursor: usize) -> (r: Option<SocketAddress>)
    ensures
        r == at_turn(addrs@, cursor),
{
    if addrs.len() == 0 {
        None
    } else {
        Some(addrs[cursor % addrs.len()])
    }
}

/// Taking a turn among the live addresses is selecting: the address is that
/// of a slot that is up, and there is none just where no slot is up.
pub proof fn lemma_at_turn_picks(servers: Seq<Server>, cursor: usize)
    ensures
        at_turn(live_addresses(servers), cursor) == pick(servers, cursor),
        pick(servers, cursor) is None <==> live(servers).len() == 0,
        pick(servers, cursor) is Some ==> exists|i: int|
            0 <= i < servers.len() && (#[trigger] servers[i]).is_up && servers[i].tcp_addr
                == pick(servers, cursor)->0,
{
    if live(servers).len() > 0 {
        let j = turn(servers, cursor, 0);
        lemma_live_slot_is_up(servers, j);
        let i = choose|i: int|
            0 <= i < servers.len() && (#[trigger] servers[i]).is_up && servers[i] == live(
                servers,
            )[j];
        assert(servers[i].tcp_addr == pick(servers, cursor)->0);
    }
}

/// Selects with a given cursor. The address returned is that of a slot that
/// is up; none is returned just where no slot is up.
pub fn pick_live(servers: &Vec<Server>, cursor: usize) -> (r: Option<SocketAddress>)
    ensures
        r == pick(servers@, cursor),
        r is None <==> live(servers@).len() == 0,
        r is Some ==> exists|i: int|
            0 <= i < servers@.len() && (#[trigger] servers@[i]).is_up && servers@[i].tcp_addr
                == r->0,
{
    let available = live_addrs(servers);
    proof {
        lemma_at_turn_picks(servers@, cursor);
    }
    address_at_turn(&available, cursor)
}

/// Every member of the live set is a slot of the registry that is up.
pub proof fn lemma_live_slot_is_up(servers: Seq<Server>, j: int)
    requires
        0 <= j < live(servers).len(),
    ensures
        live(servers)[j].is_up,
        exists|i: int|
            0 <= i < servers.len() && (#[trigger] servers[i]).is_up && servers[i] == live(
                servers,
            )[j],
{
    broadcast use vstd::seq_lib::group_filter_ensures;

    let p = |s: Server| s.is_up;
    let m = live(servers)[j];
    assert(p(m));
    lemma_filter_member(servers, j);
}

/// Every member of the live set is a slot of the registry.
proof fn lemma_filter_member(servers: Seq<Server>, j: int)
    requires
        0 <= j < live(servers).len(),
    ensures
        exists|i: int| 0 <= i < servers.len() && (#[trigger] servers[i]) == live(servers)[j],
    decreases servers.len(),
{
    reveal(Seq::filter);
    if servers.len() > 0 {
        let front = servers.drop_last();
        if servers.last().is_up && j == live(front).len() {
            assert(servers[servers.len() - 1] == live(servers)[j]);
        } else {
            assert(live(servers)[j] == live(front)[j]);
            lemma_filter_member(front, j);
            let i = choose|i: int| 0 <= i < front.len() && (#[trigger] front[i]) == live(front)[j];
            assert(servers[i] == front[i]);
        }
    }
}

/// Whether one of the selections that a round starts with, as many as slots
/// are up, gives the live slot `j` its turn.
pub open spec fn has_turn(servers: Seq<Server>, cursor: usize, j: int) -> bool {
    exists|k: int| 0 <= k < live(servers).len() && #[trigger] turn(servers, cursor, k) == j
}

/// Round-robin coverage: with `n` slots up and the registry unchanged, the
/// selections with `n` cursors in a row give each live slot its turn once
/// and no more. The cursors are taken not to wrap round.
pub proof fn lemma_round_robin_covers(servers: Seq<Server>, cursor: usize)
    requires
        live(servers).len() > 0,
        cursor + live(servers).len() - 1 <= usize::MAX,
    ensures
        forall|k: int|
            0 <= k < live(servers).len() ==> pick(servers, (cursor + k) as usize) == Some(
                live(servers)[#[trigger] turn(servers, cursor, k)].tcp_addr,
            ),
        forall|j: int| 0 <= j < live(servers).len() ==> #[trigger] has_turn(servers, cursor, j),
        forall|k1: int, k2: int|
            0 <= k1 < k2 < live(servers).len() ==> #[trigger] turn(servers, cursor, k1)
                != #[trigger] turn(servers, cursor, k2),
{
    let n = live(servers).len() as int;
    let c = cursor as int;
    assert forall|j: int| 0 <= j < live(servers).len() implies #[trigger] has_turn(
        servers,
        cursor,
        j,
    ) by {
        let k = (j - c) % n;
        lemma_add_mod_noop(c, j - c, n);
        lemma_mod_twice(j - c, n);
        lemma_add_mod_noop(c, k, n);
        lemma_small_mod(j as nat, n as nat);
        assert(turn(servers, cursor, k) == j);
    }
    assert forall|k1: int, k2: int| 0 <= k1 < k2 < n implies #[trigger] turn(servers, cursor, k1)
        != #[trigger] turn(servers, cursor, k2) by {
        if (c + k1) % n == (c + k2) % n {
            lemma_sub_mod_noop(c + k2, c + k1, n);
            lemma_small_mod((k2 - k1) as nat, n as nat);
            lemma_small_mod(0, n as nat);
        }
    }
}

} // verus!
