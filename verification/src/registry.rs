//! The server registry: the configured slots of one role and their health.

use crate::addr::{socket_addr, SocketAddress};
use crate::text::{chars_of, split_whitespace, tokens, views};
use vstd::prelude::*;

verus! {

/// One configured slot. `tcp_addr` and `udp_addr` name it and never change;
/// the rest is what the heartbeat traffic has shown of it so far. Times are
/// nanoseconds on a clock of the caller's that never runs backwards.
#[derive(Clone, Copy, Debug, PartialEq, Eq)]
pub struct Server {
    pub addr_identifier: Option<SocketAddress>,
    pub udp_addr: SocketAddress,
    pub tcp_addr: SocketAddress,
    pub last_heartbeat: Option<u64>,
    pub is_up: bool,
}

/// A slot as configuration makes it: down, nobody bound to it, never heard of.
pub open spec fn fresh(tcp_addr: SocketAddress, udp_addr: SocketAddress) -> Server {
    Server { addr_identifier: None, udp_addr, tcp_addr, last_heartbeat: None, is_up: false }
}

/// The slot that one line of configuration names: its first two tokens, read
/// as the slot's TCP and UDP address. A line with fewer tokens, or with one
/// of the two unreadable, names none.
pub open spec fn configured(line: Seq<char>) -> Option<Server> {
    let t = tokens(line);
    if t.len() >= 2 {
        match (socket_addr(t[0]), socket_addr(t[1])) {
            (Some(tcp_addr), Some(udp_addr)) => Some(fresh(tcp_addr, udp_addr)),
            _ => None,
        }
    } else {
        None
    }
}

/// Whether every line names a slot.
pub open spec fn all_configured(lines: Seq<Seq<char>>) -> bool {
    forall|i: int| 0 <= i < lines.len() ==> configured(#[trigger] lines[i]) is Some
}

/// The slots that the lines name, one for each line, in the lines' order.
/// It is meant for lines that each name a slot.
pub open spec fn configured_all(lines: Seq<Seq<char>>) -> Seq<Server> {
    Seq::new(lines.len(), |i: int| configured(lines[i])->0)
}

/// Whether `i` is the first of the lines that names no slot.
pub open spec fn is_first_bad_line(lines: Seq<Seq<char>>, i: int) -> bool {
    &&& 0 <= i < lines.len()
    &&& configured(lines[i]) is None
    &&& forall|j: int| 0 <= j < i ==> configured(#[trigger] lines[j]) is Some
}

/// A line of configuration that names no slot, by its place in its list.
#[derive(Clone, Copy, Debug, PartialEq, Eq, Structural)]
pub struct BadLine {
    pub line: usize,
}

/// What each string of `v` holds.
pub open spec fn texts(v: Seq<String>) -> Seq<Seq<char>> {
    v.map_values(|s: String| s@)
}

/// No observed address is bound to two slots.
pub open spec fn identifiers_unique(servers: Seq<Server>) -> bool {
    forall|i: int, j: int|
        0 <= i < servers.len() && 0 <= j < servers.len() && i != j
            && (#[trigger] servers[i]).addr_identifier is Some ==> servers[i].addr_identifier != (
        #[trigger] servers[j]).addr_identifier
}

/// A slot that is up has been heard of.
pub open spec fn up_only_if_heard(servers: Seq<Server>) -> bool {
    forall|i: int|
        0 <= i < servers.len() && (#[trigger] servers[i]).is_up
            ==> servers[i].last_heartbeat is Some
}

/// What holds of the slots of every registry.
pub open spec fn registry_wf(servers: Seq<Server>) -> bool {
    identifiers_unique(servers) && up_only_if_heard(servers)
}

/// The first slot configured with this pair of addresses.
pub open spec fn slot_of(servers: Seq<Server>, tcp_addr: SocketAddress, udp_addr: SocketAddress)
    -> Option<int> {
    if exists|i: int| is_slot_of(servers, tcp_addr, udp_addr, i) {
        Some(choose|i: int| is_slot_of(servers, tcp_addr, udp_addr, i))
    } else {
        None
    }
}

/// `i` is the first slot configured with this pair of addresses.
pub open spec fn is_slot_of(
    servers: Seq<Server>,
    tcp_addr: SocketAddress,
    udp_addr: SocketAddress,
    i: int,
) -> bool {
    &&& 0 <= i < servers.len()
    &&& servers[i].tcp_addr == tcp_addr
    &&& servers[i].udp_addr == udp_addr
    &&& forall|j: int|
        0 <= j < i ==> !((#[trigger] servers[j]).tcp_addr == tcp_addr && servers[j].udp_addr
            == udp_addr)
}

/// The first slot that the observed address `from` is bound to.
pub open spec fn bound_slot(servers: Seq<Server>, from: SocketAddress) -> Option<int> {
    if exists|i: int| is_bound_slot(servers, from, i) {
        Some(choose|i: int| is_bound_slot(servers, from, i))
    } else {
        None
    }
}

/// `i` is the first slot that `from` is bound to.
pub open spec fn is_bound_slot(servers: Seq<Server>, from: SocketAddress, i: int) -> bool {
    &&& 0 <= i < servers.len()
    &&& servers[i].addr_identifier == Some(from)
    &&& forall|j: int| 0 <= j < i ==> (#[trigger] servers[j]).addr_identifier != Some(from)
}

/// The slots after `from` has identified itself as slot `k` at time `now`:
/// slot `k` is bound to `from`, up and heard of at `now`; any other slot that
/// `from` was bound to has lost it; nothing else has changed.
pub open spec fn identified(servers: Seq<Server>, k: int, from: SocketAddress, now: u64) -> Seq<
    Server,
> {
    Seq::new(
        servers.len(),
        |i: int|
            if i == k {
                Server {
                    addr_identifier: Some(from),
                    last_heartbeat: Some(now),
                    is_up: true,
                    ..servers[i]
                }
            } else if servers[i].addr_identifier == Some(from) {
                Server { addr_identifier: None, ..servers[i] }
            } else {
                servers[i]
            },
    )
}

/// The slots after slot `k` has shown itself alive at time `now`.
pub open spec fn refreshed(servers: Seq<Server>, k: int, now: u64) -> Seq<Server> {
    servers.update(k, Server { last_heartbeat: Some(now), is_up: true, ..servers[k] })
}

/// An ordered collection of slots, fixed at construction.
pub struct Registry {
    servers: Vec<Server>,
}

impl View for Registry {
    type V = Seq<Server>;

    closed spec fn view(&self) -> Seq<Server> {
        self.servers@
    }
}

impl Registry {
    /// What holds of every registry: see `registry_wf`.
    pub open spec fn wf(&self) -> bool {
        registry_wf(self@)
    }

    /// The registry that the lines of configuration name: one fresh slot for
    /// each line, in the lines' order. A line that names no slot is an
    /// error, and the first such line is the one reported.
    pub fn parse_addr_pairs(raw: &Vec<String>) -> (r: Result<Registry, BadLine>)
        ensures
            match r {
                Ok(registry) => {
                    &&& all_configured(texts(raw@))
                    &&& registry@ == configured_all(texts(raw@))
                    &&& registry@.len() == raw@.len()
                    &&& registry.wf()
                },
                Err(e) => is_first_bad_line(texts(raw@), e.line as int),
            },
    {
        let ghost lines = texts(raw@);
        let mut servers: Vec<Server> = Vec::new();
        let mut i: usize = 0;
        while i < raw.len()
            invariant
                i <= raw.len(),
                lines == texts(raw@),
                servers@ == configured_all(lines.take(i as int)),
                all_configured(lines.take(i as int)),
            decreases raw.len() - i,
        {
            assert(lines[i as int] == raw@[i as int]@);
            assert forall|j: int| 0 <= j < i implies configured(#[trigger] lines[j]) is Some by {
                assert(lines.take(i as int)[j] == lines[j]);
            }
            let line = chars_of(raw[i].as_str());
            let parts = split_whitespace(line.as_slice());
            if parts.len() < 2 {
                return Err(BadLine { line: i });
            }
            assert(views(parts@)[0] == parts@[0]@);
            assert(views(parts@)[1] == parts@[1]@);
            let tcp = SocketAddress::parse(parts[0]);
            let udp = SocketAddress::parse(parts[1]);
            match (tcp, udp) {
                (Some(tcp_addr), Some(udp_addr)) => {
                    servers.push(
                        Server {
                            addr_identifier: None,
                            udp_addr,
                            tcp_addr,
                            last_heartbeat: None,
                            is_up: false,
                        },
                    );
                },
                _ => {
                    return Err(BadLine { line: i });
                },
            }
            proof {
                let front = lines.take(i + 1);
                assert forall|j: int| 0 <= j < front.len() implies configured(
                    #[trigger] front[j],
                ) is Some by {
                    assert(front[j] == lines[j]);
                }
                assert(servers@ =~= configured_all(front));
            }
            i += 1;
        }
        proof {
            assert(lines.take(raw@.len() as int) == lines);
            lemma_configured_fresh(lines);
        }
        Ok(Registry { servers })
    }

    /// The number of slots.
    pub fn len(&self) -> (n: usize)
        ensures
            n == self@.len(),
    {
        self.servers.len()
    }

    /// The slots as they stand now.
    pub fn servers(&self) -> (s: &Vec<Server>)
        ensures
            s@ == self@,
    {
        &self.servers
    }

    /// A copy of the slots as they stand now.
    pub fn snapshot(&self) -> (s: Vec<Server>)
        ensures
            s@ == self@,
    {
        let mut out: Vec<Server> = Vec::new();
        let mut i: usize = 0;
        while i < self.servers.len()
            invariant
                i <= self.servers.len(),
                out@ == self.servers@.take(i as int),
            decreases self.servers.len() - i,
        {
            out.push(self.servers[i]);
            assert(self.servers@.take(i + 1) == self.servers@.take(i as int).push(
                self.servers@[i as int],
            ));
            i += 1;
        }
        assert(self.servers@.take(self.servers@.len() as int) == self.servers@);
        out
    }

    /// Looks a slot up by the pair of addresses it was configured with.
    pub fn find_by_pair(&self, tcp_addr: SocketAddress, udp_addr: SocketAddress) -> (r: Option<
        usize,
    >)
        ensures
            match r {
                Some(i) => is_slot_of(self@, tcp_addr, udp_addr, i as int),
                None => forall|i: int| !is_slot_of(self@, tcp_addr, udp_addr, i),
            },
            slot_of(self@, tcp_addr, udp_addr) == match r {
                Some(i) => Some(i as int),
                None => None,
            },
    {
        let mut i: usize = 0;
        while i < self.servers.len()
            invariant
                i <= self.servers.len(),
                forall|j: int|
                    0 <= j < i ==> !((#[trigger] self.servers@[j]).tcp_addr == tcp_addr
                        && self.servers@[j].udp_addr == udp_addr),
            decreases self.servers.len() - i,
        {
            if self.servers[i].udp_addr == udp_addr && self.servers[i].tcp_addr == tcp_addr {
                proof {
                    lemma_slot_of_is(self@, tcp_addr, udp_addr, i as int);
                }
                return Some(i);
            }
            i += 1;
        }
        None
    }

    /// Looks a slot up by the observed address bound to it.
    pub fn find_by_identifier(&self, from: SocketAddress) -> (r: Option<usize>)
        ensures
            match r {
                Some(i) => is_bound_slot(self@, from, i as int),
                None => forall|i: int| !is_bound_slot(self@, from, i),
            },
            bound_slot(self@, from) == match r {
                Some(i) => Some(i as int),
                None => None,
            },
    {
        let mut i: usize = 0;
        while i < self.servers.len()
            invariant
                i <= self.servers.len(),
                forall|j: int|
                    0 <= j < i ==> (#[trigger] self.servers@[j]).addr_identifier != Some(from),
            decreases self.servers.len() - i,
        {
            if self.servers[i].addr_identifier == Some(from) {
                proof {
                    lemma_bound_slot_is(self@, from, i as int);
                }
                return Some(i);
            }
            i += 1;
        }
        None
    }

    /// Binds the observed address `from` to slot `k` at time `now`, marks the
    /// slot up and heard of, and takes `from` away from any other slot.
    pub fn bind(&mut self, k: usize, from: SocketAddress, now: u64)
        requires
            k < old(self)@.len(),
        ensures
            final(self)@ == identified(old(self)@, k as int, from, now),
            old(self).wf() ==> final(self).wf(),
    {
        let ghost before = self.servers@;
        let n = self.servers.len();
        let mut i: usize = 0;
        while i < n
            invariant
                n == before.len(),
                i <= n,
                k < n,
                self.servers@.len() == n,
                forall|j: int|
                    0 <= j < i ==> #[trigger] self.servers@[j] == identified(
                        before,
                        k as int,
                        from,
                        now,
                    )[j],
                forall|j: int| i <= j < n ==> #[trigger] self.servers@[j] == before[j],
            decreases n - i,
        {
            let s = self.servers[i];
            if i == k {
                self.servers.set(
                    i,
                    Server {
                        addr_identifier: Some(from),
                        udp_addr: s.udp_addr,
                        tcp_addr: s.tcp_addr,
                        last_heartbeat: Some(now),
                        is_up: true,
                    },
                );
            } else if s.addr_identifier == Some(from) {
                self.servers.set(
                    i,
                    Server {
                        addr_identifier: None,
                        udp_addr: s.udp_addr,
                        tcp_addr: s.tcp_addr,
                        last_heartbeat: s.last_heartbeat,
                        is_up: s.is_up,
                    },
                );
            }
            i += 1;
        }
        proof {
            assert(self.servers@ == identified(before, k as int, from, now));
            if registry_wf(before) {
                lemma_identified_wf(before, k as int, from, now);
            }
        }
    }

    /// Marks slot `k` down.
    pub(crate) fn demote(&mut self, k: usize)
        requires
            k < old(self)@.len(),
        ensures
            final(self)@ == old(self)@.update(
                k as int,
                Server { is_up: false, ..old(self)@[k as int] },
            ),
            old(self).wf() ==> final(self).wf(),
    {
        let s = self.servers[k];
        self.servers.set(
            k,
            Server {
                addr_identifier: s.addr_identifier,
                udp_addr: s.udp_addr,
                tcp_addr: s.tcp_addr,
                last_heartbeat: s.last_heartbeat,
                is_up: false,
            },
        );
    }

    /// Records that slot `k` has shown itself alive at time `now`, and says
    /// whether it was down until then.
    pub fn refresh(&mut self, k: usize, now: u64) -> (was_down: bool)
        requires
            k < old(self)@.len(),
        ensures
            final(self)@ == refreshed(old(self)@, k as int, now),
            was_down == !old(self)@[k as int].is_up,
            old(self).wf() ==> final(self).wf(),
    {
        let s = self.servers[k];
        self.servers.set(
            k,
            Server {
                addr_identifier: s.addr_identifier,
                udp_addr: s.udp_addr,
                tcp_addr: s.tcp_addr,
                last_heartbeat: Some(now),
                is_up: true,
            },
        );
        proof {
            if old(self).wf() {
                lemma_refreshed_wf(old(self)@, k as int, now);
            }
        }
        !s.is_up
    }
}

/// What lines that each name a slot configure is a well-formed registry with
/// one slot for each line, in which every slot is down, with nobody bound to
/// it, and has never been heard of.
pub proof fn lemma_configured_fresh(lines: Seq<Seq<char>>)
    requires
        all_configured(lines),
    ensures
        registry_wf(configured_all(lines)),
        configured_all(lines).len() == lines.len(),
        forall|i: int|
            0 <= i < configured_all(lines).len() ==> {
                let s = #[trigger] configured_all(lines)[i];
                !s.is_up && s.addr_identifier is None && s.last_heartbeat is None
            },
{
    assert forall|i: int| 0 <= i < lines.len() implies {
        let s = #[trigger] configured_all(lines)[i];
        !s.is_up && s.addr_identifier is None && s.last_heartbeat is None
    } by {
        assert(configured(lines[i]) is Some);
    }
}

/// Identification keeps a registry well formed.
pub proof fn lemma_identified_wf(servers: Seq<Server>, k: int, from: SocketAddress, now: u64)
    requires
        registry_wf(servers),
        0 <= k < servers.len(),
    ensures
        registry_wf(identified(servers, k, from, now)),
{
}

/// A sign of life keeps a registry well formed.
pub proof fn lemma_refreshed_wf(servers: Seq<Server>, k: int, now: u64)
    requires
        registry_wf(servers),
        0 <= k < servers.len(),
    ensures
        registry_wf(refreshed(servers, k, now)),
{
}

/// The first slot with a pair is the only one that is the first.
pub proof fn lemma_slot_of_is(
    servers: Seq<Server>,
    tcp_addr: SocketAddress,
    udp_addr: SocketAddress,
    i: int,
)
    requires
        is_slot_of(servers, tcp_addr, udp_addr, i),
    ensures
        slot_of(servers, tcp_addr, udp_addr) == Some(i),
{
    let c = choose|c: int| is_slot_of(servers, tcp_addr, udp_addr, c);
    if c < i {
        assert(!(servers[c].tcp_addr == tcp_addr && servers[c].udp_addr == udp_addr));
    } else if i < c {
        assert(!(servers[i].tcp_addr == tcp_addr && servers[i].udp_addr == udp_addr));
    }
}

/// The first slot bound to an address is the only one that is the first.
pub proof fn lemma_bound_slot_is(servers: Seq<Server>, from: SocketAddress, i: int)
    requires
        is_bound_slot(servers, from, i),
    ensures
        bound_slot(servers, from) == Some(i),
{
    let c = choose|c: int| is_bound_slot(servers, from, c);
    if c < i {
        assert(servers[c].addr_identifier != Some(from));
    } else if i < c {
        assert(servers[i].addr_identifier != Some(from));
    }
}

} // verus!
