//! The expiry monitor: one sweep demotes the slots whose last sign of life
//! is older than the timeout.

use crate::registry::{registry_wf, Registry, Server};
use vstd::prelude::*;

verus! {

/// Seconds without a sign of life after which a slot counts as down.
pub const TIMEOUT: u64 = 2;

/// Seconds between two sweeps.
pub const SWEEP_INTERVAL: u64 = 1;

/// Nanoseconds in a second: the unit of the registry's times.
pub const NANOS_PER_SEC: u64 = 1_000_000_000;

/// The time from `last` to `now`; none where `now` is the earlier one.
pub open spec fn elapsed(last: u64, now: u64) -> nat {
    if now >= last {
        (now - last) as nat
    } else {
        0
    }
}

/// Whether the slot's last sign of life is older at `now` than the timeout.
/// A slot that was never heard of is not stale: it is down from the start.
pub open spec fn stale(s: Server, now: u64) -> bool {
    match s.last_heartbeat {
        Some(last) => elapsed(last, now) > TIMEOUT * NANOS_PER_SEC,
        None => false,
    }
}

/// The slots after a sweep at `now`: the stale ones are down, nothing else
/// has changed.
pub open spec fn swept(servers: Seq<Server>, now: u64) -> Seq<Server> {
    Seq::new(
        servers.len(),
        |i: int|
            if stale(servers[i], now) {
                Server { is_up: false, ..servers[i] }
            } else {
                servers[i]
            },
    )
}

/// Whether a sweep at `now` takes slot `i` from up to down.
pub open spec fn times_out(servers: Seq<Server>, now: u64, i: int) -> bool {
    0 <= i < servers.len() && servers[i].is_up && stale(servers[i], now)
}

/// Whether `down` lists, in ascending order, just those of the first `upto`
/// slots that a sweep at `now` takes from up to down.
pub open spec fn reports(down: Seq<usize>, servers: Seq<Server>, now: u64, upto: int) -> bool {
    &&& forall|a: int, b: int| 0 <= a < b < down.len() ==> down[a] < down[b]
    &&& forall|a: int|
        0 <= a < down.len() ==> (#[trigger] down[a]) < upto && times_out(
            servers,
            now,
            down[a] as int,
        )
    &&& forall|i: int|
        0 <= i < upto && #[trigger] times_out(servers, now, i) ==> down.contains(i as usize)
}

/// Decides `stale`.
pub fn is_stale(s: &Server, now: u64) -> (b: bool)
    ensures
        b == stale(*s, now),
{
    match s.last_heartbeat {
        Some(last) => now >= last && now - last > TIMEOUT * NANOS_PER_SEC,
        None => false,
    }
}

impl Registry {
    /// One sweep at time `now`. Returns the slots that it took from up to
    /// down, in ascending order: each such edge is reported by the sweep
    /// that makes it and by no other.
    pub fn expire(&mut self, now: u64) -> (down: Vec<usize>)
        ensures
            final(self)@ == swept(old(self)@, now),
            old(self).wf() ==> final(self).wf(),
            reports(down@, old(self)@, now, old(self)@.len() as int),
    {
        let ghost before = self@;
        let n = self.len();
        let mut down: Vec<usize> = Vec::new();
        let mut i: usize = 0;
        while i < n
            invariant
                n == before.len(),
                i <= n,
                registry_wf(before) ==> self.wf(),
                self@.len() == n,
                forall|j: int| 0 <= j < i ==> #[trigger] self@[j] == swept(before, now)[j],
                forall|j: int| i <= j < n ==> #[trigger] self@[j] == before[j],
                reports(down@, before, now, i as int),
            decreases n - i,
        {
            let s = self.servers()[i];
            if is_stale(&s, now) {
                if s.is_up {
                    let ghost prev = down@;
                    down.push(i);
                    proof {
                        assert(down@.last() == i);
                        assert forall|j: int|
                            0 <= j < i + 1 && #[trigger] times_out(
                                before,
                                now,
                                j,
                            ) implies down@.contains(j as usize) by {
                            if j < i {
                                let a = prev.index_of(j as usize);
                                assert(down@[a] == j as usize);
                            }
                        }
                    }
                }
                self.demote(i);
            }
            i += 1;
        }
        assert(self@ == swept(before, now));
        down
    }
}

} // verus!
