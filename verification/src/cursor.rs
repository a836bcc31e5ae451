//! The shared round-robin cursor.

use crate::addr::SocketAddress;
use crate::registry::Registry;
use crate::selector::{address_at_turn, lemma_at_turn_picks, live, live_addrs, pick};
use std::sync::atomic::{AtomicUsize, Ordering};
use vstd::prelude::*;

verus! {

/// A counter that any number of connections advance at once, without a lock,
/// outside the registry's guard. No contract can speak of what an atomic holds.
pub struct Selector {
    next_index: AtomicUsize,
}

impl Selector {
    /// A selector whose cursor starts at 0.
    pub fn new() -> Selector {
        Selector { next_index: AtomicUsize::new(0) }
    }

    /// Selects a destination among the slots that are up. Where none is up,
    /// returns none and leaves the cursor alone. Else it advances the
    /// cursor by one, wrapping round, and returns what the value taken from
    /// it picks: which value that is depends on the other connections.
    pub fn select(&self, registry: &Registry) -> (r: Option<SocketAddress>)
        ensures
            live(registry@).len() == 0 ==> r is None,
            live(registry@).len() > 0 ==> exists|cursor: usize| r == pick(registry@, cursor),
            r is Some ==> exists|i: int|
                0 <= i < registry@.len() && (#[trigger] registry@[i]).is_up
                    && registry@[i].tcp_addr == r->0,
    {
        let available = live_addrs(registry.servers());
        if available.len() == 0 {
            return None;
        }
        let cursor = self.next_index.fetch_add(1, Ordering::Relaxed);
        proof {
            lemma_at_turn_picks(registry@, cursor);
        }
        address_at_turn(&available, cursor)
    }
}

} // verus!
