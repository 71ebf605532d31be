//! The peer node's bookkeeping: consumers waiting on a dial to a peer, and the
//! one-time relay reservation.

use libp2p::multiaddr::{Multiaddr, Protocol};
use vstd::prelude::*;

use crate::leecher::{multiaddr_parses, multiaddr_text_valid};
use crate::text::str_eq;
use crate::types::opt_view;

verus! {

/// The peer id (base58 text) of the first `/p2p/..` component of the
/// multiaddr `addr`, if it has one.
pub uninterp spec fn first_peer_of(addr: Seq<char>) -> Option<Seq<char>>;

/// The text of the multiaddr `addr` with a `/p2p-circuit` component appended.
pub uninterp spec fn with_circuit(addr: Seq<char>) -> Seq<char>;

/// `Multiaddr::iter().find_map` over the parsed address for the first
/// `Protocol::P2p`: that peer id in its `Display` text.
#[verifier::external_body]
fn multiaddr_first_peer(addr: &str) -> (r: Option<String>)
    requires
        multiaddr_text_valid(addr@),
    ensures
        opt_view(r) == first_peer_of(addr@),
{
    match addr.parse::<Multiaddr>() {
        Ok(a) => a.iter().find_map(|p| match p {
            Protocol::P2p(id) => Some(id.to_string()),
            _ => None,
        }),
        Err(_) => None,
    }
}

/// `Multiaddr::with(Protocol::P2pCircuit)` on the parsed address, in
/// `Display` text.
#[verifier::external_body]
fn multiaddr_with_circuit(addr: &str) -> (r: String)
    requires
        multiaddr_text_valid(addr@),
    ensures
        r@ == with_circuit(addr@),
{
    match addr.parse::<Multiaddr>() {
        Ok(a) => a.with(Protocol::P2pCircuit).to_string(),
        Err(_) => String::new(),
    }
}

/// The relay to reserve a slot on, from its configured address: the relay's
/// peer id (its address's first `/p2p` component) and its circuit address
/// (the address with `/p2p-circuit` appended). `None` when the text is not a
/// multiaddr or the address names no peer.
pub fn relay_target(relay_addr: &str) -> (r: Option<(String, String)>)
    ensures
        !multiaddr_text_valid(relay_addr@) ==> r is None,
        multiaddr_text_valid(relay_addr@) ==> match first_peer_of(relay_addr@) {
            None => r is None,
            Some(p) => r matches Some(t) && t.0@ == p && t.1@ == with_circuit(relay_addr@),
        },
{
    if !multiaddr_parses(relay_addr) {
        return None;
    }
    match multiaddr_first_peer(relay_addr) {
        Some(peer) => Some((peer, multiaddr_with_circuit(relay_addr))),
        None => None,
    }
}

/// The tickets of the waiters on `peer`, in arrival order.
pub open spec fn tickets_for(w: Seq<(String, u64)>, peer: Seq<char>) -> Seq<u64>
    decreases w.len(),
{
    if w.len() == 0 {
        Seq::empty()
    } else if w.last().0@ == peer {
        tickets_for(w.drop_last(), peer).push(w.last().1)
    } else {
        tickets_for(w.drop_last(), peer)
    }
}

/// The waiters on peers other than `peer`, in arrival order.
pub open spec fn waiters_not_for(w: Seq<(String, u64)>, peer: Seq<char>) -> Seq<(String, u64)>
    decreases w.len(),
{
    if w.len() == 0 {
        Seq::empty()
    } else if w.last().0@ == peer {
        waiters_not_for(w.drop_last(), peer)
    } else {
        waiters_not_for(w.drop_last(), peer).push(w.last())
    }
}

/// Dials in progress and who waits on them, plus the relay reservation.
#[derive(Debug)]
pub struct DialBook {
    /// (peer, ticket) of each consumer waiting for a connection
    pub waiting: Vec<(String, u64)>,
    /// the relay whose connection triggers a slot reservation
    pub relay_peer: Option<String>,
    /// whether the relay slot was requested already
    pub reserved: bool,
}

impl DialBook {
    pub fn new(relay_peer: Option<String>) -> (r: DialBook)
        ensures
            r.waiting@.len() == 0,
            r.relay_peer == relay_peer,
            !r.reserved,
    {
        DialBook { waiting: Vec::new(), relay_peer, reserved: false }
    }

    /// A dial to `peer` started; `ticket` waits for its outcome.
    pub fn wait(&mut self, peer: String, ticket: u64)
        ensures
            final(self).waiting@ == old(self).waiting@.push((peer, ticket)),
            final(self).relay_peer == old(self).relay_peer,
            final(self).reserved == old(self).reserved,
    {
        self.waiting.push((peer, ticket));
    }

    /// The dial to `peer` ended (connected or failed): every ticket waiting on
    /// it, in order, leaves the book.
    pub fn settle(&mut self, peer: &str) -> (r: Vec<u64>)
        ensures
            r@ == tickets_for(old(self).waiting@, peer@),
            final(self).waiting@ == waiters_not_for(old(self).waiting@, peer@),
            final(self).relay_peer == old(self).relay_peer,
            final(self).reserved == old(self).reserved,
    {
        let mut out: Vec<u64> = Vec::new();
        let mut keep: Vec<(String, u64)> = Vec::new();
        let mut i: usize = 0;
        while i < self.waiting.len()
            invariant
                i <= self.waiting@.len(),
                self.waiting@ == old(self).waiting@,
                out@ == tickets_for(self.waiting@.take(i as int), peer@),
                keep@ == waiters_not_for(self.waiting@.take(i as int), peer@),
            decreases self.waiting@.len() - i,
        {
            proof {
                assert(self.waiting@.take(i + 1).drop_last() =~= self.waiting@.take(i as int));
            }
            let e = &self.waiting[i];
            if str_eq(e.0.as_str(), peer) {
                out.push(e.1);
            } else {
                keep.push((e.0.clone(), e.1));
            }
            i = i + 1;
        }
        assert(self.waiting@.take(self.waiting@.len() as int) =~= self.waiting@);
        self.waiting = keep;
        out
    }

    /// A connection to `peer` was established: whether to reserve the relay
    /// slot now (once, on the first connection to the relay).
    pub fn reserve_on_connect(&mut self, peer: &str) -> (r: bool)
        ensures
            r == (!old(self).reserved && (old(self).relay_peer matches Some(rp) && rp@ == peer@)),
            final(self).reserved == (old(self).reserved || r),
            final(self).waiting == old(self).waiting,
            final(self).relay_peer == old(self).relay_peer,
    {
        if self.reserved {
            return false;
        }
        let hit = match &self.relay_peer {
            Some(rp) => str_eq(rp.as_str(), peer),
            None => false,
        };
        if hit {
            self.reserved = true;
        }
        hit
    }
}

} // verus!
