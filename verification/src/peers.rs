//! The gossip-routing peer table: who was heard from, and when.

use vstd::prelude::*;

use crate::bounds::Duplicate;
use crate::net::IpAddr;
use crate::ordered_map;
use crate::ordered_map::OrderedMap;
use crate::time;
use crate::time::{Duration, Instant, NANOS_PER_SEC};

verus! {

/// How many seconds of silence make a peer leave the routing table.
pub const PEER_EXPIRATION_SECS: u128 = 60;

/// A peer last heard from at `seen` still counts at `now`.
pub open spec fn is_fresh(seen: Instant, now: Instant) -> bool {
    time::since(seen, now) < PEER_EXPIRATION_SECS * NANOS_PER_SEC
}

/// The peers of `table` that still count at `now`.
pub open spec fn fresh(table: Map<IpAddr, Instant>, now: Instant) -> Map<IpAddr, Instant> {
    Map::new(|addr: IpAddr| table.contains_key(addr) && is_fresh(table[addr], now), |addr: IpAddr| table[addr])
}

/// An ordered set of addresses.
pub type AddrSet = OrderedMap<IpAddr, ()>;

/// The addresses in `list`.
pub open spec fn addresses(list: Seq<IpAddr>) -> Set<IpAddr> {
    Set::new(|addr: IpAddr| list.contains(addr))
}

/// The routing table.
pub struct PeerTable {
    /// When each peer was last heard from.
    pub seen: OrderedMap<IpAddr, Instant>,
}

impl View for PeerTable {
    type V = Map<IpAddr, Instant>;

    open spec fn view(&self) -> Map<IpAddr, Instant> {
        self.seen@
    }
}

impl Duplicate for Instant {
    fn duplicate(&self) -> (copy: Self) {
        *self
    }
}

impl PeerTable {
    /// The empty table.
    pub fn new() -> (table: Self)
        ensures
            table@ == Map::<IpAddr, Instant>::empty(),
    {
        PeerTable { seen: OrderedMap::new() }
    }

    /// Register `peer`, or refresh it.
    pub fn seed(&mut self, peer: IpAddr, now: Instant)
        ensures
            final(self)@ == old(self)@.insert(peer, now),
    {
        self.seen.insert(peer, now);
    }

    /// Drop the peers that have been silent too long.
    pub fn expire(&mut self, now: Instant)
        ensures
            final(self)@ == fresh(old(self)@, now),
    {
        proof {
            use_type_invariant(&self.seen);
        }
        let ghost s = self.seen.sequence();
        let limit: Duration = Duration { nanos: PEER_EXPIRATION_SECS * NANOS_PER_SEC };
        let mut kept: OrderedMap<IpAddr, Instant> = OrderedMap::new();
        let mut i: usize = 0;
        let n: usize = self.seen.len();
        proof {
            assert(s.take(0) =~= Seq::empty());
            ordered_map::lemma_entry_map_empty(s.take(0));
            assert(fresh(ordered_map::entry_map(s.take(0)), now) =~= kept@);
        }
        while i < n
            invariant
                s == self.seen.sequence(),
                n == s.len(),
                i <= n,
                ordered_map::increasing::<IpAddr, Instant>(s),
                limit.nanos == PEER_EXPIRATION_SECS * NANOS_PER_SEC,
                kept@ == fresh(ordered_map::entry_map(s.take(i as int)), now),
            decreases n - i,
        {
            proof {
                ordered_map::lemma_entry_map_take::<IpAddr, Instant>(s, i as int);
            }
            let ghost before = ordered_map::entry_map(s.take(i as int));
            let (addr, at) = self.seen.at(i);
            let ghost (a, t) = (*addr, *at);
            if now.saturating_duration_since(*at).nanos < limit.nanos {
                kept.insert(*addr, *at);
            }
            assert(kept@ =~= fresh(before.insert(a, t), now));
            i = i + 1;
        }
        assert(s.take(i as int) =~= s);
        self.seen = kept;
    }

    /// The peers, in address order.
    pub fn addresses(&self) -> (peers: Vec<IpAddr>)
        ensures
            peers@ == ordered_map::keys_of(self.seen.sequence()),
            addresses(peers@) == self@.dom(),
            peers@.no_duplicates(),
    {
        proof {
            use_type_invariant(&self.seen);
        }
        let peers: Vec<IpAddr> = self.seen.keys();
        proof {
            assert(peers@ =~= ordered_map::keys_of(self.seen.sequence()));
            lemma_keys::<Instant>(self.seen.sequence());
        }
        peers
    }

    /// How many peers the table holds.
    pub fn len(&self) -> (n: usize)
        ensures
            n == self.seen.sequence().len(),
    {
        self.seen.len()
    }
}

/// The keys of an ordered sequence of addresses are distinct, and are the domain of its map.
pub proof fn lemma_keys<X>(s: Seq<(IpAddr, X)>)
    requires
        ordered_map::increasing::<IpAddr, X>(s),
    ensures
        ordered_map::keys_of(s).no_duplicates(),
        addresses(ordered_map::keys_of(s)) == ordered_map::entry_map(s).dom(),
{
    let keys = ordered_map::keys_of(s);
    assert forall|i: int, j: int| 0 <= i < keys.len() && 0 <= j < keys.len() && i != j implies keys[i]
        != keys[j] by {
        assert(keys[i] == s[i].0 && keys[j] == s[j].0);
    }
    assert forall|a: IpAddr| addresses(keys).contains(a) <==> ordered_map::entry_map(
        s,
    ).dom().contains(a) by {
        if keys.contains(a) {
            let i = choose|i: int| 0 <= i < keys.len() && keys[i] == a;
            ordered_map::lemma_entry_map_at::<IpAddr, X>(s, i);
        }
        if ordered_map::entry_map(s).dom().contains(a) {
            let i = choose|i: int| #[trigger] ordered_map::holds_at(s, a, i);
            assert(keys[i] == a);
        }
    }
    assert(addresses(keys) =~= ordered_map::entry_map(s).dom());
}

/// A peer counts for less than sixty seconds after it was last heard from, and not a moment longer;
/// when that was, is kept as it is.
pub proof fn peers_count_for_a_minute(table: Map<IpAddr, Instant>, now: Instant, peer: IpAddr)
    ensures
        fresh(table, now).contains_key(peer) <==> table.contains_key(peer) && now.nanos
            - table[peer].nanos < 60_000_000_000,
        fresh(table, now).contains_key(peer) ==> fresh(table, now)[peer] == table[peer],
{
}

/// A list names exactly the addresses that stand in it.
pub proof fn lists_name_their_members(list: Seq<IpAddr>, peer: IpAddr)
    ensures
        addresses(list).contains(peer) <==> exists|i: int| 0 <= i < list.len() && #[trigger] list[i] == peer,
{
    assert(addresses(list).contains(peer) == list.contains(peer));
}

} // verus!
