//! What a read replica can tell about itself and its peers.

use vstd::prelude::*;

use crate::bounds::{Key, Value};
use crate::net::{IpAddr, IpNet};
use crate::ordered_map;
use crate::peers;
use crate::read_replica_map::ReadReplicaMap;
use crate::time::{Duration, Instant};

verus! {

/// A read replica's liveness, for a caller's own readiness signal.
#[derive(Clone, Copy, Debug)]
#[non_exhaustive]
pub struct ReadSyncState {
    /// Rounds initiated since construction.
    pub rounds: u64,
    /// When the last one started.
    pub last_round_at: Option<Instant>,
    /// The size of the gossip-routing peer set.
    pub peers: usize,
}

impl<K: Key, V: Value> ReadReplicaMap<K, V> {
    /// Probe another network from now on.
    pub fn set_net(&mut self, net: IpNet)
        ensures
            *final(self) == (ReadReplicaMap { net, ..*old(self) }),
    {
        self.net = net;
    }

    /// The network that is probed.
    pub fn net(&self) -> (net: IpNet)
        ensures
            net == self.net,
    {
        self.net
    }

    /// The peers heard from recently enough to still be gossip targets; the others are dropped.
    pub fn peers(&mut self, now: Instant) -> (known: Vec<IpAddr>)
        ensures
            *final(self) == (ReadReplicaMap { peers: final(self).peers, ..*old(self) }),
            final(self).peers@ == peers::fresh(old(self).peers@, now),
            known@ == ordered_map::keys_of(final(self).peers.seen.sequence()),
            peers::addresses(known@) == final(self).peers@.dom(),
            known@.no_duplicates(),
    {
        self.peers.expire(now);
        self.peers.addresses()
    }

    /// Register or refresh a gossip target.
    pub fn seed_peer(&mut self, peer: IpAddr, now: Instant)
        ensures
            *final(self) == (ReadReplicaMap { peers: final(self).peers, ..*old(self) }),
            final(self).peers@ == old(self).peers@.insert(peer, now),
    {
        self.peers.seed(peer, now);
    }

    /// Wait this long for activity from now on, before a round is initiated.
    pub fn set_reconcile_interval(&mut self, interval: Duration)
        ensures
            *final(self) == (ReadReplicaMap { reconcile_interval: interval, ..*old(self) }),
    {
        self.reconcile_interval = interval;
    }

    /// Count a round that starts at `now`.
    pub fn note_round(&mut self, now: Instant)
        ensures
            *final(self) == (ReadReplicaMap {
                round: old(self).round.wrapping_add(1),
                last_round_at: Some(now),
                ..*old(self)
            }),
    {
        self.round = self.round.wrapping_add(1);
        self.last_round_at = Some(now);
    }

    /// The replica's liveness at `now`.
    pub fn sync_state(&mut self, now: Instant) -> (state: ReadSyncState)
        ensures
            *final(self) == (ReadReplicaMap { peers: final(self).peers, ..*old(self) }),
            final(self).peers@ == peers::fresh(old(self).peers@, now),
            state.rounds == old(self).round,
            state.last_round_at == old(self).last_round_at,
            state.peers == final(self).peers.seen.sequence().len(),
    {
        let peers: usize = self.peers(now).len();
        ReadSyncState { rounds: self.round, last_round_at: self.last_round_at, peers }
    }
}

} // verus!
