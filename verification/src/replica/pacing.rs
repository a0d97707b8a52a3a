//! Pacing of bulk transfers: one at a time for each peer, a bounded number in all, and the ranges
//! that found no free slot kept until one is.

use vstd::prelude::*;

use crate::bounds::Key;
use crate::net::IpAddr;
use crate::ordered_map;
use crate::ordered_map::{KeyRange, OrderedMap};
use crate::peers::AddrSet;

verus! {

/// Which of its two maps a replica transfers entries of.
#[derive(Clone, Copy, Debug, PartialEq, Eq, Structural)]
pub enum DumpChannel {
    /// Dated entries.
    Dated,
    /// Undated states.
    ValueOnly,
}

/// One claimed transfer slot. Whoever holds it hands it back to [`Transfers::release`] when the
/// transfer is over, however it ended.
#[derive(Debug)]
pub struct DumpGuard {
    peer: IpAddr,
}

impl DumpGuard {
    /// The peer transferred to.
    pub closed spec fn spec_peer(&self) -> IpAddr {
        self.peer
    }

    /// The peer transferred to.
    pub fn peer(&self) -> (peer: IpAddr)
        ensures
            peer == self.spec_peer(),
    {
        self.peer
    }
}

/// The bound on concurrent transfers.
struct Slots {
    budget: usize,
    active: AddrSet,
}

impl Slots {
    /// Never more transfers than the budget allows.
    #[verifier::type_invariant]
    spec fn within_budget(&self) -> bool {
        self.active@.dom().finite() && self.active@.dom().len() <= self.budget
    }

    fn claim(&mut self, peer: IpAddr) -> (granted: bool)
        ensures
            granted == (!old(self).active@.contains_key(peer) && old(self).active@.dom().len()
                < old(self).budget),
            final(self).budget == old(self).budget,
            final(self).active@ == if granted {
                old(self).active@.insert(peer, ())
            } else {
                old(self).active@
            },
    {
        if self.active.contains_key(&peer) || self.active.len() >= self.budget {
            return false;
        }
        proof {
            use_type_invariant(&*self);
        }
        let mut active: AddrSet = OrderedMap::new();
        std::mem::swap(&mut active, &mut self.active);
        active.insert(peer, ());
        self.active = active;
        true
    }

    fn release(&mut self, peer: IpAddr)
        ensures
            final(self).budget == old(self).budget,
            final(self).active@ == old(self).active@.remove(peer),
    {
        proof {
            use_type_invariant(&*self);
        }
        let mut active: AddrSet = OrderedMap::new();
        std::mem::swap(&mut active, &mut self.active);
        active.remove(&peer);
        self.active = active;
    }
}

/// A transfer that waited for a slot, and has one now.
pub struct Resumed<K> {
    /// The slot.
    pub guard: DumpGuard,
    /// Which map is transferred.
    pub channel: DumpChannel,
    /// The ranges of keys to transfer.
    pub ranges: Vec<KeyRange<K>>,
}

/// The bulk transfers of a replica: who is transferred to, and what waits.
pub struct Transfers<K: Key> {
    slots: Slots,
    dated: OrderedMap<IpAddr, Vec<KeyRange<K>>>,
    valued: OrderedMap<IpAddr, Vec<KeyRange<K>>>,
}

/// `peer` is the first of `waiting` that is not transferred to already.
pub open spec fn is_next<X>(waiting: Seq<(IpAddr, X)>, active: Set<IpAddr>, peer: IpAddr) -> bool {
    exists|i: int| #[trigger] is_next_at(waiting, active, peer, i)
}

/// The first of `waiting` that is not transferred to already is `peer`, at position `i`.
pub open spec fn is_next_at<X>(waiting: Seq<(IpAddr, X)>, active: Set<IpAddr>, peer: IpAddr, i: int) -> bool {
    &&& 0 <= i < waiting.len()
    &&& waiting[i].0 == peer
    &&& !active.contains(peer)
    &&& forall|j: int| 0 <= j < i ==> active.contains((#[trigger] waiting[j]).0)
}

/// Everyone in `waiting` is transferred to already.
pub open spec fn all_active<X>(waiting: Seq<(IpAddr, X)>, active: Set<IpAddr>) -> bool {
    forall|j: int| 0 <= j < waiting.len() ==> active.contains((#[trigger] waiting[j]).0)
}

/// The first of `waiting` that is not transferred to already.
fn next_idle<K: Key>(waiting: &OrderedMap<IpAddr, Vec<KeyRange<K>>>, active: &AddrSet) -> (next: Option<
    IpAddr,
>)
    ensures
        next is None <==> all_active(waiting.sequence(), active@.dom()),
        next matches Some(peer) ==> is_next(waiting.sequence(), active@.dom(), peer)
            && waiting@.contains_key(peer),
{
    let n: usize = waiting.len();
    let mut i: usize = 0;
    while i < n
        invariant
            n == waiting.sequence().len(),
            i <= n,
            forall|j: int|
                0 <= j < i ==> active@.dom().contains((#[trigger] waiting.sequence()[j]).0),
        decreases n - i,
    {
        let (peer, _) = waiting.at(i);
        if !active.contains_key(peer) {
            assert(is_next_at(waiting.sequence(), active@.dom(), *peer, i as int));
            return Some(*peer);
        }
        i = i + 1;
    }
    None
}

impl<K: Key> Transfers<K> {
    /// The peers transferred to.
    pub closed spec fn active(&self) -> Set<IpAddr> {
        self.slots.active@.dom()
    }

    /// How many transfers may be in flight.
    pub closed spec fn budget(&self) -> usize {
        self.slots.budget
    }

    /// What waits for a slot, by peer.
    pub open spec fn stashed(&self, channel: DumpChannel) -> Map<IpAddr, Seq<KeyRange<K>>> {
        ordered_map::entry_map(self.waiting(channel))
    }

    /// What waits for a slot, in address order.
    pub closed spec fn waiting(&self, channel: DumpChannel) -> Seq<(IpAddr, Seq<KeyRange<K>>)> {
        match channel {
            DumpChannel::Dated => self.dated.sequence(),
            DumpChannel::ValueOnly => self.valued.sequence(),
        }
    }

    /// Nothing in flight, and nothing waiting.
    pub fn new(budget: usize) -> (transfers: Self)
        ensures
            transfers.active() == Set::<IpAddr>::empty(),
            transfers.budget() == budget,
            forall|channel: DumpChannel| #[trigger]
                transfers.waiting(channel) == Seq::<(IpAddr, Seq<KeyRange<K>>)>::empty(),
    {
        let active: AddrSet = OrderedMap::new();
        assert(active@.dom() =~= Set::empty());
        Transfers {
            slots: Slots { budget, active },
            dated: OrderedMap::new(),
            valued: OrderedMap::new(),
        }
    }

    /// How many transfers are in flight: never more than the budget.
    pub fn in_flight(&self) -> (n: usize)
        ensures
            n == self.active().len(),
            n <= self.budget(),
    {
        proof {
            use_type_invariant(&self.slots);
        }
        self.slots.active.len()
    }

    /// Claim a slot for a transfer to `peer`: granted while the budget has room and no other
    /// transfer to it is in flight.
    pub fn try_claim_dump_slot(&mut self, peer: IpAddr) -> (guard: Option<DumpGuard>)
        ensures
            guard is Some <==> !old(self).active().contains(peer) && old(self).active().len()
                < old(self).budget(),
            guard matches Some(g) ==> g.spec_peer() == peer,
            final(self).active() == if guard is Some {
                old(self).active().insert(peer)
            } else {
                old(self).active()
            },
            final(self).budget() == old(self).budget(),
            forall|channel: DumpChannel| #[trigger]
                final(self).waiting(channel) == old(self).waiting(channel),
    {
        let granted: bool = self.slots.claim(peer);
        assert(granted ==> self.slots.active@.dom() =~= old(self).slots.active@.dom().insert(peer));
        if granted {
            Some(DumpGuard { peer })
        } else {
            None
        }
    }

    /// Hand a slot back.
    pub fn release(&mut self, guard: DumpGuard)
        ensures
            final(self).active() == old(self).active().remove(guard.spec_peer()),
            final(self).budget() == old(self).budget(),
            forall|channel: DumpChannel| #[trigger]
                final(self).waiting(channel) == old(self).waiting(channel),
    {
        self.slots.release(guard.peer);
        assert(self.slots.active@.dom() =~= old(self).slots.active@.dom().remove(guard.peer));
    }

    /// Keep `ranges` until a slot for a transfer to `peer` is free, after those that wait already.
    pub fn stash_pending_dump(&mut self, channel: DumpChannel, peer: IpAddr, ranges: Vec<KeyRange<K>>)
        ensures
            final(self).active() == old(self).active(),
            final(self).budget() == old(self).budget(),
            final(self).stashed(channel) == old(self).stashed(channel).insert(
                peer,
                if old(self).stashed(channel).contains_key(peer) {
                    old(self).stashed(channel)[peer] + ranges@
                } else {
                    ranges@
                },
            ),
            forall|other: DumpChannel| #[trigger]
                final(self).stashed(other) == old(self).stashed(other) || other == channel,
    {
        let mut more: Vec<KeyRange<K>> = ranges;
        let mut waiting: Vec<KeyRange<K>> = match channel {
            DumpChannel::Dated => self.dated.remove(&peer),
            DumpChannel::ValueOnly => self.valued.remove(&peer),
        }.unwrap_or(Vec::new());
        let ghost held = waiting@;
        waiting.append(&mut more);
        assert(held.len() == 0 ==> waiting@ =~= ranges@);
        match channel {
            DumpChannel::Dated => {
                self.dated.insert(peer, waiting);
            },
            DumpChannel::ValueOnly => {
                self.valued.insert(peer, waiting);
            },
        }
        assert(self.stashed(channel) =~= old(self).stashed(channel).insert(peer, waiting@));
    }

    /// Give a free slot to the first transfer that waits: dated entries before undated states, and
    /// the lowest address first. `None` when no slot is free, or nobody waits that is not
    /// transferred to already.
    pub fn resume(&mut self) -> (resumed: Option<Resumed<K>>)
        ensures
            resumed is None <==> old(self).active().len() >= old(self).budget() || (all_active(
                old(self).waiting(DumpChannel::Dated),
                old(self).active(),
            ) && all_active(old(self).waiting(DumpChannel::ValueOnly), old(self).active())),
            resumed is None ==> *final(self) == *old(self),
            resumed matches Some(r) ==> {
                let peer = r.guard.spec_peer();
                &&& r.channel == if all_active(
                    old(self).waiting(DumpChannel::Dated),
                    old(self).active(),
                ) {
                    DumpChannel::ValueOnly
                } else {
                    DumpChannel::Dated
                }
                &&& ordered_map::increasing::<IpAddr, Seq<KeyRange<K>>>(old(self).waiting(r.channel))
                &&& is_next(old(self).waiting(r.channel), old(self).active(), peer)
                &&& old(self).stashed(r.channel).contains_key(peer)
                &&& r.ranges@ == old(self).stashed(r.channel)[peer]
                &&& final(self).active() == old(self).active().insert(peer)
                &&& final(self).budget() == old(self).budget()
                &&& final(self).stashed(r.channel) == old(self).stashed(r.channel).remove(peer)
                &&& forall|other: DumpChannel| #[trigger]
                    final(self).stashed(other) == old(self).stashed(other) || other == r.channel
            },
    {
        if self.slots.active.len() >= self.slots.budget {
            return None;
        }
        proof {
            use_type_invariant(&self.dated);
            use_type_invariant(&self.valued);
        }
        let (peer, channel): (IpAddr, DumpChannel) = match next_idle(&self.dated, &self.slots.active) {
            Some(peer) => (peer, DumpChannel::Dated),
            None => match next_idle(&self.valued, &self.slots.active) {
                Some(peer) => (peer, DumpChannel::ValueOnly),
                None => {
                    return None;
                },
            },
        };
        match self.try_claim_dump_slot(peer) {
            None => {
                assert(false);
                None
            },
            Some(guard) => {
                assert(self.waiting(DumpChannel::Dated) == old(self).waiting(DumpChannel::Dated));
                assert(self.waiting(DumpChannel::ValueOnly) == old(self).waiting(
                    DumpChannel::ValueOnly,
                ));
                let taken: Option<Vec<KeyRange<K>>> = match channel {
                    DumpChannel::Dated => self.dated.remove(&peer),
                    DumpChannel::ValueOnly => self.valued.remove(&peer),
                };
                match taken {
                    Some(ranges) => Some(Resumed { guard, channel, ranges }),
                    None => {
                        assert(false);
                        None
                    },
                }
            },
        }
    }
}

/// Whoever is resumed waits and is not transferred to, and no other waiting peer that is not
/// transferred to has a lower address.
pub proof fn transfers_resume_in_address_order<X>(
    waiting: Seq<(IpAddr, X)>,
    active: Set<IpAddr>,
    peer: IpAddr,
    k: int,
)
    requires
        ordered_map::increasing::<IpAddr, X>(waiting),
        is_next(waiting, active, peer),
        0 <= k < waiting.len(),
    ensures
        !active.contains(peer),
        exists|i: int| 0 <= i < waiting.len() && (#[trigger] waiting[i]).0 == peer,
        !active.contains(waiting[k].0) ==> waiting[k].0 == peer || IpAddr::precedes(peer, waiting[k].0),
{
    let i = choose|i: int| #[trigger] is_next_at(waiting, active, peer, i);
    assert(waiting[i].0 == peer);
    if k < i {
        assert(active.contains(waiting[k].0));
    }
}

/// Somebody is resumed as soon as one waiting peer is not transferred to.
pub proof fn an_idle_peer_is_not_overlooked<X>(waiting: Seq<(IpAddr, X)>, active: Set<IpAddr>)
    ensures
        all_active(waiting, active) <==> !exists|k: int|
            0 <= k < waiting.len() && !active.contains((#[trigger] waiting[k]).0),
{
}

} // verus!
