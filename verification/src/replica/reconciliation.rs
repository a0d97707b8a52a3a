//! Reconciliation rounds: whom to contact, and what to send along.

use rand::rngs::StdRng;
use rand::seq::SliceRandom;
use vstd::prelude::*;

use crate::bounds::{Key, Value};
use crate::clock::Timestamp;
use crate::entry::Entry;
use crate::metrics;
use crate::net::{IpAddr, IpNet};
use crate::observability;
use crate::ordered_map;
use crate::ordered_map::OrderedMap;
use crate::peers;
use crate::peers::AddrSet;
use crate::replica::dispatch;
use crate::replica::repair;
use crate::replica::{Replica, Topology};
use crate::store;
use crate::store::Store;
use crate::time;
use crate::time::{Duration, Instant};

verus! {

// ---------------------------------------------------------------------------------------------
// Gauges and guards
// ---------------------------------------------------------------------------------------------

/// Live (non-tombstone) entries, from the total and the number of tombstones; zero should the
/// tombstones, counted separately, outrun the total.
pub fn live_entry_count(total_entries: usize, tombstones: usize) -> (live: usize)
    ensures
        live as int == if tombstones <= total_entries {
            total_entries - tombstones
        } else {
            0
        },
{
    total_entries.saturating_sub(tombstones)
}

/// A batch of dated updates last received at `last` may still be part of a transfer in progress.
pub open spec fn receiving(last: Option<Instant>, now: Instant, repair_interval: Duration) -> bool {
    match last {
        Some(at) => time::since(at, now) < repair_interval.nanos,
        None => false,
    }
}

/// Whether a peer's most recent batch of dated updates is recent enough that the transfer may still
/// be in progress. A batch exactly one repair interval old no longer counts.
pub fn still_receiving_bulk(last_received: Option<Instant>, now: Instant, repair_interval: Duration) -> (still: bool)
    ensures
        still == receiving(last_received, now, repair_interval),
{
    match last_received {
        Some(last) => now.saturating_duration_since(last).nanos < repair_interval.nanos,
        None => false,
    }
}

/// What `table` holds for `peer`.
pub open spec fn last_from(table: Map<IpAddr, Instant>, peer: IpAddr) -> Option<Instant> {
    if table.contains_key(peer) {
        Some(table[peer])
    } else {
        None
    }
}

// ---------------------------------------------------------------------------------------------
// Targets
// ---------------------------------------------------------------------------------------------

/// The outside generator that remote peers are sampled with.
#[verifier::external_type_specification]
#[verifier::external_body]
pub struct ExStdRng(StdRng);

/// `rand::seq::SliceRandom::shuffle`: the same peers, in some order. Which order is chance, and is
/// left unsaid.
#[verifier::external_body]
fn shuffle(peers: &mut Vec<IpAddr>, rng: &mut StdRng)
    ensures
        final(peers)@.to_multiset() == old(peers)@.to_multiset(),
{
    peers.shuffle(rng);
}

/// The remote networks are contacted in round number `round`.
pub open spec fn is_remote_round(round: u32, remote_interval: u32) -> bool {
    if remote_interval == 0 {
        true
    } else {
        round % remote_interval == 0
    }
}

/// The declared networks other than the local one, in order of declaration.
pub open spec fn remote_nets(topology: Topology) -> Seq<IpNet> {
    topology.nets@.filter(|net: IpNet| net != topology.local_net)
}

/// `addr` belongs to bucket `b`: the first of `nets` that covers it, or the bucket past the last
/// one when none does.
pub open spec fn in_bucket(nets: Seq<IpNet>, addr: IpAddr, b: int) -> bool {
    &&& 0 <= b <= nets.len()
    &&& forall|i: int| 0 <= i < b ==> !(#[trigger] nets[i]).covers(addr)
    &&& b < nets.len() ==> nets[b].covers(addr)
}

/// The known peers outside the local network that belong to bucket `b`.
pub open spec fn bucket(known: Seq<IpAddr>, local: IpNet, nets: Seq<IpNet>, b: int) -> Seq<IpAddr> {
    known.filter(|addr: IpAddr| !local.covers(addr) && in_bucket(nets, addr, b))
}

/// `picked` holds as many distinct members of `from` as `fanout` allows.
pub open spec fn is_sample(from: Seq<IpAddr>, picked: Seq<IpAddr>, fanout: usize) -> bool {
    &&& picked.no_duplicates()
    &&& forall|addr: IpAddr| #[trigger] picked.contains(addr) ==> from.contains(addr)
    &&& picked.len() == if from.len() <= fanout {
        from.len()
    } else {
        fanout as nat
    }
}

/// `picks` holds one sample for each remote network and one for the unclassified peers, on the
/// rounds that contact them, and nothing on the others.
pub open spec fn are_picks(
    topology: Topology,
    known: Seq<IpAddr>,
    round: u32,
    picks: Seq<Vec<IpAddr>>,
) -> bool {
    if is_remote_round(round, topology.remote_interval) {
        &&& picks.len() == remote_nets(topology).len() + 1
        &&& forall|b: int|
            0 <= b < picks.len() ==> is_sample(
                bucket(known, topology.local_net, remote_nets(topology), b),
                (#[trigger] picks[b])@,
                topology.remote_fanout,
            )
    } else {
        picks.len() == 0
    }
}

/// Some sample holds `addr`.
pub open spec fn is_picked(picks: Seq<Vec<IpAddr>>, addr: IpAddr) -> bool {
    exists|b: int| 0 <= b < picks.len() && (#[trigger] picks[b])@.contains(addr)
}

/// The peers a round contacts: every probe, every known peer of the local network and every sampled
/// peer, less those whose bulk transfer may still be in progress.
pub open spec fn round_targets(
    probes: Seq<IpAddr>,
    known: Seq<IpAddr>,
    local: IpNet,
    picks: Seq<Vec<IpAddr>>,
    bulk: Map<IpAddr, Instant>,
    now: Instant,
    repair_interval: Duration,
) -> Set<IpAddr> {
    Set::new(
        |addr: IpAddr|
            (probes.contains(addr) || (known.contains(addr) && local.covers(addr)) || is_picked(
                picks,
                addr,
            )) && !receiving(last_from(bulk, addr), now, repair_interval),
    )
}

/// Every address belongs to exactly one bucket, so no topology change can leave a peer out of all
/// of them.
pub proof fn buckets_partition(nets: Seq<IpNet>, addr: IpAddr)
    ensures
        exists|b: int| in_bucket(nets, addr, b),
        forall|a: int, b: int| in_bucket(nets, addr, a) && in_bucket(nets, addr, b) ==> a == b,
{
    lemma_first_cover(nets, addr, 0);
    assert forall|a: int, b: int| in_bucket(nets, addr, a) && in_bucket(nets, addr, b) implies a == b by {
        if a < b {
            assert(!nets[a].covers(addr));
        } else if b < a {
            assert(!nets[b].covers(addr));
        }
    }
}

proof fn lemma_first_cover(nets: Seq<IpNet>, addr: IpAddr, from: int)
    requires
        0 <= from <= nets.len(),
        forall|i: int| 0 <= i < from ==> !(#[trigger] nets[i]).covers(addr),
    ensures
        exists|b: int| in_bucket(nets, addr, b),
    decreases nets.len() - from,
{
    if from == nets.len() || nets[from].covers(addr) {
        assert(in_bucket(nets, addr, from));
    } else {
        lemma_first_cover(nets, addr, from + 1);
    }
}

/// A remote round leaves no bucket out: with a positive fanout, every bucket that has a peer has
/// one of its peers sampled.
pub proof fn no_bucket_is_orphaned(
    topology: Topology,
    known: Seq<IpAddr>,
    round: u32,
    picks: Seq<Vec<IpAddr>>,
    peer: IpAddr,
) -> (b: int)
    requires
        are_picks(topology, known, round, picks),
        is_remote_round(round, topology.remote_interval),
        topology.remote_fanout > 0,
        known.contains(peer),
        !topology.local_net.covers(peer),
    ensures
        in_bucket(remote_nets(topology), peer, b),
        picks[b]@.len() > 0,
        forall|addr: IpAddr| #[trigger]
            picks[b]@.contains(addr) ==> known.contains(addr) && !topology.local_net.covers(addr) && in_bucket(
                remote_nets(topology),
                addr,
                b,
            ),
{
    let nets = remote_nets(topology);
    let local = topology.local_net;
    buckets_partition(nets, peer);
    let b = choose|b: int| in_bucket(nets, peer, b);
    let keep = |addr: IpAddr| !local.covers(addr) && in_bucket(nets, addr, b);
    let from = bucket(known, local, nets, b);
    assert(is_sample(from, picks[b]@, topology.remote_fanout));
    assert(known.filter(keep).contains(peer)) by {
        let i = choose|i: int| 0 <= i < known.len() && known[i] == peer;
        assert(keep(known[i]));
    }
    assert forall|addr: IpAddr| #[trigger] picks[b]@.contains(addr) implies known.contains(addr)
        && !local.covers(addr) && in_bucket(nets, addr, b) by {
        assert(from.contains(addr));
        let j = choose|j: int| 0 <= j < from.len() && from[j] == addr;
        assert(keep(from[j]));
        known.lemma_filter_contains_rev(keep, addr);
    }
    b
}

/// The bucket of `addr`.
fn bucket_of(nets: &Vec<IpNet>, addr: &IpAddr) -> (b: usize)
    ensures
        in_bucket(nets@, *addr, b as int),
{
    let mut b: usize = 0;
    while b < nets.len()
        invariant
            b <= nets@.len(),
            forall|i: int| 0 <= i < b ==> !(#[trigger] nets@[i]).covers(*addr),
        decreases nets@.len() - b,
    {
        if nets[b].contains(addr) {
            return b;
        }
        b = b + 1;
    }
    b
}

/// The members of bucket `b`.
fn members_of_bucket(known: &Vec<IpAddr>, local: &IpNet, nets: &Vec<IpNet>, b: usize) -> (members: Vec<
    IpAddr,
>)
    requires
        b <= nets@.len(),
        known@.no_duplicates(),
    ensures
        members@ == bucket(known@, *local, nets@, b as int),
        members@.no_duplicates(),
{
    let ghost keep = |addr: IpAddr| !local.covers(addr) && in_bucket(nets@, addr, b as int);
    let mut members: Vec<IpAddr> = Vec::new();
    let mut i: usize = 0;
    proof {
        reveal(Seq::filter);
        assert(known@.take(0).filter(keep) =~= Seq::empty());
    }
    while i < known.len()
        invariant
            i <= known@.len(),
            b <= nets@.len(),
            keep == (|addr: IpAddr| !local.covers(addr) && in_bucket(nets@, addr, b as int)),
            members@ == known@.take(i as int).filter(keep),
        decreases known@.len() - i,
    {
        let addr: IpAddr = known[i];
        proof {
            reveal(Seq::filter);
            assert(known@.take(i + 1).drop_last() =~= known@.take(i as int));
            assert(known@.take(i + 1).last() == addr);
            buckets_partition(nets@, addr);
        }
        if !local.contains(&addr) && bucket_of(nets, &addr) == b {
            members.push(addr);
        }
        i = i + 1;
    }
    assert(known@.take(i as int) =~= known@);
    proof {
        lemma_filter_no_duplicates(known@, keep);
    }
    members
}

/// Shuffle `members`, and keep as many as `fanout` allows.
fn sample(members: Vec<IpAddr>, fanout: usize, rng: &mut StdRng) -> (picked: Vec<IpAddr>)
    requires
        members@.no_duplicates(),
    ensures
        is_sample(members@, picked@, fanout),
{
    let ghost from = members@;
    let mut picked: Vec<IpAddr> = members;
    shuffle(&mut picked, rng);
    let ghost shuffled = picked@;
    proof {
        from.to_multiset_ensures();
        shuffled.to_multiset_ensures();
        from.lemma_multiset_has_no_duplicates();
        shuffled.lemma_multiset_has_no_duplicates_conv();
        assert forall|addr: IpAddr| #[trigger] shuffled.contains(addr) implies from.contains(addr) by {
            assert(shuffled.to_multiset().count(addr) > 0);
        }
    }
    if picked.len() > fanout {
        picked.truncate(fanout);
        proof {
            assert(picked@ =~= shuffled.take(fanout as int));
            assert forall|addr: IpAddr| #[trigger] picked@.contains(addr) implies from.contains(addr) by {
                let i = choose|i: int| 0 <= i < picked@.len() && picked@[i] == addr;
                assert(shuffled[i] == addr);
                assert(shuffled.contains(addr));
            }
        }
    }
    picked
}

/// Sample the peers of each remote network, and the unclassified ones, for round number `round`.
pub fn pick_remote(topology: &Topology, known: &Vec<IpAddr>, round: u32, rng: &mut StdRng) -> (picks: Vec<
    Vec<IpAddr>,
>)
    requires
        known@.no_duplicates(),
    ensures
        are_picks(*topology, known@, round, picks@),
{
    let remote: bool = topology.remote_interval == 0 || round % topology.remote_interval == 0;
    let mut picks: Vec<Vec<IpAddr>> = Vec::new();
    if !remote {
        return picks;
    }
    let local: IpNet = topology.local_net;
    let ghost differs = |net: IpNet| net != topology.local_net;
    let mut nets: Vec<IpNet> = Vec::new();
    let mut i: usize = 0;
    proof {
        reveal(Seq::filter);
        assert(topology.nets@.take(0).filter(differs) =~= Seq::empty());
    }
    while i < topology.nets.len()
        invariant
            i <= topology.nets@.len(),
            local == topology.local_net,
            differs == (|net: IpNet| net != topology.local_net),
            nets@ == topology.nets@.take(i as int).filter(differs),
        decreases topology.nets@.len() - i,
    {
        let net: IpNet = topology.nets[i];
        proof {
            reveal(Seq::filter);
            assert(topology.nets@.take(i + 1).drop_last() =~= topology.nets@.take(i as int));
            assert(topology.nets@.take(i + 1).last() == net);
        }
        if net != local {
            nets.push(net);
        }
        i = i + 1;
    }
    assert(topology.nets@.take(i as int) =~= topology.nets@);
    let n: usize = nets.len();
    let mut b: usize = 0;
    while b < n
        invariant
            nets@ == remote_nets(*topology),
            n == nets@.len(),
            local == topology.local_net,
            known@.no_duplicates(),
            b <= n,
            picks@.len() == b,
            forall|c: int|
                0 <= c < picks@.len() ==> is_sample(
                    bucket(known@, local, nets@, c),
                    (#[trigger] picks@[c])@,
                    topology.remote_fanout,
                ),
        decreases n - b,
    {
        let members: Vec<IpAddr> = members_of_bucket(known, &local, &nets, b);
        picks.push(sample(members, topology.remote_fanout, rng));
        b = b + 1;
    }
    let unclassified: Vec<IpAddr> = members_of_bucket(known, &local, &nets, n);
    picks.push(sample(unclassified, topology.remote_fanout, rng));
    picks
}

/// Filtering keeps the members distinct.
proof fn lemma_filter_no_duplicates<A>(s: Seq<A>, keep: spec_fn(A) -> bool)
    requires
        s.no_duplicates(),
    ensures
        s.filter(keep).no_duplicates(),
    decreases s.len(),
{
    reveal(Seq::filter);
    if s.len() > 0 {
        let rest = s.drop_last();
        lemma_filter_no_duplicates(rest, keep);
        let kept = rest.filter(keep);
        assert forall|i: int| 0 <= i < kept.len() implies #[trigger] kept[i] != s.last() by {
            rest.lemma_filter_contains_rev(keep, kept[i]);
            let j = choose|j: int| 0 <= j < rest.len() && rest[j] == kept[i];
            assert(s[j] != s[s.len() - 1]);
        }
    }
}

/// Put `addr` among the targets, unless a bulk transfer from it may still be in progress.
fn target(
    targets: &mut AddrSet,
    addr: IpAddr,
    bulk: &OrderedMap<IpAddr, Instant>,
    now: Instant,
    repair_interval: Duration,
)
    ensures
        final(targets)@.dom() == if receiving(last_from(bulk@, addr), now, repair_interval) {
            old(targets)@.dom()
        } else {
            old(targets)@.dom().insert(addr)
        },
{
    let last: Option<Instant> = match bulk.get(&addr) {
        Some(at) => Some(*at),
        None => None,
    };
    if !still_receiving_bulk(last, now, repair_interval) {
        targets.insert(addr, ());
        assert(targets@.dom() =~= old(targets)@.dom().insert(addr));
    }
}

/// The peers a round contacts, each once, in address order.
pub fn select_targets(
    probes: &Vec<IpAddr>,
    known: &Vec<IpAddr>,
    local: &IpNet,
    picks: &Vec<Vec<IpAddr>>,
    bulk: &OrderedMap<IpAddr, Instant>,
    now: Instant,
    repair_interval: Duration,
) -> (targets: Vec<IpAddr>)
    ensures
        peers::addresses(targets@) == round_targets(
            probes@,
            known@,
            *local,
            picks@,
            bulk@,
            now,
            repair_interval,
        ),
        targets@.no_duplicates(),
        forall|i: int, j: int|
            0 <= i < j < targets@.len() ==> IpAddr::precedes(#[trigger] targets@[i], #[trigger] targets@[j]),
{
    let ghost skip = |addr: IpAddr| receiving(last_from(bulk@, addr), now, repair_interval);
    let mut targets: AddrSet = OrderedMap::new();
    let mut i: usize = 0;
    while i < probes.len()
        invariant
            i <= probes@.len(),
            skip == (|addr: IpAddr| receiving(last_from(bulk@, addr), now, repair_interval)),
            forall|addr: IpAddr| #[trigger]
                targets@.dom().contains(addr) <==> probes@.take(i as int).contains(addr) && !skip(addr),
        decreases probes@.len() - i,
    {
        let ghost before = targets@.dom();
        target(&mut targets, probes[i], bulk, now, repair_interval);
        proof {
            lemma_take_contains(probes@, i as int);
        }
        i = i + 1;
    }
    assert(probes@.take(i as int) =~= probes@);
    let mut j: usize = 0;
    while j < known.len()
        invariant
            j <= known@.len(),
            skip == (|addr: IpAddr| receiving(last_from(bulk@, addr), now, repair_interval)),
            forall|addr: IpAddr| #[trigger]
                targets@.dom().contains(addr) <==> (probes@.contains(addr) || (known@.take(
                    j as int,
                ).contains(addr) && local.covers(addr))) && !skip(addr),
        decreases known@.len() - j,
    {
        proof {
            lemma_take_contains(known@, j as int);
        }
        if local.contains(&known[j]) {
            target(&mut targets, known[j], bulk, now, repair_interval);
        }
        j = j + 1;
    }
    assert(known@.take(j as int) =~= known@);
    let mut b: usize = 0;
    while b < picks.len()
        invariant
            b <= picks@.len(),
            skip == (|addr: IpAddr| receiving(last_from(bulk@, addr), now, repair_interval)),
            forall|addr: IpAddr| #[trigger]
                targets@.dom().contains(addr) <==> (probes@.contains(addr) || (known@.contains(addr)
                    && local.covers(addr)) || is_picked(picks@.take(b as int), addr)) && !skip(addr),
        decreases picks@.len() - b,
    {
        let picked = &picks[b];
        let mut k: usize = 0;
        while k < picked.len()
            invariant
                k <= picked@.len(),
                skip == (|addr: IpAddr| receiving(last_from(bulk@, addr), now, repair_interval)),
                forall|addr: IpAddr| #[trigger]
                    targets@.dom().contains(addr) <==> (probes@.contains(addr) || (known@.contains(addr)
                        && local.covers(addr)) || is_picked(picks@.take(b as int), addr) || picked@.take(
                        k as int,
                    ).contains(addr)) && !skip(addr),
            decreases picked@.len() - k,
        {
            proof {
                lemma_take_contains(picked@, k as int);
            }
            target(&mut targets, picked[k], bulk, now, repair_interval);
            k = k + 1;
        }
        proof {
            assert(picked@.take(k as int) =~= picked@);
            lemma_picked_step(picks@, b as int);
        }
        b = b + 1;
    }
    assert(picks@.take(b as int) =~= picks@);
    proof {
        use_type_invariant(&targets);
        peers::lemma_keys::<()>(targets.sequence());
    }
    let list: Vec<IpAddr> = targets.keys();
    proof {
        assert(list@ =~= ordered_map::keys_of(targets.sequence()));
        assert forall|i: int, j: int| 0 <= i < j < list@.len() implies IpAddr::precedes(
            #[trigger] list@[i],
            #[trigger] list@[j],
        ) by {
            assert(list@[i] == targets.sequence()[i].0 && list@[j] == targets.sequence()[j].0);
        }
        let all = round_targets(probes@, known@, *local, picks@, bulk@, now, repair_interval);
        assert forall|addr: IpAddr| targets@.dom().contains(addr) <==> all.contains(addr) by {
            assert(skip(addr) == receiving(last_from(bulk@, addr), now, repair_interval));
        }
        assert(peers::addresses(list@) =~= all);
    }
    list
}

/// A prefix one longer holds one more element.
pub proof fn lemma_take_contains<A>(s: Seq<A>, i: int)
    requires
        0 <= i < s.len(),
    ensures
        forall|a: A| #[trigger] s.take(i + 1).contains(a) <==> s.take(i).contains(a) || a == s[i],
{
    let longer = s.take(i + 1);
    let prefix = s.take(i);
    assert forall|a: A| #[trigger] longer.contains(a) <==> prefix.contains(a) || a == s[i] by {
        if longer.contains(a) {
            let j = choose|j: int| 0 <= j < longer.len() && longer[j] == a;
            if j < i {
                assert(prefix[j] == a);
            }
        }
        if prefix.contains(a) {
            let j = choose|j: int| 0 <= j < prefix.len() && prefix[j] == a;
            assert(longer[j] == a);
        }
        if a == s[i] {
            assert(longer[i] == a);
        }
    }
}

/// One more sample adds its members.
proof fn lemma_picked_step(picks: Seq<Vec<IpAddr>>, b: int)
    requires
        0 <= b < picks.len(),
    ensures
        forall|addr: IpAddr| #[trigger]
            is_picked(picks.take(b + 1), addr) <==> is_picked(picks.take(b), addr) || picks[b]@.contains(
                addr,
            ),
{
    assert forall|addr: IpAddr| #[trigger] is_picked(picks.take(b + 1), addr) <==> is_picked(
        picks.take(b),
        addr,
    ) || picks[b]@.contains(addr) by {
        let longer = picks.take(b + 1);
        let prefix = picks.take(b);
        if is_picked(longer, addr) {
            let c = choose|c: int| 0 <= c < longer.len() && (#[trigger] longer[c])@.contains(addr);
            if c < b {
                assert(prefix[c]@.contains(addr));
            }
        }
        if is_picked(prefix, addr) {
            let c = choose|c: int| 0 <= c < prefix.len() && (#[trigger] prefix[c])@.contains(addr);
            assert(longer[c]@.contains(addr));
        }
        if picks[b]@.contains(addr) {
            assert(longer[b]@.contains(addr));
        }
    }
}

impl<K: Key, V: Value> Replica<K, V> {
    /// Record that a batch of dated updates just arrived from `peer`.
    pub fn note_bulk_update_received(&mut self, peer: IpAddr, now: Instant)
        ensures
            *final(self) == (Replica {
                receiving_bulk_from: final(self).receiving_bulk_from,
                ..*old(self)
            }),
            final(self).receiving_bulk_from@ == old(self).receiving_bulk_from@.insert(peer, now),
    {
        self.receiving_bulk_from.insert(peer, now);
    }
}

// ---------------------------------------------------------------------------------------------
// Resending tombstone acks
// ---------------------------------------------------------------------------------------------

/// How many bytes of resent acks a datagram takes before the rest waits for later rounds.
pub const TOMBSTONE_ACK_RESEND_BYTE_BUDGET: usize = 8192;

/// The tombstones a store holds, in key order, each with its stamp.
pub open spec fn held_tombstones<K: Key, V: Value>(store: Store<K, V>) -> Seq<(K::V, Timestamp)> {
    store::marks(store::undated(store.sequence())).map_values(
        |mark: (K::V, ())| (mark.0, store@[mark.0].stamp),
    )
}

/// `s`, starting at `start` and wrapping around.
pub open spec fn rotated<A>(s: Seq<A>, start: int) -> Seq<A> {
    s.subrange(start, s.len() as int) + s.subrange(0, start)
}

/// The tombstones in the order in which round number `round` resends their acks.
pub open spec fn in_turn<A>(s: Seq<A>, round: u32) -> Seq<A> {
    if s.len() == 0 {
        s
    } else {
        rotated(s, round as int % s.len() as int)
    }
}

/// Byte chunks, put together.
pub open spec fn joined(chunks: Seq<Seq<u8>>) -> Seq<u8> {
    dispatch::gathered(chunks, |chunk: Seq<u8>| chunk)
}

/// `chunks` are encoded acks for the first so many tombstones of `turn`: each was added while the
/// budget still had room, and none was left out while it had.
pub open spec fn fills_budget<A>(turn: Seq<A>, chunks: Seq<Seq<u8>>) -> bool {
    &&& chunks.len() <= turn.len()
    &&& forall|i: int|
        0 <= i < chunks.len() ==> joined(#[trigger] chunks.take(i)).len()
            < TOMBSTONE_ACK_RESEND_BYTE_BUDGET
    &&& chunks.len() == turn.len() || joined(chunks).len() >= TOMBSTONE_ACK_RESEND_BYTE_BUDGET
}

/// `chunk` is what `encode` made of the ack for `tombstone`.
pub open spec fn encodes<K: Key, E>(encode: E, tombstone: (K::V, Timestamp), chunk: Seq<u8>) -> bool where
    E: Fn(&K, Timestamp) -> Vec<u8>,
 {
    exists|key: K, bytes: Vec<u8>|
        key@ == tombstone.0 && bytes@ == chunk && #[trigger] encodes_as(encode, key, tombstone.1, bytes)
}

/// `encode` may give `bytes` for the ack of the tombstone of `key`.
pub open spec fn encodes_as<K: Key, E>(encode: E, key: K, stamp: Timestamp, bytes: Vec<u8>) -> bool where
    E: Fn(&K, Timestamp) -> Vec<u8>,
 {
    call_ensures(encode, (&key, stamp), bytes)
}

/// `after` is `before` with the acks that round number `round` resends appended, `count` of them.
pub open spec fn resends<K: Key, V: Value, E>(
    store: Store<K, V>,
    round: u32,
    encode: E,
    before: Seq<u8>,
    after: Seq<u8>,
    count: nat,
) -> bool where E: Fn(&K, Timestamp) -> Vec<u8> {
    exists|chunks: Seq<Seq<u8>>|
        {
            &&& #[trigger] fills_budget(in_turn(held_tombstones(store), round), chunks)
            &&& after == before + joined(chunks)
            &&& count == chunks.len()
            &&& forall|i: int|
                0 <= i < chunks.len() ==> encodes::<K, E>(
                    encode,
                    in_turn(held_tombstones(store), round)[i],
                    #[trigger] chunks[i],
                )
        }
}

/// While there is a tombstone, the first in turn is resent, whatever its size.
pub proof fn the_first_in_turn_is_resent<A>(turn: Seq<A>, chunks: Seq<Seq<u8>>)
    requires
        fills_budget(turn, chunks),
        turn.len() > 0,
    ensures
        chunks.len() > 0,
{
    if chunks.len() == 0 {
        assert(joined(chunks) =~= Seq::empty());
    }
}

/// Every tombstone comes first in turn once in every `n` consecutive rounds, where `n` is how many
/// there are, so none waits longer than that.
pub proof fn every_tombstone_gets_its_turn<A>(s: Seq<A>, round: u32, i: int) -> (later: u32)
    requires
        0 <= i < s.len(),
        round + s.len() <= u32::MAX,
    ensures
        round <= later < round + s.len(),
        in_turn(s, later)[0] == s[i],
{
    let n = s.len() as int;
    let start = round as int % n;
    let wait = if start <= i {
        i - start
    } else {
        i - start + n
    };
    let later = (round + wait) as u32;
    let q = round as int / n;
    let turns = if start <= i {
        q
    } else {
        q + 1
    };
    vstd::arithmetic::div_mod::lemma_fundamental_div_mod(round as int, n);
    assert(n * q == q * n && (q + 1) * n == q * n + n) by (nonlinear_arith);
    assert(later as int == turns * n + i);
    vstd::arithmetic::div_mod::lemma_fundamental_div_mod_converse(later as int, n, turns, i);
    later
}

/// A round resends no tombstone's ack twice.
pub proof fn no_tombstone_is_acked_twice<K: Key, V: Value>(store: Store<K, V>, round: u32, i: int, j: int)
    requires
        ordered_map::increasing::<K, Entry<Timestamp, V::V>>(store.sequence()),
        0 <= i < j < in_turn(held_tombstones(store), round).len(),
    ensures
        in_turn(held_tombstones(store), round)[i].0 != in_turn(held_tombstones(store), round)[j].0,
{
    let states = store::undated(store.sequence());
    store::lemma_undated::<K, V::V>(store.sequence());
    store::lemma_marks::<K, V::V>(states);
    let marks = store::marks(states);
    let held = held_tombstones(store);
    let n = held.len() as int;
    let start = round as int % n;
    let a = if i < n - start {
        start + i
    } else {
        i - (n - start)
    };
    let b = if j < n - start {
        start + j
    } else {
        j - (n - start)
    };
    assert(in_turn(held, round)[i] == held[a] && in_turn(held, round)[j] == held[b]);
    assert(held[a].0 == marks[a].0 && held[b].0 == marks[b].0);
    if a < b {
        ordered_map::lemma_exclusive::<K>(marks[a].0, marks[b].0);
    } else {
        ordered_map::lemma_exclusive::<K>(marks[b].0, marks[a].0);
    }
}

/// While no write comes in between, as many consecutive rounds as there are tombstones resend the
/// ack of every one of them: each such round resends at least one, and in one of them the ack of
/// the `i`-th tombstone comes first, right behind what the datagram held before.
pub proof fn every_tombstone_is_acked_within_its_rounds<K: Key, V: Value, E>(
    store: Store<K, V>,
    round: u32,
    encode: E,
    before: Seq<Seq<u8>>,
    after: Seq<Seq<u8>>,
    counts: Seq<nat>,
    i: int,
) -> (at: int) where E: Fn(&K, Timestamp) -> Vec<u8>
    requires
        0 <= i < held_tombstones(store).len(),
        round + held_tombstones(store).len() <= u32::MAX,
        before.len() == held_tombstones(store).len(),
        after.len() == held_tombstones(store).len(),
        counts.len() == held_tombstones(store).len(),
        forall|r: int|
            0 <= r < counts.len() ==> resends(
                store,
                (round + r) as u32,
                encode,
                before[r],
                after[r],
                #[trigger] counts[r],
            ),
    ensures
        0 <= at < counts.len(),
        counts[at] >= 1,
        exists|chunk: Seq<u8>| #[trigger]
            encodes::<K, E>(encode, held_tombstones(store)[i], chunk) && (before[at] + chunk).is_prefix_of(
                after[at],
            ),
{
    let held = held_tombstones(store);
    let later = every_tombstone_gets_its_turn(held, round, i);
    let at = later - round;
    assert(resends(store, (round + at) as u32, encode, before[at], after[at], counts[at]));
    let turn = in_turn(held, later);
    let chunks = choose|chunks: Seq<Seq<u8>>|
        {
            &&& #[trigger] fills_budget(turn, chunks)
            &&& after[at] == before[at] + joined(chunks)
            &&& counts[at] == chunks.len()
            &&& forall|k: int|
                0 <= k < chunks.len() ==> encodes::<K, E>(encode, turn[k], #[trigger] chunks[k])
        };
    the_first_in_turn_is_resent(turn, chunks);
    lemma_joined_begins(chunks);
    assert(encodes::<K, E>(encode, turn[0], chunks[0]));
    let first = before[at] + chunks[0];
    assert(first =~= after[at].take(first.len() as int));
    at
}

/// Chunks put together begin with the first of them.
proof fn lemma_joined_begins(chunks: Seq<Seq<u8>>)
    requires
        chunks.len() > 0,
    ensures
        chunks[0].len() <= joined(chunks).len(),
        joined(chunks).take(chunks[0].len() as int) == chunks[0],
    decreases chunks.len(),
{
    let rest = chunks.drop_last();
    if rest.len() == 0 {
        assert(joined(rest) =~= Seq::empty());
        assert(joined(chunks) =~= chunks[0]);
        assert(chunks[0].take(chunks[0].len() as int) =~= chunks[0]);
    } else {
        lemma_joined_begins(rest);
        assert(rest[0] == chunks[0]);
        assert(joined(chunks) == joined(rest) + chunks.last());
        assert(joined(chunks).take(chunks[0].len() as int) =~= joined(rest).take(chunks[0].len() as int));
    }
}

impl<K: Key, V: Value> Replica<K, V> {
    /// Append to `send_buf` an ack for each held tombstone, as far as the budget reaches, starting
    /// at a key that advances with `round`; returns how many. `encode` turns the ack for a
    /// tombstone into bytes.
    pub fn resend_held_tombstone_acks<E>(&mut self, send_buf: &mut Vec<u8>, round: u32, encode: E) -> (appended: usize) where
        E: Fn(&K, Timestamp) -> Vec<u8>,

        requires
            forall|key: &K, stamp: Timestamp| call_requires(encode, (key, stamp)),
        ensures
            *final(self) == (Replica { metrics: final(self).metrics, ..*old(self) }),
            resends(
                old(self).store,
                round,
                encode,
                old(send_buf)@,
                final(send_buf)@,
                appended as nat,
            ),
            final(self).metrics@ == if held_tombstones(old(self).store).len() == 0 {
                old(self).metrics@
            } else {
                old(self).metrics@.push(
                    observability::counted(metrics::TOMBSTONE_ACKS_RESENT_TOTAL, appended as u64),
                )
            },
    {
        let ghost before = send_buf@;
        let ghost held = held_tombstones(self.store);
        let ghost turn = in_turn(held, round);
        let tombstones = self.store.live_tombstones();
        let n: usize = tombstones.len();
        let ghost mut chunks: Seq<Seq<u8>> = Seq::empty();
        assert(joined(chunks) =~= Seq::empty());
        assert(before + joined(chunks) =~= before);
        if n == 0 {
            assert(fills_budget(turn, chunks));
            return 0;
        }
        let start: usize = (round as usize) % n;
        let floor: usize = send_buf.len();
        let mut appended: usize = 0;
        while appended < n && send_buf.len() - floor < TOMBSTONE_ACK_RESEND_BYTE_BUDGET
            invariant
                *self == *old(self),
                held == held_tombstones(self.store),
                turn == in_turn(held, round),
                tombstones.sequence() == store::marks(store::undated(self.store.sequence())),
                tombstones@.dom() == store::marked(store::projected(self.store@)),
                n == held.len(),
                n > 0,
                start == round as int % n as int,
                floor == before.len(),
                send_buf@ == before + joined(chunks),
                appended == chunks.len(),
                appended <= n,
                forall|key: &K, stamp: Timestamp| call_requires(encode, (key, stamp)),
                forall|i: int|
                    0 <= i < chunks.len() ==> joined(#[trigger] chunks.take(i)).len()
                        < TOMBSTONE_ACK_RESEND_BYTE_BUDGET,
                forall|i: int|
                    0 <= i < chunks.len() ==> encodes::<K, E>(encode, turn[i], #[trigger] chunks[i]),
            decreases n - appended,
        {
            let position: usize = if appended < n - start {
                start + appended
            } else {
                appended - (n - start)
            };
            let (key, _) = tombstones.at(position);
            proof {
                assert(turn[appended as int] == held[position as int]);
                assert(held[position as int] == (key@, self.store@[key@].stamp));
                assert(store::marked(store::projected(self.store@)).contains(key@));
            }
            match self.store.map().get(key) {
                Some(entry) => {
                    let mut bytes: Vec<u8> = encode(key, entry.stamp);
                    let ghost chunk = bytes@;
                    let ghost whole = bytes;
                    send_buf.append(&mut bytes);
                    proof {
                        let longer = chunks.push(chunk);
                        assert(longer.drop_last() =~= chunks);
                        assert(before + joined(longer) =~= before + joined(chunks) + chunk);
                        assert(encodes_as(encode, *key, turn[appended as int].1, whole));
                        assert(turn[appended as int] == (key@, entry.stamp));
                        assert(encodes::<K, E>(encode, turn[appended as int], chunk));
                        assert forall|i: int| 0 <= i < longer.len() implies joined(
                            #[trigger] longer.take(i),
                        ).len() < TOMBSTONE_ACK_RESEND_BYTE_BUDGET by {
                            if i < chunks.len() {
                                assert(longer.take(i) =~= chunks.take(i));
                            } else {
                                assert(longer.take(i) =~= chunks);
                            }
                        }
                        chunks = longer;
                    }
                    appended = appended + 1;
                },
                None => {
                    assert(false);
                },
            }
        }
        assert(fills_budget(turn, chunks));
        self.metrics.record_tombstone_acks_resent(appended);
        appended
    }
}

// ---------------------------------------------------------------------------------------------
// A whole round
// ---------------------------------------------------------------------------------------------

/// The gauges of a replica whose peer table was just expired.
pub open spec fn gauges<K: Key, V: Value>(replica: Replica<K, V>, bulk_dumps_in_flight: usize) -> Seq<
    observability::MetricEvent,
> {
    let states = store::undated(replica.store.sequence());
    observability::state_gauges(
        replica.peers.seen.sequence().len() as usize,
        replica.members.sequence().len() as usize,
        store::live(states).len() as usize,
        store::marks(states).len() as usize,
        bulk_dumps_in_flight,
        replica.egress.spec_in_flight(),
    )
}

/// What a round resending `count` acks adds to the log.
pub open spec fn round_events<K: Key, V: Value>(
    replica: Replica<K, V>,
    bulk_dumps_in_flight: usize,
    count: nat,
) -> Seq<observability::MetricEvent> {
    seq![observability::counted(metrics::ROUNDS_TOTAL, 1)] + gauges(replica, bulk_dumps_in_flight)
        + if held_tombstones(replica.store).len() == 0 {
        Seq::empty()
    } else {
        seq![observability::counted(metrics::TOMBSTONE_ACKS_RESENT_TOTAL, count as u64)]
    }
}

/// The round contacts the right peers, given what was sampled.
pub open spec fn contacts<K: Key, V: Value>(
    before: Replica<K, V>,
    known: Seq<IpAddr>,
    probes: Seq<IpAddr>,
    now: Instant,
    targets: Seq<IpAddr>,
) -> bool {
    exists|picks: Seq<Vec<IpAddr>>|
        {
            &&& #[trigger] are_picks(before.topology, known, before.round, picks)
            &&& peers::addresses(targets) == round_targets(
                probes,
                known,
                before.topology.local_net,
                picks,
                before.receiving_bulk_from@,
                now,
                before.repair_interval,
            )
        }
}

/// Every round contacts every known peer of the local network, and nobody whose bulk transfer may
/// still be in progress.
pub proof fn local_peers_are_always_contacted<K: Key, V: Value>(
    before: Replica<K, V>,
    known: Seq<IpAddr>,
    probes: Seq<IpAddr>,
    now: Instant,
    targets: Seq<IpAddr>,
    peer: IpAddr,
)
    requires
        contacts(before, known, probes, now, targets),
    ensures
        receiving(last_from(before.receiving_bulk_from@, peer), now, before.repair_interval)
            ==> !targets.contains(peer),
        !receiving(last_from(before.receiving_bulk_from@, peer), now, before.repair_interval)
            && known.contains(peer) && before.topology.local_net.covers(peer) ==> targets.contains(peer),
{
    assert(peers::addresses(targets).contains(peer) <==> targets.contains(peer));
}

/// Every peer a round contacts is owed an answer afterwards: within one repair interval where none
/// was owed before, else when it already was.
pub proof fn every_target_is_owed_an_answer(
    table: Map<IpAddr, repair::PendingRepair>,
    targets: Seq<IpAddr>,
    now: Instant,
    repair_interval: Duration,
    peer: IpAddr,
)
    requires
        targets.contains(peer),
    ensures
        ({
            let after = repair::noted(table, peers::addresses(targets), now, repair_interval);
            after.contains_key(peer) && after[peer] == if table.contains_key(peer) {
                table[peer]
            } else {
                repair::fresh_repair(now, repair_interval)
            }
        }),
{
}

/// The datagram holds the opening comparison of the dated map, then the acks that are resent.
pub open spec fn composes<K: Key, V: Value, O, E>(
    before: Replica<K, V>,
    after: Replica<K, V>,
    bulk_dumps_in_flight: usize,
    open: O,
    encode: E,
    datagram: Seq<u8>,
) -> bool where
    O: FnOnce(&OrderedMap<K, Entry<Timestamp, V>>) -> Vec<u8>,
    E: Fn(&K, Timestamp) -> Vec<u8>,
 {
    exists|opening: Vec<u8>, count: nat|
        {
            &&& call_ensures(open, (&before.store.dated(),), opening)
            &&& #[trigger] resends(before.store, before.round, encode, opening@, datagram, count)
            &&& after.metrics@ == before.metrics@ + round_events(after, bulk_dumps_in_flight, count)
        }
}

impl<K: Key, V: Value> Replica<K, V> {
    /// Begin a reconciliation round: fill `send_buf` with the datagram to send, and hand back whom
    /// to send it to. `open` encodes the opening comparison of the dated map; `probes` are the
    /// addresses a speculative discovery source came up with. Each target is owed an answer from now
    /// on, whether or not its send succeeds.
    pub fn start_reconciliation<O, E>(
        &mut self,
        send_buf: &mut Vec<u8>,
        open: O,
        probes: &Vec<IpAddr>,
        bulk_dumps_in_flight: usize,
        now: Instant,
        rng: &mut StdRng,
        encode: E,
    ) -> (targets: Vec<IpAddr>) where
        O: FnOnce(&OrderedMap<K, Entry<Timestamp, V>>) -> Vec<u8>,
        E: Fn(&K, Timestamp) -> Vec<u8>,

        requires
            now.nanos + old(self).repair_interval.nanos <= u128::MAX,
            call_requires(open, (&old(self).store.dated(),)),
            forall|key: &K, stamp: Timestamp| call_requires(encode, (key, stamp)),
        ensures
            *final(self) == (Replica {
                round: old(self).round.wrapping_add(1),
                last_round_at: Some(now),
                peers: final(self).peers,
                pending_repairs: final(self).pending_repairs,
                metrics: final(self).metrics,
                ..*old(self)
            }),
            final(self).pending_repairs@ == repair::noted(
                old(self).pending_repairs@,
                peers::addresses(targets@),
                now,
                old(self).repair_interval,
            ),
            final(self).peers@ == peers::fresh(old(self).peers@, now),
            targets@.no_duplicates(),
            forall|i: int, j: int|
                0 <= i < j < targets@.len() ==> IpAddr::precedes(#[trigger] targets@[i], #[trigger] targets@[j]),
            contacts(
                *old(self),
                ordered_map::keys_of(final(self).peers.seen.sequence()),
                probes@,
                now,
                targets@,
            ),
            composes(
                *old(self),
                *final(self),
                bulk_dumps_in_flight,
                open,
                encode,
                final(send_buf)@,
            ),
    {
        self.metrics.record_reconcile_round();
        let opening: Vec<u8> = open(self.store.map());
        let ghost opened = opening;
        *send_buf = opening;
        let round: u32 = self.round;
        self.round = self.round.wrapping_add(1);
        self.last_round_at = Some(now);
        let known: Vec<IpAddr> = self.get_peers(now);

        let tombstones: usize = self.store.live_tombstones().len();
        let total: usize = self.store.map().len();
        proof {
            store::live_and_marks_partition(store::undated(self.store.sequence()));
        }
        let live: usize = live_entry_count(total, tombstones);
        let members: usize = self.members.len();
        let in_flight: usize = self.egress.in_flight();
        self.metrics.record_state_gauges(
            known.len(),
            members,
            live,
            tombstones,
            bulk_dumps_in_flight,
            in_flight,
        );

        let picks: Vec<Vec<IpAddr>> = pick_remote(&self.topology, &known, round, rng);
        let count: usize = self.resend_held_tombstone_acks(send_buf, round, encode);
        let targets: Vec<IpAddr> = select_targets(
            probes,
            &known,
            &self.topology.local_net,
            &picks,
            &self.receiving_bulk_from,
            now,
            self.repair_interval,
        );
        self.note_pending_repairs(&targets, now);
        proof {
            assert(are_picks(old(self).topology, known@, old(self).round, picks@));
            assert(resends(
                old(self).store,
                old(self).round,
                encode,
                opened@,
                send_buf@,
                count as nat,
            ));
            assert(self.metrics@ =~= old(self).metrics@ + round_events(
                *self,
                bulk_dumps_in_flight,
                count as nat,
            ));
            assert(contacts(*old(self), known@, probes@, now, targets@));
            assert(composes(*old(self), *self, bulk_dumps_in_flight, open, encode, send_buf@));
        }
        targets
    }
}

// ---------------------------------------------------------------------------------------------
// What a round amounts to
// ---------------------------------------------------------------------------------------------

/// A transfer counts as in progress for less than one repair interval after its last batch: not at
/// all without one, and no longer once a whole interval has passed.
pub proof fn transfers_count_for_one_interval(last: Option<Instant>, now: Instant, repair_interval: Duration)
    ensures
        last is None ==> !receiving(last, now, repair_interval),
        last matches Some(at) ==> (receiving(last, now, repair_interval) <==> repair_interval.nanos > 0 && now.nanos
            - at.nanos < repair_interval.nanos),
{
}

/// Remote networks are contacted in round number zero and in every `remote_interval`-th round from
/// there, and in none in between; with an interval of zero or one, in every round.
pub proof fn remote_rounds_come_at_intervals(round: u32, remote_interval: u32, gap: u32)
    requires
        round + remote_interval <= u32::MAX,
        0 < gap < remote_interval,
    ensures
        is_remote_round(0, remote_interval),
        is_remote_round(round, 0),
        is_remote_round(round, 1),
        is_remote_round(round, remote_interval) ==> is_remote_round(
            (round + remote_interval) as u32,
            remote_interval,
        ) && !is_remote_round((round + gap) as u32, remote_interval),
{
    let n = remote_interval as int;
    let r = round as int;
    let g = gap as int;
    if is_remote_round(round, remote_interval) {
        let q = r / n;
        vstd::arithmetic::div_mod::lemma_fundamental_div_mod(r, n);
        assert(n * q == q * n && (q + 1) * n == q * n + n) by (nonlinear_arith);
        vstd::arithmetic::div_mod::lemma_fundamental_div_mod_converse(r + n, n, q + 1, 0);
        vstd::arithmetic::div_mod::lemma_fundamental_div_mod_converse(r + g, n, q, g);
    }
    vstd::arithmetic::div_mod::lemma_fundamental_div_mod_converse(0, n, 0, 0);
}

/// The remote networks are the declared ones but the local one, as often as they are declared and in
/// order of declaration.
pub proof fn remote_nets_are_all_but_the_local_one(topology: Topology) -> (places: Seq<int>)
    ensures
        places.len() == remote_nets(topology).len(),
        forall|i: int|
            0 <= i < places.len() ==> 0 <= #[trigger] places[i] < topology.nets@.len()
                && topology.nets@[places[i]] == remote_nets(topology)[i],
        forall|i: int, j: int| 0 <= i < j < places.len() ==> #[trigger] places[i] < #[trigger] places[j],
        forall|k: int|
            0 <= k < topology.nets@.len() ==> (places.contains(k) <==> #[trigger] topology.nets@[k]
                != topology.local_net),
{
    let differs = |net: IpNet| net != topology.local_net;
    let places = ordered_map::filtering_picks_places(topology.nets@, differs);
    assert forall|k: int| 0 <= k < topology.nets@.len() implies (places.contains(k) <==> #[trigger] topology.nets@[k]
        != topology.local_net) by {
        assert(differs(topology.nets@[k]) == (topology.nets@[k] != topology.local_net));
        if places.contains(k) {
            let i = choose|i: int| 0 <= i < places.len() && places[i] == k;
            assert(differs(topology.nets@[places[i]]));
        }
    }
    places
}

/// An address belongs to the first network that covers it, and only where none does to the bucket
/// past the last one.
pub proof fn addresses_belong_to_the_first_net_that_covers_them(nets: Seq<IpNet>, addr: IpAddr, b: int)
    ensures
        0 <= b < nets.len() ==> (in_bucket(nets, addr, b) <==> nets[b].covers(addr) && forall|i: int|
            0 <= i < b ==> !(#[trigger] nets[i]).covers(addr)),
        in_bucket(nets, addr, nets.len() as int) <==> forall|i: int|
            0 <= i < nets.len() ==> !(#[trigger] nets[i]).covers(addr),
        b < 0 || b > nets.len() ==> !in_bucket(nets, addr, b),
{
}

/// A bucket holds the known peers that belong to it and lie outside the local network, in the order
/// in which they are known.
pub proof fn buckets_hold_their_peers(known: Seq<IpAddr>, local: IpNet, nets: Seq<IpNet>, b: int) -> (places: Seq<
    int,
>)
    ensures
        places.len() == bucket(known, local, nets, b).len(),
        forall|i: int|
            0 <= i < places.len() ==> 0 <= #[trigger] places[i] < known.len() && known[places[i]] == bucket(
                known,
                local,
                nets,
                b,
            )[i],
        forall|i: int, j: int| 0 <= i < j < places.len() ==> #[trigger] places[i] < #[trigger] places[j],
        forall|k: int|
            0 <= k < known.len() ==> (places.contains(k) <==> !local.covers(#[trigger] known[k]) && in_bucket(
                nets,
                known[k],
                b,
            )),
{
    let keep = |addr: IpAddr| !local.covers(addr) && in_bucket(nets, addr, b);
    let places = ordered_map::filtering_picks_places(known, keep);
    assert forall|k: int| 0 <= k < known.len() implies (places.contains(k) <==> !local.covers(#[trigger] known[k])
        && in_bucket(nets, known[k], b)) by {
        assert(keep(known[k]) == (!local.covers(known[k]) && in_bucket(nets, known[k], b)));
        if places.contains(k) {
            let i = choose|i: int| 0 <= i < places.len() && places[i] == k;
            assert(keep(known[places[i]]));
        }
    }
    places
}

/// A sample holds members of what it is drawn from, none twice: all of them where `fanout` allows,
/// and exactly `fanout` where there are more.
pub proof fn samples_are_as_large_as_allowed(from: Seq<IpAddr>, picked: Seq<IpAddr>, fanout: usize, i: int, j: int)
    requires
        is_sample(from, picked, fanout),
    ensures
        from.len() <= fanout ==> picked.len() == from.len(),
        from.len() >= fanout ==> picked.len() == fanout,
        0 <= i < picked.len() ==> from.contains(picked[i]),
        0 <= i < j < picked.len() ==> picked[i] != picked[j],
{
    if 0 <= i < picked.len() {
        assert(picked.contains(picked[i]));
    }
}

/// Whom a round contacts: only probes and known peers; outside the remote rounds, of the known ones
/// only those of the local network; every probe and every known local peer that no transfer is in
/// progress from; and nobody else. A transfer is in progress from a peer for less than one repair
/// interval after its last batch.
pub proof fn rounds_contact_whom_they_should<K: Key, V: Value>(
    before: Replica<K, V>,
    known: Seq<IpAddr>,
    probes: Seq<IpAddr>,
    now: Instant,
    targets: Seq<IpAddr>,
    peer: IpAddr,
)
    requires
        contacts(before, known, probes, now, targets),
    ensures
        targets.contains(peer) ==> probes.contains(peer) || known.contains(peer),
        targets.contains(peer) && !probes.contains(peer) && !is_remote_round(
            before.round,
            before.topology.remote_interval,
        ) ==> before.topology.local_net.covers(peer),
        before.receiving_bulk_from@.contains_key(peer) && before.repair_interval.nanos > 0 && now.nanos
            - before.receiving_bulk_from@[peer].nanos < before.repair_interval.nanos ==> !targets.contains(peer),
        (!before.receiving_bulk_from@.contains_key(peer) || now.nanos - before.receiving_bulk_from@[peer].nanos
            >= before.repair_interval.nanos) && (probes.contains(peer) || (known.contains(peer)
            && before.topology.local_net.covers(peer))) ==> targets.contains(peer),
{
    let picks = choose|picks: Seq<Vec<IpAddr>>|
        {
            &&& #[trigger] are_picks(before.topology, known, before.round, picks)
            &&& peers::addresses(targets) == round_targets(
                probes,
                known,
                before.topology.local_net,
                picks,
                before.receiving_bulk_from@,
                now,
                before.repair_interval,
            )
        };
    assert(peers::addresses(targets).contains(peer) == targets.contains(peer));
    transfers_count_for_one_interval(
        last_from(before.receiving_bulk_from@, peer),
        now,
        before.repair_interval,
    );
    if is_picked(picks, peer) {
        let b = choose|b: int| 0 <= b < picks.len() && (#[trigger] picks[b])@.contains(peer);
        let nets = remote_nets(before.topology);
        let local = before.topology.local_net;
        let from = bucket(known, local, nets, b);
        assert(is_sample(from, picks[b]@, before.topology.remote_fanout));
        assert(from.contains(peer));
        let places = buckets_hold_their_peers(known, local, nets, b);
        let i = choose|i: int| 0 <= i < from.len() && from[i] == peer;
        assert(known[places[i]] == peer);
    }
}

/// Remote peers are contacted sparingly: on a remote round every bucket has as many of its peers
/// sampled as `remote_fanout` allows, and on other rounds none has.
pub proof fn remote_nets_are_sampled_sparingly(
    topology: Topology,
    known: Seq<IpAddr>,
    round: u32,
    picks: Seq<Vec<IpAddr>>,
    b: int,
)
    requires
        are_picks(topology, known, round, picks),
    ensures
        !is_remote_round(round, topology.remote_interval) ==> picks.len() == 0,
        is_remote_round(round, topology.remote_interval) ==> picks.len() == remote_nets(topology).len() + 1,
        0 <= b < picks.len() ==> picks[b]@.len() <= topology.remote_fanout && (picks[b]@.len()
            == topology.remote_fanout || picks[b]@.len() == bucket(
            known,
            topology.local_net,
            remote_nets(topology),
            b,
        ).len()),
{
    if 0 <= b < picks.len() {
        assert(is_sample(
            bucket(known, topology.local_net, remote_nets(topology), b),
            picks[b]@,
            topology.remote_fanout,
        ));
    }
}

/// The tombstones a store holds are exactly its entries without a value, with their stamps.
pub proof fn held_tombstones_are_the_deleted_entries<K: Key, V: Value>(store: Store<K, V>, key: K::V, stamp: Timestamp)
    requires
        ordered_map::increasing::<K, Entry<Timestamp, V::V>>(store.sequence()),
    ensures
        held_tombstones(store).contains((key, stamp)) <==> store@.contains_key(key)
            && store@[key].state is Tombstone && store@[key].stamp == stamp,
{
    let s = store.sequence();
    let states = store::undated(s);
    let marks = store::marks(states);
    let held = held_tombstones(store);
    let (deleted, kept) = store::every_entry_is_marked_or_live(states);
    if held.contains((key, stamp)) {
        let i = choose|i: int| 0 <= i < held.len() && held[i] == (key, stamp);
        assert(marks[i].0 == key);
        let k = deleted[i];
        assert(states[k].0 == key);
        assert(s[k].0 == key);
        ordered_map::lemma_entry_map_at::<K, Entry<Timestamp, V::V>>(s, k);
        assert(states[k].1 == s[k].1.state);
    }
    if store@.contains_key(key) && store@[key].state is Tombstone && store@[key].stamp == stamp {
        let k = choose|k: int| #[trigger] ordered_map::holds_at(s, key, k);
        ordered_map::lemma_entry_map_at::<K, Entry<Timestamp, V::V>>(s, k);
        assert(states[k] == (s[k].0, s[k].1.state));
        assert(deleted.contains(k));
        let i = choose|i: int| 0 <= i < deleted.len() && deleted[i] == k;
        assert(marks[i].0 == key);
        assert(held[i] == (key, stamp));
    }
}

/// Round number `round` begins with tombstone number `round`, counted around, and goes on from there
/// in order until it has been all the way around.
pub proof fn turns_go_around<A>(s: Seq<A>, round: u32, i: int)
    requires
        0 <= i < s.len(),
    ensures
        in_turn(s, round).len() == s.len(),
        in_turn(s, round)[i] == s[(round + i) % s.len() as int],
{
    let n = s.len() as int;
    let r = round as int;
    let start = r % n;
    let q = r / n;
    vstd::arithmetic::div_mod::lemma_fundamental_div_mod(r, n);
    assert(n * q == q * n && (q + 1) * n == q * n + n) by (nonlinear_arith);
    if start + i < n {
        vstd::arithmetic::div_mod::lemma_fundamental_div_mod_converse(r + i, n, q, start + i);
    } else {
        vstd::arithmetic::div_mod::lemma_fundamental_div_mod_converse(r + i, n, q + 1, start + i - n);
    }
}

/// Chunks are put together in order: one chunk is itself, and some chunks after others are theirs
/// after the others'.
pub proof fn chunks_are_joined_in_order(first: Seq<Seq<u8>>, second: Seq<Seq<u8>>, chunk: Seq<u8>)
    ensures
        joined(Seq::empty()).len() == 0,
        joined(seq![chunk]) == chunk,
        joined(first + second) == joined(first) + joined(second),
    decreases second.len(),
{
    assert(joined(Seq::empty()) =~= Seq::empty());
    assert(seq![chunk].drop_last() =~= Seq::empty());
    assert(joined(seq![chunk]) =~= chunk);
    if second.len() == 0 {
        assert(first + second =~= first);
        assert(joined(second) =~= Seq::empty());
        assert(joined(first) + joined(second) =~= joined(first));
    } else {
        chunks_are_joined_in_order(first, second.drop_last(), chunk);
        assert((first + second).drop_last() =~= first + second.drop_last());
        assert(joined(first + second) =~= joined(first) + joined(second));
    }
}

/// Acks are resent until none is left or 8192 bytes of them are in the datagram, and not beyond:
/// without the last one there were fewer.
pub proof fn acks_fill_eight_kibibytes<A>(turn: Seq<A>, chunks: Seq<Seq<u8>>)
    requires
        fills_budget(turn, chunks),
    ensures
        chunks.len() <= turn.len(),
        chunks.len() < turn.len() ==> joined(chunks).len() >= 8192,
        chunks.len() > 0 ==> joined(chunks.drop_last()).len() < 8192,
{
    if chunks.len() > 0 {
        let n = chunks.len() as int;
        assert(chunks.take(n - 1) =~= chunks.drop_last());
    }
}

/// A round's datagram is the opening comparison of the dated map, then acks for the tombstones it
/// holds, in turn from the one that the round's number names; the round counts itself first.
pub proof fn datagrams_begin_with_the_comparison<K: Key, V: Value, O, E>(
    before: Replica<K, V>,
    after: Replica<K, V>,
    bulk_dumps_in_flight: usize,
    open: O,
    encode: E,
    datagram: Seq<u8>,
) -> (parts: (Vec<u8>, Seq<Seq<u8>>)) where
    O: FnOnce(&OrderedMap<K, Entry<Timestamp, V>>) -> Vec<u8>,
    E: Fn(&K, Timestamp) -> Vec<u8>,

    requires
        composes(before, after, bulk_dumps_in_flight, open, encode, datagram),
    ensures
        call_ensures(open, (&before.store.dated(),), parts.0),
        datagram == parts.0@ + joined(parts.1),
        parts.1.len() <= held_tombstones(before.store).len(),
        forall|i: int|
            0 <= i < parts.1.len() ==> encodes::<K, E>(
                encode,
                held_tombstones(before.store)[(before.round + i) % held_tombstones(before.store).len() as int],
                #[trigger] parts.1[i],
            ),
        parts.1.len() < held_tombstones(before.store).len() ==> joined(parts.1).len() >= 8192,
        after.metrics@.len() >= before.metrics@.len() + 7,
        after.metrics@[before.metrics@.len() as int].name == metrics::ROUNDS_TOTAL,
        after.metrics@[before.metrics@.len() as int + 1] == observability::gauged(
            metrics::PEERS_CURRENT,
            after.peers.seen.sequence().len() as usize,
        ),
{
    let (opening, count) = choose|opening: Vec<u8>, count: nat|
        {
            &&& call_ensures(open, (&before.store.dated(),), opening)
            &&& #[trigger] resends(before.store, before.round, encode, opening@, datagram, count)
            &&& after.metrics@ == before.metrics@ + round_events(after, bulk_dumps_in_flight, count)
        };
    let chunks = acks_are_appended_in_turn(before.store, before.round, encode, opening@, datagram, count);
    let told = round_events(after, bulk_dumps_in_flight, count);
    assert(told[1] == gauges(after, bulk_dumps_in_flight)[0]);
    (opening, chunks)
}

/// A round tells how many peers, members, live entries and tombstones there are, and how many
/// transfers and broadcasts are in flight, in that order; live entries and tombstones make up the
/// whole map.
pub proof fn gauges_tell_the_state<K: Key, V: Value>(replica: Replica<K, V>, bulk_dumps_in_flight: usize)
    requires
        replica.store.sequence().len() <= usize::MAX,
        replica.peers.seen.sequence().len() <= usize::MAX,
        replica.members.sequence().len() <= usize::MAX,
    ensures
        gauges(replica, bulk_dumps_in_flight).len() == 6,
        ({
            let told = gauges(replica, bulk_dumps_in_flight);
            &&& told[0].name == metrics::PEERS_CURRENT && told[0].change is Assign && told[0].change->Assign_0
                == replica.peers.seen.sequence().len()
            &&& told[1].name == metrics::MEMBERS_CURRENT && told[1].change is Assign && told[1].change->Assign_0
                == replica.members.sequence().len()
            &&& told[2].name == metrics::ENTRIES_CURRENT && told[2].change is Assign
            &&& told[3].name == metrics::TOMBSTONES_CURRENT && told[3].change is Assign
            &&& told[2].change->Assign_0 + told[3].change->Assign_0 == replica.store.sequence().len()
            &&& told[3].change->Assign_0 == held_tombstones(replica.store).len()
            &&& told[4].name == metrics::BULK_DUMPS_IN_FLIGHT && told[4].change == observability::Change::Assign(
                bulk_dumps_in_flight,
            )
            &&& told[5].name == metrics::BROADCASTS_IN_FLIGHT && told[5].change == observability::Change::Assign(
                replica.egress.spec_in_flight(),
            )
        }),
{
    store::live_and_marks_partition(store::undated(replica.store.sequence()));
}

/// A round counts itself once, tells the six gauges, and, where there is a tombstone, how many acks
/// it resent.
pub proof fn rounds_count_themselves<K: Key, V: Value>(replica: Replica<K, V>, bulk_dumps_in_flight: usize, count: nat)
    requires
        count <= u64::MAX,
    ensures
        ({
            let told = round_events(replica, bulk_dumps_in_flight, count);
            &&& told[0].name == metrics::ROUNDS_TOTAL && told[0].change == observability::Change::Increment(1)
            &&& told.subrange(1, 7) == gauges(replica, bulk_dumps_in_flight)
            &&& held_tombstones(replica.store).len() == 0 ==> told.len() == 7
            &&& held_tombstones(replica.store).len() > 0 ==> told.len() == 8 && told[7].name
                == metrics::TOMBSTONE_ACKS_RESENT_TOTAL && told[7].change is Increment
                && told[7].change->Increment_0 == count
        }),
{
    let told = round_events(replica, bulk_dumps_in_flight, count);
    assert(told.subrange(1, 7) =~= gauges(replica, bulk_dumps_in_flight));
}

/// An encoded ack is what the encoder made of a key that stands for the tombstone's, and of its
/// stamp.
pub proof fn encoded_acks_name_their_tombstone<K: Key, E>(encode: E, key: K, stamp: Timestamp, bytes: Vec<u8>) where
    E: Fn(&K, Timestamp) -> Vec<u8>,

    ensures
        call_ensures(encode, (&key, stamp), bytes) ==> encodes::<K, E>(encode, (key@, stamp), bytes@),
        (forall|k: K, b: Vec<u8>| #[trigger] call_ensures(encode, (&k, stamp), b) ==> k@ != key@ || b@ != bytes@)
            ==> !encodes::<K, E>(encode, (key@, stamp), bytes@),
{
    let tombstone = (key@, stamp);
    if call_ensures(encode, (&key, stamp), bytes) {
        assert(encodes_as(encode, key, tombstone.1, bytes));
        assert(encodes::<K, E>(encode, tombstone, bytes@));
    }
}

/// What is resent comes behind what the datagram held, ack by ack in turn, and is counted.
pub proof fn acks_are_appended_in_turn<K: Key, V: Value, E>(
    store: Store<K, V>,
    round: u32,
    encode: E,
    before: Seq<u8>,
    after: Seq<u8>,
    count: nat,
) -> (chunks: Seq<Seq<u8>>) where E: Fn(&K, Timestamp) -> Vec<u8>
    requires
        resends(store, round, encode, before, after, count),
    ensures
        after == before + joined(chunks),
        chunks.len() == count,
        count <= held_tombstones(store).len(),
        forall|i: int|
            0 <= i < count ==> encodes::<K, E>(
                encode,
                held_tombstones(store)[(round + i) % held_tombstones(store).len() as int],
                #[trigger] chunks[i],
            ),
        count < held_tombstones(store).len() ==> joined(chunks).len() >= 8192,
        count > 0 ==> joined(chunks.drop_last()).len() < 8192,
{
    let held = held_tombstones(store);
    let turn = in_turn(held, round);
    let chunks = choose|chunks: Seq<Seq<u8>>|
        {
            &&& #[trigger] fills_budget(turn, chunks)
            &&& after == before + joined(chunks)
            &&& count == chunks.len()
            &&& forall|i: int| 0 <= i < chunks.len() ==> encodes::<K, E>(encode, turn[i], #[trigger] chunks[i])
        };
    acks_fill_eight_kibibytes(turn, chunks);
    if held.len() > 0 {
        turns_go_around(held, round, 0);
    }
    assert forall|i: int| 0 <= i < count implies encodes::<K, E>(
        encode,
        held[(round + i) % held.len() as int],
        #[trigger] chunks[i],
    ) by {
        turns_go_around(held, round, i);
        assert(encodes::<K, E>(encode, turn[i], chunks[i]));
    }
    chunks
}

/// A remote round does reach the remote networks: where a known peer outside the local network
/// belongs to a bucket, as many distinct known peers of that bucket as `remote_fanout` allows are
/// contacted, but for those that a transfer is in progress from.
pub proof fn remote_rounds_reach_every_bucket<K: Key, V: Value>(
    before: Replica<K, V>,
    known: Seq<IpAddr>,
    probes: Seq<IpAddr>,
    now: Instant,
    targets: Seq<IpAddr>,
    peer: IpAddr,
) -> (reached: (int, Seq<IpAddr>))
    requires
        contacts(before, known, probes, now, targets),
        is_remote_round(before.round, before.topology.remote_interval),
        known.contains(peer),
        !before.topology.local_net.covers(peer),
    ensures
        in_bucket(remote_nets(before.topology), peer, reached.0),
        reached.1.len() == before.topology.remote_fanout || reached.1.len() == bucket(
            known,
            before.topology.local_net,
            remote_nets(before.topology),
            reached.0,
        ).len(),
        before.topology.remote_fanout > 0 ==> reached.1.len() > 0,
        forall|i: int, j: int| 0 <= i < j < reached.1.len() ==> #[trigger] reached.1[i] != #[trigger] reached.1[j],
        forall|i: int|
            0 <= i < reached.1.len() ==> known.contains(#[trigger] reached.1[i]) && in_bucket(
                remote_nets(before.topology),
                reached.1[i],
                reached.0,
            ) && (targets.contains(reached.1[i]) || (before.receiving_bulk_from@.contains_key(reached.1[i])
                && now.nanos - before.receiving_bulk_from@[reached.1[i]].nanos < before.repair_interval.nanos)),
{
    let picks = choose|picks: Seq<Vec<IpAddr>>|
        {
            &&& #[trigger] are_picks(before.topology, known, before.round, picks)
            &&& peers::addresses(targets) == round_targets(
                probes,
                known,
                before.topology.local_net,
                picks,
                before.receiving_bulk_from@,
                now,
                before.repair_interval,
            )
        };
    let nets = remote_nets(before.topology);
    let local = before.topology.local_net;
    buckets_partition(nets, peer);
    let b = choose|b: int| in_bucket(nets, peer, b);
    let from = bucket(known, local, nets, b);
    let picked = picks[b]@;
    assert(is_sample(from, picked, before.topology.remote_fanout));
    let places = buckets_hold_their_peers(known, local, nets, b);
    let at = choose|at: int| 0 <= at < known.len() && known[at] == peer;
    assert(places.contains(at));
    assert forall|i: int| 0 <= i < picked.len() implies known.contains(#[trigger] picked[i]) && in_bucket(
        nets,
        picked[i],
        b,
    ) && (targets.contains(picked[i]) || (before.receiving_bulk_from@.contains_key(picked[i]) && now.nanos
        - before.receiving_bulk_from@[picked[i]].nanos < before.repair_interval.nanos)) by {
        let addr = picked[i];
        assert(picked.contains(addr));
        assert(from.contains(addr));
        let k = choose|k: int| 0 <= k < from.len() && from[k] == addr;
        assert(known[places[k]] == addr);
        assert(places.contains(places[k]));
        assert(picks[b]@.contains(addr));
        assert(is_picked(picks, addr));
        assert(peers::addresses(targets).contains(addr) == targets.contains(addr));
        transfers_count_for_one_interval(
            last_from(before.receiving_bulk_from@, addr),
            now,
            before.repair_interval,
        );
    }
    (b, picked)
}

} // verus!
