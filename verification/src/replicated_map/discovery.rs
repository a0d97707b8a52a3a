//! Dynamic peer discovery, and the decommissioning of members that vanish from it.

use vstd::prelude::*;
use vstd::string::StringExecFns;

use crate::bounds::{Duplicate, Key, Value};
use crate::clock::Timestamp;
use crate::metrics;
use crate::net::IpAddr;
use crate::observability;
use crate::ordered_map;
use crate::ordered_map::OrderedMap;
use crate::peers;
use crate::peers::AddrSet;
use crate::replica::membership;
use crate::replica::reconciliation;
use crate::replica::Replica;
use crate::replicated_map::ReplicatedMap;
use crate::time;
use crate::time::{Duration, Instant};

verus! {

/// How far a discovery source's answers can be trusted.
#[derive(Clone, Copy, Debug, PartialEq, Eq, Structural)]
pub enum DiscoveryKind {
    /// It lists the peers there are: an absence means something.
    Authoritative,
    /// It guesses: an absence means nothing.
    Speculative,
}

impl DiscoveryKind {
    /// The name of the kind.
    pub open spec fn label(self) -> Seq<char> {
        match self {
            DiscoveryKind::Authoritative => "Authoritative"@,
            DiscoveryKind::Speculative => "Speculative"@,
        }
    }
}

/// Where a discovery source looks.
pub enum DiscoveryTarget {
    /// The address records of a name.
    Dns {
        /// The name.
        name: String,
        /// The port its peers listen on.
        port: u16,
    },
    /// A source the embedding program knows by this number.
    External(u64),
}

/// A discovery source.
pub struct DiscoverySource {
    /// How far it can be trusted.
    pub kind: DiscoveryKind,
    /// Where it looks.
    pub target: DiscoveryTarget,
}

/// A discovery source was turned down because it is not authoritative.
#[derive(Clone, Copy, Debug, PartialEq, Eq, Structural)]
pub struct NotAuthoritative {
    /// The kind it is.
    pub kind: DiscoveryKind,
}

impl NotAuthoritative {
    /// The message a user sees.
    pub open spec fn message(self) -> Seq<char> {
        "with_discovery expects an authoritative source, got "@ + self.kind.label()
            + ": a speculative prober would be seeded as permanent known peers and its absences would wrongly decommission members"@
    }

    /// The message a user sees.
    pub fn to_string(&self) -> (text: String)
        ensures
            text@ == self.message(),
    {
        let mut text: String = String::from_str("with_discovery expects an authoritative source, got ");
        match self.kind {
            DiscoveryKind::Authoritative => text.append("Authoritative"),
            DiscoveryKind::Speculative => text.append("Speculative"),
        }
        text.append(
            ": a speculative prober would be seeded as permanent known peers and its absences would wrongly decommission members",
        );
        text
    }
}

/// Whether a member was in the last discovery round, and since when it has not been.
#[derive(Clone, Copy, Debug, PartialEq, Eq, Structural)]
pub enum MemberPresence {
    /// It was.
    Present,
    /// It was not.
    Absent {
        /// When the absence began.
        since: Instant,
        /// How many rounds it has lasted.
        misses: u32,
    },
}

impl View for MemberPresence {
    type V = MemberPresence;

    open spec fn view(&self) -> MemberPresence {
        *self
    }
}

impl Duplicate for MemberPresence {
    fn duplicate(&self) -> (copy: Self) {
        *self
    }
}

impl Default for MemberPresence {
    fn default() -> (presence: Self)
        ensures
            presence == MemberPresence::Present,
    {
        MemberPresence::Present
    }
}

impl MemberPresence {
    /// The absence after one more missed round at `now`.
    pub open spec fn missed(self, now: Instant) -> MemberPresence {
        match self {
            MemberPresence::Present => MemberPresence::Absent { since: now, misses: 1 },
            MemberPresence::Absent { since, misses } => MemberPresence::Absent {
                since,
                misses: (misses + 1) as u32,
            },
        }
    }

    /// One more miss can be counted.
    pub open spec fn can_miss(self) -> bool {
        self matches MemberPresence::Absent { since, misses } ==> misses < u32::MAX
    }

    /// The absence warrants decommissioning: it lasted long enough in rounds, and with pending
    /// tombstone acks long enough in time too.
    pub open spec fn is_eligible(self, miss_threshold: u32, floor: Duration, pending: bool, now: Instant) -> bool {
        self matches MemberPresence::Absent { since, misses } && misses >= miss_threshold && (!pending
            || time::since(since, now) >= floor.nanos)
    }

    /// The member was in this round.
    pub fn mark_seen(&mut self)
        ensures
            *final(self) == MemberPresence::Present,
    {
        *self = MemberPresence::Present;
    }

    /// The member was not in this round: the absence begins, or goes on.
    pub fn mark_missed(&mut self, now: Instant)
        requires
            old(self).can_miss(),
        ensures
            *final(self) == old(self).missed(now),
    {
        *self = match *self {
            MemberPresence::Present => MemberPresence::Absent { since: now, misses: 1 },
            MemberPresence::Absent { since, misses } => MemberPresence::Absent {
                since,
                misses: misses + 1,
            },
        };
    }

    /// Whether the absence warrants decommissioning: at `miss_threshold` misses, at once without a
    /// pending tombstone ack, and otherwise only past `floor`.
    pub fn eligible_for_decommission(
        &self,
        miss_threshold: u32,
        floor: Duration,
        pending_tombstone_acks: bool,
        now: Instant,
    ) -> (eligible: bool)
        ensures
            eligible == self.is_eligible(miss_threshold, floor, pending_tombstone_acks, now),
    {
        match *self {
            MemberPresence::Present => false,
            MemberPresence::Absent { since, misses } => {
                if misses < miss_threshold {
                    return false;
                }
                !pending_tombstone_acks || now.saturating_duration_since(since).nanos >= floor.nanos
            },
        }
    }
}

impl<K: Key, V: Value> ReplicatedMap<K, V> {
    /// Attach a discovery source. A speculative one is turned down: its absences mean nothing, and
    /// would wrongly decommission members.
    pub fn with_discovery(self, discovery: DiscoverySource) -> (result: Result<Self, NotAuthoritative>)
        ensures
            result is Ok <==> discovery.kind == DiscoveryKind::Authoritative,
            result matches Ok(map) ==> map == (ReplicatedMap { discovery: Some(discovery), ..self }),
            result matches Err(error) ==> error == (NotAuthoritative { kind: discovery.kind }),
    {
        let mut map: Self = self;
        match map.set_discovery(discovery) {
            Ok(()) => Ok(map),
            Err(error) => Err(error),
        }
    }

    /// Attach a discovery source to a map that is already shared. A speculative one is turned down,
    /// and leaves the map as it was.
    pub fn set_discovery(&mut self, discovery: DiscoverySource) -> (result: Result<(), NotAuthoritative>)
        ensures
            result is Ok <==> discovery.kind == DiscoveryKind::Authoritative,
            result is Ok ==> *final(self) == (ReplicatedMap {
                discovery: Some(discovery),
                ..*old(self)
            }),
            result matches Err(error) ==> error == (NotAuthoritative { kind: discovery.kind })
                && *final(self) == *old(self),
    {
        match discovery.kind {
            DiscoveryKind::Authoritative => {
                self.discovery = Some(discovery);
                Ok(())
            },
            kind => Err(NotAuthoritative { kind }),
        }
    }

    /// Discover peers by resolving a name with one address record per peer.
    #[must_use]
    pub fn with_dns_discovery(self, name: String, port: u16) -> (map: Self)
        ensures
            map == (ReplicatedMap {
                discovery: Some(
                    DiscoverySource {
                        kind: DiscoveryKind::Authoritative,
                        target: DiscoveryTarget::Dns { name, port },
                    },
                ),
                ..self
            }),
    {
        let mut map: Self = self;
        map.discovery = Some(
            DiscoverySource {
                kind: DiscoveryKind::Authoritative,
                target: DiscoveryTarget::Dns { name, port },
            },
        );
        map
    }

    /// Set how often the discovery source is resolved (default 5 s).
    pub fn with_discovery_interval(self, interval: Duration) -> (map: Self)
        ensures
            map == (ReplicatedMap { discovery_interval: interval, ..self }),
    {
        let mut map: Self = self;
        map.discovery_interval = interval;
        map
    }

    /// Set how many consecutive rounds a member may be absent before it is decommissioned
    /// (default 3).
    pub fn with_discovery_miss_threshold(self, threshold: u32) -> (map: Self)
        ensures
            map == (ReplicatedMap { discovery_miss_threshold: threshold, ..self }),
    {
        let mut map: Self = self;
        map.discovery_miss_threshold = threshold;
        map
    }

    /// Set how long a member with pending tombstone acks must be absent besides (default 10
    /// minutes).
    pub fn with_discovery_decommission_floor(self, floor: Duration) -> (map: Self)
        ensures
            map == (ReplicatedMap { discovery_decommission_floor: floor, ..self }),
    {
        let mut map: Self = self;
        map.discovery_decommission_floor = floor;
        map
    }
}

// ---------------------------------------------------------------------------------------------
// Discovery rounds
// ---------------------------------------------------------------------------------------------

/// The peers a round found: everything that was resolved but the node's own address.
pub open spec fn found(resolved: Seq<IpAddr>, own: IpAddr) -> Set<IpAddr> {
    Set::new(|addr: IpAddr| resolved.contains(addr) && addr != own)
}

/// The table of presences once everything in `current` was seen.
pub open spec fn all_seen(presence: Map<IpAddr, MemberPresence>, current: Set<IpAddr>) -> Map<
    IpAddr,
    MemberPresence,
> {
    Map::new(
        |addr: IpAddr| current.contains(addr) || presence.contains_key(addr),
        |addr: IpAddr| if current.contains(addr) {
            MemberPresence::Present
        } else {
            presence[addr]
        },
    )
}

/// The routing table once everything in `current` was seeded.
pub open spec fn all_seeded(table: Map<IpAddr, Instant>, current: Set<IpAddr>, now: Instant) -> Map<
    IpAddr,
    Instant,
> {
    Map::new(
        |addr: IpAddr| current.contains(addr) || table.contains_key(addr),
        |addr: IpAddr| if current.contains(addr) {
            now
        } else {
            table[addr]
        },
    )
}

/// The round counts a miss against `member`: it is not this node, it was not found now, and this
/// source had found it before.
pub open spec fn misses(
    presence: Map<IpAddr, MemberPresence>,
    current: Set<IpAddr>,
    own: IpAddr,
    member: IpAddr,
) -> bool {
    member != own && !current.contains(member) && presence.contains_key(member)
}

/// The miss is one too many.
pub open spec fn vanishes(
    presence: Map<IpAddr, MemberPresence>,
    current: Set<IpAddr>,
    own: IpAddr,
    miss_threshold: u32,
    floor: Duration,
    pending: Set<IpAddr>,
    now: Instant,
    member: IpAddr,
) -> bool {
    misses(presence, current, own, member) && presence[member].missed(now).is_eligible(
        miss_threshold,
        floor,
        pending.contains(member),
        now,
    )
}

/// A round never decommissions this node, a member it found, or one this source never found; and
/// one with pending tombstone acks only once it has been absent for the whole floor.
pub proof fn discovery_spares(
    presence: Map<IpAddr, MemberPresence>,
    current: Set<IpAddr>,
    own: IpAddr,
    miss_threshold: u32,
    floor: Duration,
    pending: Set<IpAddr>,
    now: Instant,
    member: IpAddr,
)
    requires
        vanishes(presence, current, own, miss_threshold, floor, pending, now, member),
    ensures
        member != own,
        !current.contains(member),
        presence.contains_key(member),
        pending.contains(member) && floor.nanos > 0 ==> (presence[member] matches MemberPresence::Absent {
            since,
            misses,
        } && time::since(since, now) >= floor.nanos),
{
    if pending.contains(member) && floor.nanos > 0 {
        match presence[member] {
            MemberPresence::Present => {
                assert(time::since(now, now) == 0);
            },
            MemberPresence::Absent { since, misses } => {},
        }
    }
}

/// Being found again ends an absence: the next one starts over, in rounds and in time.
pub proof fn reappearance_starts_over(
    presence: Map<IpAddr, MemberPresence>,
    current: Set<IpAddr>,
    member: IpAddr,
    later: Instant,
)
    requires
        current.contains(member),
    ensures
        all_seen(presence, current).contains_key(member),
        all_seen(presence, current)[member].missed(later) == (MemberPresence::Absent {
            since: later,
            misses: 1,
        }),
{
}

/// The table of presences once every member had a miss counted where it is due; those in `gone`
/// are no longer tracked.
pub open spec fn accounted(
    presence: Map<IpAddr, MemberPresence>,
    current: Set<IpAddr>,
    own: IpAddr,
    members: Seq<IpAddr>,
    gone: Set<IpAddr>,
    now: Instant,
) -> Map<IpAddr, MemberPresence> {
    Map::new(
        |addr: IpAddr| presence.contains_key(addr) && !gone.contains(addr),
        |addr: IpAddr| if members.contains(addr) && misses(presence, current, own, addr) {
            presence[addr].missed(now)
        } else {
            presence[addr]
        },
    )
}

/// One round of the discovery task, as far as it concerns the table of presences.
pub struct DiscoveryRound {
    /// The peers it found; `None` when the source failed.
    pub current: Option<Set<IpAddr>>,
    /// The members at the time.
    pub members: Seq<IpAddr>,
    /// The members it decommissioned.
    pub gone: Set<IpAddr>,
    /// When it was.
    pub now: Instant,
}

/// The table of presences after `round`: a failed round leaves it alone.
pub open spec fn advanced(
    presence: Map<IpAddr, MemberPresence>,
    own: IpAddr,
    round: DiscoveryRound,
) -> Map<IpAddr, MemberPresence> {
    match round.current {
        Some(current) => accounted(
            all_seen(presence, current),
            current,
            own,
            round.members,
            round.gone,
            round.now,
        ),
        None => presence,
    }
}

/// The table of presences after all of `rounds`. The discovery task begins with an empty one.
pub open spec fn after_rounds(own: IpAddr, rounds: Seq<DiscoveryRound>) -> Map<IpAddr, MemberPresence>
    decreases rounds.len(),
{
    if rounds.len() == 0 {
        Map::empty()
    } else {
        advanced(after_rounds(own, rounds.drop_last()), own, rounds.last())
    }
}

/// The round succeeded, and found `member`.
pub open spec fn lists(round: DiscoveryRound, member: IpAddr) -> bool {
    round.current matches Some(current) && current.contains(member)
}

/// The round succeeded, and did not find `member`.
pub open spec fn omits(round: DiscoveryRound, member: IpAddr) -> bool {
    round.current matches Some(current) && !current.contains(member)
}

/// How many of `rounds` omit `member`.
pub open spec fn omissions(rounds: Seq<DiscoveryRound>, member: IpAddr) -> nat {
    rounds.filter(|round: DiscoveryRound| omits(round, member)).len()
}

/// Round number `listed` was the last of `rounds` that found `member`.
pub open spec fn last_listed(rounds: Seq<DiscoveryRound>, member: IpAddr, listed: int) -> bool {
    &&& 0 <= listed < rounds.len()
    &&& lists(rounds[listed], member)
    &&& forall|i: int| listed < i < rounds.len() ==> !lists(#[trigger] rounds[i], member)
}

/// The absence on record of `member` is covered by the rounds since the one that last found it: at
/// least as many omit it, and it began with one of them.
pub open spec fn covers_absence(
    rounds: Seq<DiscoveryRound>,
    member: IpAddr,
    listed: int,
    presence: MemberPresence,
) -> bool {
    &&& last_listed(rounds, member, listed)
    &&& presence matches MemberPresence::Absent { since, misses } ==> {
        &&& misses <= omissions(rounds.skip(listed + 1), member)
        &&& exists|i: int| #[trigger] begins_absence(rounds, member, listed, since, i)
    }
}

/// Round number `i`, past `listed`, omitted `member` at `since`.
pub open spec fn begins_absence(
    rounds: Seq<DiscoveryRound>,
    member: IpAddr,
    listed: int,
    since: Instant,
    i: int,
) -> bool {
    listed < i < rounds.len() && omits(rounds[i], member) && rounds[i].now == since
}

/// One more round counts one more omission where it omits the member, and none where not.
proof fn lemma_omissions_push(rounds: Seq<DiscoveryRound>, round: DiscoveryRound, member: IpAddr)
    ensures
        omissions(rounds.push(round), member) == omissions(rounds, member) + if omits(round, member) {
            1nat
        } else {
            0nat
        },
        omissions(rounds, member) <= rounds.len(),
    decreases rounds.len(),
{
    reveal(Seq::filter);
    let keep = |round: DiscoveryRound| omits(round, member);
    assert(rounds.push(round).drop_last() =~= rounds);
    if rounds.len() > 0 {
        let rest = rounds.drop_last();
        lemma_omissions_push(rest, rounds.last(), member);
        assert(rest.push(rounds.last()) =~= rounds);
    }
}

/// Whoever is on record was found once, and its absence is covered by the rounds since then.
proof fn lemma_presence_is_covered(own: IpAddr, rounds: Seq<DiscoveryRound>, member: IpAddr) -> (listed: int)
    requires
        rounds.len() < u32::MAX,
        after_rounds(own, rounds).contains_key(member),
    ensures
        covers_absence(rounds, member, listed, after_rounds(own, rounds)[member]),
    decreases rounds.len(),
{
    let rest = rounds.drop_last();
    let round = rounds.last();
    let last = rounds.len() - 1;
    let table = after_rounds(own, rest);
    if lists(round, member) {
        assert(last_listed(rounds, member, last));
        assert(after_rounds(own, rounds)[member] == MemberPresence::Present);
        last
    } else {
        assert(table.contains_key(member));
        let listed = lemma_presence_is_covered(own, rest, member);
        assert(rounds[listed] == rest[listed]);
        assert forall|i: int| listed < i < rounds.len() implies !lists(#[trigger] rounds[i], member) by {
            if i < last {
                assert(rounds[i] == rest[i]);
            }
        }
        let earlier = rest.skip(listed + 1);
        assert(rounds.skip(listed + 1) =~= earlier.push(round));
        lemma_omissions_push(earlier, round, member);
        match after_rounds(own, rounds)[member] {
            MemberPresence::Present => {},
            MemberPresence::Absent { since, misses } => {
                match table[member] {
                    MemberPresence::Absent { since: before, misses: counted } => {
                        let i = choose|i: int| #[trigger] begins_absence(rest, member, listed, before, i);
                        assert(rounds[i] == rest[i]);
                        assert(begins_absence(rounds, member, listed, since, i));
                    },
                    MemberPresence::Present => {
                        assert(begins_absence(rounds, member, listed, since, last));
                    },
                }
            },
        }
        listed
    }
}

/// A member is only decommissioned after an earlier round found it and, since the last one that
/// did, at least `miss_threshold` successful rounds in a row omitted it, this one included; with
/// pending tombstone acks, only once `floor` has passed since one of those omissions. Rounds in
/// which the source failed count for nothing.
pub proof fn decommissioning_takes_successive_omissions(
    own: IpAddr,
    rounds: Seq<DiscoveryRound>,
    round: DiscoveryRound,
    miss_threshold: u32,
    floor: Duration,
    pending: Set<IpAddr>,
    member: IpAddr,
) -> (listed: int)
    requires
        rounds.len() < u32::MAX,
        round.current is Some,
        vanishes(
            after_rounds(own, rounds),
            round.current->0,
            own,
            miss_threshold,
            floor,
            pending,
            round.now,
            member,
        ),
    ensures
        last_listed(rounds.push(round), member, listed),
        listed < rounds.len(),
        omissions(rounds.push(round).skip(listed + 1), member) >= miss_threshold,
        pending.contains(member) ==> exists|i: int, since: Instant| #[trigger]
            begins_absence(rounds.push(round), member, listed, since, i) && time::since(since, round.now)
                >= floor.nanos,
{
    let listed = lemma_presence_is_covered(own, rounds, member);
    let all = rounds.push(round);
    let n = rounds.len() as int;
    let held = after_rounds(own, rounds)[member];
    assert(all[listed] == rounds[listed]);
    assert forall|i: int| listed < i < all.len() implies !lists(#[trigger] all[i], member) by {
        if i < n {
            assert(all[i] == rounds[i]);
        }
    }
    let earlier = rounds.skip(listed + 1);
    assert(all.skip(listed + 1) =~= earlier.push(round));
    lemma_omissions_push(earlier, round, member);
    assert(all[n] == round);
    match held {
        MemberPresence::Present => {
            assert(begins_absence(all, member, listed, round.now, n));
        },
        MemberPresence::Absent { since, misses } => {
            let i = choose|i: int| #[trigger] begins_absence(rounds, member, listed, since, i);
            assert(all[i] == rounds[i]);
            assert(begins_absence(all, member, listed, since, i));
        },
    }
    listed
}

/// The acknowledgement table without anything those in `gone` acknowledged.
pub open spec fn without_acks<Q>(table: Map<Q, Map<IpAddr, u64>>, gone: Set<IpAddr>) -> Map<
    Q,
    Map<IpAddr, u64>,
> {
    table.map_values(
        |versions: Map<IpAddr, u64>|
            Map::new(
                |peer: IpAddr| versions.contains_key(peer) && !gone.contains(peer),
                |peer: IpAddr| versions[peer],
            ),
    )
}

/// The change count after decommissioning each of `gone`: one for its membership and one for each
/// of its acks in `acks`.
pub open spec fn changes_after<Q>(
    before: usize,
    gone: Seq<IpAddr>,
    acks: Seq<(Q, Map<IpAddr, u64>)>,
) -> usize
    decreases gone.len(),
{
    if gone.len() == 0 {
        before
    } else {
        changes_after(before, gone.drop_last(), acks).wrapping_add(1).wrapping_add(
            membership::acks_of(acks, gone.last()) as usize,
        )
    }
}

/// What a successful round does to a replica that decommissions `gone`.
pub open spec fn discovers<K: Key, V: Value>(
    before: Replica<K, V>,
    after: Replica<K, V>,
    current: Set<IpAddr>,
    gone: Seq<IpAddr>,
    now: Instant,
) -> bool {
    &&& after == (Replica {
        peers: after.peers,
        members: after.members,
        tombstone_acks: after.tombstone_acks,
        changes_since_snapshot: after.changes_since_snapshot,
        ..before
    })
    &&& after.peers@ == all_seeded(before.peers@, current, now)
    &&& after.members@ == before.members@.remove_keys(peers::addresses(gone))
    &&& after.tombstone_acks@ == without_acks(before.tombstone_acks@, peers::addresses(gone))
    &&& after.changes_since_snapshot == changes_after(
        before.changes_since_snapshot,
        gone,
        before.tombstone_acks.sequence(),
    )
}

/// What one discovery round does. A failed one changes nothing but the failure count.
pub open spec fn takes_round<K: Key, V: Value>(
    before: ReplicatedMap<K, V>,
    after: ReplicatedMap<K, V>,
    presence: Map<IpAddr, MemberPresence>,
    presence_after: Map<IpAddr, MemberPresence>,
    resolved: Option<Seq<IpAddr>>,
    pending: Set<IpAddr>,
    now: Instant,
    gone: Seq<IpAddr>,
) -> bool {
    let own = before.engine.listen_addr;
    let members = ordered_map::keys_of(before.engine.members.sequence());
    &&& presence_after == advanced(
        presence,
        own,
        (DiscoveryRound {
            current: match resolved {
                Some(list) => Some(found(list, own)),
                None => None,
            },
            members,
            gone: peers::addresses(gone),
            now,
        }),
    )
    &&& match resolved {
        None => {
            &&& gone.len() == 0
            &&& after == (ReplicatedMap { engine: after.engine, ..before })
            &&& after.engine == (Replica { metrics: after.engine.metrics, ..before.engine })
            &&& after.engine.metrics@ == before.engine.metrics@.push(
                observability::counted(metrics::DISCOVERY_FAILURES_TOTAL, 1),
            )
        },
        Some(list) => {
            &&& after == (ReplicatedMap {
                engine: after.engine,
                last_successful_discovery_at: Some(now),
                ..before
            })
            &&& gone == members.filter(
                |member: IpAddr|
                    vanishes(
                        presence,
                        found(list, own),
                        own,
                        before.discovery_miss_threshold,
                        before.discovery_decommission_floor,
                        pending,
                        now,
                        member,
                    ),
            )
            &&& discovers(before.engine, after.engine, found(list, own), gone, now)
        },
    }
}

/// Dropping one peer's acks leaves the others' in place.
proof fn lemma_other_acks<K: Key>(
    before: Seq<(K::V, Map<IpAddr, u64>)>,
    after: Seq<(K::V, Map<IpAddr, u64>)>,
    peer: IpAddr,
    other: IpAddr,
)
    requires
        ordered_map::increasing::<K, Map<IpAddr, u64>>(before),
        ordered_map::increasing::<K, Map<IpAddr, u64>>(after),
        ordered_map::entry_map(after) == membership::without_acks_of(
            ordered_map::entry_map(before),
            peer,
        ),
        peer != other,
    ensures
        membership::acks_of(after, other) == membership::acks_of(before, other),
{
    let cut = before.map_values(|e: (K::V, Map<IpAddr, u64>)| (e.0, e.1.remove(peer)));
    let m = membership::without_acks_of(ordered_map::entry_map(before), peer);
    assert forall|i: int, j: int| #![trigger cut[i], cut[j]] 0 <= i < j < cut.len() implies K::precedes(
        cut[i].0,
        cut[j].0,
    ) by {
        assert(cut[i].0 == before[i].0 && cut[j].0 == before[j].0);
    }
    assert forall|i: int| 0 <= i < cut.len() implies m.contains_key(#[trigger] cut[i].0) && m[cut[i].0]
        == cut[i].1 by {
        ordered_map::lemma_entry_map_at::<K, Map<IpAddr, u64>>(before, i);
    }
    assert forall|key: K::V| #[trigger] m.contains_key(key) implies exists|i: int| #[trigger]
        ordered_map::holds_at(cut, key, i) by {
        let i = choose|i: int| #[trigger] ordered_map::holds_at(before, key, i);
        assert(ordered_map::holds_at(cut, key, i));
    }
    ordered_map::lemma_entry_map_is::<K, Map<IpAddr, u64>>(cut, m);
    ordered_map::lemma_entry_map_injective::<K, Map<IpAddr, u64>>(after, cut);
    lemma_cut_count(before, peer, other);
}

/// Taking one peer out of every entry does not change how many name another.
proof fn lemma_cut_count<Q>(s: Seq<(Q, Map<IpAddr, u64>)>, peer: IpAddr, other: IpAddr)
    requires
        peer != other,
    ensures
        membership::acks_of(
            s.map_values(|e: (Q, Map<IpAddr, u64>)| (e.0, e.1.remove(peer))),
            other,
        ) == membership::acks_of(s, other),
    decreases s.len(),
{
    reveal(Seq::filter);
    let cut = |e: (Q, Map<IpAddr, u64>)| (e.0, e.1.remove(peer));
    if s.len() > 0 {
        lemma_cut_count(s.drop_last(), peer, other);
        assert(s.map_values(cut).drop_last() =~= s.drop_last().map_values(cut));
    }
}

/// One more address in the list is one more address in the set.
proof fn lemma_addresses_push(list: Seq<IpAddr>, addr: IpAddr)
    ensures
        peers::addresses(list.push(addr)) == peers::addresses(list).insert(addr),
{
    assert forall|a: IpAddr| peers::addresses(list.push(addr)).contains(a) <==> peers::addresses(
        list,
    ).insert(addr).contains(a) by {
        if list.push(addr).contains(a) {
            let i = choose|i: int| 0 <= i < list.push(addr).len() && list.push(addr)[i] == a;
            if i < list.len() {
                assert(list[i] == a);
            }
        }
        if list.contains(a) {
            let i = choose|i: int| 0 <= i < list.len() && list[i] == a;
            assert(list.push(addr)[i] == a);
        }
        if a == addr {
            assert(list.push(addr)[list.len() as int] == a);
        }
    }
    assert(peers::addresses(list.push(addr)) =~= peers::addresses(list).insert(addr));
}

/// Decommissioning one more member extends what a round has done so far.
proof fn lemma_decommission_step<K: Key, V: Value>(
    before: Replica<K, V>,
    so_far: Replica<K, V>,
    after: Replica<K, V>,
    current: Set<IpAddr>,
    gone: Seq<IpAddr>,
    member: IpAddr,
    now: Instant,
)
    requires
        discovers(before, so_far, current, gone, now),
        membership::decommissions(so_far, after, member),
        so_far.members@.contains_key(member),
        membership::acks_of(so_far.tombstone_acks.sequence(), member) == membership::acks_of(
            before.tombstone_acks.sequence(),
            member,
        ),
    ensures
        discovers(before, after, current, gone.push(member), now),
{
    let more = gone.push(member);
    lemma_addresses_push(gone, member);
    assert(more.drop_last() =~= gone);
    assert(after.members@ =~= before.members@.remove_keys(peers::addresses(more)));
    let left = without_acks(before.tombstone_acks@, peers::addresses(more));
    assert forall|key: K::V| before.tombstone_acks@.contains_key(key) implies #[trigger] left[key]
        == after.tombstone_acks@[key] by {
        assert(left[key] =~= after.tombstone_acks@[key]);
    }
    assert(after.tombstone_acks@ =~= left);
}

impl<K: Key, V: Value> ReplicatedMap<K, V> {
    /// Take in one discovery round, holding back the members that have yet to acknowledge a
    /// tombstone. `hash` gives the version of the tombstone that a stamp dates; see
    /// [`discover_round`](Self::discover_round) for the rest.
    pub fn discover_round_with_acks<H>(
        &mut self,
        resolved: Option<Vec<IpAddr>>,
        presence: &mut OrderedMap<IpAddr, MemberPresence>,
        hash: &H,
        now: Instant,
    ) -> (gone: Vec<IpAddr>) where H: Fn(Timestamp) -> u64
        requires
            forall|stamp: Timestamp| call_requires(*hash, (stamp,)),
            forall|addr: IpAddr| #[trigger]
                old(presence)@.contains_key(addr) ==> old(presence)@[addr].can_miss(),
        ensures
            exists|pending: Set<IpAddr>|
                {
                    &&& #[trigger] membership::are_pending(old(self).engine, *hash, pending)
                    &&& takes_round(
                        *old(self),
                        *final(self),
                        old(presence)@,
                        final(presence)@,
                        match resolved {
                            Some(list) => Some(list@),
                            None => None,
                        },
                        pending,
                        now,
                        gone@,
                    )
                },
    {
        let pending: AddrSet = self.engine.members_with_pending_acks(hash);
        assert(membership::are_pending(old(self).engine, *hash, pending@.dom()));
        self.discover_round(resolved, presence, &pending, now)
    }

    /// Take in one discovery round. `resolved` is what the source came up with, or `None` when it
    /// failed; `presence` is carried from round to round; `pending` names the members with pending
    /// tombstone acks. Hands back the members that were decommissioned.
    ///
    /// A failed round changes nothing but the failure count. This node, and a member that was found,
    /// are never decommissioned, and neither is one that this source never found.
    pub fn discover_round(
        &mut self,
        resolved: Option<Vec<IpAddr>>,
        presence: &mut OrderedMap<IpAddr, MemberPresence>,
        pending: &AddrSet,
        now: Instant,
    ) -> (gone: Vec<IpAddr>)
        requires
            forall|addr: IpAddr| #[trigger]
                old(presence)@.contains_key(addr) ==> old(presence)@[addr].can_miss(),
        ensures
            takes_round(
                *old(self),
                *final(self),
                old(presence)@,
                final(presence)@,
                match resolved {
                    Some(list) => Some(list@),
                    None => None,
                },
                pending@.dom(),
                now,
                gone@,
            ),
            forall|i: int|
                0 <= i < (resolved->0)@.len() && resolved is Some && #[trigger] (resolved->0)@[i]
                    != old(self).engine.listen_addr ==> final(self).engine.peers@.contains_key((resolved->0)@[i])
                    && final(self).engine.peers@[(resolved->0)@[i]] == now,
    {
        let mut gone: Vec<IpAddr> = Vec::new();
        let list: Vec<IpAddr> = match resolved {
            Some(list) => list,
            None => {
                self.engine.metrics.record_discovery_failure();
                return gone;
            },
        };
        self.last_successful_discovery_at = Some(now);
        let own: IpAddr = self.engine.listen_addr;
        let ghost current = found(list@, own);
        let ghost p0 = presence@;
        let ghost before = self.engine;

        // Refresh everything that was found.
        let mut current_set: AddrSet = OrderedMap::new();
        let mut i: usize = 0;
        proof {
            assert(list@.take(0) =~= Seq::empty());
            assert(found(list@.take(0), own) =~= Set::empty());
            assert(presence@ =~= all_seen(p0, Set::empty()));
            assert(self.engine.peers@ =~= all_seeded(before.peers@, Set::empty(), now));
        }
        while i < list.len()
            invariant
                i <= list@.len(),
                *self == (ReplicatedMap {
                    engine: self.engine,
                    last_successful_discovery_at: Some(now),
                    ..*old(self)
                }),
                before == old(self).engine,
                self.engine == (Replica { peers: self.engine.peers, ..before }),
                current_set@.dom() == found(list@.take(i as int), own),
                presence@ == all_seen(p0, found(list@.take(i as int), own)),
                self.engine.peers@ == all_seeded(
                    before.peers@,
                    found(list@.take(i as int), own),
                    now,
                ),
            decreases list@.len() - i,
        {
            let addr: IpAddr = list[i];
            let ghost prefix = found(list@.take(i as int), own);
            proof {
                reconciliation::lemma_take_contains(list@, i as int);
            }
            if addr != own {
                assert(found(list@.take(i + 1), own) =~= prefix.insert(addr));
                current_set.insert(addr, ());
                presence.insert(addr, MemberPresence::Present);
                self.engine.seed_peer(addr, now);
                proof {
                    assert(current_set@.dom() =~= prefix.insert(addr));
                    assert(presence@ =~= all_seen(p0, prefix.insert(addr)));
                    assert(self.engine.peers@ =~= all_seeded(
                        before.peers@,
                        prefix.insert(addr),
                        now,
                    ));
                }
            } else {
                assert(found(list@.take(i + 1), own) =~= prefix);
            }
            i = i + 1;
        }
        proof {
            assert(list@.take(i as int) =~= list@);
            use_type_invariant(&self.engine.members);
            use_type_invariant(&self.engine.tombstone_acks);
        }
        let ghost p1 = presence@;
        let ghost seeded = self.engine;
        let ghost acks0 = before.tombstone_acks.sequence();
        let ghost out = |member: IpAddr|
            vanishes(
                p0,
                current,
                own,
                self.discovery_miss_threshold,
                self.discovery_decommission_floor,
                pending@.dom(),
                now,
                member,
            );

        // Count a miss against members that were found before but are absent now.
        let members: Vec<IpAddr> = self.engine.members.keys();
        let mut j: usize = 0;
        proof {
            assert(members@ =~= ordered_map::keys_of(before.members.sequence()));
            peers::lemma_keys::<()>(before.members.sequence());
            reveal(Seq::filter);
            assert(members@.take(0) =~= Seq::empty());
            assert(gone@ =~= members@.take(0).filter(out));
            assert(peers::addresses(gone@) =~= Set::empty());
            assert(p1 =~= accounted(p1, current, own, members@.take(0), Set::empty(), now));
            assert(self.engine.members@ =~= before.members@.remove_keys(Set::empty()));
            assert(self.engine.tombstone_acks@ =~= without_acks(
                before.tombstone_acks@,
                Set::empty(),
            )) by {
                assert forall|key: K::V| before.tombstone_acks@.contains_key(key) implies #[trigger] without_acks(
                    before.tombstone_acks@,
                    Set::empty(),
                )[key] == before.tombstone_acks@[key] by {
                    assert(without_acks(before.tombstone_acks@, Set::empty())[key]
                        =~= before.tombstone_acks@[key]);
                }
            }
        }
        while j < members.len()
            invariant
                j <= members@.len(),
                members@.no_duplicates(),
                members@ == ordered_map::keys_of(before.members.sequence()),
                peers::addresses(members@) == before.members@.dom(),
                current == found(list@, own),
                current_set@.dom() == current,
                own == before.listen_addr,
                *self == (ReplicatedMap {
                    engine: self.engine,
                    last_successful_discovery_at: Some(now),
                    ..*old(self)
                }),
                before == old(self).engine,
                acks0 == before.tombstone_acks.sequence(),
                p1 == all_seen(p0, current),
                forall|addr: IpAddr| #[trigger] p0.contains_key(addr) ==> p0[addr].can_miss(),
                out == (|member: IpAddr|
                    vanishes(
                        p0,
                        current,
                        own,
                        old(self).discovery_miss_threshold,
                        old(self).discovery_decommission_floor,
                        pending@.dom(),
                        now,
                        member,
                    )),
                gone@ == members@.take(j as int).filter(out),
                presence@ == accounted(
                    p1,
                    current,
                    own,
                    members@.take(j as int),
                    peers::addresses(gone@),
                    now,
                ),
                discovers(before, self.engine, current, gone@, now),
                forall|other: IpAddr|
                    !gone@.contains(other) ==> #[trigger] membership::acks_of(
                        self.engine.tombstone_acks.sequence(),
                        other,
                    ) == membership::acks_of(acks0, other),
            decreases members@.len() - j,
        {
            let member: IpAddr = members[j];
            let ghost prefix = members@.take(j as int);
            let ghost so_far = gone@;
            let ghost engine1 = self.engine;
            proof {
                use_type_invariant(&self.engine.tombstone_acks);
                reveal(Seq::filter);
                reconciliation::lemma_take_contains(members@, j as int);
                assert(members@.take(j + 1).drop_last() =~= prefix);
                assert(members@.take(j + 1).last() == member);
                assert(!prefix.contains(member)) by {
                    if prefix.contains(member) {
                        let k = choose|k: int| 0 <= k < prefix.len() && prefix[k] == member;
                        assert(members@[k] == members@[j as int]);
                    }
                }
                if so_far.contains(member) {
                    prefix.lemma_filter_contains_rev(out, member);
                }
                assert(before.members@.dom().contains(member)) by {
                    assert(members@[j as int] == member);
                    assert(members@.contains(member));
                    assert(peers::addresses(members@).contains(member));
                }
            }
            let known: Option<MemberPresence> = if member == own || current_set.contains_key(
                &member,
            ) {
                None
            } else {
                match presence.get(&member) {
                    Some(state) => Some(*state),
                    None => None,
                }
            };
            match known {
                None => {
                    assert(!misses(p1, current, own, member));
                    assert(!out(member));
                    assert(gone@ =~= members@.take(j + 1).filter(out));
                    assert(presence@ =~= accounted(
                        p1,
                        current,
                        own,
                        members@.take(j + 1),
                        peers::addresses(gone@),
                        now,
                    ));
                },
                Some(held) => {
                    let mut state: MemberPresence = held;
                    assert(held == p0[member]);
                    state.mark_missed(now);
                    let is_pending: bool = pending.contains_key(&member);
                    if state.eligible_for_decommission(
                        self.discovery_miss_threshold,
                        self.discovery_decommission_floor,
                        is_pending,
                        now,
                    ) {
                        self.engine.decommission_peer(member);
                        presence.remove(&member);
                        gone.push(member);
                        proof {
                            assert(out(member));
                            assert(gone@ =~= members@.take(j + 1).filter(out));
                            lemma_addresses_push(so_far, member);
                            assert(presence@ =~= accounted(
                                p1,
                                current,
                                own,
                                members@.take(j + 1),
                                peers::addresses(gone@),
                                now,
                            ));
                            lemma_decommission_step(
                                before,
                                engine1,
                                self.engine,
                                current,
                                so_far,
                                member,
                                now,
                            );
                            use_type_invariant(&self.engine.tombstone_acks);
                            assert forall|other: IpAddr| !gone@.contains(other) implies #[trigger] membership::acks_of(
                                self.engine.tombstone_acks.sequence(),
                                other,
                            ) == membership::acks_of(acks0, other) by {
                                assert(gone@.contains(member)) by {
                                    assert(gone@[gone@.len() - 1] == member);
                                }
                                if so_far.contains(other) {
                                    let k = choose|k: int| 0 <= k < so_far.len() && so_far[k] == other;
                                    assert(gone@[k] == other);
                                }
                                lemma_other_acks::<K>(
                                    engine1.tombstone_acks.sequence(),
                                    self.engine.tombstone_acks.sequence(),
                                    member,
                                    other,
                                );
                            }
                        }
                    } else {
                        presence.insert(member, state);
                        proof {
                            assert(!out(member));
                            assert(gone@ =~= members@.take(j + 1).filter(out));
                            assert(presence@ =~= accounted(
                                p1,
                                current,
                                own,
                                members@.take(j + 1),
                                peers::addresses(gone@),
                                now,
                            ));
                        }
                    }
                },
            }
            j = j + 1;
        }
        proof {
            assert(members@.take(j as int) =~= members@);
            assert forall|i: int| 0 <= i < list@.len() && #[trigger] list@[i] != own implies self.engine.peers@.contains_key(
                list@[i],
            ) && self.engine.peers@[list@[i]] == now by {
                assert(list@.contains(list@[i]));
                assert(current.contains(list@[i]));
            }
        }
        gone
    }
}

// ---------------------------------------------------------------------------------------------
// What a round amounts to
// ---------------------------------------------------------------------------------------------

/// Everything that was resolved but the node's own address is in the routing table afterwards, as
/// of now, whether or not it was there before; every other entry stays as it was.
pub proof fn resolved_peers_are_refreshed(
    table: Map<IpAddr, Instant>,
    resolved: Seq<IpAddr>,
    own: IpAddr,
    now: Instant,
    addr: IpAddr,
)
    ensures
        resolved.contains(addr) && addr != own ==> all_seeded(table, found(resolved, own), now).contains_key(addr)
            && all_seeded(table, found(resolved, own), now)[addr] == now,
        !resolved.contains(addr) || addr == own ==> (all_seeded(table, found(resolved, own), now).contains_key(addr)
            <==> table.contains_key(addr)) && (table.contains_key(addr) ==> all_seeded(
            table,
            found(resolved, own),
            now,
        )[addr] == table[addr]),
{
}

/// After a successful round at `now`, every resolved address but the node's own is in the routing
/// table with `now` as the time it was last seen, so it still counts as a peer at any time less than
/// sixty seconds later; an address that was not resolved keeps its time.
pub proof fn resolved_peers_count_for_a_minute<K: Key, V: Value>(
    before: ReplicatedMap<K, V>,
    after: ReplicatedMap<K, V>,
    presence: Map<IpAddr, MemberPresence>,
    presence_after: Map<IpAddr, MemberPresence>,
    list: Seq<IpAddr>,
    pending: Set<IpAddr>,
    now: Instant,
    gone: Seq<IpAddr>,
    addr: IpAddr,
    later: Instant,
)
    requires
        takes_round(before, after, presence, presence_after, Some(list), pending, now, gone),
    ensures
        list.contains(addr) && addr != before.engine.listen_addr ==> {
            &&& after.engine.peers@.contains_key(addr)
            &&& after.engine.peers@[addr] == now
            &&& later.nanos - now.nanos < 60_000_000_000 ==> peers::fresh(after.engine.peers@, later).contains_key(
                addr,
            )
        },
        !list.contains(addr) ==> (after.engine.peers@.contains_key(addr) <==> before.engine.peers@.contains_key(
            addr,
        )) && (before.engine.peers@.contains_key(addr) ==> after.engine.peers@[addr]
            == before.engine.peers@[addr]),
        after.last_successful_discovery_at == Some(now),
{
    resolved_peers_are_refreshed(before.engine.peers@, list, before.engine.listen_addr, now, addr);
    peers::peers_count_for_a_minute(after.engine.peers@, later, addr);
}

/// An absence is counted round by round, from the first one missed; being missed never moves its
/// beginning.
pub proof fn absences_are_counted_from_their_beginning(first: Instant, later: Instant, presence: MemberPresence)
    ensures
        MemberPresence::Present.missed(first) == (MemberPresence::Absent { since: first, misses: 1 }),
        presence matches MemberPresence::Absent { since, misses } ==> misses < u32::MAX ==> (presence.missed(
            later,
        ) matches MemberPresence::Absent { since: s, misses: m } && s == since && m == misses + 1),
{
}

/// A member is decommissioned by a round exactly when it is a member, is not this node, was not
/// resolved, had been found by an earlier round, and has now been missed `discovery_miss_threshold`
/// times, and, while it owes a tombstone ack, been absent for `discovery_decommission_floor`.
pub proof fn rounds_decommission_exactly_the_absent<K: Key, V: Value>(
    before: ReplicatedMap<K, V>,
    after: ReplicatedMap<K, V>,
    presence: Map<IpAddr, MemberPresence>,
    presence_after: Map<IpAddr, MemberPresence>,
    list: Seq<IpAddr>,
    pending: Set<IpAddr>,
    now: Instant,
    gone: Seq<IpAddr>,
    member: IpAddr,
)
    requires
        takes_round(before, after, presence, presence_after, Some(list), pending, now, gone),
        presence.contains_key(member) ==> presence[member].can_miss(),
    ensures
        gone.contains(member) <==> {
            &&& ordered_map::keys_of(before.engine.members.sequence()).contains(member)
            &&& member != before.engine.listen_addr
            &&& !list.contains(member)
            &&& presence.contains_key(member)
            &&& match presence[member] {
                MemberPresence::Present => 1 >= before.discovery_miss_threshold && (!pending.contains(member)
                    || 0 >= before.discovery_decommission_floor.nanos),
                MemberPresence::Absent { since, misses } => misses + 1 >= before.discovery_miss_threshold && (
                !pending.contains(member) || before.discovery_decommission_floor.nanos == 0 || now.nanos
                    - since.nanos >= before.discovery_decommission_floor.nanos),
            }
        },
        gone.contains(member) ==> !after.engine.members@.contains_key(member)
            && !presence_after.contains_key(member),
        !gone.contains(member) ==> (after.engine.members@.contains_key(member)
            <==> before.engine.members@.contains_key(member)),
{
    let own = before.engine.listen_addr;
    let members = ordered_map::keys_of(before.engine.members.sequence());
    let out = |m: IpAddr|
        vanishes(
            presence,
            found(list, own),
            own,
            before.discovery_miss_threshold,
            before.discovery_decommission_floor,
            pending,
            now,
            m,
        );
    assert(gone == members.filter(out));
    let places = ordered_map::filtering_picks_places(members, out);
    if gone.contains(member) {
        let i = choose|i: int| 0 <= i < gone.len() && gone[i] == member;
        assert(members[places[i]] == member);
        assert(out(member));
    }
    if members.contains(member) && out(member) {
        let k = choose|k: int| 0 <= k < members.len() && members[k] == member;
        assert(places.contains(k));
        let i = choose|i: int| 0 <= i < places.len() && places[i] == k;
        assert(gone[i] == member);
    }
    assert(peers::addresses(gone).contains(member) == gone.contains(member));
}

/// What decommissioned members had acknowledged is forgotten, key by key; what anybody else
/// acknowledged stays, at its version, and so does every key.
pub proof fn only_the_acks_of_the_gone_are_forgotten<Q>(
    table: Map<Q, Map<IpAddr, u64>>,
    gone: Set<IpAddr>,
    key: Q,
    peer: IpAddr,
)
    ensures
        without_acks(table, gone).contains_key(key) <==> table.contains_key(key),
        table.contains_key(key) ==> (without_acks(table, gone)[key].contains_key(peer) <==> table[key].contains_key(
            peer,
        ) && !gone.contains(peer)),
        table.contains_key(key) && table[key].contains_key(peer) && !gone.contains(peer) ==> without_acks(
            table,
            gone,
        )[key][peer] == table[key][peer],
{
}

/// A round notes everyone it found as present; a member it missed has one more miss on record,
/// unless it was decommissioned; and nobody else's record changes.
pub proof fn rounds_keep_presences_up_to_date(
    presence: Map<IpAddr, MemberPresence>,
    own: IpAddr,
    list: Seq<IpAddr>,
    members: Seq<IpAddr>,
    gone: Set<IpAddr>,
    now: Instant,
    addr: IpAddr,
)
    requires
        !gone.contains(addr),
    ensures
        ({
            let after = advanced(
                presence,
                own,
                (DiscoveryRound { current: Some(found(list, own)), members, gone, now }),
            );
            &&& list.contains(addr) && addr != own ==> after.contains_key(addr) && after[addr]
                == MemberPresence::Present
            &&& !list.contains(addr) || addr == own ==> (after.contains_key(addr) <==> presence.contains_key(addr))
            &&& (!list.contains(addr) || addr == own) && presence.contains_key(addr) ==> after[addr]
                == if members.contains(addr) && addr != own {
                presence[addr].missed(now)
            } else {
                presence[addr]
            }
        }),
        advanced(presence, own, (DiscoveryRound { current: None, members, gone, now })) == presence,
{
}

/// Each decommissioned member counts as one change, and so does each ack of it that is forgotten.
pub proof fn every_decommissioning_is_counted<Q>(
    before: usize,
    gone: Seq<IpAddr>,
    acks: Seq<(Q, Map<IpAddr, u64>)>,
    member: IpAddr,
)
    requires
        changes_after(before, gone, acks) + 1 + membership::acks_of(acks, member) <= usize::MAX,
    ensures
        changes_after(before, Seq::empty(), acks) == before,
        changes_after(before, gone.push(member), acks) == changes_after(before, gone, acks) + 1
            + membership::acks_of(acks, member),
{
    assert(gone.push(member).drop_last() =~= gone);
}

/// A round in which the source failed decommissions nobody and changes nothing, but counts as one
/// failure.
pub proof fn failed_rounds_change_nothing<K: Key, V: Value>(
    before: ReplicatedMap<K, V>,
    after: ReplicatedMap<K, V>,
    presence: Map<IpAddr, MemberPresence>,
    presence_after: Map<IpAddr, MemberPresence>,
    pending: Set<IpAddr>,
    now: Instant,
    gone: Seq<IpAddr>,
)
    requires
        takes_round(before, after, presence, presence_after, None, pending, now, gone),
    ensures
        gone.len() == 0,
        presence_after == presence,
        after == (ReplicatedMap { engine: after.engine, ..before }),
        after.engine == (Replica { metrics: after.engine.metrics, ..before.engine }),
        after.engine.metrics@.len() == before.engine.metrics@.len() + 1,
        after.engine.metrics@.last().name == metrics::DISCOVERY_FAILURES_TOTAL,
{
}

/// A successful round forgets what those it decommissioned had acknowledged, and nothing else: for
/// every key, what anybody else acknowledged stays.
pub proof fn rounds_forget_only_the_gone<K: Key, V: Value>(
    before: ReplicatedMap<K, V>,
    after: ReplicatedMap<K, V>,
    presence: Map<IpAddr, MemberPresence>,
    presence_after: Map<IpAddr, MemberPresence>,
    list: Seq<IpAddr>,
    pending: Set<IpAddr>,
    now: Instant,
    gone: Seq<IpAddr>,
    key: K::V,
    peer: IpAddr,
)
    requires
        takes_round(before, after, presence, presence_after, Some(list), pending, now, gone),
    ensures
        after.engine.tombstone_acks@.contains_key(key) <==> before.engine.tombstone_acks@.contains_key(key),
        before.engine.tombstone_acks@.contains_key(key) ==> (after.engine.tombstone_acks@[key].contains_key(peer)
            <==> before.engine.tombstone_acks@[key].contains_key(peer) && !gone.contains(peer)),
        before.engine.tombstone_acks@.contains_key(key) && before.engine.tombstone_acks@[key].contains_key(peer)
            && !gone.contains(peer) ==> after.engine.tombstone_acks@[key][peer]
            == before.engine.tombstone_acks@[key][peer],
        after == (ReplicatedMap {
            engine: after.engine,
            last_successful_discovery_at: Some(now),
            ..before
        }),
        after.engine == (Replica {
            peers: after.engine.peers,
            members: after.engine.members,
            tombstone_acks: after.engine.tombstone_acks,
            changes_since_snapshot: after.engine.changes_since_snapshot,
            ..before.engine
        }),
        gone.len() == 0 ==> after.engine.changes_since_snapshot == before.engine.changes_since_snapshot,
{
    only_the_acks_of_the_gone_are_forgotten(before.engine.tombstone_acks@, peers::addresses(gone), key, peer);
    assert(peers::addresses(gone).contains(peer) == gone.contains(peer));
}

} // verus!
