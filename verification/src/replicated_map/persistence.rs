//! Saving and restoring a replicated map.

use vstd::arithmetic::power2;
use vstd::prelude::*;
use vstd::string::StringExecFns;

use crate::bounds::{Duplicate, Key, Value};
use crate::clock::Timestamp;
use crate::entry::Entry;
use crate::metrics;
use crate::net::IpAddr;
use crate::observability;
use crate::ordered_map;
use crate::ordered_map::{KeyBound, KeyRange, OrderedMap};
use crate::peers::AddrSet;
use crate::replica::dispatch;
use crate::replica::write::run_pre_insert;
use crate::replica::Replica;
use crate::replicated_map::ReplicatedMap;
use crate::text;
use crate::time::{Duration, Instant};

verus! {

/// How many times loading persisted state is attempted.
pub const LOAD_RETRY_ATTEMPTS: u32 = 5;

/// The delay before the first retry, in nanoseconds: 100 ms. Each later one doubles it.
pub const LOAD_RETRY_BASE_DELAY_NANOS: u128 = 100_000_000;

/// How many entries a snapshot copies at a time.
pub const SNAPSHOT_CHUNK_SIZE: usize = 4096;

// ---------------------------------------------------------------------------------------------
// What is saved
// ---------------------------------------------------------------------------------------------

/// Everything a replica saves.
pub struct PersistedState<K: Key, V: Value> {
    /// The dated entries, tombstones included.
    pub entries: Vec<(K, Entry<Timestamp, V>)>,
    /// The membership.
    pub members: AddrSet,
    /// Who acknowledged which tombstones.
    pub tombstone_acks: OrderedMap<K, OrderedMap<IpAddr, u64>>,
}

impl<K: Key, V: Value> PersistedState<K, V> {
    /// State from its parts.
    pub fn new(
        entries: Vec<(K, Entry<Timestamp, V>)>,
        members: AddrSet,
        tombstone_acks: OrderedMap<K, OrderedMap<IpAddr, u64>>,
    ) -> (state: Self)
        ensures
            state == (PersistedState { entries, members, tombstone_acks }),
    {
        PersistedState { entries, members, tombstone_acks }
    }

    /// Entries alone, with no membership and no acknowledgements.
    pub fn from_entries(entries: Vec<(K, Entry<Timestamp, V>)>) -> (state: Self)
        ensures
            state.entries == entries,
            state.members@ == Map::<IpAddr, ()>::empty(),
            state.tombstone_acks@ == Map::<K::V, Map<IpAddr, u64>>::empty(),
    {
        PersistedState { entries, members: OrderedMap::new(), tombstone_acks: OrderedMap::new() }
    }

    /// This is what `replica` holds.
    pub open spec fn captures(&self, replica: &Replica<K, V>) -> bool {
        &&& ordered_map::pairs(self.entries@) == replica.store.sequence()
        &&& self.members@ == replica.members@
        &&& self.tombstone_acks@ == replica.tombstone_acks@
    }
}

/// The entries of `s` past `cursor`; all of them before the first chunk.
pub open spec fn past<K: Key, X>(s: Seq<(K::V, X)>, cursor: Option<K::V>) -> Seq<(K::V, X)> {
    match cursor {
        None => s,
        Some(key) => ordered_map::within::<K, X>(
            s,
            KeyRange { lower: KeyBound::Excluded(key), upper: KeyBound::Unbounded },
        ),
    }
}

/// As much of `s` as one chunk holds.
pub open spec fn chunk_of<A>(s: Seq<A>) -> Seq<A> {
    if s.len() <= SNAPSHOT_CHUNK_SIZE {
        s
    } else {
        s.take(SNAPSHOT_CHUNK_SIZE as int)
    }
}

/// Past the entry at `i`, what is left are the entries after it.
proof fn lemma_past<K: Key, X>(s: Seq<(K::V, X)>, i: int)
    requires
        ordered_map::increasing::<K, X>(s),
        0 <= i < s.len(),
    ensures
        past::<K, X>(s, Some(s[i].0)) == s.subrange(i + 1, s.len() as int),
{
    let range: KeyRange<K::V> = KeyRange {
        lower: KeyBound::Excluded(s[i].0),
        upper: KeyBound::Unbounded,
    };
    let keep = |entry: (K::V, X)| ordered_map::in_range::<K>(range, entry.0);
    assert forall|j: int| 0 <= j < s.len() implies (keep(#[trigger] s[j]) <==> i + 1 <= j < s.len()) by {
        ordered_map::lemma_exclusive::<K>(s[i].0, s[j].0);
    }
    ordered_map::lemma_filter_is_window(s, keep, i + 1, s.len() as int);
}

impl<K: Key, V: Value> Replica<K, V> {
    /// Copy the next chunk of entries past `cursor`. Between chunks the map may change.
    pub fn capture_chunk(&self, cursor: &Option<K>) -> (chunk: Vec<(K, Entry<Timestamp, V>)>)
        ensures
            ordered_map::pairs(chunk@) == chunk_of(
                past::<K, Entry<Timestamp, V::V>>(
                    self.store.sequence(),
                    ordered_map::optional(*cursor),
                ),
            ),
    {
        let map = self.store.map();
        let ghost s = map.sequence();
        let (lo, hi): (usize, usize) = match cursor {
            None => {
                assert(s.subrange(0, s.len() as int) =~= s);
                (0, map.len())
            },
            Some(last) => map.window(&KeyRange::after(last.duplicate())),
        };
        let ghost left = s.subrange(lo as int, hi as int);
        let end: usize = if hi - lo <= SNAPSHOT_CHUNK_SIZE {
            hi
        } else {
            lo + SNAPSHOT_CHUNK_SIZE
        };
        let mut chunk: Vec<(K, Entry<Timestamp, V>)> = Vec::new();
        let mut i: usize = lo;
        assert(ordered_map::pairs(chunk@) =~= s.subrange(lo as int, lo as int));
        while i < end
            invariant
                s == map.sequence(),
                lo <= i <= end <= s.len(),
                ordered_map::pairs(chunk@) == s.subrange(lo as int, i as int),
            decreases end - i,
        {
            let (key, entry) = map.at(i);
            let ghost before = chunk@;
            chunk.push((key.duplicate(), entry.duplicate()));
            proof {
                assert(ordered_map::pairs(chunk@) =~= ordered_map::pairs(before).push(s[i as int]));
                assert(s.subrange(lo as int, i + 1) =~= s.subrange(lo as int, i as int).push(
                    s[i as int],
                ));
            }
            i = i + 1;
        }
        assert(s.subrange(lo as int, end as int) =~= chunk_of(left));
        chunk
    }

    /// Copy everything the replica saves, chunk by chunk.
    pub fn capture(&self) -> (state: PersistedState<K, V>)
        ensures
            state.captures(self),
    {
        let map = self.store.map();
        let ghost s = map.sequence();
        proof {
            use_type_invariant(map);
        }
        let mut entries: Vec<(K, Entry<Timestamp, V>)> = Vec::new();
        let mut cursor: Option<K> = None;
        let mut done: bool = false;
        assert(ordered_map::pairs(entries@) =~= s.take(0));
        assert(s.subrange(0, s.len() as int) =~= s);
        while !done
            invariant
                s == self.store.sequence(),
                ordered_map::increasing::<K, Entry<Timestamp, V::V>>(s),
                entries@.len() <= s.len(),
                ordered_map::pairs(entries@) == s.take(entries@.len() as int),
                past::<K, Entry<Timestamp, V::V>>(s, ordered_map::optional(cursor)) == s.subrange(
                    entries@.len() as int,
                    s.len() as int,
                ),
                done ==> entries@.len() == s.len(),
            decreases s.len() - entries@.len(), (if done {
                0int
            } else {
                1int
            }),
        {
            let ghost before = entries@;
            let mut chunk = self.capture_chunk(&cursor);
            let ghost copied = ordered_map::pairs(chunk@);
            let n: usize = chunk.len();
            let ghost left = s.subrange(before.len() as int, s.len() as int);
            assert(copied == chunk_of(left));
            assert(copied.len() == n);
            if n == 0 {
                done = true;
            } else {
                cursor = Some(chunk[n - 1].0.duplicate());
                entries.append(&mut chunk);
                proof {
                    let at = entries@.len() - 1;
                    assert(entries@.len() == before.len() + n);
                    assert(copied[n - 1] == left[n - 1]);
                    assert(copied[n - 1] == s[at]);
                    assert(ordered_map::pairs(entries@) =~= ordered_map::pairs(before) + copied);
                    assert(ordered_map::pairs(entries@) =~= s.take(entries@.len() as int));
                    lemma_past::<K, Entry<Timestamp, V::V>>(s, at);
                }
            }
        }
        assert(s.take(entries@.len() as int) =~= s);
        PersistedState::new(entries, self.members.duplicate(), self.tombstone_acks.duplicate())
    }
}

// ---------------------------------------------------------------------------------------------
// Loading
// ---------------------------------------------------------------------------------------------

/// Why persisted state could not be loaded.
#[derive(Debug)]
#[non_exhaustive]
pub enum PersistenceLoadError {
    /// It is damaged, or of another format: never a reason to start afresh in silence.
    Corrupt(std::io::Error),
    /// Every attempt failed.
    RetriesExhausted(std::io::Error),
}

impl PersistenceLoadError {
    /// The message a user sees, given that of the cause.
    pub open spec fn message(self, cause: Seq<char>) -> Seq<char> {
        match self {
            PersistenceLoadError::Corrupt(_) => "persisted state is corrupt or from an incompatible format, refusing to silently start fresh: "@
                + cause,
            PersistenceLoadError::RetriesExhausted(_) => "failed to load persisted state after "@
                + text::decimal(LOAD_RETRY_ATTEMPTS as nat) + " attempts: "@ + cause,
        }
    }

    /// The message a user sees, given that of the cause.
    pub fn describe(&self, cause: &str) -> (text: String)
        ensures
            text@ == self.message(cause@),
    {
        match self {
            PersistenceLoadError::Corrupt(_) => {
                let mut text: String = String::from_str(
                    "persisted state is corrupt or from an incompatible format, refusing to silently start fresh: ",
                );
                text.append(cause);
                text
            },
            PersistenceLoadError::RetriesExhausted(_) => {
                let mut text: String = String::from_str("failed to load persisted state after ");
                text::append_decimal(&mut text, LOAD_RETRY_ATTEMPTS as usize);
                text.append(" attempts: ");
                text.append(cause);
                text
            },
        }
    }

    /// The error underneath.
    pub open spec fn cause(&self) -> &std::io::Error {
        match self {
            PersistenceLoadError::Corrupt(error) => error,
            PersistenceLoadError::RetriesExhausted(error) => error,
        }
    }

    /// The message a user sees: what went wrong, then the message of the cause.
    pub fn to_string(&self) -> (text: String)
        ensures
            exists|cause: String|
                text@ == self.message(cause@) && #[trigger] vstd::string::to_string_from_display_ensures(
                    self.cause(),
                    cause,
                ),
    {
        let cause: String = match self {
            PersistenceLoadError::Corrupt(error) => error.to_string(),
            PersistenceLoadError::RetriesExhausted(error) => error.to_string(),
        };
        assert(vstd::string::to_string_from_display_ensures(self.cause(), cause));
        self.describe(cause.as_str())
    }
}

/// How an attempt to load failed.
#[derive(Debug)]
pub enum LoadFailure {
    /// The state is there, but cannot be decoded.
    InvalidData(std::io::Error),
    /// Anything else: a later attempt may succeed.
    Transient(std::io::Error),
}

/// The delay before retry `attempt`, counted from one.
pub open spec fn backoff(attempt: nat) -> nat {
    LOAD_RETRY_BASE_DELAY_NANOS as nat * power2::pow2((attempt - 1) as nat)
}

/// The delays before the first `attempts` retries, together.
pub open spec fn total_backoff(attempts: nat) -> nat
    decreases attempts,
{
    if attempts == 0 {
        0
    } else {
        total_backoff((attempts - 1) as nat) + backoff(attempts)
    }
}

/// However loading fails, it keeps a caller waiting for less than two seconds.
pub proof fn backoff_stays_under_two_seconds(attempts: nat)
    requires
        attempts < LOAD_RETRY_ATTEMPTS,
    ensures
        total_backoff(attempts) < 2_000_000_000,
{
    power2::lemma2_to64();
    reveal_with_fuel(total_backoff, 5);
    let base = LOAD_RETRY_BASE_DELAY_NANOS as nat;
    assert(base * 1 == 100_000_000 && base * 2 == 200_000_000 && base * 4 == 400_000_000 && base * 8
        == 800_000_000);
}

/// The delay before retry `attempt`, counted from one: the base delay, doubled each time.
pub fn backoff_delay(attempt: u32) -> (delay: Duration)
    requires
        1 <= attempt <= 32,
    ensures
        delay.nanos == backoff(attempt as nat),
{
    let base: u128 = LOAD_RETRY_BASE_DELAY_NANOS;
    let mut factor: u128 = 1;
    let mut i: u32 = 1;
    proof {
        power2::lemma2_to64();
    }
    while i < attempt
        invariant
            1 <= i <= attempt <= 32,
            factor == power2::pow2((i - 1) as nat),
            factor <= 0x8000_0000,
            power2::pow2(31) == 0x8000_0000,
        decreases attempt - i,
    {
        proof {
            power2::lemma_pow2_unfold(i as nat);
            if i < 31 {
                power2::lemma_pow2_strictly_increases(i as nat, 31);
            }
        }
        factor = factor * 2;
        i = i + 1;
    }
    assert(base * factor <= 100_000_000 * 0x8000_0000) by (nonlinear_arith)
        requires
            base == 100_000_000,
            factor <= 0x8000_0000,
    ;
    Duration { nanos: base * factor }
}

/// What becomes of a load whose last attempt came to `last`.
pub open spec fn verdict<S>(last: Result<S, LoadFailure>) -> Result<S, PersistenceLoadError> {
    match last {
        Ok(state) => Ok(state),
        Err(LoadFailure::InvalidData(error)) => Err(PersistenceLoadError::Corrupt(error)),
        Err(LoadFailure::Transient(error)) => Err(PersistenceLoadError::RetriesExhausted(error)),
    }
}

/// What is done about one attempt to load.
#[derive(Debug)]
pub enum LoadStep<S> {
    /// It succeeded.
    Loaded(S),
    /// Loading is given up.
    Refused(PersistenceLoadError),
    /// Loading is attempted again after this delay.
    Again(Duration),
}

/// Decide what to do about attempt number `attempt`, counted from one: only a transient failure is
/// followed by another attempt, and only while attempts are left.
pub fn after_attempt<S>(attempt: u32, outcome: Result<S, LoadFailure>) -> (step: LoadStep<S>)
    requires
        1 <= attempt <= LOAD_RETRY_ATTEMPTS,
    ensures
        match outcome {
            Ok(state) => step == LoadStep::Loaded(state),
            Err(LoadFailure::InvalidData(error)) => step == LoadStep::<S>::Refused(
                PersistenceLoadError::Corrupt(error),
            ),
            Err(LoadFailure::Transient(error)) => if attempt < LOAD_RETRY_ATTEMPTS {
                step matches LoadStep::Again(delay) && delay.nanos == backoff(attempt as nat)
            } else {
                step == LoadStep::<S>::Refused(PersistenceLoadError::RetriesExhausted(error))
            },
        },
{
    match outcome {
        Ok(state) => LoadStep::Loaded(state),
        Err(LoadFailure::InvalidData(error)) => LoadStep::Refused(PersistenceLoadError::Corrupt(error)),
        Err(LoadFailure::Transient(error)) => if attempt < LOAD_RETRY_ATTEMPTS {
            LoadStep::Again(backoff_delay(attempt))
        } else {
            LoadStep::Refused(PersistenceLoadError::RetriesExhausted(error))
        },
    }
}

/// One attempt to load: what the attempts and delays so far came to, how this attempt ended, and
/// what it left.
pub struct LoadAttempt<S, A> {
    /// What came before.
    pub before: A,
    /// How it ended.
    pub outcome: Result<S, LoadFailure>,
    /// What it left.
    pub after: A,
}

/// `attempts` retrace a load from `start`, call by call. `load` is called once for each attempt,
/// with its number from one on, and `pause` once between two attempts, with the delay due there.
/// Only a transient failure is followed by another attempt, and only the last permitted attempt may
/// end in one.
pub open spec fn are_attempts<S, A, L, P>(
    load: L,
    pause: P,
    start: A,
    attempts: Seq<LoadAttempt<S, A>>,
) -> bool where L: Fn(A, u32) -> (A, Result<S, LoadFailure>), P: Fn(A, Duration) -> A {
    &&& 1 <= attempts.len() <= LOAD_RETRY_ATTEMPTS
    &&& retraces(load, pause, start, attempts)
    &&& forall|i: int|
        0 <= i < attempts.len() - 1 ==> ((#[trigger] attempts[i]).outcome matches Err(
            LoadFailure::Transient(_),
        ))
    &&& attempts.len() < LOAD_RETRY_ATTEMPTS ==> !(attempts.last().outcome matches Err(
        LoadFailure::Transient(_),
    ))
}

/// Each call of `load` and of `pause` goes on from what the call before it left.
pub open spec fn retraces<S, A, L, P>(load: L, pause: P, start: A, attempts: Seq<LoadAttempt<S, A>>) -> bool where
    L: Fn(A, u32) -> (A, Result<S, LoadFailure>),
    P: Fn(A, Duration) -> A,
 {
    &&& attempts.len() > 0 ==> attempts[0].before == start
    &&& forall|i: int|
        0 <= i < attempts.len() ==> call_ensures(
            load,
            ((#[trigger] attempts[i]).before, (i + 1) as u32),
            (attempts[i].after, attempts[i].outcome),
        )
    &&& forall|i: int| 1 <= i < attempts.len() ==> #[trigger] waits(pause, attempts, i)
}

/// Between attempt number `i` and the one after it, `pause` is called with the delay due there.
pub open spec fn waits<S, A, P>(pause: P, attempts: Seq<LoadAttempt<S, A>>, i: int) -> bool where
    P: Fn(A, Duration) -> A,
 {
    call_ensures(
        pause,
        (attempts[i - 1].after, Duration { nanos: backoff(i as nat) as u128 }),
        attempts[i].before,
    )
}

/// Load persisted state, retrying transient failures with growing delays. `load` is told which
/// attempt it is, counted from one; `pause` waits. What they do besides is carried along, from
/// `start` on.
pub fn load_with_retries<S, A, L, P>(start: A, load: L, pause: P) -> (loaded: (
    Result<S, PersistenceLoadError>,
    A,
)) where L: Fn(A, u32) -> (A, Result<S, LoadFailure>), P: Fn(A, Duration) -> A
    requires
        forall|so_far: A, attempt: u32|
            1 <= attempt <= LOAD_RETRY_ATTEMPTS ==> call_requires(load, (so_far, attempt)),
        forall|so_far: A, delay: Duration| call_requires(pause, (so_far, delay)),
    ensures
        exists|attempts: Seq<LoadAttempt<S, A>>| #[trigger]
            are_attempts(load, pause, start, attempts) && loaded.0 == verdict(attempts.last().outcome)
                && loaded.1 == attempts.last().after,
{
    let ghost mut attempts: Seq<LoadAttempt<S, A>> = Seq::empty();
    let mut so_far: A = start;
    let mut attempt: u32 = 1;
    loop
        invariant
            1 <= attempt <= LOAD_RETRY_ATTEMPTS,
            attempts.len() == attempt - 1,
            retraces(load, pause, start, attempts),
            attempts.len() == 0 ==> so_far == start,
            attempts.len() > 0 ==> call_ensures(
                pause,
                (attempts.last().after, Duration { nanos: backoff(attempts.len()) as u128 }),
                so_far,
            ),
            forall|so_far: A, attempt: u32|
                1 <= attempt <= LOAD_RETRY_ATTEMPTS ==> call_requires(load, (so_far, attempt)),
            forall|so_far: A, delay: Duration| call_requires(pause, (so_far, delay)),
            forall|i: int|
                0 <= i < attempts.len() ==> ((#[trigger] attempts[i]).outcome matches Err(
                    LoadFailure::Transient(_),
                )),
        decreases LOAD_RETRY_ATTEMPTS - attempt,
    {
        let ghost before = so_far;
        let ghost earlier = attempts;
        let (after, outcome): (A, Result<S, LoadFailure>) = load(so_far, attempt);
        proof {
            attempts = attempts.push(LoadAttempt { before, outcome, after });
            assert forall|i: int| 0 <= i < attempts.len() implies call_ensures(
                load,
                ((#[trigger] attempts[i]).before, (i + 1) as u32),
                (attempts[i].after, attempts[i].outcome),
            ) by {
                if i < earlier.len() {
                    assert(attempts[i] == earlier[i]);
                }
            }
            assert forall|i: int| 1 <= i < attempts.len() implies #[trigger] waits(pause, attempts, i) by {
                assert(attempts[i - 1] == earlier[i - 1]);
                if i < earlier.len() {
                    assert(waits(pause, earlier, i));
                    assert(attempts[i] == earlier[i]);
                }
            }
            assert(earlier.len() > 0 ==> attempts[0] == earlier[0]);
        }
        match after_attempt(attempt, outcome) {
            LoadStep::Loaded(state) => {
                assert(are_attempts(load, pause, start, attempts));
                return (Ok(state), after);
            },
            LoadStep::Refused(error) => {
                assert(are_attempts(load, pause, start, attempts));
                return (Err(error), after);
            },
            LoadStep::Again(delay) => {
                assert(delay == (Duration { nanos: backoff(attempt as nat) as u128 }));
                so_far = pause(after, delay);
                attempt = attempt + 1;
            },
        }
    }
}

/// What restoring `state` does to a replica: the membership and the acknowledgements are replaced,
/// and the entries are replayed with the stamps they were saved with.
pub open spec fn restores<K: Key, V: Value>(
    before: Replica<K, V>,
    after: Replica<K, V>,
    state: PersistedState<K, V>,
) -> bool {
    let entries = ordered_map::pairs(state.entries@);
    &&& after == (Replica {
        store: after.store,
        members: state.members,
        tombstone_acks: state.tombstone_acks,
        metrics: after.metrics,
        changes_since_snapshot: before.changes_since_snapshot.wrapping_add(entries.len() as usize),
        ..before
    })
    &&& after.store@ == ordered_map::written(before.store@, entries)
    &&& after.metrics@ == before.metrics@ + crate::replica::write::write_events(entries)
}

/// Restoring what was captured from a replica into an empty one gives back everything that was
/// saved: the entries with their stamps, tombstones included, the membership, and the
/// acknowledgements.
pub proof fn restoring_gives_back_what_was_captured<K: Key, V: Value>(
    original: Replica<K, V>,
    state: PersistedState<K, V>,
    empty: Replica<K, V>,
    restored: Replica<K, V>,
)
    requires
        ordered_map::increasing::<K, Entry<Timestamp, V::V>>(original.store.sequence()),
        state.captures(&original),
        empty.store@ == Map::<K::V, Entry<Timestamp, V::V>>::empty(),
        restores(empty, restored, state),
    ensures
        restored.store@ == original.store@,
        restored.members@ == original.members@,
        restored.tombstone_acks@ == original.tombstone_acks@,
{
    ordered_map::lemma_written::<K, Entry<Timestamp, V::V>>(original.store.sequence());
}

impl<K: Key, V: Value> Replica<K, V> {
    /// Take over persisted state. Hands back every stamp in it: the local clock must move past all
    /// of them, or a fresh write could lose to this node's own older value.
    pub fn restore(&mut self, state: PersistedState<K, V>) -> (observed: Vec<Timestamp>)
        ensures
            restores(*old(self), *final(self), state),
            observed@ == dispatch::stamps(ordered_map::pairs(state.entries@)),
    {
        let ghost saved = state;
        let PersistedState { entries, members, tombstone_acks } = state;
        self.members = members;
        self.tombstone_acks = tombstone_acks;
        let mut observed: Vec<Timestamp> = Vec::new();
        let ghost all = ordered_map::pairs(entries@);
        let mut i: usize = 0;
        assert(observed@ =~= dispatch::stamps(all).take(0));
        while i < entries.len()
            invariant
                i <= entries@.len(),
                all == ordered_map::pairs(entries@),
                observed@ == dispatch::stamps(all).take(i as int),
            decreases entries@.len() - i,
        {
            observed.push(entries[i].1.stamp);
            assert(observed@ =~= dispatch::stamps(all).take(i + 1));
            i = i + 1;
        }
        assert(dispatch::stamps(all).take(i as int) =~= dispatch::stamps(all));
        self.just_insert_bulk(entries.as_slice());
        observed
    }
}

// ---------------------------------------------------------------------------------------------
// Saving
// ---------------------------------------------------------------------------------------------

/// What the end of a snapshot does to a map: a success retires the changes that were captured, and
/// no others; a failure is counted and retires nothing.
pub open spec fn concludes<K: Key, V: Value>(
    before: ReplicatedMap<K, V>,
    after: ReplicatedMap<K, V>,
    captured: usize,
    saved: bool,
    now: Instant,
) -> bool {
    let failures = before.persistence_consecutive_failures.wrapping_add(1);
    if saved {
        &&& after == (ReplicatedMap {
            engine: after.engine,
            last_snapshot_at: Some(now),
            persistence_consecutive_failures: 0,
            ..before
        })
        &&& after.engine == (Replica {
            metrics: after.engine.metrics,
            changes_since_snapshot: before.engine.changes_since_snapshot.wrapping_sub(captured),
            ..before.engine
        })
        &&& after.engine.metrics@ == before.engine.metrics@.push(
            observability::gauged(metrics::PERSISTENCE_FAILURES_CURRENT, 0),
        )
    } else {
        &&& after == (ReplicatedMap {
            engine: after.engine,
            persistence_consecutive_failures: failures,
            ..before
        })
        &&& after.engine == (Replica { metrics: after.engine.metrics, ..before.engine })
        &&& after.engine.metrics@ == before.engine.metrics@.push(
            observability::counted(metrics::PERSISTENCE_FAILURES_TOTAL, 1),
        ).push(observability::gauged(metrics::PERSISTENCE_FAILURES_CURRENT, failures))
    }
}

/// A change counted while a snapshot is being saved is still pending once it is: whatever was
/// captured, exactly the changes since then are left.
pub proof fn writes_during_a_save_stay_pending(captured: usize, since: usize)
    ensures
        captured.wrapping_add(since).wrapping_sub(captured) == since,
{
}

/// What taking over `loaded` does to a map: the pre-insert hook is carried over the entries while
/// none of them is in the map, then everything is restored; without anything loaded, nothing
/// changes.
pub open spec fn takes_over<K: Key, V: Value, A, H>(
    before: ReplicatedMap<K, V>,
    after: ReplicatedMap<K, V>,
    loaded: Option<PersistedState<K, V>>,
    observed: Seq<Timestamp>,
    pre_insert: H,
    start: A,
    end: A,
) -> bool where H: Fn(A, &OrderedMap<K, Entry<Timestamp, V>>, &K, &Entry<Timestamp, V>) -> A {
    match loaded {
        Some(state) => {
            &&& crate::replica::write::hooks(pre_insert, before.engine.store.dated(), state.entries@, start, end)
            &&& after == (ReplicatedMap { engine: after.engine, ..before })
            &&& restores(before.engine, after.engine, state)
            &&& observed == dispatch::stamps(ordered_map::pairs(state.entries@))
        },
        None => after == before && observed.len() == 0 && end == start,
    }
}

/// Tell `on_error` of a failed save, once, and of nothing else.
pub fn report_failure<A, H>(result: &Result<(), std::io::Error>, start: A, on_error: H) -> (end: A) where
    H: FnOnce(A, &std::io::Error) -> A,

    requires
        result matches Err(error) ==> call_requires(on_error, (start, &error)),
    ensures
        result is Ok ==> end == start,
        result matches Err(error) ==> call_ensures(on_error, (start, &error), end),
{
    match result {
        Ok(()) => start,
        Err(error) => on_error(start, error),
    }
}

impl<K: Key, V: Value> ReplicatedMap<K, V> {
    /// Load persisted state, carry `pre_insert` over its entries, and take it over. What the three
    /// functions do besides is carried along, from `start` on. Hands back every stamp in the state:
    /// the local clock must move past all of them.
    pub fn with_persistence<A, L, P, H>(self, start: A, load: L, pause: P, pre_insert: &H) -> (result: (
        Result<(Self, Vec<Timestamp>), PersistenceLoadError>,
        A,
    )) where
        L: Fn(A, u32) -> (A, Result<Option<PersistedState<K, V>>, LoadFailure>),
        P: Fn(A, Duration) -> A,
        H: Fn(A, &OrderedMap<K, Entry<Timestamp, V>>, &K, &Entry<Timestamp, V>) -> A,

        requires
            forall|so_far: A, attempt: u32|
                1 <= attempt <= LOAD_RETRY_ATTEMPTS ==> call_requires(load, (so_far, attempt)),
            forall|so_far: A, delay: Duration| call_requires(pause, (so_far, delay)),
            forall|so_far: A, key: &K, value: &Entry<Timestamp, V>|
                call_requires(*pre_insert, (so_far, &self.engine.store.dated(), key, value)),
        ensures
            exists|attempts: Seq<LoadAttempt<Option<PersistedState<K, V>>, A>>|
                {
                    &&& #[trigger] are_attempts(load, pause, start, attempts)
                    &&& match verdict(attempts.last().outcome) {
                        Ok(loaded) => result.0 matches Ok((map, observed)) && takes_over(
                            self,
                            map,
                            loaded,
                            observed@,
                            *pre_insert,
                            attempts.last().after,
                            result.1,
                        ),
                        Err(error) => result.0 matches Err(failure) && failure == error && result.1
                            == attempts.last().after,
                    }
                },
    {
        let (loaded, so_far): (Result<Option<PersistedState<K, V>>, PersistenceLoadError>, A) =
            load_with_retries(start, load, pause);
        match loaded {
            Ok(loaded) => {
                let (map, observed, end) = self.resume_from(loaded, so_far, pre_insert);
                (Ok((map, observed)), end)
            },
            Err(error) => (Err(error), so_far),
        }
    }

    /// Take over what was loaded, if anything was: carry `pre_insert` over its entries, then restore
    /// it.
    pub fn resume_from<A, H>(self, loaded: Option<PersistedState<K, V>>, start: A, pre_insert: &H) -> (resumed: (
        Self,
        Vec<Timestamp>,
        A,
    )) where H: Fn(A, &OrderedMap<K, Entry<Timestamp, V>>, &K, &Entry<Timestamp, V>) -> A
        requires
            forall|so_far: A, key: &K, value: &Entry<Timestamp, V>|
                call_requires(*pre_insert, (so_far, &self.engine.store.dated(), key, value)),
        ensures
            takes_over(self, resumed.0, loaded, resumed.1@, *pre_insert, start, resumed.2),
    {
        let mut map: Self = self;
        match loaded {
            Some(state) => {
                let end: A = run_pre_insert(
                    pre_insert,
                    map.engine.store.map(),
                    state.entries.as_slice(),
                    start,
                );
                let observed: Vec<Timestamp> = map.engine.restore(state);
                (map, observed, end)
            },
            None => (map, Vec::new(), start),
        }
    }

    /// Whether the periodic task writes a snapshot when it wakes: it is enabled, and enough has
    /// changed.
    pub fn snapshot_due(&self) -> (due: bool)
        ensures
            due == (self.snapshot_interval is Some && self.engine.changes_since_snapshot
                >= self.snapshot_change_threshold),
    {
        self.snapshot_interval.is_some() && self.engine.change_count() >= self.snapshot_change_threshold
    }

    /// Capture what is to be saved, and how many changes that covers.
    pub fn begin_snapshot(&self) -> (begun: (PersistedState<K, V>, usize))
        ensures
            begun.0.captures(&self.engine),
            begun.1 == self.engine.changes_since_snapshot,
    {
        let captured: usize = self.engine.change_count();
        (self.engine.capture(), captured)
    }

    /// Conclude a snapshot that covers `captured` changes.
    pub fn finish_snapshot(&mut self, captured: usize, saved: bool, now: Instant)
        ensures
            concludes(*old(self), *final(self), captured, saved, now),
    {
        if saved {
            self.last_snapshot_at = Some(now);
            self.persistence_consecutive_failures = 0;
            self.engine.changes_since_snapshot = self.engine.changes_since_snapshot.wrapping_sub(
                captured,
            );
            self.engine.metrics.record_persistence_success();
        } else {
            let consecutive: usize = self.persistence_consecutive_failures.wrapping_add(1);
            self.persistence_consecutive_failures = consecutive;
            self.engine.metrics.record_persistence_failure(consecutive);
        }
    }

    /// Save a snapshot now. A failure is told to `on_error`, and handed back to the caller.
    pub fn snapshot_now<S, A, H>(&mut self, save: S, start: A, on_error: H, now: Instant) -> (outcome: (
        Result<(), std::io::Error>,
        A,
    )) where
        S: FnOnce(&PersistedState<K, V>) -> Result<(), std::io::Error>,
        H: FnOnce(A, &std::io::Error) -> A,

        requires
            forall|state: &PersistedState<K, V>|
                state.captures(&old(self).engine) ==> call_requires(save, (state,)),
            forall|error: &std::io::Error| call_requires(on_error, (start, error)),
        ensures
            exists|state: PersistedState<K, V>| #[trigger]
                state.captures(&old(self).engine) && call_ensures(save, (&state,), outcome.0),
            concludes(
                *old(self),
                *final(self),
                old(self).engine.changes_since_snapshot,
                outcome.0 is Ok,
                now,
            ),
            outcome.0 is Ok ==> outcome.1 == start,
            outcome.0 matches Err(error) ==> call_ensures(on_error, (start, &error), outcome.1),
    {
        let (state, captured) = self.begin_snapshot();
        let result: Result<(), std::io::Error> = save(&state);
        assert(state.captures(&old(self).engine));
        self.finish_snapshot(captured, result.is_ok(), now);
        let end: A = report_failure(&result, start, on_error);
        (result, end)
    }
}

// ---------------------------------------------------------------------------------------------
// What saving and loading amount to
// ---------------------------------------------------------------------------------------------

/// A snapshot leaves nothing out and adds nothing: it holds an entry for a key exactly when the map
/// does, with its stamp and its state, in key order, and the same members and acknowledgements.
pub proof fn snapshots_hold_everything<K: Key, V: Value>(
    replica: Replica<K, V>,
    state: PersistedState<K, V>,
    key: K::V,
    entry: Entry<Timestamp, V::V>,
)
    requires
        ordered_map::increasing::<K, Entry<Timestamp, V::V>>(replica.store.sequence()),
        state.captures(&replica),
    ensures
        replica.store@.contains_key(key) && replica.store@[key] == entry <==> exists|i: int|
            0 <= i < state.entries@.len() && (#[trigger] state.entries@[i]).0@ == key && state.entries@[i].1@
                == entry,
        forall|i: int, j: int|
            0 <= i < j < state.entries@.len() ==> K::precedes(
                (#[trigger] state.entries@[i]).0@,
                (#[trigger] state.entries@[j]).0@,
            ),
        state.members@ == replica.members@,
        state.tombstone_acks@ == replica.tombstone_acks@,
{
    let s = replica.store.sequence();
    let saved = ordered_map::pairs(state.entries@);
    assert(saved == s);
    assert(saved.len() == state.entries@.len());
    ordered_map::maps_hold_what_is_listed::<K, Entry<Timestamp, V::V>>(s, key, entry);
    if replica.store@.contains_key(key) && replica.store@[key] == entry {
        let i = choose|i: int| 0 <= i < s.len() && #[trigger] s[i] == (key, entry);
        assert(saved[i] == (state.entries@[i].0@, state.entries@[i].1@));
    }
    if exists|i: int|
        0 <= i < state.entries@.len() && (#[trigger] state.entries@[i]).0@ == key && state.entries@[i].1@ == entry {
        let i = choose|i: int|
            0 <= i < state.entries@.len() && (#[trigger] state.entries@[i]).0@ == key && state.entries@[i].1@
                == entry;
        assert(saved[i] == (key, entry));
        assert(s[i] == (key, entry));
    }
    assert forall|i: int, j: int| 0 <= i < j < state.entries@.len() implies K::precedes(
        (#[trigger] state.entries@[i]).0@,
        (#[trigger] state.entries@[j]).0@,
    ) by {
        assert(saved[i].0 == state.entries@[i].0@ && saved[j].0 == state.entries@[j].0@);
        assert(s[i] == saved[i] && s[j] == saved[j]);
    }
}

/// Chunk after chunk, a snapshot goes on where it stopped: the first one begins with the first
/// entry, one past an entry begins with the entry after it, and each holds 4096 entries, or all that
/// are left.
pub proof fn chunks_go_on_where_they_stopped<K: Key, X>(s: Seq<(K::V, X)>, i: int, j: int)
    requires
        ordered_map::increasing::<K, X>(s),
        0 <= i < s.len(),
        0 <= j,
    ensures
        past::<K, X>(s, None) == s,
        past::<K, X>(s, Some(s[i].0)).len() == s.len() - i - 1,
        i + 1 + j < s.len() ==> past::<K, X>(s, Some(s[i].0))[j] == s[i + 1 + j],
        chunk_of(s).len() == if s.len() <= 4096 {
            s.len()
        } else {
            4096
        },
        j < chunk_of(s).len() ==> chunk_of(s)[j] == s[j],
{
    lemma_past::<K, X>(s, i);
}

/// The first retry waits 100 ms, and each later one twice as long as the one before.
pub proof fn retries_wait_twice_as_long_each_time(attempt: nat)
    requires
        attempt >= 1,
    ensures
        backoff(1) == 100_000_000,
        backoff(attempt + 1) == 2 * backoff(attempt),
{
    power2::lemma2_to64();
    power2::lemma_pow2_unfold(attempt);
    let base = LOAD_RETRY_BASE_DELAY_NANOS as nat;
    let factor = power2::pow2((attempt - 1) as nat);
    assert(base * (2 * factor) == 2 * (base * factor)) by (nonlinear_arith);
}

/// Loading is attempted at most five times, and again only after a transient failure; it is given
/// up before the fifth attempt only because of damaged state; and what it comes to is what the last
/// attempt came to.
pub proof fn loading_is_attempted_up_to_five_times<S, A, L, P>(
    load: L,
    pause: P,
    start: A,
    attempts: Seq<LoadAttempt<S, A>>,
) where L: Fn(A, u32) -> (A, Result<S, LoadFailure>), P: Fn(A, Duration) -> A
    requires
        are_attempts(load, pause, start, attempts),
    ensures
        1 <= attempts.len() <= 5,
        forall|i: int|
            0 <= i < attempts.len() - 1 ==> ((#[trigger] attempts[i]).outcome matches Err(
                LoadFailure::Transient(_),
            )),
        attempts.len() < 5 ==> attempts.last().outcome is Ok || (attempts.last().outcome matches Err(
            LoadFailure::InvalidData(_),
        )),
        verdict(attempts.last().outcome) is Ok <==> attempts.last().outcome is Ok,
        attempts.last().outcome matches Ok(state) ==> verdict(attempts.last().outcome) == Ok::<
            S,
            PersistenceLoadError,
        >(state),
        attempts.last().outcome matches Err(LoadFailure::InvalidData(error)) ==> verdict(attempts.last().outcome)
            == Err::<S, PersistenceLoadError>(PersistenceLoadError::Corrupt(error)),
        attempts.last().outcome matches Err(LoadFailure::Transient(error)) ==> attempts.len() == 5 && verdict(
            attempts.last().outcome,
        ) == Err::<S, PersistenceLoadError>(PersistenceLoadError::RetriesExhausted(error)),
        attempts[0].before == start,
{
}

/// Restoring replaces the membership and the acknowledgements by the saved ones, and leaves every
/// saved key with the entry it was last saved with, stamp included; a key that was not saved keeps
/// what it held; every entry counts as a change.
pub proof fn restoring_writes_every_saved_entry<K: Key, V: Value>(
    before: Replica<K, V>,
    after: Replica<K, V>,
    state: PersistedState<K, V>,
    key: K::V,
)
    requires
        restores(before, after, state),
    ensures
        after.members == state.members,
        after.tombstone_acks == state.tombstone_acks,
        forall|i: int|
            0 <= i < state.entries@.len() && (#[trigger] state.entries@[i]).0@ == key && (forall|j: int|
                i < j < state.entries@.len() ==> (#[trigger] state.entries@[j]).0@ != key)
                ==> after.store@.contains_key(key) && after.store@[key] == state.entries@[i].1@,
        (forall|i: int| 0 <= i < state.entries@.len() ==> (#[trigger] state.entries@[i]).0@ != key) ==> (
        after.store@.contains_key(key) <==> before.store@.contains_key(key)) && (before.store@.contains_key(key)
            ==> after.store@[key] == before.store@[key]),
        before.changes_since_snapshot + state.entries@.len() <= usize::MAX ==> after.changes_since_snapshot
            == before.changes_since_snapshot + state.entries@.len(),
        after.metrics@.len() == before.metrics@.len() + state.entries@.len(),
        after == (Replica {
            store: after.store,
            members: after.members,
            tombstone_acks: after.tombstone_acks,
            metrics: after.metrics,
            changes_since_snapshot: after.changes_since_snapshot,
            ..before
        }),
{
    let entries = ordered_map::pairs(state.entries@);
    assert(entries.len() == state.entries@.len());
    ordered_map::the_last_of_a_batch_stays(before.store@, entries, key);
    assert forall|i: int|
        0 <= i < state.entries@.len() && (#[trigger] state.entries@[i]).0@ == key && (forall|j: int|
            i < j < state.entries@.len() ==> (#[trigger] state.entries@[j]).0@ != key) implies after.store@.contains_key(
        key,
    ) && after.store@[key] == state.entries@[i].1@ by {
        assert(entries[i] == (state.entries@[i].0@, state.entries@[i].1@));
        assert forall|j: int| i < j < entries.len() implies (#[trigger] entries[j]).0 != key by {
            assert(entries[j].0 == state.entries@[j].0@);
        }
    }
    if forall|i: int| 0 <= i < state.entries@.len() ==> (#[trigger] state.entries@[i]).0@ != key {
        assert forall|i: int| 0 <= i < entries.len() implies (#[trigger] entries[i]).0 != key by {
            assert(entries[i].0 == state.entries@[i].0@);
        }
    }
}

/// A snapshot that was saved ends every run of failures, is dated now, and retires what it captured;
/// one that was not counts as one more failure in a row, and leaves the date and the pending changes
/// alone.
pub proof fn only_saved_snapshots_retire_changes<K: Key, V: Value>(
    before: ReplicatedMap<K, V>,
    after: ReplicatedMap<K, V>,
    captured: usize,
    saved: bool,
    now: Instant,
)
    requires
        concludes(before, after, captured, saved, now),
        captured <= before.engine.changes_since_snapshot,
    ensures
        saved ==> {
            &&& after.last_snapshot_at == Some(now)
            &&& after.persistence_consecutive_failures == 0
            &&& after.engine.changes_since_snapshot == before.engine.changes_since_snapshot - captured
        },
        !saved ==> {
            &&& after.last_snapshot_at == before.last_snapshot_at
            &&& before.persistence_consecutive_failures < usize::MAX ==> after.persistence_consecutive_failures
                == before.persistence_consecutive_failures + 1
            &&& after.engine.changes_since_snapshot == before.engine.changes_since_snapshot
            &&& after.engine.metrics@.len() == before.engine.metrics@.len() + 2
            &&& after.engine.metrics@[before.engine.metrics@.len() as int].name
                == metrics::PERSISTENCE_FAILURES_TOTAL
        },
        saved ==> after.engine.metrics@.len() == before.engine.metrics@.len() + 1,
        after == (ReplicatedMap {
            engine: after.engine,
            last_snapshot_at: after.last_snapshot_at,
            persistence_consecutive_failures: after.persistence_consecutive_failures,
            ..before
        }),
        after.engine == (Replica {
            metrics: after.engine.metrics,
            changes_since_snapshot: after.engine.changes_since_snapshot,
            ..before.engine
        }),
        after.engine.metrics@.last().name == metrics::PERSISTENCE_FAILURES_CURRENT,
        after.engine.metrics@.last().change == observability::Change::Assign(
            after.persistence_consecutive_failures,
        ),
{
}

/// Whatever is loaded, every stamp in it is handed to the clock; with nothing loaded, the map stays
/// as it is and nothing is handed on.
pub proof fn every_loaded_stamp_is_observed<K: Key, V: Value, A, H>(
    before: ReplicatedMap<K, V>,
    after: ReplicatedMap<K, V>,
    loaded: Option<PersistedState<K, V>>,
    observed: Seq<Timestamp>,
    pre_insert: H,
    start: A,
    end: A,
) where H: Fn(A, &OrderedMap<K, Entry<Timestamp, V>>, &K, &Entry<Timestamp, V>) -> A
    requires
        takes_over(before, after, loaded, observed, pre_insert, start, end),
    ensures
        loaded is None ==> after == before && observed.len() == 0 && end == start,
        loaded matches Some(state) ==> {
            &&& observed.len() == state.entries@.len()
            &&& forall|i: int|
                0 <= i < state.entries@.len() ==> #[trigger] observed[i] == state.entries@[i].1.stamp
            &&& after == (ReplicatedMap { engine: after.engine, ..before })
            &&& restores(before.engine, after.engine, state)
            &&& crate::replica::write::hooks(pre_insert, before.engine.store.dated(), state.entries@, start, end)
        },
{
    match loaded {
        Some(state) => {
            let entries = ordered_map::pairs(state.entries@);
            dispatch::every_stamp_is_observed(entries);
            assert forall|i: int| 0 <= i < state.entries@.len() implies #[trigger] observed[i]
                == state.entries@[i].1.stamp by {
                assert(entries[i].1 == state.entries@[i].1@);
                assert(dispatch::stamps(entries)[i] == entries[i].1.stamp);
            }
        },
        None => {},
    }
}

/// What a user reads of a failed load ends with the message of the cause, and what comes before it
/// tells damaged state from exhausted retries, whatever the cause.
pub proof fn the_message_ends_with_the_cause(error: PersistenceLoadError, first: Seq<char>, second: Seq<char>)
    ensures
        error.message(first + second) == error.message(first) + second,
{
    assert(error.message(first + second) =~= error.message(first) + second);
}

/// Attempts and pauses alternate: attempt number `i + 1` is told its number and goes on from what
/// the pause before it left, and the pause after attempt number `i` lasts 100 ms doubled `i - 1`
/// times.
pub proof fn attempts_and_pauses_alternate<S, A, L, P>(
    load: L,
    pause: P,
    start: A,
    attempts: Seq<LoadAttempt<S, A>>,
    i: int,
) where L: Fn(A, u32) -> (A, Result<S, LoadFailure>), P: Fn(A, Duration) -> A
    requires
        are_attempts(load, pause, start, attempts),
        0 <= i < attempts.len(),
    ensures
        call_ensures(load, (attempts[i].before, (i + 1) as u32), (attempts[i].after, attempts[i].outcome)),
        i == 0 ==> attempts[i].before == start,
        i == 1 ==> call_ensures(
            pause,
            (attempts[0].after, Duration { nanos: 100_000_000 }),
            attempts[1].before,
        ),
        i == 2 ==> call_ensures(
            pause,
            (attempts[1].after, Duration { nanos: 200_000_000 }),
            attempts[2].before,
        ),
        i == 3 ==> call_ensures(
            pause,
            (attempts[2].after, Duration { nanos: 400_000_000 }),
            attempts[3].before,
        ),
        i == 4 ==> call_ensures(
            pause,
            (attempts[3].after, Duration { nanos: 800_000_000 }),
            attempts[4].before,
        ),
        i <= 4,
{
    retries_wait_twice_as_long_each_time(1);
    retries_wait_twice_as_long_each_time(2);
    retries_wait_twice_as_long_each_time(3);
    if i >= 1 {
        assert(waits(pause, attempts, i));
    }
}

/// Wherever a snapshot stopped, be the key still there or not, it goes on with every entry behind
/// that key, in order, and with no other.
pub proof fn chunks_go_on_behind_any_key<K: Key, X>(s: Seq<(K::V, X)>, key: K::V) -> (places: Seq<int>)
    ensures
        places.len() == past::<K, X>(s, Some(key)).len(),
        forall|i: int|
            0 <= i < places.len() ==> 0 <= #[trigger] places[i] < s.len() && s[places[i]] == past::<K, X>(
                s,
                Some(key),
            )[i] && K::precedes(key, s[places[i]].0),
        forall|i: int, j: int| 0 <= i < j < places.len() ==> #[trigger] places[i] < #[trigger] places[j],
        forall|k: int| 0 <= k < s.len() && K::precedes(key, (#[trigger] s[k]).0) ==> places.contains(k),
{
    ordered_map::ranges_cut_out_their_entries::<K, X>(
        s,
        KeyRange { lower: KeyBound::Excluded(key), upper: KeyBound::Unbounded },
    )
}

} // verus!
