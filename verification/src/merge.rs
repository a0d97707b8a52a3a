//! Merging remote entries into a dated map, and why replicas that do so converge.

use vstd::prelude::*;

use crate::bounds::Key;
use crate::clock;
use crate::clock::Timestamp;
use crate::entry;
use crate::entry::Entry;
use crate::ordered_map;
use crate::replica::collision;
use crate::store;

verus! {

/// What `m` holds for `key` once `entry` was merged in.
pub open spec fn merged_entry<Q, X>(m: Map<Q, Entry<Timestamp, X>>, key: Q, entry: Entry<Timestamp, X>) -> Entry<
    Timestamp,
    X,
> {
    if m.contains_key(key) {
        entry::lww(m[key], entry)
    } else {
        entry
    }
}

/// `m` once `entry` was merged in.
pub open spec fn merge_one<Q, X>(m: Map<Q, Entry<Timestamp, X>>, key: Q, entry: Entry<Timestamp, X>) -> Map<
    Q,
    Entry<Timestamp, X>,
> {
    m.insert(key, merged_entry(m, key, entry))
}

/// `m` once each update was merged in, in turn.
pub open spec fn merge_all<Q, X>(
    m: Map<Q, Entry<Timestamp, X>>,
    updates: Seq<(Q, Entry<Timestamp, X>)>,
) -> Map<Q, Entry<Timestamp, X>>
    decreases updates.len(),
{
    if updates.len() == 0 {
        m
    } else {
        merge_one(merge_all(m, updates.drop_last()), updates.last().0, updates.last().1)
    }
}

/// Two maps put together, key by key.
pub open spec fn join<Q, X>(a: Map<Q, Entry<Timestamp, X>>, b: Map<Q, Entry<Timestamp, X>>) -> Map<
    Q,
    Entry<Timestamp, X>,
> {
    Map::new(
        |key: Q| a.contains_key(key) || b.contains_key(key),
        |key: Q| if b.contains_key(key) {
            merged_entry(a, key, b[key])
        } else {
            a[key]
        },
    )
}

/// The update can change `m`: its key is new, or its stamp is strictly newer.
pub open spec fn adopts<Q, X>(m: Map<Q, Entry<Timestamp, X>>, key: Q, entry: Entry<Timestamp, X>) -> bool {
    !m.contains_key(key) || clock::newer(entry.stamp, m[key].stamp)
}

/// The updates that can change `m`.
pub open spec fn adopted<Q, X>(
    m: Map<Q, Entry<Timestamp, X>>,
    updates: Seq<(Q, Entry<Timestamp, X>)>,
) -> Seq<(Q, Entry<Timestamp, X>)> {
    updates.filter(|u: (Q, Entry<Timestamp, X>)| adopts(m, u.0, u.1))
}

/// Some update collides with what `m` holds to begin with.
pub open spec fn collides_with_held<Q, X>(
    m: Map<Q, Entry<Timestamp, X>>,
    updates: Seq<(Q, Entry<Timestamp, X>)>,
) -> bool {
    exists|i: int|
        0 <= i < updates.len() && m.contains_key((#[trigger] updates[i]).0) && collision::collides(
            m[updates[i].0],
            updates[i].1,
        )
}

/// Some update collides with what `m` holds by the time it is merged in.
pub open spec fn collides_in_merge<Q, X>(
    m: Map<Q, Entry<Timestamp, X>>,
    updates: Seq<(Q, Entry<Timestamp, X>)>,
) -> bool
    decreases updates.len(),
{
    updates.len() > 0 && {
        let so_far = merge_all(m, updates.drop_last());
        let (key, entry) = updates.last();
        collides_in_merge(m, updates.drop_last()) || (so_far.contains_key(key) && collision::collides(
            so_far[key],
            entry,
        ))
    }
}

/// Some update shows two nodes writing under one id: it collides with what `m` holds to begin with,
/// or by the time it is merged in.
pub open spec fn any_collision<Q, X>(
    m: Map<Q, Entry<Timestamp, X>>,
    updates: Seq<(Q, Entry<Timestamp, X>)>,
) -> bool {
    collides_with_held(m, updates) || collides_in_merge(m, updates)
}

/// Merging never forgets a key and never goes back in time: a key keeps what it holds, or takes
/// something strictly newer.
pub proof fn merging_never_goes_back<Q, X>(
    m: Map<Q, Entry<Timestamp, X>>,
    updates: Seq<(Q, Entry<Timestamp, X>)>,
    key: Q,
)
    requires
        m.contains_key(key),
    ensures
        merge_all(m, updates).contains_key(key),
        !clock::newer(m[key].stamp, merge_all(m, updates)[key].stamp),
        merge_all(m, updates)[key] == m[key] || clock::newer(
            merge_all(m, updates)[key].stamp,
            m[key].stamp,
        ),
    decreases updates.len(),
{
    clock::newer_is_a_total_order(m[key].stamp, m[key].stamp, m[key].stamp);
    if updates.len() > 0 {
        merging_never_goes_back(m, updates.drop_last(), key);
        let so_far = merge_all(m, updates.drop_last());
        let e = updates.last().1;
        clock::newer_is_a_total_order(m[key].stamp, so_far[key].stamp, e.stamp);
        clock::newer_is_a_total_order(e.stamp, so_far[key].stamp, m[key].stamp);
        clock::newer_is_a_total_order(m[key].stamp, e.stamp, so_far[key].stamp);
    }
}

/// Leaving out the updates that could not have changed the map to begin with changes nothing.
pub proof fn screening_loses_nothing<Q, X>(
    m: Map<Q, Entry<Timestamp, X>>,
    updates: Seq<(Q, Entry<Timestamp, X>)>,
)
    ensures
        merge_all(m, adopted(m, updates)) == merge_all(m, updates),
    decreases updates.len(),
{
    reveal(Seq::filter);
    if updates.len() > 0 {
        let rest = updates.drop_last();
        let (key, e) = updates.last();
        screening_loses_nothing(m, rest);
        if adopts(m, key, e) {
            let kept = adopted(m, updates);
            assert(kept == adopted(m, rest).push((key, e)));
            assert(kept.drop_last() =~= adopted(m, rest));
        } else {
            assert(adopted(m, updates) == adopted(m, rest));
            merging_never_goes_back(m, rest, key);
            let so_far = merge_all(m, rest);
            clock::newer_is_a_total_order(e.stamp, so_far[key].stamp, m[key].stamp);
            clock::newer_is_a_total_order(so_far[key].stamp, m[key].stamp, e.stamp);
            clock::newer_is_a_total_order(e.stamp, m[key].stamp, so_far[key].stamp);
            assert(merge_one(so_far, key, e) =~= so_far);
        }
    }
}

/// Screening hides no collision: an update that is left out because it cannot change the map still
/// shows its collision when held against the map as it was.
pub proof fn screening_hides_no_collision<Q, X>(
    m: Map<Q, Entry<Timestamp, X>>,
    updates: Seq<(Q, Entry<Timestamp, X>)>,
)
    ensures
        any_collision(m, updates) == (collides_with_held(m, updates) || collides_in_merge(
            m,
            adopted(m, updates),
        )),
    decreases updates.len(),
{
    reveal(Seq::filter);
    if updates.len() > 0 {
        let rest = updates.drop_last();
        let (key, e) = updates.last();
        screening_hides_no_collision(m, rest);
        screening_loses_nothing(m, rest);
        if collides_with_held(m, rest) {
            let i = choose|i: int|
                0 <= i < rest.len() && m.contains_key((#[trigger] rest[i]).0) && collision::collides(
                    m[rest[i].0],
                    rest[i].1,
                );
            assert(updates[i] == rest[i]);
        }
        if adopts(m, key, e) {
            let kept = adopted(m, updates);
            assert(kept == adopted(m, rest).push((key, e)));
            assert(kept.drop_last() =~= adopted(m, rest));
        } else {
            assert(adopted(m, updates) == adopted(m, rest));
            merging_never_goes_back(m, rest, key);
            let so_far = merge_all(m, rest);
            if collision::collides(so_far[key], e) {
                assert(updates[updates.len() - 1] == (key, e));
                assert(collides_with_held(m, updates));
            }
        }
    }
}

/// Redelivering what the map already holds, or anything with an equal or older stamp, is a no-op.
pub proof fn redelivery_is_a_no_op<Q, X>(m: Map<Q, Entry<Timestamp, X>>, key: Q, entry: Entry<Timestamp, X>)
    requires
        m.contains_key(key),
        !clock::newer(entry.stamp, m[key].stamp),
    ensures
        merge_one(m, key, entry) == m,
{
    assert(merge_one(m, key, entry) =~= m);
}

/// Echoes of what the map holds change nothing, and none of them is taken for a collision.
pub proof fn echoes_never_collide<Q, X>(
    m: Map<Q, Entry<Timestamp, X>>,
    updates: Seq<(Q, Entry<Timestamp, X>)>,
)
    requires
        forall|i: int|
            0 <= i < updates.len() ==> m.contains_key((#[trigger] updates[i]).0) && m[updates[i].0]
                == updates[i].1,
    ensures
        merge_all(m, updates) == m,
        !any_collision(m, updates),
    decreases updates.len(),
{
    if updates.len() > 0 {
        let rest = updates.drop_last();
        let (key, entry) = updates.last();
        assert forall|i: int| 0 <= i < rest.len() implies m.contains_key((#[trigger] rest[i]).0)
            && m[rest[i].0] == rest[i].1 by {
            assert(rest[i] == updates[i]);
        }
        echoes_never_collide(m, rest);
        assert(updates[updates.len() - 1] == (key, entry));
        clock::newer_is_a_total_order(entry.stamp, entry.stamp, entry.stamp);
        redelivery_is_a_no_op(m, key, entry);
    }
}

// ---------------------------------------------------------------------------------------------
// Convergence
// ---------------------------------------------------------------------------------------------

/// No two entries for one key share a timestamp and differ in content: every node writes under an
/// identity of its own.
pub open spec fn collision_free<Q, X>(a: Map<Q, Entry<Timestamp, X>>, b: Map<Q, Entry<Timestamp, X>>) -> bool {
    forall|key: Q|
        a.contains_key(key) && #[trigger] b.contains_key(key) ==> !collision::collides(a[key], b[key])
}

/// Joining two maps gives the same result from either side.
pub proof fn join_commutes<Q, X>(a: Map<Q, Entry<Timestamp, X>>, b: Map<Q, Entry<Timestamp, X>>)
    requires
        collision_free(a, b),
    ensures
        join(a, b) == join(b, a),
{
    assert forall|key: Q| join(a, b).contains_key(key) implies #[trigger] join(a, b)[key] == join(b, a)[key] by {
        if a.contains_key(key) && b.contains_key(key) {
            clock::newer_is_a_total_order(a[key].stamp, b[key].stamp, a[key].stamp);
            assert(!collision::collides(a[key], b[key]));
        }
    }
    assert(join(a, b) =~= join(b, a));
}

/// Joining three maps gives the same result in either grouping.
pub proof fn join_is_associative<Q, X>(
    a: Map<Q, Entry<Timestamp, X>>,
    b: Map<Q, Entry<Timestamp, X>>,
    c: Map<Q, Entry<Timestamp, X>>,
)
    ensures
        join(join(a, b), c) == join(a, join(b, c)),
{
    let left = join(join(a, b), c);
    let right = join(a, join(b, c));
    assert forall|key: Q| left.contains_key(key) implies #[trigger] left[key] == right[key] by {
        if a.contains_key(key) && b.contains_key(key) && c.contains_key(key) {
            clock::newer_is_a_total_order(a[key].stamp, b[key].stamp, c[key].stamp);
            clock::newer_is_a_total_order(c[key].stamp, b[key].stamp, a[key].stamp);
            clock::newer_is_a_total_order(b[key].stamp, a[key].stamp, c[key].stamp);
            clock::newer_is_a_total_order(b[key].stamp, c[key].stamp, a[key].stamp);
            clock::newer_is_a_total_order(c[key].stamp, a[key].stamp, b[key].stamp);
            clock::newer_is_a_total_order(a[key].stamp, c[key].stamp, b[key].stamp);
        }
    }
    assert(left =~= right);
}

/// Joining a map with itself, or with what was joined in before, changes nothing.
pub proof fn join_is_idempotent<Q, X>(a: Map<Q, Entry<Timestamp, X>>, b: Map<Q, Entry<Timestamp, X>>)
    ensures
        join(a, a) == a,
        join(join(a, b), b) == join(a, b),
{
    assert(join(a, a) =~= a);
    assert forall|key: Q| join(a, b).contains_key(key) implies #[trigger] join(join(a, b), b)[key] == join(
        a,
        b,
    )[key] by {
        if a.contains_key(key) && b.contains_key(key) {
            clock::newer_is_a_total_order(b[key].stamp, b[key].stamp, a[key].stamp);
        } else if b.contains_key(key) {
            clock::newer_is_a_total_order(b[key].stamp, b[key].stamp, b[key].stamp);
        }
    }
    assert(join(join(a, b), b) =~= join(a, b));
}

/// Merging in everything another replica holds joins the two maps.
pub proof fn merging_a_replica_joins<K: Key, X>(
    m: Map<K::V, Entry<Timestamp, X>>,
    other: Seq<(K::V, Entry<Timestamp, X>)>,
)
    requires
        ordered_map::increasing::<K, Entry<Timestamp, X>>(other),
    ensures
        merge_all(m, other) == join(m, ordered_map::entry_map(other)),
    decreases other.len(),
{
    if other.len() == 0 {
        ordered_map::lemma_entry_map_empty(other);
        assert(join(m, ordered_map::entry_map(other)) =~= m);
    } else {
        let i = other.len() - 1;
        ordered_map::lemma_entry_map_take::<K, Entry<Timestamp, X>>(other, i);
        assert(other.take(i) =~= other.drop_last());
        assert(other.take(i + 1) =~= other);
        merging_a_replica_joins::<K, X>(m, other.drop_last());
        let rest = ordered_map::entry_map(other.drop_last());
        let (key, e) = other.last();
        assert(merge_one(join(m, rest), key, e) =~= join(m, rest.insert(key, e)));
    }
}

/// Two replicas that merge in everything the other holds end up with the same map.
pub proof fn replicas_converge<K: Key, X>(
    a: Seq<(K::V, Entry<Timestamp, X>)>,
    b: Seq<(K::V, Entry<Timestamp, X>)>,
)
    requires
        ordered_map::increasing::<K, Entry<Timestamp, X>>(a),
        ordered_map::increasing::<K, Entry<Timestamp, X>>(b),
        collision_free(ordered_map::entry_map(a), ordered_map::entry_map(b)),
    ensures
        merge_all(ordered_map::entry_map(a), b) == merge_all(ordered_map::entry_map(b), a),
{
    merging_a_replica_joins::<K, X>(ordered_map::entry_map(a), b);
    merging_a_replica_joins::<K, X>(ordered_map::entry_map(b), a);
    join_commutes(ordered_map::entry_map(a), ordered_map::entry_map(b));
}

/// `entry` is what `m` and `updates` together say about `key`: one of the candidates, and none is
/// strictly newer.
pub open spec fn is_newest<Q, X>(
    m: Map<Q, Entry<Timestamp, X>>,
    updates: Seq<(Q, Entry<Timestamp, X>)>,
    key: Q,
    entry: Entry<Timestamp, X>,
) -> bool {
    &&& (m.contains_key(key) && entry == m[key]) || updates.contains((key, entry))
    &&& m.contains_key(key) ==> !clock::newer(m[key].stamp, entry.stamp)
    &&& forall|other: Entry<Timestamp, X>| #[trigger]
        updates.contains((key, other)) ==> !clock::newer(other.stamp, entry.stamp)
}

/// After merging, every key holds the newest of everything said about it.
pub proof fn the_newest_write_wins<Q, X>(
    m: Map<Q, Entry<Timestamp, X>>,
    updates: Seq<(Q, Entry<Timestamp, X>)>,
    key: Q,
)
    ensures
        merge_all(m, updates).contains_key(key) <==> m.contains_key(key) || exists|e: Entry<Timestamp, X>| #[trigger]
            updates.contains((key, e)),
        merge_all(m, updates).contains_key(key) ==> is_newest(
            m,
            updates,
            key,
            merge_all(m, updates)[key],
        ),
    decreases updates.len(),
{
    if updates.len() > 0 {
        let rest = updates.drop_last();
        let (last_key, last) = updates.last();
        the_newest_write_wins(m, rest, key);
        let so_far = merge_all(m, rest);
        let now = merge_all(m, updates);
        assert forall|e: Entry<Timestamp, X>| updates.contains((key, e)) <==> rest.contains((key, e)) || (key
            == last_key && e == last) by {
            if updates.contains((key, e)) {
                let i = choose|i: int| 0 <= i < updates.len() && updates[i] == (key, e);
                if i < rest.len() {
                    assert(rest[i] == (key, e));
                }
            }
            if rest.contains((key, e)) {
                let i = choose|i: int| 0 <= i < rest.len() && rest[i] == (key, e);
                assert(updates[i] == (key, e));
            }
            if key == last_key && e == last {
                assert(updates[updates.len() - 1] == (key, e));
            }
        }
        if key == last_key {
            assert(updates.contains((key, last)));
            if so_far.contains_key(key) {
                let kept = so_far[key];
                let won = now[key];
                assert forall|other: Entry<Timestamp, X>| #[trigger] updates.contains((key, other)) implies !clock::newer(
                    other.stamp,
                    won.stamp,
                ) by {
                    clock::newer_is_a_total_order(other.stamp, last.stamp, kept.stamp);
                    clock::newer_is_a_total_order(other.stamp, won.stamp, kept.stamp);
                    clock::newer_is_a_total_order(last.stamp, kept.stamp, other.stamp);
                }
                if m.contains_key(key) {
                    clock::newer_is_a_total_order(m[key].stamp, last.stamp, kept.stamp);
                    clock::newer_is_a_total_order(m[key].stamp, won.stamp, kept.stamp);
                }
            } else {
                assert forall|other: Entry<Timestamp, X>| #[trigger] updates.contains((key, other)) implies !clock::newer(
                    other.stamp,
                    now[key].stamp,
                ) by {
                    assert(!rest.contains((key, other)));
                    clock::newer_is_a_total_order(other.stamp, other.stamp, other.stamp);
                }
            }
        }
    } else {
        if m.contains_key(key) {
            clock::newer_is_a_total_order(m[key].stamp, m[key].stamp, m[key].stamp);
        }
        if exists|e: Entry<Timestamp, X>| #[trigger] updates.contains((key, e)) {
            let e = choose|e: Entry<Timestamp, X>| #[trigger] updates.contains((key, e));
            let i = choose|i: int| 0 <= i < updates.len() && updates[i] == (key, e);
        }
    }
}

/// Updates that were all merged in before are screened out, every one, and change nothing: a batch
/// may be delivered any number of times.
pub proof fn a_redelivered_batch_changes_nothing<Q, X>(
    m: Map<Q, Entry<Timestamp, X>>,
    updates: Seq<(Q, Entry<Timestamp, X>)>,
    again: Seq<(Q, Entry<Timestamp, X>)>,
)
    requires
        forall|i: int| 0 <= i < again.len() ==> updates.contains(#[trigger] again[i]),
    ensures
        adopted(merge_all(m, updates), again).len() == 0,
        merge_all(merge_all(m, updates), again) == merge_all(m, updates),
    decreases again.len(),
{
    reveal(Seq::filter);
    let merged = merge_all(m, updates);
    if again.len() > 0 {
        let rest = again.drop_last();
        let (key, entry) = again.last();
        assert forall|i: int| 0 <= i < rest.len() implies updates.contains(#[trigger] rest[i]) by {
            assert(rest[i] == again[i]);
        }
        a_redelivered_batch_changes_nothing(m, updates, rest);
        assert(updates.contains(again[again.len() - 1]));
        the_newest_write_wins(m, updates, key);
        redelivery_is_a_no_op(merged, key, entry);
    }
}

/// Everything said about `key`, by `m` or by `updates`, is collision-free.
pub open spec fn consistent<Q, X>(m: Map<Q, Entry<Timestamp, X>>, updates: Seq<(Q, Entry<Timestamp, X>)>) -> bool {
    &&& forall|key: Q, e: Entry<Timestamp, X>| #[trigger]
        updates.contains((key, e)) && m.contains_key(key) ==> !collision::collides(m[key], e)
    &&& forall|key: Q, e: Entry<Timestamp, X>, f: Entry<Timestamp, X>|
        #![trigger updates.contains((key, e)), updates.contains((key, f))]
        updates.contains((key, e)) && updates.contains((key, f)) ==> !collision::collides(e, f)
}

/// Updates may arrive in any order and any number of times: the same writes give the same map.
pub proof fn delivery_order_is_irrelevant<Q, X>(
    m: Map<Q, Entry<Timestamp, X>>,
    a: Seq<(Q, Entry<Timestamp, X>)>,
    b: Seq<(Q, Entry<Timestamp, X>)>,
)
    requires
        forall|key: Q, e: Entry<Timestamp, X>| #[trigger] a.contains((key, e)) <==> b.contains((key, e)),
        consistent(m, a),
    ensures
        merge_all(m, a) == merge_all(m, b),
{
    let ma = merge_all(m, a);
    let mb = merge_all(m, b);
    assert forall|key: Q| ma.contains_key(key) <==> mb.contains_key(key) by {
        the_newest_write_wins(m, a, key);
        the_newest_write_wins(m, b, key);
        if ma.contains_key(key) && !m.contains_key(key) {
            let e = choose|e: Entry<Timestamp, X>| #[trigger] a.contains((key, e));
            assert(b.contains((key, e)));
        }
        if mb.contains_key(key) && !m.contains_key(key) {
            let e = choose|e: Entry<Timestamp, X>| #[trigger] b.contains((key, e));
            assert(a.contains((key, e)));
        }
    }
    assert forall|key: Q| ma.contains_key(key) implies #[trigger] ma[key] == mb[key] by {
        the_newest_write_wins(m, a, key);
        the_newest_write_wins(m, b, key);
        let x = ma[key];
        let y = mb[key];
        if b.contains((key, y)) {
            assert(a.contains((key, y)));
        }
        if a.contains((key, x)) {
            assert(b.contains((key, x)));
        }
        assert(!clock::newer(x.stamp, y.stamp));
        assert(!clock::newer(y.stamp, x.stamp));
        clock::newer_is_a_total_order(x.stamp, y.stamp, x.stamp);
        assert(!collision::collides(x, y));
    }
    assert(ma =~= mb);
}

/// Merging one batch after another is merging them as one.
pub proof fn batches_may_be_split<Q, X>(
    m: Map<Q, Entry<Timestamp, X>>,
    a: Seq<(Q, Entry<Timestamp, X>)>,
    b: Seq<(Q, Entry<Timestamp, X>)>,
)
    ensures
        merge_all(merge_all(m, a), b) == merge_all(m, a + b),
    decreases b.len(),
{
    if b.len() == 0 {
        assert(a + b =~= a);
    } else {
        batches_may_be_split(m, a, b.drop_last());
        assert((a + b).drop_last() =~= a + b.drop_last());
    }
}

/// However the same writes are ordered, split into batches and repeated, the map ends up the same:
/// `a` and then `b` give what `c` gives, where `c` says what `a` and `b` say together.
pub proof fn batches_may_be_reordered_split_and_repeated<Q, X>(
    m: Map<Q, Entry<Timestamp, X>>,
    a: Seq<(Q, Entry<Timestamp, X>)>,
    b: Seq<(Q, Entry<Timestamp, X>)>,
    c: Seq<(Q, Entry<Timestamp, X>)>,
)
    requires
        forall|key: Q, e: Entry<Timestamp, X>| #[trigger]
            c.contains((key, e)) <==> a.contains((key, e)) || b.contains((key, e)),
        consistent(m, c),
    ensures
        merge_all(merge_all(m, a), b) == merge_all(m, c),
{
    batches_may_be_split(m, a, b);
    let whole = a + b;
    assert forall|key: Q, e: Entry<Timestamp, X>| #[trigger] c.contains((key, e)) <==> whole.contains(
        (key, e),
    ) by {
        if a.contains((key, e)) {
            let i = choose|i: int| 0 <= i < a.len() && a[i] == (key, e);
            assert(whole[i] == (key, e));
        }
        if b.contains((key, e)) {
            let i = choose|i: int| 0 <= i < b.len() && b[i] == (key, e);
            assert(whole[a.len() + i] == (key, e));
        }
        if whole.contains((key, e)) {
            let i = choose|i: int| 0 <= i < whole.len() && whole[i] == (key, e);
            if i < a.len() {
                assert(a[i] == (key, e));
            } else {
                assert(b[i - a.len()] == (key, e));
            }
        }
    }
    delivery_order_is_irrelevant(m, c, whole);
}

/// Everything said about `key`, by `m` or by `updates`, carries a stamp of its own.
pub open spec fn stamped_apart<Q, X>(
    m: Map<Q, Entry<Timestamp, X>>,
    updates: Seq<(Q, Entry<Timestamp, X>)>,
    key: Q,
) -> bool {
    &&& forall|e: Entry<Timestamp, X>| #[trigger]
        updates.contains((key, e)) && m.contains_key(key) ==> e == m[key] || e.stamp != m[key].stamp
    &&& forall|e: Entry<Timestamp, X>, f: Entry<Timestamp, X>|
        #![trigger updates.contains((key, e)), updates.contains((key, f))]
        updates.contains((key, e)) && updates.contains((key, f)) ==> e == f || e.stamp != f.stamp
}

/// Where every candidate carries a stamp of its own, a key ends up with the one whose stamp is
/// greatest: everything else said about it is strictly older. A key no update speaks of keeps what
/// it held, and the projection follows.
pub proof fn the_greatest_stamp_wins<Q, X>(
    m: Map<Q, Entry<Timestamp, X>>,
    updates: Seq<(Q, Entry<Timestamp, X>)>,
    key: Q,
)
    requires
        stamped_apart(m, updates, key),
        merge_all(m, updates).contains_key(key),
    ensures
        ({
            let won = merge_all(m, updates)[key];
            &&& (m.contains_key(key) && won == m[key]) || updates.contains((key, won))
            &&& m.contains_key(key) ==> m[key] == won || clock::newer(won.stamp, m[key].stamp)
            &&& forall|e: Entry<Timestamp, X>| #[trigger]
                updates.contains((key, e)) ==> e == won || clock::newer(won.stamp, e.stamp)
            &&& (forall|e: Entry<Timestamp, X>| !#[trigger] updates.contains((key, e)))
                ==> m.contains_key(key) && won == m[key]
            &&& store::projected(merge_all(m, updates)).contains_key(key)
            &&& store::projected(merge_all(m, updates))[key] == won.state
        }),
{
    the_newest_write_wins(m, updates, key);
    let won = merge_all(m, updates)[key];
    if m.contains_key(key) {
        clock::newer_is_a_total_order(won.stamp, m[key].stamp, won.stamp);
    }
    assert forall|e: Entry<Timestamp, X>| #[trigger] updates.contains((key, e)) implies e == won || clock::newer(
        won.stamp,
        e.stamp,
    ) by {
        clock::newer_is_a_total_order(won.stamp, e.stamp, won.stamp);
        if m.contains_key(key) && won == m[key] {
        } else {
            assert(updates.contains((key, won)));
        }
    }
}

/// Of everything said about a key, the write with the greatest wall-clock reading is what the key
/// ends up with, whoever wrote it and whatever came before or after it.
pub proof fn the_latest_reading_wins<Q, X>(
    m: Map<Q, Entry<Timestamp, X>>,
    updates: Seq<(Q, Entry<Timestamp, X>)>,
    i: int,
)
    requires
        0 <= i < updates.len(),
        m.contains_key(updates[i].0) ==> m[updates[i].0].stamp.hlc.physical.millis
            < updates[i].1.stamp.hlc.physical.millis,
        forall|j: int|
            0 <= j < updates.len() && j != i && (#[trigger] updates[j]).0 == updates[i].0
                ==> updates[j].1.stamp.hlc.physical.millis < updates[i].1.stamp.hlc.physical.millis,
    ensures
        merge_all(m, updates).contains_key(updates[i].0),
        merge_all(m, updates)[updates[i].0] == updates[i].1,
{
    let (key, latest) = updates[i];
    the_newest_write_wins(m, updates, key);
    assert(updates.contains((key, latest)));
    let won = merge_all(m, updates)[key];
    clock::later_writes_are_newer(latest.stamp, won.stamp);
    if updates.contains((key, won)) {
        let j = choose|j: int| 0 <= j < updates.len() && updates[j] == (key, won);
        assert(updates[j].0 == key);
    }
}

/// A key that no update names keeps what it held, and none appears from nowhere.
pub proof fn unnamed_keys_are_left_alone<Q, X>(
    m: Map<Q, Entry<Timestamp, X>>,
    updates: Seq<(Q, Entry<Timestamp, X>)>,
    key: Q,
)
    requires
        forall|i: int| 0 <= i < updates.len() ==> (#[trigger] updates[i]).0 != key,
    ensures
        merge_all(m, updates).contains_key(key) <==> m.contains_key(key),
        m.contains_key(key) ==> merge_all(m, updates)[key] == m[key],
    decreases updates.len(),
{
    if updates.len() > 0 {
        let rest = updates.drop_last();
        assert(updates[updates.len() - 1].0 != key);
        assert forall|i: int| 0 <= i < rest.len() implies (#[trigger] rest[i]).0 != key by {
            assert(rest[i] == updates[i]);
        }
        unnamed_keys_are_left_alone(m, rest, key);
    }
}

/// The updates that are applied are those whose key is new or whose stamp is strictly newer than the
/// one held, each at its place, in order, and no others.
pub proof fn only_news_is_applied<Q, X>(
    m: Map<Q, Entry<Timestamp, X>>,
    updates: Seq<(Q, Entry<Timestamp, X>)>,
) -> (places: Seq<int>)
    ensures
        places.len() == adopted(m, updates).len(),
        forall|i: int|
            0 <= i < places.len() ==> 0 <= #[trigger] places[i] < updates.len() && updates[places[i]]
                == adopted(m, updates)[i],
        forall|i: int, j: int| 0 <= i < j < places.len() ==> #[trigger] places[i] < #[trigger] places[j],
        forall|k: int|
            0 <= k < updates.len() ==> (places.contains(k) <==> !m.contains_key((#[trigger] updates[k]).0)
                || clock::newer(updates[k].1.stamp, m[updates[k].0].stamp)),
{
    let keep = |u: (Q, Entry<Timestamp, X>)| adopts(m, u.0, u.1);
    let places = ordered_map::filtering_picks_places(updates, keep);
    assert forall|k: int| 0 <= k < updates.len() implies (places.contains(k) <==> !m.contains_key(
        (#[trigger] updates[k]).0,
    ) || clock::newer(updates[k].1.stamp, m[updates[k].0].stamp)) by {
        if places.contains(k) {
            let i = choose|i: int| 0 <= i < places.len() && places[i] == k;
            assert(keep(updates[places[i]]));
        }
        if !m.contains_key(updates[k].0) || clock::newer(updates[k].1.stamp, m[updates[k].0].stamp) {
            assert(keep(updates[k]));
        }
    }
    places
}

/// A collision is reported where there is evidence of one, and only there: an update that shares its
/// stamp with what the map holds and differs from it is reported; and whatever is reported goes back
/// to two entries for one key, in the map or in the batch, that share a stamp and differ.
pub proof fn collisions_rest_on_evidence<Q, X>(
    m: Map<Q, Entry<Timestamp, X>>,
    updates: Seq<(Q, Entry<Timestamp, X>)>,
)
    ensures
        forall|i: int|
            0 <= i < updates.len() && m.contains_key((#[trigger] updates[i]).0) && m[updates[i].0].stamp
                == updates[i].1.stamp && m[updates[i].0].state != updates[i].1.state ==> any_collision(
                m,
                updates,
            ),
        any_collision(m, updates) ==> exists|key: Q, e: Entry<Timestamp, X>, f: Entry<Timestamp, X>|
            #![trigger updates.contains((key, e)), collision::collides(e, f)]
            updates.contains((key, e)) && ((m.contains_key(key) && m[key] == f) || updates.contains((key, f)))
                && collision::collides(e, f),
    decreases updates.len(),
{
    if collides_with_held(m, updates) {
        let i = choose|i: int|
            0 <= i < updates.len() && m.contains_key((#[trigger] updates[i]).0) && collision::collides(
                m[updates[i].0],
                updates[i].1,
            );
        let (key, e) = updates[i];
        let f = m[key];
        assert(updates.contains((key, e)));
        collision::collisions_are_symmetric(e, f);
        assert(collision::collides(e, f));
    } else if collides_in_merge(m, updates) {
        let rest = updates.drop_last();
        let so_far = merge_all(m, rest);
        let (key, e) = updates.last();
        assert(updates[updates.len() - 1] == (key, e));
        assert(updates.contains((key, e)));
        if so_far.contains_key(key) && collision::collides(so_far[key], e) {
            the_newest_write_wins(m, rest, key);
            let f = so_far[key];
            collision::collisions_are_symmetric(e, f);
            if rest.contains((key, f)) {
                let j = choose|j: int| 0 <= j < rest.len() && rest[j] == (key, f);
                assert(updates[j] == (key, f));
                assert(updates.contains((key, f)));
            }
            assert(collision::collides(e, f));
        } else {
            collisions_rest_on_evidence(m, rest);
            let (k, x, y) = choose|k: Q, x: Entry<Timestamp, X>, y: Entry<Timestamp, X>|
                #![trigger rest.contains((k, x)), collision::collides(x, y)]
                rest.contains((k, x)) && ((m.contains_key(k) && m[k] == y) || rest.contains((k, y)))
                    && collision::collides(x, y);
            let i = choose|i: int| 0 <= i < rest.len() && rest[i] == (k, x);
            assert(updates[i] == (k, x));
            assert(updates.contains((k, x)));
            if rest.contains((k, y)) {
                let j = choose|j: int| 0 <= j < rest.len() && rest[j] == (k, y);
                assert(updates[j] == (k, y));
                assert(updates.contains((k, y)));
            }
            assert(collision::collides(x, y));
        }
    }
}

/// Once a key holds an entry with the greatest stamp there is for it, it goes on holding that entry.
proof fn lemma_the_first_of_the_greatest_stays<Q, X>(
    m: Map<Q, Entry<Timestamp, X>>,
    updates: Seq<(Q, Entry<Timestamp, X>)>,
    key: Q,
    from: int,
)
    requires
        0 <= from <= updates.len(),
        merge_all(m, updates.take(from)).contains_key(key),
        forall|i: int|
            0 <= i < updates.len() && (#[trigger] updates[i]).0 == key ==> !clock::newer(
                updates[i].1.stamp,
                merge_all(m, updates.take(from))[key].stamp,
            ),
    ensures
        merge_all(m, updates).contains_key(key),
        merge_all(m, updates)[key] == merge_all(m, updates.take(from))[key],
    decreases updates.len() - from,
{
    if from == updates.len() {
        assert(updates.take(from) =~= updates);
    } else {
        let longer = updates.take(from + 1);
        assert(longer.drop_last() =~= updates.take(from));
        assert(longer.last() == updates[from]);
        assert(merge_all(m, longer)[key] == merge_all(m, updates.take(from))[key]);
        lemma_the_first_of_the_greatest_stays(m, updates, key, from + 1);
    }
}

/// A collision met on the way is still one at the end.
proof fn lemma_collisions_stay<Q, X>(m: Map<Q, Entry<Timestamp, X>>, updates: Seq<(Q, Entry<Timestamp, X>)>, from: int)
    requires
        0 <= from <= updates.len(),
        collides_in_merge(m, updates.take(from)),
    ensures
        collides_in_merge(m, updates),
    decreases updates.len() - from,
{
    if from == updates.len() {
        assert(updates.take(from) =~= updates);
    } else {
        let longer = updates.take(from + 1);
        assert(longer.drop_last() =~= updates.take(from));
        lemma_collisions_stay(m, updates, from + 1);
    }
}

/// Two updates of one batch that claim the same key and stamp with different content are reported,
/// where no write for that key is newer.
pub proof fn collisions_within_a_batch_are_reported<Q, X>(
    m: Map<Q, Entry<Timestamp, X>>,
    updates: Seq<(Q, Entry<Timestamp, X>)>,
    i: int,
    j: int,
)
    requires
        0 <= i < j < updates.len(),
        updates[i].0 == updates[j].0,
        updates[i].1.stamp == updates[j].1.stamp,
        updates[i].1.state != updates[j].1.state,
        m.contains_key(updates[i].0) ==> !clock::newer(m[updates[i].0].stamp, updates[i].1.stamp),
        forall|k: int|
            0 <= k < updates.len() && (#[trigger] updates[k]).0 == updates[i].0 ==> !clock::newer(
                updates[k].1.stamp,
                updates[i].1.stamp,
            ),
    ensures
        any_collision(m, updates),
{
    let (key, e) = updates[i];
    let f = updates[j].1;
    let to_i = updates.take(i);
    let past_i = updates.take(i + 1);
    let to_j = updates.take(j);
    let past_j = updates.take(j + 1);
    assert(past_i.drop_last() =~= to_i && past_i.last() == updates[i]);
    assert(past_j.drop_last() =~= to_j && past_j.last() == updates[j]);
    assert(past_i[i] == (key, e));
    assert(past_i.contains((key, e)));
    the_newest_write_wins(m, past_i, key);
    let w = merge_all(m, past_i)[key];
    if past_i.contains((key, w)) {
        let k = choose|k: int| 0 <= k < past_i.len() && past_i[k] == (key, w);
        assert(updates[k] == (key, w));
    }
    clock::newer_is_a_total_order(w.stamp, e.stamp, w.stamp);
    assert(w.stamp == e.stamp);
    assert(to_j.take(i + 1) =~= past_i);
    assert forall|k: int| 0 <= k < to_j.len() && (#[trigger] to_j[k]).0 == key implies !clock::newer(
        to_j[k].1.stamp,
        w.stamp,
    ) by {
        assert(updates[k] == to_j[k]);
    }
    lemma_the_first_of_the_greatest_stays(m, to_j, key, i + 1);
    assert(merge_all(m, to_j)[key] == w);
    if w.state != f.state {
        assert(collides_in_merge(m, past_j));
        lemma_collisions_stay(m, updates, j + 1);
    } else {
        assert(w != e);
        assert(merge_all(m, to_i).contains_key(key));
        assert(merge_all(m, to_i)[key] == w);
        assert(collides_in_merge(m, past_i));
        lemma_collisions_stay(m, updates, i + 1);
    }
}

} // verus!
