//! What a key holds: a value or a deletion mark, dated in a full replica and undated elsewhere.

use vstd::prelude::*;

use crate::bounds::{Duplicate, Value};
use crate::clock;
use crate::clock::Timestamp;

verus! {

/// A live value, or the mark a deletion leaves behind.
#[derive(Debug)]
pub enum State<V> {
    /// The key holds this value.
    Present(V),
    /// The key was deleted.
    Tombstone,
}

impl<V: View> View for State<V> {
    type V = State<V::V>;

    open spec fn view(&self) -> State<V::V> {
        match self {
            State::Present(value) => State::Present(value@),
            State::Tombstone => State::Tombstone,
        }
    }
}

/// The live value of a state, if it has one.
pub open spec fn live_value<X>(state: State<X>) -> Option<X> {
    match state {
        State::Present(value) => Some(value),
        State::Tombstone => None,
    }
}

impl<V> State<V> {
    /// Whether this is a deletion mark.
    pub fn is_tombstone(&self) -> (deleted: bool)
        ensures
            deleted == (self is Tombstone),
    {
        match self {
            State::Present(_) => false,
            State::Tombstone => true,
        }
    }

    /// The live value, or `None` for a deletion mark.
    pub fn as_value(&self) -> (value: Option<&V>)
        ensures
            value matches Some(v) ==> *self == State::Present(*v),
            value is None ==> self is Tombstone,
    {
        match self {
            State::Present(value) => Some(value),
            State::Tombstone => None,
        }
    }

    /// The live value, or `None` for a deletion mark.
    pub fn into_value(self) -> (value: Option<V>)
        ensures
            value == live_value(self),
    {
        match self {
            State::Present(value) => Some(value),
            State::Tombstone => None,
        }
    }
}

impl<V: Value> Duplicate for State<V> {
    fn duplicate(&self) -> (copy: Self) {
        match self {
            State::Present(value) => State::Present(value.duplicate()),
            State::Tombstone => State::Tombstone,
        }
    }
}

impl<V: Value> State<V> {
    /// Whether two states hold the same content.
    pub fn same_content(&self, other: &Self) -> (same: bool)
        ensures
            same == (self@ == other@),
    {
        match (self, other) {
            (State::Present(a), State::Present(b)) => a.same_content(b),
            (State::Tombstone, State::Tombstone) => true,
            _ => false,
        }
    }
}

/// A state together with the time it was written.
#[derive(Debug)]
pub struct Entry<S, V> {
    /// When it was written.
    pub stamp: S,
    /// What was written.
    pub state: State<V>,
}

impl<S: View, V: View> View for Entry<S, V> {
    type V = Entry<S::V, V::V>;

    open spec fn view(&self) -> Entry<S::V, V::V> {
        Entry { stamp: self.stamp@, state: self.state@ }
    }
}

impl<S, V> Entry<S, V> {
    /// A live value.
    pub fn present(stamp: S, value: V) -> (entry: Self)
        ensures
            entry == (Entry { stamp, state: State::Present(value) }),
    {
        Entry { stamp, state: State::Present(value) }
    }

    /// A deletion mark.
    pub fn tombstone(stamp: S) -> (entry: Self)
        ensures
            entry == (Entry { stamp, state: State::<V>::Tombstone }),
    {
        Entry { stamp, state: State::Tombstone }
    }

    /// Whether this is a deletion mark.
    pub fn is_tombstone(&self) -> (deleted: bool)
        ensures
            deleted == (self.state is Tombstone),
    {
        self.state.is_tombstone()
    }

    /// The live value, or `None` for a deletion mark.
    pub fn value(&self) -> (value: Option<&V>)
        ensures
            value matches Some(v) ==> self.state == State::Present(*v),
            value is None ==> self.state is Tombstone,
    {
        self.state.as_value()
    }
}

/// Last write wins: the strictly newer entry, and the one already held on a tie.
pub open spec fn lww<X>(held: Entry<Timestamp, X>, other: Entry<Timestamp, X>) -> Entry<
    Timestamp,
    X,
> {
    if clock::newer(other.stamp, held.stamp) {
        other
    } else {
        held
    }
}

impl<V: Value> Entry<Timestamp, V> {
    /// The timestamp-less projection of this entry.
    pub fn project(&self) -> (state: State<V>)
        ensures
            state@ == self@.state,
    {
        self.state.duplicate()
    }

    /// Merge with another entry for the same key.
    pub fn merge(&self, other: &Self) -> (merged: Self)
        ensures
            merged@ == lww(self@, other@),
    {
        if other.stamp.is_newer_than(&self.stamp) {
            other.duplicate()
        } else {
            self.duplicate()
        }
    }
}

impl<V: Value> Duplicate for Entry<Timestamp, V> {
    fn duplicate(&self) -> (copy: Self) {
        Entry { stamp: self.stamp, state: self.state.duplicate() }
    }
}

/// Of two entries for one key the later write survives, and an exact tie leaves the one held: what
/// counts is the wall clock, then the logical counter, then the node id.
pub proof fn the_later_entry_survives<X>(held: Entry<Timestamp, X>, other: Entry<Timestamp, X>)
    ensures
        other.stamp.hlc.physical.millis > held.stamp.hlc.physical.millis ==> lww(held, other) == other,
        other.stamp.hlc.physical.millis < held.stamp.hlc.physical.millis ==> lww(held, other) == held,
        other.stamp.hlc.physical == held.stamp.hlc.physical && other.stamp.hlc.logical.count
            > held.stamp.hlc.logical.count ==> lww(held, other) == other,
        other.stamp.hlc.physical == held.stamp.hlc.physical && other.stamp.hlc.logical.count
            < held.stamp.hlc.logical.count ==> lww(held, other) == held,
        other.stamp.hlc == held.stamp.hlc && other.stamp.node.id > held.stamp.node.id ==> lww(
            held,
            other,
        ) == other,
        other.stamp.hlc == held.stamp.hlc && other.stamp.node.id <= held.stamp.node.id ==> lww(
            held,
            other,
        ) == held,
{
    clock::later_writes_are_newer(other.stamp, held.stamp);
    clock::later_writes_are_newer(held.stamp, other.stamp);
}

/// A state has a live value exactly when it is no deletion mark, and then its own.
pub proof fn only_deletions_lack_a_value<X>(value: X)
    ensures
        live_value(State::Present(value)) == Some(value),
        live_value(State::<X>::Tombstone) == None::<X>,
{
}

/// What an entry stands for has its stamp and its kind.
pub proof fn entries_stand_for_their_kind<S: View, V: View>(entry: Entry<S, V>, value: V)
    ensures
        entry@.stamp == entry.stamp@,
        entry.state is Tombstone <==> entry@.state is Tombstone,
        entry.state == State::Present(value) ==> entry@.state == State::Present(value@),
{
}

} // verus!
