//! [`ValueRef`]: the handle a `get` returns.

use vstd::prelude::*;

use crate::bounds::{Key, Value};
use crate::clock::Timestamp;
use crate::entry::{Entry, State};

verus! {

/// Which map a [`ValueRef`] was built over: a dated map, or a timestamp-less projection.
pub enum Snapshot<K, V> {
    /// The key and the dated entry it held.
    Dated(K, Entry<Timestamp, V>),
    /// The key and the undated state it held.
    Projected(K, State<V>),
}

impl<K: Key, V: Value> Snapshot<K, V> {
    /// What the key held.
    pub open spec fn state(&self) -> State<V> {
        match self {
            Snapshot::Dated(_, entry) => entry.state,
            Snapshot::Projected(_, state) => *state,
        }
    }
}

/// A reference to a live value as it stood when the handle was made.
///
/// It owns what it refers to, so it may be held indefinitely, across later writes included, and
/// goes on showing the same value.
pub struct ValueRef<K: Key, V: Value> {
    snapshot: Snapshot<K, V>,
}

impl<K: Key, V: Value> View for ValueRef<K, V> {
    type V = V::V;

    closed spec fn view(&self) -> V::V {
        match self.snapshot.state() {
            State::Present(value) => value@,
            State::Tombstone => arbitrary(),
        }
    }
}

impl<K: Key, V: Value> ValueRef<K, V> {
    /// Only ever built over a live value.
    #[verifier::type_invariant]
    closed spec fn is_live(&self) -> bool {
        self.snapshot.state() is Present
    }

    /// A handle on what `snapshot` holds, unless that is a tombstone.
    pub fn new(snapshot: Snapshot<K, V>) -> (handle: Option<Self>)
        ensures
            match snapshot.state() {
                State::Present(value) => handle matches Some(h) && h@ == value@,
                State::Tombstone => handle is None,
            },
    {
        let live: bool = match &snapshot {
            Snapshot::Dated(_, entry) => !entry.is_tombstone(),
            Snapshot::Projected(_, state) => !state.is_tombstone(),
        };
        if live {
            Some(ValueRef { snapshot })
        } else {
            None
        }
    }
}

impl<K: Key, V: Value> std::ops::Deref for ValueRef<K, V> {
    type Target = V;

    /// The value.
    fn deref(&self) -> (value: &V)
        ensures
            value@ == self@,
    {
        proof {
            use_type_invariant(self);
        }
        match &self.snapshot {
            Snapshot::Dated(_, Entry { stamp: _, state: State::Present(value) }) => value,
            Snapshot::Projected(_, State::Present(value)) => value,
            _ => {
                assert(false);
                vstd::pervasive::unreached()
            },
        }
    }
}

/// A snapshot shows what its key held, dated or not.
pub proof fn snapshots_show_what_was_held<K: Key, V: Value>(key: K, entry: Entry<Timestamp, V>, state: State<V>)
    ensures
        Snapshot::Dated(key, entry).state() == entry.state,
        Snapshot::Projected(key, state).state() == state,
{
}

} // verus!
