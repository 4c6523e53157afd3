//! Plain representations of state keys, state values and state snapshots.
//!
//! A snapshot is the immutable view of world state as of the start of the
//! remote-read phase of a block.  It stores, per key, either an explicit
//! value or an explicit absence; keys it does not mention are simply absent.

use vstd::prelude::*;

verus! {

/// The key of one state item, as raw bytes.
#[derive(Debug, PartialEq, Eq)]
pub struct StateKey {
    pub bytes: Vec<u8>,
}

impl View for StateKey {
    type V = Seq<u8>;

    open spec fn view(&self) -> Seq<u8> {
        self.bytes@
    }
}

impl StateKey {
    pub fn new(bytes: Vec<u8>) -> (r: Self)
        ensures
            r@ == bytes@,
    {
        StateKey { bytes }
    }

    /// A copy of this key holding equal bytes.
    pub fn duplicate(&self) -> (r: Self)
        ensures
            r@ == self@,
    {
        let bytes = self.bytes.clone();
        proof {
            assert(bytes@ =~= self.bytes@);
        }
        StateKey { bytes }
    }
}

/// The value of one state item, as raw bytes.
#[derive(Debug, PartialEq, Eq)]
pub struct StateValue {
    pub bytes: Vec<u8>,
}

impl View for StateValue {
    type V = Seq<u8>;

    open spec fn view(&self) -> Seq<u8> {
        self.bytes@
    }
}

impl StateValue {
    pub fn new(bytes: Vec<u8>) -> (r: Self)
        ensures
            r@ == bytes@,
    {
        StateValue { bytes }
    }

    /// A copy of this value holding equal bytes.
    pub fn duplicate(&self) -> (r: Self)
        ensures
            r@ == self@,
    {
        let bytes = self.bytes.clone();
        proof {
            assert(bytes@ =~= self.bytes@);
        }
        StateValue { bytes }
    }
}

/// The view of an optional state value: its bytes, or `None` for absence.
pub open spec fn opt_value_view(v: Option<StateValue>) -> Option<Seq<u8>> {
    match v {
        Some(sv) => Some(sv@),
        None => None,
    }
}

/// A copy of an optional state value holding equal bytes.
pub fn duplicate_opt_value(v: &Option<StateValue>) -> (r: Option<StateValue>)
    ensures
        opt_value_view(r) == match v {
            Some(sv) => Some(sv@),
            None => None::<Seq<u8>>,
        },
{
    match v {
        Some(sv) => Some(sv.duplicate()),
        None => None,
    }
}

/// An immutable snapshot of world state: a list of (key, optional value)
/// entries.  A lookup returns the first entry with a matching key.
#[derive(Debug)]
pub struct StateSnapshot {
    pub entries: Vec<(StateKey, Option<StateValue>)>,
}

/// The first entry of `entries` whose key equals `key`, if any.
pub open spec fn snapshot_find(
    entries: Seq<(StateKey, Option<StateValue>)>,
    key: Seq<u8>,
) -> Option<Option<Seq<u8>>>
    decreases entries.len(),
{
    if entries.len() == 0 {
        None
    } else if entries[0].0@ == key {
        Some(opt_value_view(entries[0].1))
    } else {
        snapshot_find(entries.drop_first(), key)
    }
}

/// The value a snapshot gives for `key`: an entry's value when one matches,
/// absence otherwise.  A key the snapshot does not mention is simply absent.
pub open spec fn snapshot_value(
    entries: Seq<(StateKey, Option<StateValue>)>,
    key: Seq<u8>,
) -> Option<Seq<u8>> {
    match snapshot_find(entries, key) {
        Some(v) => v,
        None => None,
    }
}

impl StateSnapshot {
    pub open spec fn spec_value_of(&self, key: Seq<u8>) -> Option<Seq<u8>> {
        snapshot_value(self.entries@, key)
    }

    /// An empty snapshot: every key is absent.
    pub fn empty() -> (r: Self)
        ensures
            r.entries@.len() == 0,
    {
        StateSnapshot { entries: Vec::new() }
    }

    pub fn insert(&mut self, key: StateKey, value: Option<StateValue>)
        ensures
            final(self).entries@ == old(self).entries@.push((key, value)),
    {
        self.entries.push((key, value));
    }

    /// Reads the value the snapshot holds for `key`.
    pub fn value_of(&self, key: &StateKey) -> (r: Option<StateValue>)
        ensures
            opt_value_view(r) == self.spec_value_of(key@),
    {
        let n = self.entries.len();
        let mut i: usize = 0;
        proof {
            assert(self.entries@.subrange(0, n as int) =~= self.entries@);
        }
        while i < n
            invariant
                i <= n,
                n == self.entries@.len(),
                snapshot_find(self.entries@, key@) == snapshot_find(
                    self.entries@.subrange(i as int, n as int),
                    key@,
                ),
            decreases n - i,
        {
            proof {
                lemma_snapshot_find_step(self.entries@, key@, i as int);
            }
            if bytes_equal(&self.entries[i].0.bytes, &key.bytes) {
                let found = duplicate_opt_value(&self.entries[i].1);
                return found;
            }
            i = i + 1;
        }
        proof {
            assert(self.entries@.subrange(n as int, n as int).len() == 0);
        }
        None
    }
}

/// Skipping a non-matching entry keeps the result of a snapshot search.
proof fn lemma_snapshot_find_step(
    entries: Seq<(StateKey, Option<StateValue>)>,
    key: Seq<u8>,
    i: int,
)
    requires
        0 <= i < entries.len(),
    ensures
        entries.subrange(i, entries.len() as int).drop_first() =~= entries.subrange(
            i + 1,
            entries.len() as int,
        ),
        entries[i].0@ == key ==> snapshot_find(entries.subrange(i, entries.len() as int), key)
            == Some(opt_value_view(entries[i].1)),
        entries[i].0@ != key ==> snapshot_find(entries.subrange(i, entries.len() as int), key)
            == snapshot_find(entries.subrange(i + 1, entries.len() as int), key),
{
    let tail = entries.subrange(i, entries.len() as int);
    assert(tail[0] == entries[i]);
}

/// Whether two byte vectors hold equal bytes.
pub fn bytes_equal(a: &Vec<u8>, b: &Vec<u8>) -> (r: bool)
    ensures
        r == (a@ == b@),
{
    if a.len() != b.len() {
        return false;
    }
    let n = a.len();
    let mut i: usize = 0;
    while i < n
        invariant
            i <= n,
            n == a@.len(),
            a@.len() == b@.len(),
            forall|j: int| 0 <= j < i ==> a@[j] == b@[j],
        decreases n - i,
    {
        if a[i] != b[i] {
            return false;
        }
        i = i + 1;
    }
    proof {
        assert(a@ =~= b@);
    }
    true
}

} // verus!
