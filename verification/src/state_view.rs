//! The swappable slot holding the state snapshot of the executing block.
//!
//! The block-execution driver installs a snapshot before remote requests
//! are accepted for a block and clears it after the block's remote-read
//! phase ends.  Workers only read.  Reading while no snapshot is installed
//! is a sequencing defect on the requester's side and fails fatally; it
//! never yields a default value.

use crate::codec::MAX_LEN;
use crate::state_data::snapshot_value;
use crate::state_data::snapshot_find;
use crate::state_data::StateKey;
use crate::state_data::StateSnapshot;
use crate::state_data::StateValue;
use vstd::prelude::*;

verus! {

/// A fatal error of the remote-read path: the precondition of serving was
/// violated.  These are sequencing defects, not recoverable conditions.
#[derive(Debug, PartialEq, Eq, Structural)]
pub enum FatalError {
    /// A state value was requested while no snapshot was installed.
    StateViewMissing,
    /// A request payload failed to decode.
    MalformedRequest,
}

/// Whether every key and every present value of a snapshot fits the wire
/// format's length cap; installed snapshots must, so that any response
/// built from them can be encoded.
pub open spec fn snapshot_fits(snapshot: StateSnapshot) -> bool {
    forall|i: int| 0 <= i < snapshot.entries@.len() ==> (#[trigger] snapshot.entries@[i].0@.len()
        <= MAX_LEN as nat && (snapshot.entries@[i].1 is Some
        ==> snapshot.entries@[i].1->0@.len() <= MAX_LEN as nat))
}

/// In a snapshot that fits the wire format, every value any key reads fits
/// the cap too.
pub proof fn lemma_snapshot_value_fits(snapshot: StateSnapshot, key: Seq<u8>)
    requires
        snapshot_fits(snapshot),
    ensures
        snapshot_value(snapshot.entries@, key) is Some ==> snapshot_value(
            snapshot.entries@,
            key,
        )->0.len() <= MAX_LEN as nat,
{
    lemma_snapshot_find_fits(snapshot.entries@, key);
}

/// The first matching entry of a search over entries that fit the cap
/// yields a value within the cap.
proof fn lemma_snapshot_find_fits(
    entries: Seq<(StateKey, Option<StateValue>)>,
    key: Seq<u8>,
)
    requires
        forall|i: int| 0 <= i < entries.len() ==> (#[trigger] entries[i].0@.len()
            <= MAX_LEN as nat && (entries[i].1 is Some ==> entries[i].1->0@.len()
            <= MAX_LEN as nat)),
    ensures
        ({
            let found = snapshot_find(entries, key);
            found is Some && found->0 is Some ==> (found->0)->0.len() <= MAX_LEN as nat
        }),
    decreases entries.len(),
{
    if entries.len() > 0 {
        assert(entries[0].0@.len() <= MAX_LEN as nat);
        assert(entries[0].1 is Some ==> entries[0].1->0@.len() <= MAX_LEN as nat);
    }
    if entries.len() > 0 && entries[0].0@ != key {
        assert forall|i: int| 0 <= i < entries.drop_first().len() implies (
        #[trigger] entries.drop_first()[i].0@.len() <= MAX_LEN as nat && (
        entries.drop_first()[i].1 is Some ==> entries.drop_first()[i].1->0@.len()
            <= MAX_LEN as nat)) by {
            assert(entries.drop_first()[i] == entries[i + 1]);
        }
        lemma_snapshot_find_fits(entries.drop_first(), key);
    }
}

/// The slot that holds at most one installed snapshot.
#[derive(Debug)]
pub struct StateViewSlot {
    view: Option<StateSnapshot>,
}

impl StateViewSlot {
    /// The installed snapshot, if any.
    pub closed spec fn spec_view(&self) -> Option<StateSnapshot> {
        self.view
    }

    /// Well-formedness: whatever snapshot is installed fits the wire
    /// format, so any response built from it can be encoded.
    pub open spec fn wf(&self) -> bool {
        self.spec_is_installed() ==> snapshot_fits(self.spec_view()->0)
    }

    /// Whether a snapshot is installed.
    pub open spec fn spec_is_installed(&self) -> bool {
        self.spec_view() is Some
    }

    /// The value the installed snapshot gives for `key`.  Meaningful only
    /// while a snapshot is installed.
    pub open spec fn spec_value_of(&self, key: Seq<u8>) -> Option<Seq<u8>> {
        snapshot_value(self.spec_view()->0.entries@, key)
    }

    /// An empty slot: no snapshot installed.
    pub fn new() -> (r: Self)
        ensures
            r.wf(),
            !r.spec_is_installed(),
    {
        StateViewSlot { view: None }
    }

    /// Installs `snapshot`, replacing whatever the slot held.
    pub fn install(&mut self, snapshot: StateSnapshot)
        requires
            snapshot_fits(snapshot),
        ensures
            final(self).wf(),
            final(self).spec_is_installed(),
            final(self).spec_view() == Some(snapshot),
    {
        self.view = Some(snapshot);
    }

    /// Empties the slot, releasing the snapshot so no stale read can bleed
    /// into the next block.
    pub fn clear(&mut self)
        ensures
            final(self).wf(),
            !final(self).spec_is_installed(),
    {
        self.view = None;
    }

    /// Whether a snapshot is installed.
    pub fn is_installed(&self) -> (r: bool)
        ensures
            r == self.spec_is_installed(),
    {
        match &self.view {
            Some(_) => true,
            None => false,
        }
    }

    /// Reads `key` from the installed snapshot.  Fails fatally — it never
    /// answers with a default — when no snapshot is installed; otherwise it
    /// returns exactly the value the snapshot holds, absent keys reading as
    /// `None`.
    pub fn get_state_value(&self, key: &StateKey) -> (r: Result<Option<StateValue>, FatalError>)
        ensures
            !self.spec_is_installed() ==> r == Err::<Option<StateValue>, FatalError>(
                FatalError::StateViewMissing,
            ),
            self.spec_is_installed() ==> r is Ok && crate::state_data::opt_value_view(r->Ok_0)
                == self.spec_value_of(key@),
    {
        match &self.view {
            None => Err(FatalError::StateViewMissing),
            Some(snapshot) => Ok(snapshot.value_of(key)),
        }
    }
}

/// Snapshot isolation, at the slot's level: once a snapshot is installed,
/// every read is answered from that snapshot alone — the answer to any key
/// is a function of the installed snapshot, unaffected by anything outside
/// the slot — and reads leave the slot untouched.
pub proof fn lemma_snapshot_isolation(a: StateViewSlot, b: StateViewSlot, key: Seq<u8>)
    requires
        a.spec_is_installed(),
        a.spec_view() == b.spec_view(),
    ensures
        a.spec_value_of(key) == b.spec_value_of(key),
{
}

} // verus!
