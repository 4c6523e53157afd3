//! A single-assignment cell for a state value fetched from a remote shard.
//!
//! The cell starts `Waiting` and moves to `Ready` exactly once, when the
//! resolver supplies the value.  Once `Ready` it never reverts: no operation
//! of this type takes a cell out of `Ready`, and `set_value` demands a cell
//! that is not yet resolved.  Every read of a resolved cell yields the one
//! value that was set.
//!
//! Blocking is layered outside: a caller that must wait parks on a mutex and
//! condition variable around the cell, re-checks [`RemoteStateValue::is_ready`]
//! after every wake, and calls [`RemoteStateValue::get_value`] once the cell
//! is resolved.  `get_value` on a resolved cell returns immediately, however
//! many readers share the cell.

use crate::state_data::opt_value_view;
use crate::state_data::duplicate_opt_value;
use crate::state_data::StateValue;
use vstd::prelude::*;

verus! {

/// The status of a remote state value.
#[derive(Debug)]
pub enum RemoteValueStatus {
    /// The state value is available as a result of cross-shard execution.
    Ready(Option<StateValue>),
    /// We are still waiting for the remote shard to push the state value.
    Waiting,
}

/// The status of a remote state value together with the at-most-once
/// resolution discipline.
#[derive(Debug)]
pub struct RemoteStateValue {
    status: RemoteValueStatus,
}

impl RemoteStateValue {
    /// Whether the value has been resolved.
    pub closed spec fn spec_is_ready(&self) -> bool {
        self.status is Ready
    }

    /// The bytes of the resolved value, or `None` for a resolved absence.
    /// Meaningful only when the cell is ready.
    pub closed spec fn spec_value(&self) -> Option<Seq<u8>> {
        match self.status {
            RemoteValueStatus::Ready(v) => opt_value_view(v),
            RemoteValueStatus::Waiting => None,
        }
    }

    /// A new, unresolved cell.
    pub fn waiting() -> (r: Self)
        ensures
            !r.spec_is_ready(),
    {
        RemoteStateValue { status: RemoteValueStatus::Waiting }
    }

    /// Resolves the cell.  A cell may be resolved at most once: callers must
    /// guarantee the cell is still waiting.  After the call the cell is ready
    /// and holds `value`, which every later read observes.
    pub fn set_value(&mut self, value: Option<StateValue>)
        requires
            !old(self).spec_is_ready(),
        ensures
            final(self).spec_is_ready(),
            final(self).spec_value() == opt_value_view(value),
    {
        self.status = RemoteValueStatus::Ready(value);
    }

    /// Reads the resolved value.  The caller must have waited until the cell
    /// is ready; reading a resolved cell returns at once, and every reader of
    /// the same cell obtains a value with the same bytes.
    pub fn get_value(&self) -> (r: Option<StateValue>)
        requires
            self.spec_is_ready(),
        ensures
            opt_value_view(r) == self.spec_value(),
    {
        match &self.status {
            RemoteValueStatus::Ready(value) => duplicate_opt_value(value),
            RemoteValueStatus::Waiting => {
                proof {
                    assert(false);
                }
                None
            },
        }
    }

    /// Whether the cell has been resolved.  A `true` answer is definitive:
    /// the cell is ready and `get_value` may be called.
    pub fn is_ready(&self) -> (r: bool)
        ensures
            r == self.spec_is_ready(),
    {
        match &self.status {
            RemoteValueStatus::Ready(_) => true,
            RemoteValueStatus::Waiting => false,
        }
    }
}

/// Every reader of a resolved cell observes the same value: reading is a
/// function of the cell alone, so any two reads of the same resolved cell
/// agree, and they return the value the one resolution stored.
pub proof fn lemma_readers_agree(cell: RemoteStateValue, a: Option<Seq<u8>>, b: Option<Seq<u8>>)
    requires
        cell.spec_is_ready(),
        a == cell.spec_value(),
        b == cell.spec_value(),
    ensures
        a == b,
{
}

} // verus!
