//! Message envelopes and payload types of the cross-shard key/value protocol.
//!
//! A [`Message`] is the transport envelope: opaque payload bytes plus the
//! metadata the service reads (per-shard sequence number, shard identifier,
//! and a send timestamp used for latency instrumentation only).
//!
//! A [`RemoteKVRequest`] names the shard that asks and the keys it asks for;
//! a [`RemoteKVResponse`] carries the (key, optional value) pairs read from
//! the snapshot, in request order.

use crate::state_data::opt_value_view;
use crate::state_data::StateKey;
use crate::state_data::StateValue;
use vstd::prelude::*;

verus! {

/// A transport envelope: payload bytes plus routing metadata.
#[derive(Debug, PartialEq, Eq)]
pub struct Message {
    pub data: Vec<u8>,
    pub seq_num: Option<u64>,
    pub shard_id: Option<u64>,
    pub start_ms_since_epoch: Option<u64>,
}

impl Message {
    /// An envelope carrying `data` with full metadata.
    pub fn create_with_metadata(
        data: Vec<u8>,
        start_ms_since_epoch: u64,
        seq_num: u64,
        shard_id: u64,
    ) -> (r: Message)
        ensures
            r.data@ == data@,
            r.seq_num == Some(seq_num),
            r.shard_id == Some(shard_id),
            r.start_ms_since_epoch == Some(start_ms_since_epoch),
    {
        Message {
            data,
            seq_num: Some(seq_num),
            shard_id: Some(shard_id),
            start_ms_since_epoch: Some(start_ms_since_epoch),
        }
    }
}

/// A batched request: the asking shard and the keys it needs.
#[derive(Debug)]
pub struct RemoteKVRequest {
    pub shard_id: u64,
    pub keys: Vec<StateKey>,
}

/// The views of a sequence of keys: each key as its bytes.
pub open spec fn keys_view(keys: Seq<StateKey>) -> Seq<Seq<u8>> {
    keys.map_values(|k: StateKey| k@)
}

impl RemoteKVRequest {
    pub open spec fn spec_keys(&self) -> Seq<Seq<u8>> {
        keys_view(self.keys@)
    }

    pub fn new(shard_id: u64, keys: Vec<StateKey>) -> (r: Self)
        ensures
            r.shard_id == shard_id,
            r.keys@ == keys@,
    {
        RemoteKVRequest { shard_id, keys }
    }

    /// The shard identifier and the requested keys.
    pub fn into_parts(self) -> (r: (u64, Vec<StateKey>))
        ensures
            r.0 == self.shard_id,
            r.1@ == self.keys@,
    {
        (self.shard_id, self.keys)
    }
}

/// A batched response: one (key, optional value) pair per requested key,
/// in request order.
#[derive(Debug)]
pub struct RemoteKVResponse {
    pub pairs: Vec<(StateKey, Option<StateValue>)>,
}

/// The views of a sequence of response pairs: key bytes and optional value
/// bytes.
pub open spec fn pairs_view(
    pairs: Seq<(StateKey, Option<StateValue>)>,
) -> Seq<(Seq<u8>, Option<Seq<u8>>)> {
    pairs.map_values(|p: (StateKey, Option<StateValue>)| (p.0@, opt_value_view(p.1)))
}

impl RemoteKVResponse {
    pub open spec fn spec_pairs(&self) -> Seq<(Seq<u8>, Option<Seq<u8>>)> {
        pairs_view(self.pairs@)
    }

    pub fn new(pairs: Vec<(StateKey, Option<StateValue>)>) -> (r: Self)
        ensures
            r.pairs@ == pairs@,
    {
        RemoteKVResponse { pairs }
    }
}

/// A queue entry as the in-memory priority structure held it: an envelope
/// and the priority it was filed under.  Entries order by priority alone.
#[derive(Debug)]
pub struct State {
    pub msg: Message,
    pub priority: i64,
}

impl PartialEq for State {
    fn eq(&self, other: &Self) -> (r: bool) {
        self.priority == other.priority
    }
}

impl vstd::std_specs::cmp::PartialEqSpecImpl for State {
    open spec fn obeys_eq_spec() -> bool {
        true
    }

    open spec fn eq_spec(&self, other: &Self) -> bool {
        self.priority == other.priority
    }
}

impl PartialOrd for State {
    fn partial_cmp(&self, other: &Self) -> (r: Option<core::cmp::Ordering>) {
        if self.priority < other.priority {
            Some(core::cmp::Ordering::Less)
        } else if self.priority == other.priority {
            Some(core::cmp::Ordering::Equal)
        } else {
            Some(core::cmp::Ordering::Greater)
        }
    }
}

impl vstd::std_specs::cmp::PartialOrdSpecImpl for State {
    open spec fn obeys_partial_cmp_spec() -> bool {
        true
    }

    open spec fn partial_cmp_spec(&self, other: &Self) -> Option<core::cmp::Ordering> {
        if self.priority < other.priority {
            Some(core::cmp::Ordering::Less)
        } else if self.priority == other.priority {
            Some(core::cmp::Ordering::Equal)
        } else {
            Some(core::cmp::Ordering::Greater)
        }
    }
}

} // verus!
