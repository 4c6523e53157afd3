//! On-chain state types of the multi-party-computation subsystem.

use vstd::prelude::*;

verus! {

/// A type-tagged value, as the chain stores one: the tag naming the type and
/// its serialized bytes.
#[derive(Debug)]
pub struct MoveAny {
    pub type_tag: String,
    pub data: Vec<u8>,
}

/// What a multi-party-computation task asks for.
#[derive(Debug)]
pub struct TaskSpec {
    pub variant: MoveAny,
}

/// A task together with its result, once one exists.
#[derive(Debug)]
pub struct TaskState {
    pub task: TaskSpec,
    pub result: Option<Vec<u8>>,
}

/// The transcripts of a shared secret, for the current and the next epoch.
#[derive(Debug)]
pub struct SharedSecretState {
    pub transcript_for_cur_epoch: Option<Vec<u8>>,
    pub transcript_for_next_epoch: Option<Vec<u8>>,
}

/// The on-chain state of the subsystem: its shared secrets and its tasks.
#[derive(Debug)]
pub struct MpcState {
    pub shared_secrets: Vec<SharedSecretState>,
    pub tasks: Vec<TaskState>,
}

impl Default for MpcState {
    /// An empty state: no shared secret and no task.
    fn default() -> (r: Self)
        ensures
            r.shared_secrets@.len() == 0,
            r.tasks@.len() == 0,
    {
        MpcState { shared_secrets: Vec::new(), tasks: Vec::new() }
    }
}

/// An event the chain emits for the subsystem.
#[derive(Clone, Debug)]
pub struct MPCEvent {
    field_1: u64,
}

impl MPCEvent {
    /// The event's payload.
    pub closed spec fn spec_payload(&self) -> u64 {
        self.field_1
    }

    pub fn new(field_1: u64) -> (r: Self)
        ensures
            r.spec_payload() == field_1,
    {
        MPCEvent { field_1 }
    }

    pub fn payload(&self) -> (r: u64)
        ensures
            r == self.spec_payload(),
    {
        self.field_1
    }
}

} // verus!
