//! The per-epoch manager of the multi-party-computation subsystem.
//!
//! The manager reacts to two kinds of input: an on-chain event, which makes
//! it submit a state-update validator transaction (holding a guard on the
//! pool slot until the transaction is committed or the epoch ends), and a
//! close command, which stops it.  The surrounding event loop — the channels
//! the inputs arrive on, and the pool the transaction goes to — lives
//! outside the library; the manager decides, and hands the action back.

use crate::mpc::MPCEvent;
use vstd::prelude::*;

verus! {

/// Why the manager rejected an input.
#[derive(Debug, PartialEq, Eq, Structural)]
pub enum MpcManagerError {
    /// An event arrived while the previous state update was still pending:
    /// the manager holds at most one transaction-pool guard at a time.
    GuardAlreadyHeld,
}

/// What the caller must do after the manager processed an event.
#[derive(Debug, PartialEq, Eq, Structural)]
pub enum MpcAction {
    /// Put a state-update validator transaction into the pool and hold its
    /// guard for the manager.
    SubmitStateUpdate,
}

/// The manager's state over one epoch.
pub struct MPCManager {
    my_index: usize,
    my_addr: Vec<u8>,
    epoch: u64,
    stopped: bool,
    vtxn_guard_held: bool,
}

impl MPCManager {
    /// Whether the manager has been told to stop.
    pub closed spec fn spec_stopped(&self) -> bool {
        self.stopped
    }

    /// Whether a state-update transaction is pending in the pool.
    pub closed spec fn spec_guard_held(&self) -> bool {
        self.vtxn_guard_held
    }

    pub closed spec fn spec_epoch(&self) -> u64 {
        self.epoch
    }

    pub closed spec fn spec_my_index(&self) -> usize {
        self.my_index
    }

    /// The bytes of this validator's account address.
    pub closed spec fn spec_my_addr(&self) -> Seq<u8> {
        self.my_addr@
    }

    /// A manager for validator `my_index` at address `my_addr`, in `epoch`.
    /// It starts running, with no transaction pending.
    pub fn new(my_index: usize, my_addr: Vec<u8>, epoch: u64) -> (r: Self)
        ensures
            !r.spec_stopped(),
            !r.spec_guard_held(),
            r.spec_epoch() == epoch,
            r.spec_my_index() == my_index,
            r.spec_my_addr() == my_addr@,
    {
        MPCManager { my_index, my_addr, epoch, stopped: false, vtxn_guard_held: false }
    }

    /// Whether the manager's event loop should keep running.
    pub fn is_running(&self) -> (r: bool)
        ensures
            r == !self.spec_stopped(),
    {
        !self.stopped
    }

    /// Processes an on-chain event.  At most one state update may be in
    /// flight: while a guard is held, further events are rejected and the
    /// manager is unchanged; otherwise the manager takes the guard and asks
    /// the caller to submit the state-update transaction.
    pub fn process_mpc_event(&mut self, event: MPCEvent) -> (r: Result<MpcAction, MpcManagerError>)
        ensures
            old(self).spec_guard_held() ==> r == Err::<MpcAction, MpcManagerError>(
                MpcManagerError::GuardAlreadyHeld,
            ) && *final(self) == *old(self),
            !old(self).spec_guard_held() ==> r == Ok::<MpcAction, MpcManagerError>(
                MpcAction::SubmitStateUpdate,
            ) && final(self).spec_guard_held(),
            final(self).spec_stopped() == old(self).spec_stopped(),
            final(self).spec_epoch() == old(self).spec_epoch(),
            final(self).spec_my_index() == old(self).spec_my_index(),
            final(self).spec_my_addr() == old(self).spec_my_addr(),
    {
        let _ = event;
        if self.vtxn_guard_held {
            return Err(MpcManagerError::GuardAlreadyHeld);
        }
        self.vtxn_guard_held = true;
        Ok(MpcAction::SubmitStateUpdate)
    }

    /// Processes a close command: the manager stops, and acknowledges
    /// exactly when the commander asked for an acknowledgement.
    pub fn process_close_cmd(&mut self, ack_requested: bool) -> (send_ack: bool)
        ensures
            final(self).spec_stopped(),
            send_ack == ack_requested,
            final(self).spec_guard_held() == old(self).spec_guard_held(),
            final(self).spec_epoch() == old(self).spec_epoch(),
            final(self).spec_my_index() == old(self).spec_my_index(),
            final(self).spec_my_addr() == old(self).spec_my_addr(),
    {
        self.stopped = true;
        ack_requested
    }
}

} // verus!
