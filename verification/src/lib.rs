//! Cross-shard state synchronization for a horizontally sharded block executor.
//!
//! An executing shard may need account state that another shard owns.  This
//! crate provides the pieces that let shards exchange such state values:
//! a single-assignment value cell that a reader blocks on until a remote
//! shard supplies the value, a bucketed priority queue that serves earlier
//! requests first, a swappable snapshot slot holding the world state of the
//! block under execution, and the request-handling service that resolves
//! batched key requests against that snapshot and builds the responses.

pub mod codec;
pub mod ledger_store;
pub mod message;
pub mod mpc;
pub mod mpc_config;
pub mod mpc_manager;
pub mod pipeline;
pub mod queue;
pub mod remote_state_value;
pub mod remote_state_view_service;
pub mod state_data;
pub mod state_view;

pub use state_data::StateKey;
pub use state_data::StateValue;
