//! Sizing and accounting rules of the block-execution benchmark pipeline.
//!
//! The pipeline itself — four stages wired by bounded channels, each on its
//! own thread — lives outside the library.  What is decidable about it is
//! here: how large each stage's channel must be for a given configuration,
//! and how executed transactions are accounted into stages.

use vstd::prelude::*;

verus! {

/// How the benchmark pipeline is run.
#[derive(Clone, Debug, PartialEq, Eq, Structural)]
pub struct PipelineConfig {
    pub delay_execution_start: bool,
    pub split_stages: bool,
    pub skip_commit: bool,
    pub allow_aborts: bool,
    pub allow_discards: bool,
    pub allow_retries: bool,
    pub num_executor_shards: usize,
    pub use_global_executor: bool,
    pub num_generator_workers: usize,
}

impl Default for PipelineConfig {
    /// The stock configuration: no stage stalling, no shard, four generator
    /// workers.
    fn default() -> (r: Self)
        ensures
            !r.delay_execution_start,
            !r.split_stages,
            !r.skip_commit,
            !r.allow_aborts,
            !r.allow_discards,
            !r.allow_retries,
            r.num_executor_shards == 0,
            !r.use_global_executor,
            r.num_generator_workers == 4,
    {
        PipelineConfig {
            delay_execution_start: false,
            split_stages: false,
            skip_commit: false,
            allow_aborts: false,
            allow_discards: false,
            allow_retries: false,
            num_executor_shards: 0,
            use_global_executor: false,
            num_generator_workers: 4,
        }
    }
}

/// The capacity of an inter-stage channel whose consumer may start
/// stalled: until the consumer is released every block must fit in the
/// channel, so it must hold all `num_blocks` (plus one, and never less
/// than `floor`); a channel with a free-running consumer holds 200.
pub open spec fn spec_stage_channel_bound(
    stalled: bool,
    num_blocks: Option<usize>,
    floor: usize,
) -> usize {
    if stalled {
        if num_blocks->0 + 1 >= floor {
            (num_blocks->0 + 1) as usize
        } else {
            floor
        }
    } else {
        200
    }
}

fn stage_channel_bound(stalled: bool, num_blocks: Option<usize>, floor: usize) -> (b: usize)
    requires
        stalled ==> num_blocks is Some && num_blocks->0 < usize::MAX,
    ensures
        b == spec_stage_channel_bound(stalled, num_blocks, floor),
{
    if stalled {
        let n = match num_blocks {
            Some(n) => n,
            None => 0,
        };
        if n + 1 >= floor {
            n + 1
        } else {
            floor
        }
    } else {
        200
    }
}

/// The capacity of the raw-block channel feeding the partitioning stage.
/// When execution start is delayed, every block must be buffered before any
/// is consumed, so the block count must be given.
pub fn raw_block_channel_bound(config: &PipelineConfig, num_blocks: Option<usize>) -> (b: usize)
    requires
        config.delay_execution_start ==> num_blocks is Some && num_blocks->0 < usize::MAX,
    ensures
        b == spec_stage_channel_bound(config.delay_execution_start, num_blocks, 50),
{
    stage_channel_bound(config.delay_execution_start, num_blocks, 50)
}

/// The capacity of the channel feeding the ledger-update stage.  When the
/// stages are split or the commit is skipped, its consumer starts
/// stalled, so the block count must be given.
pub fn ledger_update_channel_bound(config: &PipelineConfig, num_blocks: Option<usize>) -> (b:
    usize)
    requires
        config.split_stages || config.skip_commit ==> num_blocks is Some && num_blocks->0
            < usize::MAX,
    ensures
        b == spec_stage_channel_bound(
            config.split_stages || config.skip_commit,
            num_blocks,
            3,
        ),
{
    stage_channel_bound(config.split_stages || config.skip_commit, num_blocks, 3)
}

/// The capacity of the channel feeding the commit stage; stalled exactly
/// as the ledger-update channel is.
pub fn commit_channel_bound(config: &PipelineConfig, num_blocks: Option<usize>) -> (b: usize)
    requires
        config.split_stages || config.skip_commit ==> num_blocks is Some && num_blocks->0
            < usize::MAX,
    ensures
        b == spec_stage_channel_bound(
            config.split_stages || config.skip_commit,
            num_blocks,
            3,
        ),
{
    stage_channel_bound(config.split_stages || config.skip_commit, num_blocks, 3)
}

/// The capacity of the channel carrying partitioned blocks to execution.
pub fn executable_block_channel_bound() -> (b: usize)
    ensures
        b == 200,
{
    200
}

/// The execution stage's accounting: transactions executed overall and in
/// the current stage.  An empty block marks the end of a stage.
#[derive(Debug, PartialEq, Eq, Structural)]
pub struct ExecutionStageAccounting {
    pub executed: u64,
    pub stage_index: u64,
    pub stage_executed: u64,
}

impl ExecutionStageAccounting {
    /// Fresh accounting: nothing executed, first stage open.
    pub fn start() -> (r: Self)
        ensures
            r.executed == 0,
            r.stage_index == 0,
            r.stage_executed == 0,
    {
        ExecutionStageAccounting { executed: 0, stage_index: 0, stage_executed: 0 }
    }

    /// Whether the stage stats should be reported before moving on: only a
    /// stage that executed anything is reported.
    pub fn stage_has_output(&self) -> (r: bool)
        ensures
            r == (self.stage_executed > 0),
    {
        self.stage_executed > 0
    }

    /// Records one executed block.  A non-empty block counts into the
    /// running totals; an empty block closes the current stage and opens
    /// the next.
    pub fn record_block(&mut self, block_size: u64)
        requires
            old(self).executed + block_size <= u64::MAX,
            old(self).stage_executed + block_size <= u64::MAX,
            old(self).stage_index < u64::MAX,
        ensures
            final(self).executed == old(self).executed + block_size,
            block_size > 0 ==> final(self).stage_index == old(self).stage_index
                && final(self).stage_executed == old(self).stage_executed + block_size,
            block_size == 0 ==> final(self).stage_index == old(self).stage_index + 1
                && final(self).stage_executed == 0,
    {
        self.executed = self.executed + block_size;
        self.stage_executed = self.stage_executed + block_size;
        if block_size == 0 {
            self.stage_index = self.stage_index + 1;
            self.stage_executed = 0;
        }
    }
}

} // verus!
