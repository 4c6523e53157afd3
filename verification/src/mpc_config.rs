//! Configuration of the multi-party-computation subsystem.

use vstd::prelude::*;

verus! {

/// The subsystem's node configuration.
#[derive(Clone, Debug, PartialEq, Eq, Structural)]
pub struct MPCConfig {
    pub max_network_channel_size: usize,
}

impl Default for MPCConfig {
    /// The stock configuration: network channels buffer up to 256 messages.
    fn default() -> (r: Self)
        ensures
            r.max_network_channel_size == 256,
    {
        MPCConfig { max_network_channel_size: 256 }
    }
}

} // verus!
