//! Configuration of a test run.

use vstd::prelude::*;

verus! {

/// Configuration object for a test run
#[derive(Debug, Clone, Copy)]
pub struct Config {
    /// Minimum number of commands in the generated command sequence
    /// (default: 1)
    pub min_sequence_size: usize,
    /// Maximum number of commands in the generated command sequence
    /// (default: 100)
    pub max_sequence_size: usize,
    /// Once the minimal command sequence has been found, also attempt
    /// to simplify the individual commands (default: false)
    pub shrink_commands: bool,
    /// Number of command sequences that must pass for the plan to pass
    /// (default: 256)
    pub cases: u32,
    /// Upper bound on the number of candidates tried while a failing
    /// sequence is minimised (default: unbounded in practice)
    pub max_shrink_iters: u32,
    /// Seed of the random source; with `None` every run draws a fresh one
    /// (default: `None`)
    pub seed: Option<[u8; 32]>,
}

impl Default for Config {
    fn default() -> (config: Config)
        ensures
            config.min_sequence_size == 1,
            config.max_sequence_size == 100,
            !config.shrink_commands,
            config.cases == 256,
            config.max_shrink_iters == u32::MAX,
            config.seed is None,
    {
        Config {
            min_sequence_size: 1,
            max_sequence_size: 100,
            shrink_commands: false,
            cases: 256,
            max_shrink_iters: u32::MAX,
            seed: None,
        }
    }
}

} // verus!
