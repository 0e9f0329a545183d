//! Search configuration and its validation.
use vstd::prelude::*;

verus! {

/// The hard floor on the minimum run length; anything below is rejected.
pub const MIN_RUN_FLOOR: usize = 3;

/// Above this minimum run length the search is accepted with an advisory
/// warning about expected search time.
pub const MIN_RUN_WARN_ABOVE: usize = 15;

/// A fatal configuration error: no search is attempted.
#[derive(PartialEq, Eq, Structural, Clone, Copy, Debug)]
pub enum ConfigError {
    /// The minimum run length is below the hard floor.
    RunTooShort,
}

/// Parameters of one search session.
pub struct SearchSettings {
    /// Minimum length of the trailing run an address must have.
    pub min_run: usize,
    /// Number of parallel workers in a round.
    pub workers: usize,
    /// Candidates generated per batch inside a worker.
    pub batch_size: usize,
    /// Seconds between progress reports.
    pub stats_interval: u64,
    /// Number of matches to find; zero means unbounded.
    pub target: u64,
}

impl SearchSettings {
    /// The settings a session starts from when nothing is given: run length 8,
    /// batches of 1000, a report every 3 seconds, unbounded. The worker count
    /// has no inherent default; the caller supplies the detected hardware
    /// concurrency.
    pub fn defaults(workers: usize) -> (r: SearchSettings)
        ensures
            r.min_run == 8,
            r.workers == workers,
            r.batch_size == 1000,
            r.stats_interval == 3,
            r.target == 0,
    {
        SearchSettings { min_run: 8, workers, batch_size: 1000, stats_interval: 3, target: 0 }
    }

    /// Validate the minimum run length: below the floor is a fatal error,
    /// above the warning bound is accepted with an advisory (`Ok(true)`),
    /// anything else is accepted silently (`Ok(false)`).
    pub fn validate_min_run(&self) -> (r: Result<bool, ConfigError>)
        ensures
            self.min_run < MIN_RUN_FLOOR ==> r == Err::<bool, ConfigError>(ConfigError::RunTooShort),
            MIN_RUN_FLOOR <= self.min_run <= MIN_RUN_WARN_ABOVE ==> r == Ok::<bool, ConfigError>(
                false,
            ),
            self.min_run > MIN_RUN_WARN_ABOVE ==> r == Ok::<bool, ConfigError>(true),
    {
        if self.min_run < MIN_RUN_FLOOR {
            Err(ConfigError::RunTooShort)
        } else if self.min_run > MIN_RUN_WARN_ABOVE {
            Ok(true)
        } else {
            Ok(false)
        }
    }
}

} // verus!
