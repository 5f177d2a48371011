//! The contract battery for [`crate::KeyValueStore`] implementations.
//!
//! [`run_kv_contract`] starts a run. The run names one action after the other;
//! whoever drives it carries them out on the store under test, each case on a
//! fresh and isolated one, and hands back what came of them. [`drive::perform`]
//! does that for a store that answers at once. The run ends with the first reply
//! that breaks the contract, or passes.
//!
//! A store that keeps the contract passes, as [`conformance`] proves. [`soundness`]
//! proves what a store has answered that passes, and [`rules`] what is said of one that
//! does not.
//!
//! Backends whose TTLs are coarser than milliseconds run the same battery with a
//! slower [`KvContractTiming`].

use vstd::prelude::*;

use crate::time::{Duration, MAX_DURATION_NANOS, NANOS_PER_MILLI, NANOS_PER_SEC};

pub mod cases;
pub mod conformance;
pub mod drive;
pub mod rules;
pub mod run;
pub mod script;
pub mod soundness;

pub use run::{run_kv_contract, run_kv_contract_with, KvContractRun};

verus! {

/// Timing of the TTL cases, so that a backend with a coarse TTL granularity runs
/// the same cases on a slower clock.
#[derive(Debug, Clone, Copy)]
pub struct KvContractTiming {
    /// The short TTL that the battery writes. At least the backend's TTL
    /// granularity.
    pub short_ttl: Duration,
    /// Slack on top of `short_ttl` before an entry must have expired. At least
    /// one granularity unit.
    pub expiry_slack: Duration,
}

impl KvContractTiming {
    /// Whether every span that the battery waits for can be expressed.
    pub open spec fn usable(self) -> bool {
        self.short_ttl@ * 3 + self.expiry_slack@ <= MAX_DURATION_NANOS
    }

    /// Whether every span that the battery waits for can be expressed.
    pub fn is_usable(&self) -> (r: bool)
        ensures
            r == self.usable(),
    {
        self.short_ttl.as_nanos() * 3 + self.expiry_slack.as_nanos() <= MAX_DURATION_NANOS
    }

    /// Timing for backends whose TTLs round to whole seconds.
    #[must_use]
    pub fn seconds_granularity() -> (r: Self)
        ensures
            r.short_ttl@ == 1 * NANOS_PER_SEC,
            r.expiry_slack@ == 1500 * NANOS_PER_MILLI,
    {
        KvContractTiming {
            short_ttl: Duration::from_secs(1),
            expiry_slack: Duration::from_millis(1500),
        }
    }
}

impl Default for KvContractTiming {
    /// Timing for backends that keep TTLs to the millisecond.
    fn default() -> (r: Self)
        ensures
            r.short_ttl@ == 50 * NANOS_PER_MILLI,
            r.expiry_slack@ == 120 * NANOS_PER_MILLI,
    {
        KvContractTiming {
            short_ttl: Duration::from_millis(50),
            expiry_slack: Duration::from_millis(120),
        }
    }
}

} // verus!
