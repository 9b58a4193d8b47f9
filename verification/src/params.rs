//! Configuration the engine carries across eras and hands to late joiners.

use vstd::prelude::*;

verus! {

/// When the atomic broadcast encrypts contributions.
#[derive(Clone, Copy, PartialEq, Eq, Structural, Debug)]
pub enum EncryptionSchedule {
    Always,
    Never,
    EveryNthEpoch(u64),
    TickTock(u64, u64),
}

/// How the atomic broadcast orders its common subset.
#[derive(Clone, Copy, PartialEq, Eq, Structural, Debug)]
pub enum SubsetHandlingStrategy {
    Incremental,
    AllAtEnd,
}

/// Engine configuration. Included in every join plan so that late joiners
/// reconstruct the same world.
#[derive(Clone, Copy, PartialEq, Eq, Structural, Debug)]
pub struct Params {
    /// How many epochs ahead of ours peers may pre-send messages.
    pub max_future_epochs: u64,
    pub encryption_schedule: EncryptionSchedule,
    pub subset_handling_strategy: SubsetHandlingStrategy,
}

impl Default for Params {
    fn default() -> (p: Self)
        ensures
            p.max_future_epochs == 3,
            p.encryption_schedule == EncryptionSchedule::Always,
            p.subset_handling_strategy == SubsetHandlingStrategy::Incremental,
    {
        Params {
            max_future_epochs: 3,
            encryption_schedule: EncryptionSchedule::Always,
            subset_handling_strategy: SubsetHandlingStrategy::Incremental,
        }
    }
}

} // verus!
