use vstd::prelude::*;

verus! {

/// The data signed to select a sync committee aggregator.
#[derive(Debug, Clone, PartialEq, Eq, Structural)]
pub struct SyncAggregatorSelectionData {
    pub slot: u64,
    pub subcommittee_index: u64,
}

/// A post-quantum signature placeholder; it carries no data yet.
#[derive(Debug, Clone, PartialEq, Eq, Structural)]
pub struct PQSignature {}

/// A post-quantum public key placeholder; it carries no data yet.
#[derive(Debug, Clone, PartialEq, Eq, Structural)]
pub struct PublicKey {}

/// Whether a validator took part in an epoch.
#[derive(Debug, Clone, PartialEq, Eq, Structural)]
pub struct ValidatorLivenessData {
    pub index: u64,
    pub is_live: bool,
}

impl ValidatorLivenessData {
    pub fn new(index: u64, is_live: bool) -> (r: Self)
        ensures
            r.index == index,
            r.is_live == is_live,
    {
        Self { index, is_live }
    }
}

} // verus!
