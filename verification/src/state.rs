//! Aggregate distribution state.

use vstd::prelude::*;
use crate::identity::Identity;

verus! {

/// The one aggregate record of a distribution scope: who may distribute,
/// how much has been distributed in total, and in how many batches. The
/// owner never changes after initialization; both counters only grow.
#[derive(Clone, Copy, Debug, PartialEq, Eq, Structural)]
pub struct AirdropState {
    pub owner: Identity,
    pub total_airdropped: u64,
    pub total_airdrops: u64,
}

/// Create the aggregate record for a fresh scope, bound to `owner`, with
/// both counters at zero. That a scope is initialized at most once is the
/// storage host's business: it must create the record's slot exactly once
/// and reject a second attempt as already initialized.
pub fn initialize(owner: Identity) -> (r: AirdropState)
    ensures
        r.owner == owner,
        r.total_airdropped == 0,
        r.total_airdrops == 0,
{
    AirdropState { owner, total_airdropped: 0, total_airdrops: 0 }
}

/// Read how much has been distributed in this scope so far. Read-only:
/// no authorization, no side effects.
pub fn get_total_airdropped(state: &AirdropState) -> (r: u64)
    ensures
        r == state.total_airdropped,
{
    state.total_airdropped
}

} // verus!
