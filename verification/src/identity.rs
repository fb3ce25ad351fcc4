//! Opaque account identities.

use vstd::prelude::*;

verus! {

/// A fixed-size public identifier for an account or participant: 256 bits,
/// held as four 64-bit words. Two identities are the same account exactly
/// when all four words agree.
#[derive(Clone, Copy, Debug, PartialEq, Eq, Structural, Hash)]
pub struct Identity {
    pub w0: u64,
    pub w1: u64,
    pub w2: u64,
    pub w3: u64,
}

} // verus!
