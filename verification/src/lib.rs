//! A batched value-distribution ledger.
//!
//! An owner-bound distribution state tracks how much value has been handed
//! out and in how many batches; a recipient ledger keeps one cumulative
//! record per recipient. The batch processor validates a batch of
//! (recipient, amount) pairs, rejects it with a precise error when it is
//! malformed, unauthorized, overflowing or unfunded, and otherwise applies
//! the whole batch to both records at once. The actual movement of value
//! between accounts is the host's business: the processor decides, the host
//! transfers.

pub mod identity;
pub mod ledger;
pub mod state;
pub mod batch;
pub mod laws;
