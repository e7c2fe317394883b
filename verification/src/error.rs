//! The ways in which an operation can be turned down.

use vstd::prelude::*;

verus! {

/// Why the engine turned an operation down. None of these leaves a trace in
/// the ledger: a rejected operation changes no balance and records no event.
#[derive(Copy, Clone, Debug, PartialEq, Eq, Structural, PartialOrd, Ord, Hash)]
pub enum Error {
    /// The source holds less than the amount, or the batch total, asked for.
    InsufficientFunds,
    /// An amount was zero or negative.
    InvalidAmount,
    /// The batch names more recipients than `MAX_BATCH_SIZE`.
    BatchTooLarge,
    /// The caller is not the account that the units would leave.
    Unauthorized,
}

} // verus!
