//! The notifications that the engine records for its subscribers.

use crate::account::AccountId;
use vstd::prelude::*;

verus! {

/// The record of one completed operation. An event is written once the
/// balances have changed, never before, and never for an operation that was
/// turned down.
#[derive(Copy, Clone, Debug, PartialEq, Eq)]
pub enum Event {
    /// Units moved from one account to another.
    Transfer { source: AccountId, destination: AccountId, amount: i128, timestamp: u64 },
    /// Units were distributed from one account to a list of recipients.
    Batch { source: AccountId, recipient_count: u32, total_amount: i128, timestamp: u64 },
}

} // verus!
