//! A ledger of account balances in whole units, with single and batched
//! transfers that either apply in full or leave every balance untouched.

pub mod account;
pub mod engine;
pub mod error;
pub mod event;
pub mod laws;
pub mod ledger;
pub mod model;
pub mod store;

pub use account::AccountId;
pub use engine::TransferEngine;
pub use error::Error;
pub use event::Event;
pub use ledger::Ledger;
pub use model::MAX_BATCH_SIZE;
pub use store::BalanceStore;
