//! A ledger engine for client accounts: deposits, withdrawals and the
//! dispute lifecycle (dispute, then resolve or chargeback), with every
//! state transition stated and proved.

pub mod amount;
pub mod laws;
pub mod processor;
pub mod transaction;

pub use processor::{BasicProcessor, DisputeState, ErrorKind};
pub use transaction::{ClientAccount, ClientId, Transaction, TransactionType, TxId};
