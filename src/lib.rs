//! A payment-streaming ledger.
//!
//! A sender locks a deposit into a stream that pays a receiver at a fixed
//! rate over a time window. The ledger tracks, for every stream, how much
//! has accrued to the receiver and how much remains refundable to the
//! sender, across pauses, resumes, cancellation and partial withdrawals.
//! Money leaves the ledger through a two-phase protocol: an operation
//! tentatively mutates the stream and locks it, the caller performs the
//! transfer, and the outcome is reported back so that the mutation is
//! either committed or rolled back exactly.
//!
//! The caller's identity and the current time are explicit parameters of
//! every operation.

pub mod account;
pub mod error;
pub mod fees;
pub mod model;
pub mod contract;
pub mod laws;
pub mod storage;
pub mod views;
pub mod stream;

pub use account::AccountId;
pub use error::StreamError;
pub use fees::{fee_amount, FeeEntry, FeeLedger, FEE_BPS_DIVISOR};
pub use stream::{Stream, MAX_RATE};
pub use model::{PendingTransfer, Transfer, TransferKind};
pub use contract::{Contract, NATIVE_FEE_NAME, NATIVE_NEAR_CONTRACT_ID};
pub use storage::{StorageAccounts, StorageBalance, StorageBalanceBounds};
pub use views::Selection;
