//! Registries of in-flight transactions, spent nullifiers and executor
//! signatures.
pub mod nullifiers;
pub mod pending;
pub mod signatures;

pub use self::nullifiers::NullifierRegistry;
pub use self::pending::{PendingAdminCredit, PendingTransactionRegistry};
pub use self::signatures::TransactionSignatureRegistry;
