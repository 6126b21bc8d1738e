//! The error taxonomy of the coordinator.

use vstd::prelude::*;
use crate::entities::Asset;

verus! {

/// Why an escrow operation was refused. Every failure is reported before
/// any state changes; no operation ever mutates on an error path.
#[derive(Debug)]
pub enum EscrowError {
    /// The caller is not an owner, or not the sender a transaction names.
    AuthorizationError,
    /// No transaction is recorded under the given name.
    NotFoundError,
    /// The operation is invalid in the bundle's current phase: editing a
    /// ratified bundle, or depositing onto an already satisfied transaction.
    StateError,
    /// The deposited asset differs from the required one; both are reported.
    MismatchError { expected: Asset, actual: Asset },
    /// Execution was attempted without unanimous signatures; the first
    /// owner whose signature is missing is reported.
    ConsensusError { missing: String },
    /// Execution was attempted while a transaction is unsatisfied; that
    /// transaction's name, sender and required asset are reported.
    UnsatisfiedTermError { tx_name: String, sender: String, asset_name: String, quantity: u64 },
    /// The coordinator was asked to start with no owners at all.
    ConfigError,
}

} // verus!
