//! A multi-party escrow coordinator.
//!
//! A fixed set of owners jointly drafts a bundle of conditional transfers
//! ("transactions"), unanimously ratifies it by signing, each sender escrows
//! the exact asset its transaction requires, and settlement releases the
//! whole bundle at once. The coordinator is a strict state machine: terms
//! may be edited only while no signature exists, a deposit is accepted only
//! when it matches the required asset exactly, and execution is permitted
//! only under unanimous ratification with every transaction satisfied.

pub mod contract;
pub mod entities;
pub mod errors;
pub mod keymap;
pub mod laws;

pub use contract::Contract;
pub use entities::Asset;
pub use entities::Release;
pub use entities::Transaction;
pub use errors::EscrowError;
