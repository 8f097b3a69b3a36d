//! A proportional-ownership ledger.
//!
//! A single opaque asset's ownership is divided among accounts out of a fixed
//! total supply of 100 shares. The ledger supports creating an asset,
//! advertising shares for sale, transferring shares for free, purchasing
//! offered shares against a payment, and reassigning the main-owner status.
//!
//! The surrounding system supplies authentication, identifier derivation,
//! currency storage and event delivery; this crate owns the two stores
//! (owner records and the main-owner index), the business rules of the five
//! operations, and a deterministic payment ledger standing in for the
//! currency collaborator, all verified.

pub mod balances;
pub mod identifier;
pub mod owners;
pub mod pallet;
pub mod records;
pub mod types;

pub use balances::Balances;
pub use identifier::derive_identifier;
pub use owners::MainOwnerIndex;
pub use pallet::Pallet;
pub use records::OwnerRecordStore;
pub use types::{Error, Event, MetaData, TOTAL_SUPPLY};
