//! The data carried by the ledger: per-owner metadata, the events the
//! operations emit, and the errors with which they reject.

use vstd::prelude::*;

verus! {

/// The fixed denominator of every asset: holding all 100 shares is full
/// ownership.
pub const TOTAL_SUPPLY: u64 = 100;

/// Per-asset, per-account state: the shares held, the portion of them
/// advertised for sale, and the per-share price asked for that portion.
#[derive(Clone, Copy, Debug, PartialEq, Eq, Structural)]
pub struct MetaData {
    pub offers: u64,
    pub shares: u64,
    pub price: u64,
}

/// A notification of a state change, recorded for observers.
#[derive(Clone, Copy, Debug, PartialEq, Eq, Structural)]
pub enum Event {
    /// A new asset is initialized: its identifier and its creator.
    ProportionalAssetInitialized(u64, u64),
    /// Shares have been offered for an asset: its identifier and the new
    /// per-share price.
    SharesOffered(u64, u64),
    /// Shares have moved between accounts: the giver, the receiver and the
    /// amount.
    SharesTransferred(u64, u64, u64),
    /// The main owner of an asset has changed: the new owner and the
    /// identifier.
    MainOwnerSet(u64, u64),
}

/// The rejection returned by an operation whose validation failed. Every
/// failure is detected before any store mutation.
#[derive(Clone, Copy, Debug, PartialEq, Eq, Structural)]
pub enum Error {
    /// The asset does not exist.
    AssetDoesNotExist,
    /// The asset already exists.
    AssetAlreadyExists,
    /// The offers are invalid.
    InvalidOffers,
    /// The amount sent is incorrect.
    IncorrectAmount,
    /// The currency amount cannot be converted.
    ConversionError,
    /// The shares selected are incorrect.
    IncorrectSharesSelection,
    /// The seller selected is incorrect.
    IncorrectSeller,
    /// The account is not the main owner of the asset.
    NotMainOwner,
    /// The account is already the main owner of the asset.
    AlreadyMainOwner,
    /// The shares are not enough.
    NotEnoughShares,
    /// The account is not valid.
    InvalidAccount,
    /// The balance is not enough.
    InsufficientBalance,
}

} // verus!
