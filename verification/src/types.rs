//! Plain-value models of the ledger-side identifiers the keeper reads.
//!
//! Vault, series and asset ids are fixed-size opaque identifiers; the library
//! holds them as unsigned integers wide enough for their byte width.  Account
//! addresses (160 bits) and transaction hashes (256 bits) are held as pairs of
//! integers.  Callers convert between these and their wire encodings.
use vstd::prelude::*;

verus! {

/// A vault identifier (12 bytes on the wire).
pub type VaultIdType = u128;

/// A series identifier (6 bytes on the wire).
pub type SeriesIdType = u64;

/// A collateral-asset identifier (6 bytes on the wire).
pub type IlkIdType = u64;

/// A base-asset identifier (6 bytes on the wire).
pub type BaseIdType = u64;

/// An asset identifier (6 bytes on the wire).
pub type AssetIdType = u64;

/// A 160-bit account address, split into the high 32 and low 128 bits.
#[derive(PartialEq, Eq, Structural, Clone, Copy, Debug)]
pub struct Address {
    /// The high 32 bits.
    pub hi: u32,
    /// The low 128 bits.
    pub lo: u128,
}

impl Address {
    /// The all-zero address, never a real account.
    pub open spec fn spec_is_zero(self) -> bool {
        self.hi == 0 && self.lo == 0
    }

    /// Whether this is the all-zero address.
    pub fn is_zero(&self) -> (r: bool)
        ensures
            r == self.spec_is_zero(),
    {
        self.hi == 0 && self.lo == 0
    }

    /// The all-zero address.
    pub fn zero() -> (r: Address)
        ensures
            r.spec_is_zero(),
    {
        Address { hi: 0, lo: 0 }
    }
}

/// A 256-bit transaction hash, split into the high and low 128 bits.
#[derive(PartialEq, Eq, Structural, Clone, Copy, Debug)]
pub struct TxHash {
    /// The high 128 bits.
    pub hi: u128,
    /// The low 128 bits.
    pub lo: u128,
}

} // verus!
