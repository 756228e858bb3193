//! Immutable data cache.
//!
//! Memoizes protocol-static lookups: series to base asset, asset id to
//! address, and the per-base-asset dust threshold.  An entry is written at
//! most once and never overwritten or evicted; a failed remote read is never
//! cached.  The cache only stores and classifies — the remote reads that fill
//! it on a miss are performed by the caller, which records each fetched value
//! exactly once.
use crate::idmap::IdMap;
use crate::types::{Address, AssetIdType, BaseIdType, IlkIdType, SeriesIdType};
use vstd::prelude::*;

verus! {

/// The keeper's cache of protocol-static data.
pub struct ImmutableCache {
    /// Series id to the series' base-asset id.
    pub series_to_base: IdMap<BaseIdType>,
    /// Asset id to the asset's contract address.
    pub asset_id_to_address: IdMap<Address>,
    /// Base-asset id to the debt threshold under which a vault is dust.
    pub base_to_debt_threshold: IdMap<u128>,
}

impl ImmutableCache {
    /// Well-formed: the three backing maps are.
    pub open spec fn wf(self) -> bool {
        &&& self.series_to_base.wf()
        &&& self.asset_id_to_address.wf()
        &&& self.base_to_debt_threshold.wf()
    }

    /// How a vault with the given series, collateral asset and debt is
    /// classified, given what the cache holds:
    /// - the series' base asset is not cached yet: no answer (`None`);
    /// - collateral asset equals the base asset: always ignorable, whatever
    ///   the debt (self-collateralized, no economic liquidation);
    /// - a dust threshold is known for the base asset: ignorable exactly when
    ///   the debt is below it;
    /// - no threshold configured: not ignorable (a configuration gap must not
    ///   silence liquidations).
    pub open spec fn spec_is_vault_ignored(
        self,
        series_id: SeriesIdType,
        ilk_id: IlkIdType,
        debt: u128,
    ) -> Option<bool> {
        if !self.series_to_base@.contains_key(series_id as u128) {
            None
        } else {
            let base = self.series_to_base@[series_id as u128];
            if base == ilk_id {
                Some(true)
            } else if self.base_to_debt_threshold@.contains_key(base as u128) {
                Some(debt < self.base_to_debt_threshold@[base as u128])
            } else {
                Some(false)
            }
        }
    }

    /// A fresh cache over the configured series and threshold tables.
    pub fn new(series_to_base: IdMap<BaseIdType>, base_to_debt_threshold: IdMap<u128>) -> (r: Self)
        requires
            series_to_base.wf(),
            base_to_debt_threshold.wf(),
        ensures
            r.wf(),
            r.series_to_base == series_to_base,
            r.base_to_debt_threshold == base_to_debt_threshold,
            r.asset_id_to_address@ == Map::<u128, Address>::empty(),
    {
        ImmutableCache {
            series_to_base,
            asset_id_to_address: IdMap::new(),
            base_to_debt_threshold,
        }
    }

    /// The cached base-asset id of `series_id`, if it has been fetched.
    pub fn get_base_id(&self, series_id: SeriesIdType) -> (r: Option<BaseIdType>)
        requires
            self.wf(),
        ensures
            match r {
                Some(b) => self.series_to_base@.contains_key(series_id as u128)
                    && b == self.series_to_base@[series_id as u128],
                None => !self.series_to_base@.contains_key(series_id as u128),
            },
    {
        match self.series_to_base.get(series_id as u128) {
            Some(b) => Some(*b),
            None => None,
        }
    }

    /// Record a freshly fetched base-asset id.  A key is written at most
    /// once: the cache never overwrites, and the caller never caches a failed
    /// read.
    pub fn record_base_id(&mut self, series_id: SeriesIdType, base_id: BaseIdType)
        requires
            old(self).wf(),
            !old(self).series_to_base@.contains_key(series_id as u128),
        ensures
            final(self).wf(),
            final(self).series_to_base@ == old(self).series_to_base@.insert(
                series_id as u128,
                base_id,
            ),
            final(self).asset_id_to_address == old(self).asset_id_to_address,
            final(self).base_to_debt_threshold == old(self).base_to_debt_threshold,
    {
        self.series_to_base.insert(series_id as u128, base_id);
    }

    /// The cached address of `asset_id`, if it has been fetched.
    pub fn get_asset_address(&self, asset_id: AssetIdType) -> (r: Option<Address>)
        requires
            self.wf(),
        ensures
            match r {
                Some(a) => self.asset_id_to_address@.contains_key(asset_id as u128)
                    && a == self.asset_id_to_address@[asset_id as u128],
                None => !self.asset_id_to_address@.contains_key(asset_id as u128),
            },
    {
        match self.asset_id_to_address.get(asset_id as u128) {
            Some(a) => Some(*a),
            None => None,
        }
    }

    /// Record a freshly fetched asset address, at most once per key.
    pub fn record_asset_address(&mut self, asset_id: AssetIdType, address: Address)
        requires
            old(self).wf(),
            !old(self).asset_id_to_address@.contains_key(asset_id as u128),
        ensures
            final(self).wf(),
            final(self).asset_id_to_address@ == old(self).asset_id_to_address@.insert(
                asset_id as u128,
                address,
            ),
            final(self).series_to_base == old(self).series_to_base,
            final(self).base_to_debt_threshold == old(self).base_to_debt_threshold,
    {
        self.asset_id_to_address.insert(asset_id as u128, address);
    }

    /// Classify a vault as ignorable (dust or self-collateralized) from the
    /// cached data; `None` when the series' base asset is not cached yet.
    pub fn is_vault_ignored(&self, series_id: SeriesIdType, ilk_id: IlkIdType, debt: u128) -> (r:
        Option<bool>)
        requires
            self.wf(),
        ensures
            r == self.spec_is_vault_ignored(series_id, ilk_id, debt),
    {
        let base = match self.series_to_base.get(series_id as u128) {
            Some(b) => *b,
            None => {
                return None;
            },
        };
        if base == ilk_id {
            return Some(true);
        }
        match self.base_to_debt_threshold.get(base as u128) {
            Some(threshold) => Some(debt < *threshold),
            None => Some(false),
        }
    }

    /// A vault whose collateral asset is its series' base asset is ignorable
    /// for every debt value, zero and the maximum included.
    pub proof fn lemma_self_collateralized_always_ignored(
        self,
        series_id: SeriesIdType,
        ilk_id: IlkIdType,
        debt: u128,
    )
        requires
            self.wf(),
            self.series_to_base@.contains_key(series_id as u128),
            self.series_to_base@[series_id as u128] == ilk_id,
        ensures
            self.spec_is_vault_ignored(series_id, ilk_id, debt) == Some(true),
    {
    }
}

} // verus!
