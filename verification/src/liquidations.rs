//! Liquidation and auction engine.
//!
//! Decides which vaults need auctions started, which active auctions are
//! worth buying, computes the dutch-auction discount, and manages the
//! lifecycle of the transactions it asked its caller to broadcast.  The
//! caller performs every remote read, the swap-routing call and every
//! broadcast, and hands the outcomes back; at most one transaction per vault
//! per kind is outstanding, and such a vault is skipped by that kind's
//! decision logic until the transaction resolves.
use crate::borrowers::{Vault, VaultMap};
use crate::cache::ImmutableCache;
use crate::errors::KeeperError;
use crate::escalator::GeometricGasPrice;
use crate::idmap::IdMap;
use crate::ids_sorted;
use crate::types::{Address, BaseIdType, IlkIdType, SeriesIdType, TxHash, VaultIdType};
use vstd::prelude::*;

verus! {

/// The registry of auctions tracked for buy opportunities, persisted across
/// restarts; an entry is removed when its auction is observed ended or
/// invalid.
pub type AuctionMap = IdMap<bool>;

/// One candidate-offer unit: `10^18` stands for the whole collateral.
pub const OFFER_ONE: u64 = 1000000000000000000;

/// `10^16`: one percent of `OFFER_ONE`.
pub const OFFER_PCT: u64 = 10000000000000000;

/// The fixed priority fee a replacement transaction is reset to (2 gwei).
pub const PRIORITY_FEE_FLOOR: u128 = 2000000000;

/// A transaction this engine asked its caller to broadcast and still watches:
/// the fee fields its lifecycle logic reads, the broadcast hash and the
/// submission instant.  The caller keeps the full payload and rebuilds it on
/// a bump.
#[derive(PartialEq, Eq, Structural, Clone, Copy, Debug)]
pub struct PendingTransaction {
    /// Whether the payload is a fee-market (cap plus tip) transaction; any
    /// other shape is a fatal configuration error when it comes up for a
    /// bump.
    pub is_fee_market: bool,
    /// The fee cap the transaction was last broadcast with.
    pub max_fee_per_gas: u128,
    /// The hash it was last broadcast under.
    pub hash: TxHash,
    /// When it was first submitted, in seconds.
    pub submitted_at: u64,
}

/// The two transaction kinds the engine tracks, each in its own pending map.
#[derive(PartialEq, Eq, Structural, Clone, Copy, Debug)]
pub enum TxType {
    /// A bid on a running auction.
    Auction,
    /// An auction-start (liquidation) trigger.
    Liquidation,
}

/// An initiated auction, recomputed on demand from fetched data.
#[derive(PartialEq, Eq, Structural, Clone, Copy, Debug)]
pub struct Auction {
    /// The start time of the auction.
    pub started: u32,
    /// Whether the auction is still active on the ledger.
    pub under_auction: bool,
    /// The debt which can be repaid.
    pub debt: u128,
    /// The base (debt) asset of the auctioned vault's series.
    pub base_id: BaseIdType,
    /// The collateral asset on offer.
    pub ilk_id: IlkIdType,
    /// The collateralization ratio, in percent (0 when out of range).
    pub ratio_pct: u16,
    /// Whether the current collateral offer has reached the configured
    /// target.
    pub collateral_offer_is_good_enough: bool,
}

/// What the ledger reports about one vault's auction, fetched by the caller
/// in one aggregate call.
#[derive(PartialEq, Eq, Structural, Clone, Copy, Debug)]
pub struct AuctionFetch {
    /// The vault's series.
    pub series_id: SeriesIdType,
    /// The vault's collateral asset.
    pub ilk_id: IlkIdType,
    /// The debt balance that can be repaid.
    pub art: u128,
    /// The auction's owner; the zero address means no active auction.
    pub auction_owner: Address,
    /// When the auction started, in ledger seconds.
    pub auction_start: u32,
    /// The auction duration configured for the collateral.
    pub duration: u32,
    /// The initial collateral offer, in `OFFER_ONE` units.
    pub initial_offer: u64,
    /// The collateral-to-debt ratio in `OFFER_ONE` units; `None` when it
    /// does not fit 128 bits (treated as out of range).
    pub ratio: Option<u128>,
}

/// What `buy` decides for one tracked auction.
#[derive(PartialEq, Eq, Structural, Clone, Copy, Debug)]
pub enum BuyDecision {
    /// The auction stays tracked; nothing to do this cycle.
    StillValid,
    /// The auction is gone or inactive; the caller deregisters it.
    NoLongerValid,
    /// Worth buying: the caller routes a swap of `ilk_id` into `base_id` for
    /// exactly `debt` out, then broadcasts the flash liquidation.
    Proceed { ilk_id: IlkIdType, base_id: BaseIdType, debt: u128 },
}

/// The percent form of a ratio given in `OFFER_ONE` units: zero when the
/// value is missing or does not fit 16 bits.
pub open spec fn spec_ratio_pct(ratio: Option<u128>) -> u16 {
    match ratio {
        Option::None => 0,
        Option::Some(v) => {
            if v / (OFFER_PCT as u128) > u16::MAX {
                0
            } else {
                (v / (OFFER_PCT as u128)) as u16
            }
        },
    }
}

/// The collateral offer at `now`, in percent: the linear interpolation from
/// the initial offer at the auction's start to 100% at `start + duration`,
/// clamped to 100% afterwards.  Fails when evaluated before the start or
/// when the initial offer exceeds the whole.
pub open spec fn spec_current_offer(
    now: u64,
    auction_start: u64,
    duration: u64,
    initial_offer: u64,
) -> Result<u16, KeeperError> {
    if now < auction_start {
        Err(KeeperError::ConfigurationError)
    } else if initial_offer > OFFER_ONE {
        Err(KeeperError::ConfigurationError)
    } else {
        let pct = initial_offer / OFFER_PCT;
        let t = now - auction_start;
        if t >= duration {
            Ok(100u16)
        } else {
            Ok(((t * (100 - pct)) / (duration as int) + pct) as u16)
        }
    }
}

/// What the lifecycle pass decides for one pending transaction.
#[derive(PartialEq, Eq, Structural, Clone, Copy, Debug)]
pub enum BumpAction {
    /// A receipt exists: the transaction is mined, the entry is removed.
    Confirmed,
    /// Not mined, but within the grace delay: left untouched.
    TooEarly,
    /// Not mined past the grace delay: rebroadcast with this fee cap (and
    /// the priority fee reset to `PRIORITY_FEE_FLOOR`).
    Bump { new_fee: u128 },
}

/// A rebroadcast the caller must perform: rebuild the vault's pending
/// transaction with the new fee cap and submit it.
#[derive(PartialEq, Eq, Structural, Clone, Copy, Debug)]
pub struct BumpRequest {
    /// The vault whose pending transaction is stuck.
    pub vault_id: VaultIdType,
    /// The replacement fee cap.
    pub new_fee: u128,
}

/// Seconds since submission, zero if the clock reads earlier than the
/// submission instant.
pub open spec fn spec_elapsed(now: u64, submitted_at: u64) -> int {
    if now >= submitted_at {
        now - submitted_at
    } else {
        0
    }
}

/// True when one of the first `upto` pending entries holds key `k` and its
/// receipt was present.
pub open spec fn spec_removal_justified_at(
    m0: IdMap<PendingTransaction>,
    receipts: Seq<Option<bool>>,
    k: u128,
    upto: int,
) -> bool {
    exists|j: int|
        #![trigger receipts[j]]
        0 <= j < upto && m0.spec_keys()[j] == k && receipts[j] is Some
}

/// True when every id collected for removal is justified by one of the
/// first `upto` pending entries: its receipt was present.
pub open spec fn spec_removals_justified(
    m0: IdMap<PendingTransaction>,
    receipts: Seq<Option<bool>>,
    rem: Seq<u128>,
    upto: int,
) -> bool {
    forall|a: int|
        #![trigger rem[a]]
        0 <= a < rem.len() ==> spec_removal_justified_at(m0, receipts, rem[a], upto)
}

/// A removal set justified by the first `upto` entries is justified by one
/// more.
proof fn lemma_removals_justified_widen(
    m0: IdMap<PendingTransaction>,
    receipts: Seq<Option<bool>>,
    rem: Seq<u128>,
    upto: int,
)
    requires
        spec_removals_justified(m0, receipts, rem, upto),
    ensures
        spec_removals_justified(m0, receipts, rem, upto + 1),
{
    assert forall|a: int| #![trigger rem[a]] 0 <= a < rem.len() implies
        spec_removal_justified_at(m0, receipts, rem[a], upto + 1) by {
        let v = rem[a];
        assert(spec_removal_justified_at(m0, receipts, v, upto));
        let j = choose|j: int|
            #![trigger receipts[j]]
            0 <= j < upto && m0.spec_keys()[j] == v && receipts[j] is Some;
        assert(0 <= j < upto + 1 && m0.spec_keys()[j] == v && receipts[j] is Some);
    }
}

/// Pushing the key of entry `upto`, whose receipt is present, keeps the
/// removal set justified.
proof fn lemma_removals_justified_push(
    m0: IdMap<PendingTransaction>,
    receipts: Seq<Option<bool>>,
    rem: Seq<u128>,
    upto: int,
)
    requires
        spec_removals_justified(m0, receipts, rem, upto),
        0 <= upto < receipts.len(),
        receipts[upto] is Some,
    ensures
        spec_removals_justified(m0, receipts, rem.push(m0.spec_keys()[upto]), upto + 1),
{
    lemma_removals_justified_widen(m0, receipts, rem, upto);
    let rem1 = rem.push(m0.spec_keys()[upto]);
    assert forall|a: int| #![trigger rem1[a]] 0 <= a < rem1.len() implies
        spec_removal_justified_at(m0, receipts, rem1[a], upto + 1) by {
        if a < rem.len() {
            assert(rem1[a] == rem[a]);
            let v = rem[a];
            assert(spec_removal_justified_at(m0, receipts, v, upto + 1));
        } else {
            assert(rem1[a] == m0.spec_keys()[upto]);
            assert(0 <= upto < upto + 1 && m0.spec_keys()[upto] == rem1[a]
                && receipts[upto] is Some);
        }
    }
}

/// The liquidation and auction engine.
pub struct Liquidator {
    /// The currently tracked auctions.
    pub auctions: AuctionMap,
    /// The minimum collateralization ratio (percent) under which an auction
    /// is bought outright.
    pub min_ratio: u16,
    /// Extra broadcast gas, as a percent of the estimated cost.
    pub gas_boost: u16,
    /// Buy once this percentage of the collateral is on offer.
    pub target_collateral_offer: u16,
    /// Outstanding liquidation (auction-start) transactions, one per vault.
    pub pending_liquidations: IdMap<PendingTransaction>,
    /// Outstanding buy transactions, one per vault.
    pub pending_auctions: IdMap<PendingTransaction>,
    /// The replacement-fee policy.
    pub gas_escalator: GeometricGasPrice,
    /// Seconds a transaction may stay unmined before its fee is bumped.
    pub bump_gas_delay: u64,
}

impl Liquidator {
    /// Well-formed: the maps are, and the escalation policy is.
    pub open spec fn wf(self) -> bool {
        &&& self.auctions.wf()
        &&& self.pending_liquidations.wf()
        &&& self.pending_auctions.wf()
        &&& self.gas_escalator.wf()
    }

    /// Constructor over a previously persisted auction registry (empty on
    /// first start).
    pub fn new(
        min_ratio: u16,
        gas_boost: u16,
        target_collateral_offer: u16,
        auctions: AuctionMap,
        gas_escalator: GeometricGasPrice,
        bump_gas_delay: u64,
    ) -> (r: Self)
        requires
            auctions.wf(),
            gas_escalator.wf(),
        ensures
            r.wf(),
            r.auctions == auctions,
            r.min_ratio == min_ratio,
            r.gas_boost == gas_boost,
            r.target_collateral_offer == target_collateral_offer,
            r.gas_escalator == gas_escalator,
            r.bump_gas_delay == bump_gas_delay,
            r.pending_liquidations@ == Map::<u128, PendingTransaction>::empty(),
            r.pending_auctions@ == Map::<u128, PendingTransaction>::empty(),
    {
        Liquidator {
            auctions,
            min_ratio,
            gas_boost,
            target_collateral_offer,
            pending_liquidations: IdMap::new(),
            pending_auctions: IdMap::new(),
            gas_escalator,
            bump_gas_delay,
        }
    }

    /// The collateral offer at `now`, in percent (see `spec_current_offer`).
    pub fn current_offer(&self, now: u64, auction_start: u64, duration: u64, initial_offer: u64)
        -> (r: Result<u16, KeeperError>)
        ensures
            r == spec_current_offer(now, auction_start, duration, initial_offer),
    {
        if now < auction_start {
            return Err(KeeperError::ConfigurationError);
        }
        if initial_offer > OFFER_ONE {
            return Err(KeeperError::ConfigurationError);
        }
        let pct = initial_offer / OFFER_PCT;
        proof {
            vstd::arithmetic::div_mod::lemma_div_is_ordered(
                initial_offer as int,
                OFFER_ONE as int,
                OFFER_PCT as int,
            );
            assert(OFFER_ONE as int / OFFER_PCT as int == 100);
        }
        let t = now - auction_start;
        if t >= duration {
            Ok(100u16)
        } else {
            // Widen so the interpolation cannot overflow, then narrow: the
            // quotient is under 100.
            proof {
                assert((t as int) * ((100 - pct) as int) <= u64::MAX * 100) by (nonlinear_arith)
                    requires
                        0 <= t as int <= u64::MAX,
                        0 <= (100 - pct) as int <= 100,
                ;
            }
            let wide: u128 = (t as u128) * ((100 - pct) as u128) / (duration as u128) + (
            pct as u128);
            proof {
                let ti = t as int;
                let di = duration as int;
                let pi = pct as int;
                assert(ti * (100 - pi) / di <= 100 - pi) by (nonlinear_arith)
                    requires
                        0 <= ti < di,
                        0 <= pi <= 100,
                ;
                vstd::arithmetic::div_mod::lemma_div_pos_is_pos(ti * (100 - pi), di);
            }
            Ok(wide as u16)
        }
    }

    /// The offer at the auction's start is the initial offer.
    pub proof fn lemma_current_offer_at_start(start: u64, duration: u64, initial_offer: u64)
        requires
            duration >= 1,
            initial_offer <= OFFER_ONE,
        ensures
            spec_current_offer(start, start, duration, initial_offer) == Ok::<u16, KeeperError>(
                (initial_offer / OFFER_PCT) as u16,
            ),
    {
    }

    /// From the end of the auction's duration on, the whole collateral (100%)
    /// is on offer.
    pub proof fn lemma_current_offer_at_end(
        now: u64,
        start: u64,
        duration: u64,
        initial_offer: u64,
    )
        requires
            initial_offer <= OFFER_ONE,
            start + duration <= now <= u64::MAX,
        ensures
            spec_current_offer(now, start, duration, initial_offer) == Ok::<u16, KeeperError>(
                100u16,
            ),
    {
    }

    /// The offer never moves down as time passes.
    pub proof fn lemma_current_offer_monotone(
        now1: u64,
        now2: u64,
        start: u64,
        duration: u64,
        initial_offer: u64,
    )
        requires
            initial_offer <= OFFER_ONE,
            start <= now1 <= now2,
        ensures
            spec_current_offer(now1, start, duration, initial_offer)->Ok_0 <= spec_current_offer(
                now2,
                start,
                duration,
                initial_offer,
            )->Ok_0,
    {
        let pct = initial_offer as int / OFFER_PCT as int;
        let t1 = now1 - start;
        let t2 = now2 - start;
        vstd::arithmetic::div_mod::lemma_div_is_ordered(
            initial_offer as int,
            OFFER_ONE as int,
            OFFER_PCT as int,
        );
        vstd::arithmetic::div_mod::lemma_div_pos_is_pos(initial_offer as int, OFFER_PCT as int);
        assert(OFFER_ONE as int / OFFER_PCT as int == 100);
        assert(0 <= pct <= 100);
        if t1 < duration {
            let o1 = (t1 * (100 - pct)) / (duration as int);
            assert(o1 <= 100 - pct) by (nonlinear_arith)
                requires
                    0 <= t1 < duration,
                    0 <= pct <= 100,
                    o1 == (t1 * (100 - pct)) / (duration as int),
            ;
            vstd::arithmetic::div_mod::lemma_div_pos_is_pos(t1 * (100 - pct), duration as int);
            assert(((o1 + pct) as u16) == o1 + pct);
            if t2 < duration {
                let o2 = (t2 * (100 - pct)) / (duration as int);
                assert(o2 <= 100 - pct) by (nonlinear_arith)
                    requires
                        0 <= t2 < duration,
                        0 <= pct <= 100,
                        o2 == (t2 * (100 - pct)) / (duration as int),
                ;
                vstd::arithmetic::div_mod::lemma_div_pos_is_pos(t2 * (100 - pct), duration as int);
                assert(((o2 + pct) as u16) == o2 + pct);
                assert(t1 * (100 - pct) <= t2 * (100 - pct)) by (nonlinear_arith)
                    requires
                        0 <= t1 <= t2,
                        0 <= pct <= 100,
                ;
                vstd::arithmetic::div_mod::lemma_div_is_ordered(
                    t1 * (100 - pct),
                    t2 * (100 - pct),
                    duration as int,
                );
            }
        }
    }

    /// The offer computation fails exactly before the auction's start or on
    /// an initial offer over the whole.
    pub proof fn lemma_current_offer_err(now: u64, start: u64, duration: u64, initial_offer: u64)
        ensures
            spec_current_offer(now, start, duration, initial_offer) is Err <==> (now < start
                || initial_offer > OFFER_ONE),
    {
    }

    /// The auction record assembled from fetched data, as `get_auction`
    /// computes it.  `None` stands for "no auction worth considering": the
    /// cache classifies the vault as dust or self-collateralized.  An
    /// unanswerable cache check is a remote-read failure.
    pub open spec fn spec_get_auction(
        self,
        cache: ImmutableCache,
        f: AuctionFetch,
        now: u64,
    ) -> Result<Option<Auction>, KeeperError> {
        match cache.spec_is_vault_ignored(f.series_id, f.ilk_id, f.art) {
            Option::None => Err(KeeperError::RemoteReadError),
            Option::Some(true) => Ok(Option::None),
            Option::Some(false) => Ok(
                Option::Some(
                    Auction {
                        started: f.auction_start,
                        under_auction: !f.auction_owner.spec_is_zero(),
                        debt: f.art,
                        base_id: cache.series_to_base@[f.series_id as u128],
                        ilk_id: f.ilk_id,
                        ratio_pct: spec_ratio_pct(f.ratio),
                        collateral_offer_is_good_enough: (match spec_current_offer(
                            now,
                            f.auction_start as u64,
                            f.duration as u64,
                            f.initial_offer,
                        ) {
                            Ok(o) => o,
                            Err(_) => 0u16,
                        }) >= self.target_collateral_offer,
                    },
                ),
            ),
        }
    }

    /// Assemble the auction record for one vault from the caller-fetched
    /// data and the cache.
    pub fn get_auction(&self, cache: &ImmutableCache, f: &AuctionFetch, now: u64) -> (r: Result<
        Option<Auction>,
        KeeperError,
    >)
        requires
            cache.wf(),
        ensures
            r == self.spec_get_auction(*cache, *f, now),
    {
        match cache.is_vault_ignored(f.series_id, f.ilk_id, f.art) {
            None => Err(KeeperError::RemoteReadError),
            Some(true) => Ok(None),
            Some(false) => {
                let base_id = match cache.get_base_id(f.series_id) {
                    Some(b) => b,
                    None => {
                        proof {
                            assert(false);
                        }
                        return Err(KeeperError::RemoteReadError);
                    },
                };
                let current_offer: u16 = match self.current_offer(
                    now,
                    f.auction_start as u64,
                    f.duration as u64,
                    f.initial_offer,
                ) {
                    Ok(o) => o,
                    Err(_) => 0u16,
                };
                let ratio_pct: u16 = match f.ratio {
                    Some(v) => {
                        let pct = v / (OFFER_PCT as u128);
                        if pct > u16::MAX as u128 {
                            0u16
                        } else {
                            pct as u16
                        }
                    },
                    None => 0u16,
                };
                Ok(
                    Some(
                        Auction {
                            started: f.auction_start,
                            under_auction: !f.auction_owner.is_zero(),
                            debt: f.art,
                            base_id,
                            ilk_id: f.ilk_id,
                            ratio_pct,
                            collateral_offer_is_good_enough: current_offer
                                >= self.target_collateral_offer,
                        },
                    ),
                )
            },
        }
    }

    /// What `buy` decides for a tracked auction, given the fetched auction
    /// record (or the failure to fetch it):
    /// - a pending buy for this vault: wait (still valid);
    /// - the fetch failed: retry next cycle (still valid);
    /// - no auction, or no longer active: no longer valid, deregister;
    /// - no outstanding debt: still valid, not actionable;
    /// - ratio at or under the configured minimum, or the offer good enough:
    ///   buy; otherwise wait.
    pub open spec fn spec_buy_decision(
        self,
        vault_id: VaultIdType,
        auction: Result<Option<Auction>, KeeperError>,
    ) -> BuyDecision {
        if self.pending_auctions@.contains_key(vault_id) {
            BuyDecision::StillValid
        } else {
            match auction {
                Err(_) => BuyDecision::StillValid,
                Ok(Option::None) => BuyDecision::NoLongerValid,
                Ok(Option::Some(a)) => {
                    if !a.under_auction {
                        BuyDecision::NoLongerValid
                    } else if a.debt == 0 {
                        BuyDecision::StillValid
                    } else if a.ratio_pct <= self.min_ratio || a.collateral_offer_is_good_enough {
                        BuyDecision::Proceed { ilk_id: a.ilk_id, base_id: a.base_id, debt: a.debt }
                    } else {
                        BuyDecision::StillValid
                    }
                },
            }
        }
    }

    /// Decide what to do about one tracked auction.  The engine's state is
    /// untouched: the caller performs the swap routing, estimation and
    /// broadcast for a `Proceed`, then records the submission.
    pub fn buy(&self, vault_id: VaultIdType, auction: &Result<Option<Auction>, KeeperError>) -> (r:
        BuyDecision)
        requires
            self.wf(),
        ensures
            r == self.spec_buy_decision(vault_id, *auction),
    {
        if self.pending_auctions.contains_key(vault_id) {
            return BuyDecision::StillValid;
        }
        match auction {
            Err(_) => BuyDecision::StillValid,
            Ok(None) => BuyDecision::NoLongerValid,
            Ok(Some(a)) => {
                if !a.under_auction {
                    BuyDecision::NoLongerValid
                } else if a.debt == 0 {
                    BuyDecision::StillValid
                } else if a.ratio_pct <= self.min_ratio || a.collateral_offer_is_good_enough {
                    BuyDecision::Proceed { ilk_id: a.ilk_id, base_id: a.base_id, debt: a.debt }
                } else {
                    BuyDecision::StillValid
                }
            },
        }
    }

    /// The broadcast gas allowance: the estimate plus the configured boost
    /// percentage.
    pub fn boosted_gas(&self, estimate: u128) -> (r: u128)
        requires
            estimate * (100 + self.gas_boost) <= u128::MAX,
        ensures
            r == estimate * (100 + self.gas_boost) / 100,
    {
        estimate * (100 + self.gas_boost as u128) / 100
    }

    /// Record a broadcast buy bid; at most one may be outstanding per vault.
    pub fn record_buy_submitted(
        &mut self,
        vault_id: VaultIdType,
        is_fee_market: bool,
        max_fee_per_gas: u128,
        hash: TxHash,
        now: u64,
    )
        requires
            old(self).wf(),
            !old(self).pending_auctions@.contains_key(vault_id),
        ensures
            final(self).wf(),
            final(self).pending_auctions@ == old(self).pending_auctions@.insert(
                vault_id,
                PendingTransaction { is_fee_market, max_fee_per_gas, hash, submitted_at: now },
            ),
            final(self).pending_liquidations == old(self).pending_liquidations,
            final(self).auctions == old(self).auctions,
            final(self).min_ratio == old(self).min_ratio,
            final(self).gas_boost == old(self).gas_boost,
            final(self).target_collateral_offer == old(self).target_collateral_offer,
            final(self).gas_escalator == old(self).gas_escalator,
            final(self).bump_gas_delay == old(self).bump_gas_delay,
    {
        self.pending_auctions.insert(
            vault_id,
            PendingTransaction { is_fee_market, max_fee_per_gas, hash, submitted_at: now },
        );
    }

    /// Record a broadcast auction-start; at most one may be outstanding per
    /// vault.
    pub fn record_liquidation_submitted(
        &mut self,
        vault_id: VaultIdType,
        is_fee_market: bool,
        max_fee_per_gas: u128,
        hash: TxHash,
        now: u64,
    )
        requires
            old(self).wf(),
            !old(self).pending_liquidations@.contains_key(vault_id),
        ensures
            final(self).wf(),
            final(self).pending_liquidations@ == old(self).pending_liquidations@.insert(
                vault_id,
                PendingTransaction { is_fee_market, max_fee_per_gas, hash, submitted_at: now },
            ),
            final(self).pending_auctions == old(self).pending_auctions,
            final(self).auctions == old(self).auctions,
            final(self).min_ratio == old(self).min_ratio,
            final(self).gas_boost == old(self).gas_boost,
            final(self).target_collateral_offer == old(self).target_collateral_offer,
            final(self).gas_escalator == old(self).gas_escalator,
            final(self).bump_gas_delay == old(self).bump_gas_delay,
    {
        self.pending_liquidations.insert(
            vault_id,
            PendingTransaction { is_fee_market, max_fee_per_gas, hash, submitted_at: now },
        );
    }

    /// Whether a vault, as the tracker last saw it, needs an auction
    /// started: it was read successfully, no auction-start of ours is
    /// outstanding, it is undercollateralized, and no auction owns it yet
    /// (already-running auctions are skipped, which makes the pass
    /// idempotent).
    pub open spec fn spec_should_start(self, vault_id: VaultIdType, v: Vault) -> bool {
        &&& v.is_initialized
        &&& !self.pending_liquidations@.contains_key(vault_id)
        &&& !v.is_collateralized
        &&& !v.under_auction
    }

    /// Whether `id` is a vault of `m` that needs an auction started.
    pub open spec fn spec_is_start_candidate(self, m: VaultMap, id: VaultIdType) -> bool {
        m@.contains_key(id) && self.spec_should_start(id, m@[id])
    }

    /// The vaults that need an auction started, in sorted id order.  The
    /// caller broadcasts one auction-start per returned vault and records
    /// each successful submission.
    pub fn start_auctions(&self, vaults: &VaultMap) -> (r: Vec<VaultIdType>)
        requires
            self.wf(),
            vaults.wf(),
        ensures
            ids_sorted(r@),
            forall|id: VaultIdType| #[trigger]
                r@.contains(id) <==> self.spec_is_start_candidate(*vaults, id),
    {
        let ghost keys = vaults.spec_keys();
        let mut r: Vec<VaultIdType> = Vec::new();
        let mut i: usize = 0;
        let n = vaults.len();
        while i < n
            invariant
                self.wf(),
                vaults.wf(),
                n == vaults.spec_len(),
                keys == vaults.spec_keys(),
                i <= n,
                ids_sorted(r@),
                forall|a: int|
                    0 <= a < r@.len() ==> exists|j: int|
                        0 <= j < i && keys[j] == #[trigger] r@[a],
                forall|id: VaultIdType| #[trigger]
                    r@.contains(id) <==> (keys.subrange(0, i as int).contains(id)
                        && self.spec_is_start_candidate(*vaults, id)),
            decreases n - i,
        {
            let id = vaults.key_at(i);
            let v = vaults.value_at(i);
            let ghost r0 = r@;
            let cond = v.is_initialized && !self.pending_liquidations.contains_key(id)
                && !v.is_collateralized && !v.under_auction;
            proof {
                assert(cond == self.spec_is_start_candidate(*vaults, id));
            }
            if cond {
                proof {
                    assert forall|a: int| 0 <= a < r0.len() implies r0[a] < id by {
                        let j = choose|j: int| 0 <= j < i && keys[j] == r0[a];
                        assert(keys[j] == vaults.entries@[j].0);
                        assert(keys[i as int] == vaults.entries@[i as int].0);
                        assert(vaults.entries@[j].0 < vaults.entries@[i as int].0);
                    }
                }
                r.push(id);
            }
            proof {
                let s = keys.subrange(0, i as int);
                let t = keys.subrange(0, i + 1 as int);
                assert forall|id2: VaultIdType| (#[trigger] t.contains(id2) <==> (s.contains(id2)
                    || id2 == keys[i as int])) by {
                    if t.contains(id2) {
                        let ix = choose|ix: int| 0 <= ix < t.len() && t[ix] == id2;
                        if ix < i as int {
                            assert(s[ix] == id2);
                        }
                    }
                    if s.contains(id2) {
                        let ix = choose|ix: int| 0 <= ix < s.len() && s[ix] == id2;
                        assert(t[ix] == id2);
                    }
                    if id2 == keys[i as int] {
                        assert(t[i as int] == id2);
                    }
                }
                if cond {
                    assert forall|id2: VaultIdType| (#[trigger] r@.contains(id2) <==> (t.contains(
                        id2,
                    ) && self.spec_is_start_candidate(*vaults, id2))) by {
                        assert(r@ == r0.push(id));
                        if r@.contains(id2) {
                            let ix = choose|ix: int| 0 <= ix < r@.len() && r@[ix] == id2;
                            if ix < r0.len() {
                                assert(r0[ix] == id2);
                                assert(r0.contains(id2));
                            } else {
                                assert(id2 == id);
                            }
                        }
                        if r0.contains(id2) {
                            let ix = choose|ix: int| 0 <= ix < r0.len() && r0[ix] == id2;
                            assert(r@[ix] == id2);
                            assert(r@.contains(id2));
                        }
                        if id2 == id {
                            assert(r@[r0.len() as int] == id2);
                            assert(r@.contains(id2));
                        }
                    }
                } else {
                    assert forall|id2: VaultIdType| (#[trigger] r@.contains(id2) <==> (t.contains(
                        id2,
                    ) && self.spec_is_start_candidate(*vaults, id2))) by {
                        if id2 == keys[i as int] && !s.contains(id2) {
                            assert(!self.spec_is_start_candidate(*vaults, id2));
                        }
                    }
                }
                assert forall|a: int| 0 <= a < r@.len() implies exists|j: int|
                    0 <= j < i + 1 && keys[j] == #[trigger] r@[a] by {
                    if a < r0.len() {
                        assert(r0[a] == r@[a]);
                        let j = choose|j: int| 0 <= j < i && keys[j] == r0[a];
                        assert(0 <= j < i + 1 && keys[j] == r@[a]);
                    } else {
                        assert(r@[a] == keys[i as int]);
                    }
                }
            }
            i = i + 1;
        }
        proof {
            assert(keys.subrange(0, n as int) =~= keys);
            assert forall|id: VaultIdType| (#[trigger] r@.contains(id)
                <==> self.spec_is_start_candidate(*vaults, id)) by {
                vaults.lemma_keys_contains(id);
            }
        }
        r
    }

    /// Once every candidate of one `start_auctions` pass has been recorded
    /// as pending, a second pass over the same vault map finds no candidate:
    /// at most one auction-start is submitted per vault.
    pub proof fn lemma_start_auctions_idempotent(
        s0: Liquidator,
        s1: Liquidator,
        m: VaultMap,
        id: VaultIdType,
    )
        requires
            forall|k: VaultIdType| #[trigger]
                s0.spec_is_start_candidate(m, k) ==> s1.pending_liquidations@.contains_key(k),
            forall|k: VaultIdType| #[trigger]
                s0.pending_liquidations@.contains_key(k)
                    ==> s1.pending_liquidations@.contains_key(k),
        ensures
            !s1.spec_is_start_candidate(m, id),
    {
        if s1.spec_is_start_candidate(m, id) {
            if s0.pending_liquidations@.contains_key(id) {
                assert(s1.pending_liquidations@.contains_key(id));
            } else {
                assert(s0.spec_is_start_candidate(m, id));
                assert(s1.pending_liquidations@.contains_key(id));
            }
        }
    }

    /// Register freshly observed auctions with the tracked ones and return
    /// the sorted working set for this cycle's buy pass.  Every returned
    /// auction is marked tracked; the caller then decides `buy` for each and
    /// deregisters the ones reported no longer valid.
    pub fn buy_opportunities(&mut self, new_auction_ids: Vec<VaultIdType>) -> (r: Vec<VaultIdType>)
        requires
            old(self).wf(),
        ensures
            final(self).wf(),
            ids_sorted(r@),
            forall|id: VaultIdType| #[trigger]
                r@.contains(id) <==> (new_auction_ids@.contains(id) || old(
                    self,
                ).auctions.spec_keys().contains(id)),
            forall|id: VaultIdType| #[trigger]
                final(self).auctions@.contains_key(id) <==> r@.contains(id),
            forall|id: VaultIdType| #[trigger]
                r@.contains(id) ==> final(self).auctions@[id] == true,
            final(self).pending_liquidations == old(self).pending_liquidations,
            final(self).pending_auctions == old(self).pending_auctions,
            final(self).min_ratio == old(self).min_ratio,
            final(self).gas_boost == old(self).gas_boost,
            final(self).target_collateral_offer == old(self).target_collateral_offer,
            final(self).gas_escalator == old(self).gas_escalator,
            final(self).bump_gas_delay == old(self).bump_gas_delay,
    {
        let all = crate::merge(new_auction_ids, &self.auctions);
        let ghost keys0 = self.auctions.spec_keys();
        let mut i: usize = 0;
        while i < all.len()
            invariant
                self.auctions.wf(),
                self.pending_liquidations == old(self).pending_liquidations,
                self.pending_auctions == old(self).pending_auctions,
                self.min_ratio == old(self).min_ratio,
                self.gas_boost == old(self).gas_boost,
                self.target_collateral_offer == old(self).target_collateral_offer,
                self.gas_escalator == old(self).gas_escalator,
                self.bump_gas_delay == old(self).bump_gas_delay,
                old(self).wf(),
                i <= all@.len(),
                keys0 == old(self).auctions.spec_keys(),
                crate::idmap::spec_keys_cover(self.auctions, keys0, all@, i as int),
                forall|j: int|
                    0 <= j < i ==> self.auctions@[#[trigger] all@[j]] == true,
            decreases all@.len() - i,
        {
            let id = all[i];
            let ghost pre = self.auctions;
            self.auctions.insert(id, true);
            proof {
                assert(crate::idmap::spec_keys_cover(pre, keys0, all@, i as int));
                assert(crate::idmap::spec_keys_cover(self.auctions, keys0, all@, i + 1 as int)) by {
                    assert forall|k: u128|
                        (self.auctions.spec_keys().contains(k) <==> (keys0.contains(k)
                            || all@.subrange(0, i + 1 as int).contains(k))) by {
                        let s = all@.subrange(0, i as int);
                        let t = all@.subrange(0, i + 1 as int);
                        assert(self.auctions.spec_keys().contains(k) <==> (
                        pre.spec_keys().contains(k) || k == id));
                        crate::idmap::lemma_keys_cover_elim(pre, keys0, all@, i as int, k);
                        if t.contains(k) {
                            let ix = choose|ix: int| 0 <= ix < t.len() && t[ix] == k;
                            if ix < i as int {
                                assert(s[ix] == k);
                            }
                        }
                        if s.contains(k) {
                            let ix = choose|ix: int| 0 <= ix < s.len() && s[ix] == k;
                            assert(t[ix] == k);
                        }
                        if k == id {
                            assert(t[i as int] == k);
                        }
                    }
                }
                assert forall|j: int| 0 <= j < i + 1 implies self.auctions@[#[trigger] all@[j]]
                    == true by {
                    if j < i as int {
                        if all@[j] == id {
                            assert(self.auctions@[all@[j]] == true);
                        } else {
                            assert(self.auctions@[all@[j]] == pre@[all@[j]]);
                        }
                    } else {
                        assert(self.auctions@[id] == true);
                    }
                }
            }
            i = i + 1;
        }
        proof {
            assert(all@.subrange(0, all@.len() as int) =~= all@);
            assert forall|id: VaultIdType| (#[trigger] final(self).auctions@.contains_key(id)
                <==> all@.contains(id)) by {
                crate::idmap::lemma_keys_cover_elim(
                    self.auctions,
                    keys0,
                    all@,
                    all@.len() as int,
                    id,
                );
                self.auctions.lemma_keys_contains(id);
                if keys0.contains(id) {
                    assert(all@.contains(id));
                }
            }
            assert forall|id: VaultIdType| #[trigger]
                all@.contains(id) implies final(self).auctions@[id] == true by {
                let j = choose|j: int| 0 <= j < all@.len() && all@[j] == id;
                assert(self.auctions@[all@[j]] == true);
            }
        }
        all
    }

    /// The pending map of one transaction kind.
    pub open spec fn spec_pending(self, kind: TxType) -> IdMap<PendingTransaction> {
        match kind {
            TxType::Auction => self.pending_auctions,
            TxType::Liquidation => self.pending_liquidations,
        }
    }

    /// The key of the pending entry at position `i`, for one kind.
    fn pending_key_at(&self, kind: TxType, i: usize) -> (r: VaultIdType)
        requires
            self.wf(),
            i < self.spec_pending(kind).spec_len(),
        ensures
            r == self.spec_pending(kind).spec_keys()[i as int],
            self.spec_pending(kind)@.contains_key(r),
    {
        match kind {
            TxType::Auction => self.pending_auctions.key_at(i),
            TxType::Liquidation => self.pending_liquidations.key_at(i),
        }
    }

    /// The pending entry at position `i`, for one kind.
    fn pending_value_at(&self, kind: TxType, i: usize) -> (r: PendingTransaction)
        requires
            self.wf(),
            i < self.spec_pending(kind).spec_len(),
        ensures
            r == self.spec_pending(kind)@[self.spec_pending(kind).spec_keys()[i as int]],
    {
        match kind {
            TxType::Auction => *self.pending_auctions.value_at(i),
            TxType::Liquidation => *self.pending_liquidations.value_at(i),
        }
    }

    /// Drop a tracked auction that is no longer valid on the ledger.
    pub fn deregister_auction(&mut self, vault_id: VaultIdType)
        requires
            old(self).wf(),
        ensures
            final(self).wf(),
            final(self).auctions@ == old(self).auctions@.remove(vault_id),
            final(self).pending_liquidations == old(self).pending_liquidations,
            final(self).pending_auctions == old(self).pending_auctions,
            final(self).min_ratio == old(self).min_ratio,
            final(self).gas_boost == old(self).gas_boost,
            final(self).target_collateral_offer == old(self).target_collateral_offer,
            final(self).gas_escalator == old(self).gas_escalator,
            final(self).bump_gas_delay == old(self).bump_gas_delay,
    {
        self.auctions.remove(vault_id);
    }

    /// The replacement fee cap for a transaction last broadcast with `prev`,
    /// `elapsed` seconds ago: the escalation policy applied to the previous
    /// fee (first capped to the ceiling).
    pub open spec fn spec_bump_fee(self, prev: u128, elapsed: int) -> int {
        let capped: int = if prev > self.gas_escalator.max_price {
            self.gas_escalator.max_price as int
        } else {
            prev as int
        };
        self.gas_escalator.spec_next_price(capped, elapsed)
    }

    /// What to do about one pending transaction: any shape but fee-market is
    /// a fatal configuration error; a present receipt (whatever its status)
    /// removes the entry; an absent receipt within the grace delay leaves it
    /// untouched; past the delay the fee is escalated from the stored fee
    /// and the elapsed time.
    pub open spec fn spec_bump_decision(
        self,
        e: PendingTransaction,
        receipt_present: bool,
        now: u64,
    ) -> Result<BumpAction, KeeperError> {
        if !e.is_fee_market {
            Err(KeeperError::ConfigurationError)
        } else if receipt_present {
            Ok(BumpAction::Confirmed)
        } else if spec_elapsed(now, e.submitted_at) > self.bump_gas_delay {
            Ok(
                BumpAction::Bump {
                    new_fee: self.spec_bump_fee(
                        e.max_fee_per_gas,
                        spec_elapsed(now, e.submitted_at),
                    ) as u128,
                },
            )
        } else {
            Ok(BumpAction::TooEarly)
        }
    }

    /// The rebroadcast this entry needs, if its decision is a bump.
    pub open spec fn spec_bump_request_of(
        self,
        vault_id: VaultIdType,
        e: PendingTransaction,
        now: u64,
    ) -> Option<BumpRequest> {
        match self.spec_bump_decision(e, false, now) {
            Ok(BumpAction::Bump { new_fee }) => Option::Some(BumpRequest { vault_id, new_fee }),
            _ => Option::None,
        }
    }

    /// True when one of the first `upto` pending entries justifies request
    /// `b`: its receipt was absent and its decision was a bump with exactly
    /// that fee.
    pub open spec fn spec_req_justified_at(
        self,
        m0: IdMap<PendingTransaction>,
        receipts: Seq<Option<bool>>,
        b: BumpRequest,
        now: u64,
        upto: int,
    ) -> bool {
        exists|j: int|
            #![trigger receipts[j]]
            0 <= j < upto && receipts[j] is None && self.spec_bump_request_of(
                m0.spec_keys()[j],
                m0@[m0.spec_keys()[j]],
                now,
            ) == Option::Some(b)
    }

    /// True when every collected rebroadcast request is justified by one of
    /// the first `upto` pending entries.
    pub open spec fn spec_reqs_justified(
        self,
        m0: IdMap<PendingTransaction>,
        receipts: Seq<Option<bool>>,
        reqs: Seq<BumpRequest>,
        now: u64,
        upto: int,
    ) -> bool {
        forall|a: int|
            #![trigger reqs[a]]
            0 <= a < reqs.len() ==> self.spec_req_justified_at(m0, receipts, reqs[a], now, upto)
    }

    /// A request set justified by the first `upto` entries is justified by
    /// one more.
    proof fn lemma_reqs_justified_widen(
        self,
        m0: IdMap<PendingTransaction>,
        receipts: Seq<Option<bool>>,
        reqs: Seq<BumpRequest>,
        now: u64,
        upto: int,
    )
        requires
            self.spec_reqs_justified(m0, receipts, reqs, now, upto),
        ensures
            self.spec_reqs_justified(m0, receipts, reqs, now, upto + 1),
    {
        assert forall|a: int| #![trigger reqs[a]] 0 <= a < reqs.len() implies
            self.spec_req_justified_at(m0, receipts, reqs[a], now, upto + 1) by {
            let b = reqs[a];
            assert(self.spec_req_justified_at(m0, receipts, b, now, upto));
            let j = choose|j: int|
                #![trigger receipts[j]]
                0 <= j < upto && receipts[j] is None && self.spec_bump_request_of(
                    m0.spec_keys()[j],
                    m0@[m0.spec_keys()[j]],
                    now,
                ) == Option::Some(b);
            assert(0 <= j < upto + 1 && receipts[j] is None && self.spec_bump_request_of(
                m0.spec_keys()[j],
                m0@[m0.spec_keys()[j]],
                now,
            ) == Option::Some(b));
        }
    }

    /// Pushing the request that entry `upto` itself justifies keeps the set
    /// justified.
    proof fn lemma_reqs_justified_push(
        self,
        m0: IdMap<PendingTransaction>,
        receipts: Seq<Option<bool>>,
        reqs: Seq<BumpRequest>,
        now: u64,
        upto: int,
        b: BumpRequest,
    )
        requires
            self.spec_reqs_justified(m0, receipts, reqs, now, upto),
            0 <= upto < receipts.len(),
            receipts[upto] is None,
            self.spec_bump_request_of(m0.spec_keys()[upto], m0@[m0.spec_keys()[upto]], now)
                == Option::Some(b),
        ensures
            self.spec_reqs_justified(m0, receipts, reqs.push(b), now, upto + 1),
    {
        self.lemma_reqs_justified_widen(m0, receipts, reqs, now, upto);
        let reqs1 = reqs.push(b);
        assert forall|a: int| #![trigger reqs1[a]] 0 <= a < reqs1.len() implies
            self.spec_req_justified_at(m0, receipts, reqs1[a], now, upto + 1) by {
            if a < reqs.len() {
                assert(reqs1[a] == reqs[a]);
                let v = reqs[a];
                assert(self.spec_req_justified_at(m0, receipts, v, now, upto + 1));
            } else {
                assert(reqs1[a] == b);
                assert(0 <= upto < upto + 1 && receipts[upto] is None
                    && self.spec_bump_request_of(
                    m0.spec_keys()[upto],
                    m0@[m0.spec_keys()[upto]],
                    now,
                ) == Option::Some(reqs1[a]));
            }
        }
    }

    /// Decide the lifecycle step for one pending transaction.
    pub fn bump_decision(&self, e: &PendingTransaction, receipt_present: bool, now: u64) -> (r:
        Result<BumpAction, KeeperError>)
        requires
            self.wf(),
        ensures
            r == self.spec_bump_decision(*e, receipt_present, now),
    {
        if !e.is_fee_market {
            return Err(KeeperError::ConfigurationError);
        }
        if receipt_present {
            return Ok(BumpAction::Confirmed);
        }
        let elapsed: u64 = if now >= e.submitted_at {
            now - e.submitted_at
        } else {
            0
        };
        if elapsed > self.bump_gas_delay {
            let prev = if e.max_fee_per_gas > self.gas_escalator.max_price {
                self.gas_escalator.max_price
            } else {
                e.max_fee_per_gas
            };
            let new_fee = self.gas_escalator.get_gas_price(prev, elapsed);
            Ok(BumpAction::Bump { new_fee })
        } else {
            Ok(BumpAction::TooEarly)
        }
    }

    /// Pending-transaction lifecycle, one kind at a time.  `receipts[j]`
    /// reports whether the ledger has a receipt for the `j`-th pending entry
    /// in sorted key order (and its status, which only affects logging).
    /// Entries with a receipt are removed; entries past the grace delay stay
    /// recorded but are returned as rebroadcast requests for the caller, who
    /// records each rebroadcast's outcome; the rest stay untouched.  Any
    /// non-fee-market entry is a fatal configuration error, and nothing is
    /// changed.
    pub fn remove_or_bump(&mut self, kind: TxType, receipts: &Vec<Option<bool>>, now: u64) -> (r:
        Result<Vec<BumpRequest>, KeeperError>)
        requires
            old(self).wf(),
            receipts@.len() == old(self).spec_pending(kind).spec_len(),
        ensures
            final(self).wf(),
            final(self).auctions == old(self).auctions,
            final(self).min_ratio == old(self).min_ratio,
            final(self).gas_boost == old(self).gas_boost,
            final(self).target_collateral_offer == old(self).target_collateral_offer,
            final(self).gas_escalator == old(self).gas_escalator,
            final(self).bump_gas_delay == old(self).bump_gas_delay,
            match kind {
                TxType::Auction => final(self).pending_liquidations == old(
                    self,
                ).pending_liquidations,
                TxType::Liquidation => final(self).pending_auctions == old(self).pending_auctions,
            },
            match r {
                Err(e) => {
                    &&& e == KeeperError::ConfigurationError
                    &&& *final(self) == *old(self)
                    &&& exists|j: int|
                        0 <= j < old(self).spec_pending(kind).spec_len() && !old(
                            self,
                        ).spec_pending(kind)@[#[trigger] old(self).spec_pending(kind).spec_keys()[j]].is_fee_market
                },
                Ok(reqs) => {
                    let m0 = old(self).spec_pending(kind);
                    let m1 = final(self).spec_pending(kind);
                    &&& forall|j: int|
                        0 <= j < m0.spec_len() ==> m0@[#[trigger] m0.spec_keys()[j]].is_fee_market
                    &&& forall|j: int|
                        0 <= j < m0.spec_len() && receipts@[j] is Some ==> !m1@.contains_key(
                            #[trigger] m0.spec_keys()[j],
                        )
                    &&& forall|j: int|
                        0 <= j < m0.spec_len() && receipts@[j] is None ==> m1@.contains_key(
                            #[trigger] m0.spec_keys()[j],
                        ) && m1@[m0.spec_keys()[j]] == m0@[m0.spec_keys()[j]]
                    &&& forall|k: VaultIdType| #[trigger]
                        m1@.contains_key(k) ==> m0@.contains_key(k)
                    &&& forall|j: int|
                        0 <= j < m0.spec_len() && receipts@[j] is None ==> (match old(
                            self,
                        ).spec_bump_request_of(
                            #[trigger] m0.spec_keys()[j],
                            m0@[m0.spec_keys()[j]],
                            now,
                        ) {
                            Option::Some(b) => reqs@.contains(b),
                            Option::None => true,
                        })
                    &&& old(self).spec_reqs_justified(
                        m0,
                        receipts@,
                        reqs@,
                        now,
                        m0.spec_len() as int,
                    )
                },
            },
    {
        let ghost m0 = self.spec_pending(kind);
        let ghost keys = m0.spec_keys();
        let n = match kind {
            TxType::Auction => self.pending_auctions.len(),
            TxType::Liquidation => self.pending_liquidations.len(),
        };
        // First pass: any non-fee-market entry is fatal, before anything is
        // touched.
        let mut i: usize = 0;
        while i < n
            invariant
                self.wf(),
                self == old(self),
                m0 == self.spec_pending(kind),
                n == m0.spec_len(),
                i <= n,
                forall|j: int| 0 <= j < i ==> m0@[#[trigger] m0.spec_keys()[j]].is_fee_market,
            decreases n - i,
        {
            let e = self.pending_value_at(kind, i);
            if !e.is_fee_market {
                proof {
                    assert(!m0@[m0.spec_keys()[i as int]].is_fee_market);
                    assert(exists|j: int|
                        0 <= j < m0.spec_len() && !m0@[#[trigger] m0.spec_keys()[j]].is_fee_market);
                }
                return Err(KeeperError::ConfigurationError);
            }
            i = i + 1;
        }
        // Second pass: decide each entry.
        let mut to_remove: Vec<VaultIdType> = Vec::new();
        let mut reqs: Vec<BumpRequest> = Vec::new();
        let mut i: usize = 0;
        while i < n
            invariant
                self.wf(),
                self == old(self),
                m0 == self.spec_pending(kind),
                n == m0.spec_len(),
                receipts@.len() == n,
                i <= n,
                spec_removals_justified(m0, receipts@, to_remove@, i as int),
                forall|j: int|
                    0 <= j < i && receipts@[j] is Some ==> to_remove@.contains(
                        #[trigger] m0.spec_keys()[j],
                    ),
                forall|j: int|
                    0 <= j < i && receipts@[j] is None ==> (match self.spec_bump_request_of(
                        #[trigger] m0.spec_keys()[j],
                        m0@[m0.spec_keys()[j]],
                        now,
                    ) {
                        Option::Some(b) => reqs@.contains(b),
                        Option::None => true,
                    }),
                self.spec_reqs_justified(m0, receipts@, reqs@, now, i as int),
            decreases n - i,
        {
            let k = self.pending_key_at(kind, i);
            let e = self.pending_value_at(kind, i);
            let ghost rem0 = to_remove@;
            let ghost reqs0 = reqs@;
            match receipts[i] {
                Some(_) => {
                    to_remove.push(k);
                    proof {
                        lemma_removals_justified_push(m0, receipts@, rem0, i as int);
                        assert(to_remove@ == rem0.push(m0.spec_keys()[i as int]));
                        self.lemma_reqs_justified_widen(m0, receipts@, reqs@, now, i as int);
                    }
                },
                None => {
                    match self.bump_decision(&e, false, now) {
                        Ok(BumpAction::Bump { new_fee }) => {
                            reqs.push(BumpRequest { vault_id: k, new_fee });
                            proof {
                                let b = BumpRequest { vault_id: k, new_fee };
                                assert(self.spec_bump_request_of(
                                    m0.spec_keys()[i as int],
                                    m0@[m0.spec_keys()[i as int]],
                                    now,
                                ) == Option::Some(b));
                                self.lemma_reqs_justified_push(
                                    m0,
                                    receipts@,
                                    reqs0,
                                    now,
                                    i as int,
                                    b,
                                );
                                assert(reqs@ == reqs0.push(b));
                                lemma_removals_justified_widen(m0, receipts@, to_remove@, i as int);
                            }
                        },
                        _ => {
                            proof {
                                self.lemma_reqs_justified_widen(
                                    m0,
                                    receipts@,
                                    reqs@,
                                    now,
                                    i as int,
                                );
                                lemma_removals_justified_widen(m0, receipts@, to_remove@, i as int);
                            }
                        },
                    }
                },
            }
            proof {
                assert forall|j: int|
                    0 <= j < i + 1 && receipts@[j] is None implies (match self.spec_bump_request_of(
                    #[trigger] m0.spec_keys()[j],
                    m0@[m0.spec_keys()[j]],
                    now,
                ) {
                    Option::Some(b) => reqs@.contains(b),
                    Option::None => true,
                }) by {
                    if j < i as int {
                        match self.spec_bump_request_of(
                            m0.spec_keys()[j],
                            m0@[m0.spec_keys()[j]],
                            now,
                        ) {
                            Option::Some(b) => {
                                assert(reqs0.contains(b));
                                let ix = choose|ix: int| 0 <= ix < reqs0.len() && reqs0[ix] == b;
                                assert(reqs@[ix] == b);
                            },
                            Option::None => {},
                        }
                    } else {
                        match self.spec_bump_request_of(
                            m0.spec_keys()[j],
                            m0@[m0.spec_keys()[j]],
                            now,
                        ) {
                            Option::Some(b) => {
                                assert(reqs@[reqs@.len() - 1] == b);
                            },
                            Option::None => {},
                        }
                    }
                }
                assert forall|j: int|
                    0 <= j < i + 1 && receipts@[j] is Some implies to_remove@.contains(
                    #[trigger] m0.spec_keys()[j],
                ) by {
                    if j < i as int {
                        assert(rem0.contains(m0.spec_keys()[j]));
                        let ix = choose|ix: int| 0 <= ix < rem0.len() && rem0[ix] == m0.spec_keys()[j];
                        assert(to_remove@[ix] == m0.spec_keys()[j]);
                    } else {
                        assert(to_remove@[to_remove@.len() - 1] == m0.spec_keys()[j]);
                    }
                }
            }
            i = i + 1;
        }
        // Third pass: remove the confirmed entries.
        let mut a: usize = 0;
        proof {
            assert(to_remove@.subrange(0, 0) =~= Seq::<u128>::empty());
            assert(crate::idmap::spec_submap_minus(self.spec_pending(kind), m0, to_remove@, 0));
        }
        while a < to_remove.len()
            invariant
                self.spec_pending(kind).wf(),
                self.auctions == old(self).auctions,
                self.min_ratio == old(self).min_ratio,
                self.gas_boost == old(self).gas_boost,
                self.target_collateral_offer == old(self).target_collateral_offer,
                self.gas_escalator == old(self).gas_escalator,
                self.bump_gas_delay == old(self).bump_gas_delay,
                match kind {
                    TxType::Auction => self.pending_liquidations == old(self).pending_liquidations,
                    TxType::Liquidation => self.pending_auctions == old(self).pending_auctions,
                },
                m0 == old(self).spec_pending(kind),
                a <= to_remove@.len(),
                crate::idmap::spec_submap_minus(self.spec_pending(kind), m0, to_remove@, a as int),
            decreases to_remove@.len() - a,
        {
            let k = to_remove[a];
            let ghost pre = self.spec_pending(kind);
            match kind {
                TxType::Auction => self.pending_auctions.remove(k),
                TxType::Liquidation => self.pending_liquidations.remove(k),
            };
            proof {
                crate::idmap::lemma_submap_minus_elim(pre, m0, to_remove@, a as int, k);
                let m1 = self.spec_pending(kind);
                assert(m1@ == pre@.remove(k));
                assert forall|k2: u128|
                    (m1@.contains_key(k2) <==> (m0@.contains_key(k2) && !to_remove@.subrange(
                        0,
                        a + 1 as int,
                    ).contains(k2))) by {
                    crate::idmap::lemma_submap_minus_elim(pre, m0, to_remove@, a as int, k2);
                    let s = to_remove@.subrange(0, a as int);
                    let t = to_remove@.subrange(0, a + 1 as int);
                    if t.contains(k2) {
                        let ix = choose|ix: int| 0 <= ix < t.len() && t[ix] == k2;
                        if ix < a as int {
                            assert(s[ix] == k2);
                        } else {
                            assert(k2 == k);
                        }
                    }
                    if s.contains(k2) {
                        let ix = choose|ix: int| 0 <= ix < s.len() && s[ix] == k2;
                        assert(t[ix] == k2);
                    }
                    if k2 == k {
                        assert(t[a as int] == k2);
                    }
                }
                assert forall|k2: u128| #[trigger] m1@.contains_key(k2) implies m1@[k2]
                    == m0@[k2] by {
                    crate::idmap::lemma_submap_minus_elim(pre, m0, to_remove@, a as int, k2);
                    assert(m1@[k2] == pre@[k2]);
                }
            }
            a = a + 1;
        }
        proof {
            let m1 = self.spec_pending(kind);
            assert(to_remove@.subrange(0, to_remove@.len() as int) =~= to_remove@);
            assert forall|j: int|
                0 <= j < m0.spec_len() && receipts@[j] is Some implies !m1@.contains_key(
                #[trigger] m0.spec_keys()[j],
            ) by {
                crate::idmap::lemma_submap_minus_elim(
                    m1,
                    m0,
                    to_remove@,
                    to_remove@.len() as int,
                    m0.spec_keys()[j],
                );
                assert(to_remove@.contains(m0.spec_keys()[j]));
            }
            assert forall|j: int|
                0 <= j < m0.spec_len() && receipts@[j] is None implies m1@.contains_key(
                #[trigger] m0.spec_keys()[j],
            ) && m1@[m0.spec_keys()[j]] == m0@[m0.spec_keys()[j]] by {
                let kj = m0.spec_keys()[j];
                crate::idmap::lemma_submap_minus_elim(m1, m0, to_remove@, to_remove@.len() as int, kj);
                assert(!to_remove@.contains(kj)) by {
                    if to_remove@.contains(kj) {
                        let ax = choose|ax: int| 0 <= ax < to_remove@.len() && to_remove@[ax] == kj;
                        let w = to_remove@[ax];
                        assert(spec_removal_justified_at(m0, receipts@, w, n as int));
                        let j2 = choose|j2: int|
                            #![trigger receipts@[j2]]
                            0 <= j2 < n && m0.spec_keys()[j2] == w && receipts@[j2] is Some;
                        assert(m0.spec_keys()[j2] == kj);
                        if j2 != j {
                            assert(m0.entries@[j2].0 != m0.entries@[j].0);
                        }
                    }
                };
                assert(m0@.contains_key(kj)) by {
                    m0.lemma_key_index(j, kj);
                };
            }
            assert forall|k: VaultIdType| #[trigger] m1@.contains_key(k) implies m0@.contains_key(
                k,
            ) by {
                crate::idmap::lemma_submap_minus_elim(m1, m0, to_remove@, to_remove@.len() as int, k);
            }
        }
        Ok(reqs)
    }

    /// Record the outcome of a requested rebroadcast: on success the entry
    /// keeps its submission instant but carries the new fee cap and hash; on
    /// failure it is dropped, so a failing transaction is never retried
    /// forever and the condition is reconsidered next cycle.
    pub fn record_bump_result(
        &mut self,
        kind: TxType,
        vault_id: VaultIdType,
        new_fee: u128,
        outcome: Option<TxHash>,
    )
        requires
            old(self).wf(),
            old(self).spec_pending(kind)@.contains_key(vault_id),
        ensures
            final(self).wf(),
            final(self).auctions == old(self).auctions,
            final(self).min_ratio == old(self).min_ratio,
            final(self).gas_boost == old(self).gas_boost,
            final(self).target_collateral_offer == old(self).target_collateral_offer,
            final(self).gas_escalator == old(self).gas_escalator,
            final(self).bump_gas_delay == old(self).bump_gas_delay,
            match kind {
                TxType::Auction => final(self).pending_liquidations == old(
                    self,
                ).pending_liquidations,
                TxType::Liquidation => final(self).pending_auctions == old(self).pending_auctions,
            },
            match outcome {
                Option::Some(h) => final(self).spec_pending(kind)@ == old(self).spec_pending(
                    kind,
                )@.insert(
                    vault_id,
                    PendingTransaction {
                        is_fee_market: old(self).spec_pending(kind)@[vault_id].is_fee_market,
                        max_fee_per_gas: new_fee,
                        hash: h,
                        submitted_at: old(self).spec_pending(kind)@[vault_id].submitted_at,
                    },
                ),
                Option::None => final(self).spec_pending(kind)@ == old(self).spec_pending(
                    kind,
                )@.remove(vault_id),
            },
    {
        match outcome {
            Some(h) => {
                let e = match kind {
                    TxType::Auction => *self.pending_auctions.get(vault_id).unwrap(),
                    TxType::Liquidation => *self.pending_liquidations.get(vault_id).unwrap(),
                };
                let updated = PendingTransaction {
                    is_fee_market: e.is_fee_market,
                    max_fee_per_gas: new_fee,
                    hash: h,
                    submitted_at: e.submitted_at,
                };
                match kind {
                    TxType::Auction => self.pending_auctions.insert(vault_id, updated),
                    TxType::Liquidation => self.pending_liquidations.insert(vault_id, updated),
                };
            },
            None => {
                match kind {
                    TxType::Auction => self.pending_auctions.remove(vault_id),
                    TxType::Liquidation => self.pending_liquidations.remove(vault_id),
                };
            },
        }
    }

    /// Pending-transaction lifecycle: a present receipt always confirms (the
    /// entry is removed by `remove_or_bump`), and an absent receipt past the
    /// grace delay yields a rebroadcast at a strictly higher fee, provided
    /// the fee can still grow: it is under the ceiling, one escalation
    /// interval fits in the delay, and the fee is large enough that one
    /// growth step gains at least one unit.
    pub proof fn lemma_pending_lifecycle(self, e: PendingTransaction, now: u64)
        requires
            self.wf(),
            e.is_fee_market,
        ensures
            self.spec_bump_decision(e, true, now) == Ok::<BumpAction, KeeperError>(
                BumpAction::Confirmed,
            ),
            (spec_elapsed(now, e.submitted_at) > self.bump_gas_delay
                && self.gas_escalator.every_secs <= self.bump_gas_delay && e.max_fee_per_gas
                < self.gas_escalator.max_price && e.max_fee_per_gas * (
            self.gas_escalator.coefficient_num - self.gas_escalator.coefficient_den)
                >= self.gas_escalator.coefficient_den) ==> (match self.spec_bump_decision(
                e,
                false,
                now,
            ) {
                Ok(BumpAction::Bump { new_fee }) => new_fee > e.max_fee_per_gas,
                _ => false,
            }),
    {
        let elapsed = spec_elapsed(now, e.submitted_at);
        if elapsed > self.bump_gas_delay && self.gas_escalator.every_secs <= self.bump_gas_delay
            && e.max_fee_per_gas < self.gas_escalator.max_price && e.max_fee_per_gas * (
        self.gas_escalator.coefficient_num - self.gas_escalator.coefficient_den)
            >= self.gas_escalator.coefficient_den {
            self.gas_escalator.lemma_next_price_strict(e.max_fee_per_gas as int, elapsed);
            self.gas_escalator.lemma_next_price_le_ceiling(e.max_fee_per_gas as int, elapsed);
            self.gas_escalator.lemma_next_price_ge(e.max_fee_per_gas as int, elapsed);
        }
    }
}

} // verus!
