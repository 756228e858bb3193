//! Auction-engine behaviour: gas escalation, the dutch-auction offer, the
//! cache classification, and the per-vault decision logic.
use yield_liquidator::borrowers::Vault;
use yield_liquidator::cache::ImmutableCache;
use yield_liquidator::errors::KeeperError;
use yield_liquidator::escalator::GeometricGasPrice;
use yield_liquidator::idmap::IdMap;
use yield_liquidator::keeper::{Keeper, PollStep};
use yield_liquidator::liquidations::{
    Auction, AuctionFetch, BumpAction, BuyDecision, Liquidator, TxType,
};
use yield_liquidator::types::{Address, TxHash};

fn escalator() -> GeometricGasPrice {
    GeometricGasPrice::new(9, 8, 5, 1000000)
}

fn liquidator() -> Liquidator {
    Liquidator::new(110, 10, 95, IdMap::new(), escalator(), 90)
}

fn vault(id: u128, level: i128, debt: u128, under_auction: bool) -> Vault {
    Vault {
        vault_id: id,
        is_initialized: true,
        is_collateralized: level >= 0,
        under_auction,
        level,
        debt,
        ilk_id: 7,
        series_id: 1,
    }
}

#[test]
fn gas_price_unchanged_at_zero_elapsed() {
    let g = escalator();
    assert_eq!(g.get_gas_price(100, 0), 100);
    assert_eq!(g.get_gas_price(100, 4), 100);
}

#[test]
fn gas_price_grows_per_interval() {
    let g = escalator();
    assert_eq!(g.get_gas_price(100, 5), 112);
    assert_eq!(g.get_gas_price(100, 10), 126);
    assert!(g.get_gas_price(100, 100) > g.get_gas_price(100, 50));
}

#[test]
fn gas_price_clamped_to_ceiling() {
    let g = escalator();
    assert_eq!(g.get_gas_price(999999, 50), 1000000);
    assert_eq!(g.get_gas_price(1000000, 1000), 1000000);
}

#[test]
fn current_offer_at_start_is_initial() {
    let liq = liquidator();
    // 50% of the collateral on offer at the start.
    assert_eq!(liq.current_offer(1000, 1000, 100, 500000000000000000), Ok(50));
}

#[test]
fn current_offer_at_end_is_whole() {
    let liq = liquidator();
    assert_eq!(liq.current_offer(1100, 1000, 100, 500000000000000000), Ok(100));
    assert_eq!(liq.current_offer(5000, 1000, 100, 500000000000000000), Ok(100));
}

#[test]
fn current_offer_interpolates() {
    let liq = liquidator();
    assert_eq!(liq.current_offer(1050, 1000, 100, 500000000000000000), Ok(75));
}

#[test]
fn current_offer_rejects_bad_inputs() {
    let liq = liquidator();
    assert_eq!(
        liq.current_offer(999, 1000, 100, 500000000000000000),
        Err(KeeperError::ConfigurationError)
    );
    assert_eq!(
        liq.current_offer(1000, 1000, 100, 2000000000000000000),
        Err(KeeperError::ConfigurationError)
    );
}

fn cache() -> ImmutableCache {
    let mut series_to_base: IdMap<u64> = IdMap::new();
    series_to_base.insert(1, 7);
    series_to_base.insert(2, 8);
    let mut thresholds: IdMap<u128> = IdMap::new();
    thresholds.insert(8, 1000);
    ImmutableCache::new(series_to_base, thresholds)
}

#[test]
fn self_collateralized_vault_always_ignored() {
    let c = cache();
    // Series 1's base asset is 7, the vault's collateral asset too.
    assert_eq!(c.is_vault_ignored(1, 7, 0), Some(true));
    assert_eq!(c.is_vault_ignored(1, 7, 1000), Some(true));
    assert_eq!(c.is_vault_ignored(1, 7, u128::MAX), Some(true));
}

#[test]
fn dust_vault_ignored_below_threshold() {
    let c = cache();
    assert_eq!(c.is_vault_ignored(2, 7, 999), Some(true));
    assert_eq!(c.is_vault_ignored(2, 7, 1000), Some(false));
}

#[test]
fn missing_threshold_is_not_ignorable() {
    let mut series_to_base: IdMap<u64> = IdMap::new();
    series_to_base.insert(1, 7);
    let c = ImmutableCache::new(series_to_base, IdMap::new());
    assert_eq!(c.is_vault_ignored(1, 9, 1), Some(false));
}

#[test]
fn unknown_series_has_no_answer() {
    let c = cache();
    assert_eq!(c.is_vault_ignored(99, 7, 1), None);
}

#[test]
fn record_base_id_fills_the_cache() {
    let mut c = cache();
    assert_eq!(c.get_base_id(5), None);
    c.record_base_id(5, 11);
    assert_eq!(c.get_base_id(5), Some(11));
    assert_eq!(c.get_asset_address(3), None);
    c.record_asset_address(3, Address { hi: 1, lo: 2 });
    assert_eq!(c.get_asset_address(3), Some(Address { hi: 1, lo: 2 }));
}

#[test]
fn one_cycle_starts_one_auction() {
    // A vault with negative health, no pending transaction and no existing
    // auction gets exactly one auction-start submission per cycle.
    let mut liq = liquidator();
    let mut vaults: IdMap<Vault> = IdMap::new();
    vaults.insert(5, vault(5, -1, 1000, false));
    let candidates = liq.start_auctions(&vaults);
    assert_eq!(candidates, vec![5]);
    liq.record_liquidation_submitted(5, true, 100, TxHash { hi: 0, lo: 1 }, 0);
    // The second pass over the unchanged vault map is a no-op.
    let again = liq.start_auctions(&vaults);
    assert!(again.is_empty());
}

#[test]
fn collateralized_and_auctioned_vaults_are_skipped() {
    let liq = liquidator();
    let mut vaults: IdMap<Vault> = IdMap::new();
    vaults.insert(1, vault(1, 3, 1000, false));
    vaults.insert(2, vault(2, -1, 1000, true));
    let mut placeholder = vault(3, -1, 1000, false);
    placeholder.is_initialized = false;
    vaults.insert(3, placeholder);
    vaults.insert(4, vault(4, -2, 500, false));
    assert_eq!(liq.start_auctions(&vaults), vec![4]);
}

fn live_auction(ratio_pct: u16, offer_good: bool) -> Auction {
    Auction {
        started: 100,
        under_auction: true,
        debt: 1000,
        base_id: 7,
        ilk_id: 9,
        ratio_pct,
        collateral_offer_is_good_enough: offer_good,
    }
}

#[test]
fn buy_waits_when_not_worth_it() {
    // Ratio above the configured minimum and the discount below target:
    // still valid, nothing submitted, the registry untouched.
    let mut liq = liquidator();
    let watched = liq.buy_opportunities(vec![5]);
    assert_eq!(watched, vec![5]);
    let d = liq.buy(5, &Ok(Some(live_auction(115, false))));
    assert_eq!(d, BuyDecision::StillValid);
    assert!(liq.auctions.contains_key(5));
    assert_eq!(liq.pending_auctions.len(), 0);
}

#[test]
fn buy_proceeds_on_low_ratio_or_good_offer() {
    let liq = liquidator();
    assert_eq!(
        liq.buy(5, &Ok(Some(live_auction(105, false)))),
        BuyDecision::Proceed { ilk_id: 9, base_id: 7, debt: 1000 }
    );
    assert_eq!(
        liq.buy(5, &Ok(Some(live_auction(115, true)))),
        BuyDecision::Proceed { ilk_id: 9, base_id: 7, debt: 1000 }
    );
}

#[test]
fn ended_auction_is_deregistered() {
    // An auction no longer active on the ledger: the decision says no
    // longer valid, and the caller removes it from the registry.
    let mut liq = liquidator();
    liq.buy_opportunities(vec![5]);
    let mut gone = live_auction(105, true);
    gone.under_auction = false;
    assert_eq!(liq.buy(5, &Ok(Some(gone))), BuyDecision::NoLongerValid);
    assert_eq!(liq.buy(5, &Ok(None)), BuyDecision::NoLongerValid);
    liq.deregister_auction(5);
    assert!(!liq.auctions.contains_key(5));
}

#[test]
fn buy_skips_pending_fetch_failure_and_zero_debt() {
    let mut liq = liquidator();
    assert_eq!(liq.buy(5, &Err(KeeperError::RemoteReadError)), BuyDecision::StillValid);
    let mut zero = live_auction(105, true);
    zero.debt = 0;
    assert_eq!(liq.buy(5, &Ok(Some(zero))), BuyDecision::StillValid);
    liq.record_buy_submitted(5, true, 100, TxHash { hi: 0, lo: 2 }, 0);
    assert_eq!(liq.buy(5, &Ok(Some(live_auction(105, true)))), BuyDecision::StillValid);
}

#[test]
fn get_auction_assembles_the_record() {
    let liq = liquidator();
    let c = cache();
    let f = AuctionFetch {
        series_id: 2,
        ilk_id: 7,
        art: 5000,
        auction_owner: Address { hi: 0, lo: 9 },
        auction_start: 1000,
        duration: 100,
        initial_offer: 500000000000000000,
        ratio: Some(1050000000000000000),
    };
    // Offer at start+96 is 98%, above the target of 95%.
    let a = liq.get_auction(&c, &f, 1096).unwrap().unwrap();
    assert_eq!(a.started, 1000);
    assert!(a.under_auction);
    assert_eq!(a.debt, 5000);
    assert_eq!(a.base_id, 8);
    assert_eq!(a.ilk_id, 7);
    assert_eq!(a.ratio_pct, 105);
    assert!(a.collateral_offer_is_good_enough);
}

#[test]
fn get_auction_filters_ignorable_vaults() {
    let liq = liquidator();
    let c = cache();
    let f = AuctionFetch {
        series_id: 1,
        ilk_id: 7,
        art: 5000,
        auction_owner: Address { hi: 0, lo: 9 },
        auction_start: 1000,
        duration: 100,
        initial_offer: 500000000000000000,
        ratio: Some(1050000000000000000),
    };
    assert_eq!(liq.get_auction(&c, &f, 1096), Ok(None));
}

#[test]
fn boosted_gas_applies_percentage() {
    let liq = liquidator();
    assert_eq!(liq.boosted_gas(100), 110);
    assert_eq!(liq.boosted_gas(1000), 1100);
}

#[test]
fn receipt_removes_pending_entry() {
    let mut liq = liquidator();
    liq.record_liquidation_submitted(5, true, 100, TxHash { hi: 0, lo: 1 }, 0);
    let reqs = liq.remove_or_bump(TxType::Liquidation, &vec![Some(true)], 10).unwrap();
    assert!(reqs.is_empty());
    assert_eq!(liq.pending_liquidations.len(), 0);
}

#[test]
fn stuck_transaction_gets_strictly_higher_fee_and_new_hash() {
    let mut liq = liquidator();
    liq.record_liquidation_submitted(5, true, 100, TxHash { hi: 0, lo: 1 }, 0);
    let reqs = liq.remove_or_bump(TxType::Liquidation, &vec![None], 100).unwrap();
    assert_eq!(reqs.len(), 1);
    assert_eq!(reqs[0].vault_id, 5);
    // 20 whole escalation intervals at 9/8 from a fee of 100.
    assert_eq!(reqs[0].new_fee, 1018);
    assert!(reqs[0].new_fee > 100);
    liq.record_bump_result(TxType::Liquidation, 5, reqs[0].new_fee, Some(TxHash { hi: 0, lo: 2 }));
    let e = liq.pending_liquidations.get(5).unwrap();
    assert_eq!(e.max_fee_per_gas, 1018);
    assert_eq!(e.hash, TxHash { hi: 0, lo: 2 });
    assert_eq!(e.submitted_at, 0);
}

#[test]
fn young_transaction_is_left_alone() {
    let mut liq = liquidator();
    liq.record_liquidation_submitted(5, true, 100, TxHash { hi: 0, lo: 1 }, 0);
    let reqs = liq.remove_or_bump(TxType::Liquidation, &vec![None], 50).unwrap();
    assert!(reqs.is_empty());
    assert_eq!(liq.pending_liquidations.len(), 1);
}

#[test]
fn failed_rebroadcast_drops_the_entry() {
    let mut liq = liquidator();
    liq.record_buy_submitted(5, true, 100, TxHash { hi: 0, lo: 1 }, 0);
    let reqs = liq.remove_or_bump(TxType::Auction, &vec![None], 100).unwrap();
    assert_eq!(reqs.len(), 1);
    liq.record_bump_result(TxType::Auction, 5, reqs[0].new_fee, None);
    assert_eq!(liq.pending_auctions.len(), 0);
}

#[test]
fn non_fee_market_transaction_is_fatal() {
    let mut liq = liquidator();
    liq.record_liquidation_submitted(5, false, 100, TxHash { hi: 0, lo: 1 }, 0);
    let r = liq.remove_or_bump(TxType::Liquidation, &vec![None], 100);
    assert_eq!(r, Err(KeeperError::ConfigurationError));
    assert_eq!(liq.pending_liquidations.len(), 1);
}

#[test]
fn bump_decision_cases() {
    let liq = liquidator();
    let entry = yield_liquidator::liquidations::PendingTransaction {
        is_fee_market: true,
        max_fee_per_gas: 100,
        hash: TxHash { hi: 0, lo: 1 },
        submitted_at: 0,
    };
    assert_eq!(liq.bump_decision(&entry, true, 0), Ok(BumpAction::Confirmed));
    assert_eq!(liq.bump_decision(&entry, false, 10), Ok(BumpAction::TooEarly));
    assert_eq!(liq.bump_decision(&entry, false, 100), Ok(BumpAction::Bump { new_fee: 1018 }));
}

#[test]
fn poll_failures_become_fatal_after_ten() {
    let mut k = Keeper::new(0);
    for _ in 0..9 {
        assert_eq!(k.on_poll(false, 0), PollStep::Reinstall);
    }
    assert_eq!(k.on_poll(false, 0), PollStep::Fatal);
    // A success resets the counter.
    let mut k2 = Keeper::new(0);
    for _ in 0..5 {
        assert_eq!(k2.on_poll(false, 0), PollStep::Reinstall);
    }
    assert_eq!(k2.on_poll(true, 7), PollStep::Process);
    for _ in 0..9 {
        assert_eq!(k2.on_poll(false, 0), PollStep::Reinstall);
    }
}

#[test]
fn seen_blocks_are_skipped() {
    let mut k = Keeper::new(0);
    assert_eq!(k.on_poll(true, 7), PollStep::Process);
    assert_eq!(k.on_poll(true, 7), PollStep::SkipSeen);
    assert_eq!(k.on_poll(true, 8), PollStep::Process);
    k.advance(8);
    assert_eq!(k.last_block, 8);
}

#[test]
fn state_is_persisted_every_tenth_block() {
    let k = Keeper::new(0);
    assert!(k.should_persist(0));
    assert!(k.should_persist(20));
    assert!(!k.should_persist(21));
}

#[test]
fn buy_opportunities_merge_with_registry() {
    let mut liq = liquidator();
    liq.buy_opportunities(vec![7]);
    // A later scan unions fresh auctions with the persisted registry.
    let watched = liq.buy_opportunities(vec![3, 9]);
    assert_eq!(watched, vec![3, 7, 9]);
    assert_eq!(liq.auctions.len(), 3);
}
