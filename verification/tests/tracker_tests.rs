//! Vault-tracker behaviour: merging working sets, batching, assembling
//! vault records, and refreshing the vault map without ever dropping an id.
use yield_liquidator::borrowers::{Borrowers, CallResponse, ResultData, Vault, VaultRead};
use yield_liquidator::cache::ImmutableCache;
use yield_liquidator::errors::KeeperError;
use yield_liquidator::idmap::IdMap;
use yield_liquidator::merge;
use yield_liquidator::types::Address;

fn ok_data(resp: CallResponse) -> ResultData {
    ResultData { success: true, return_data: resp }
}

fn vault_responses(level: i128, art: u128, series: u64, ilk: u64, owner: Address) -> Vec<ResultData> {
    vec![
        ok_data(CallResponse::Level(level)),
        ok_data(CallResponse::Balances(art, 0)),
        ok_data(CallResponse::VaultData(Address { hi: 0, lo: 0 }, series, ilk)),
        ok_data(CallResponse::AuctionData(owner, 0)),
    ]
}

#[test]
fn idmap_insert_get_remove() {
    let mut m: IdMap<u64> = IdMap::new();
    assert_eq!(m.len(), 0);
    m.insert(5, 50);
    m.insert(1, 10);
    m.insert(3, 30);
    assert_eq!(m.len(), 3);
    assert_eq!(m.get(3), Some(&30));
    assert_eq!(m.get(4), None);
    m.insert(3, 31);
    assert_eq!(m.len(), 3);
    assert_eq!(m.get(3), Some(&31));
    assert_eq!(m.keys(), vec![1, 3, 5]);
    m.remove(3);
    assert_eq!(m.len(), 2);
    assert_eq!(m.get(3), None);
    assert_eq!(m.key_at(0), 1);
    assert_eq!(m.value_at(1), &50);
}

#[test]
fn merge_is_sorted_duplicate_free_union() {
    let mut m: IdMap<u8> = IdMap::new();
    m.insert(1, 0);
    m.insert(5, 0);
    let r = merge(vec![5, 3, 3, 9], &m);
    assert_eq!(r, vec![1, 3, 5, 9]);
    // Merging again changes nothing: idempotent under overlapping scans.
    let mut m2: IdMap<u8> = IdMap::new();
    for k in &r {
        m2.insert(*k, 0);
    }
    assert_eq!(merge(r.clone(), &m2), r);
}

#[test]
fn chunking_preserves_order_and_bounds() {
    let b = Borrowers::new(2, IdMap::new());
    let chunks = b.chunk_ids(&vec![1, 2, 3, 4, 5]);
    assert_eq!(chunks, vec![vec![1, 2], vec![3, 4], vec![5]]);
    let none = b.chunk_ids(&vec![]);
    assert!(none.is_empty());
}

#[test]
fn call_plan_is_four_reads_per_vault() {
    let b = Borrowers::new(2, IdMap::new());
    let plan = b.get_vault_info_chunk_generate_multicall_args(&vec![7, 9]);
    assert_eq!(
        plan,
        vec![
            VaultRead::Level(7),
            VaultRead::Balances(7),
            VaultRead::VaultData(7),
            VaultRead::AuctionData(7),
            VaultRead::Level(9),
            VaultRead::Balances(9),
            VaultRead::VaultData(9),
            VaultRead::AuctionData(9),
        ]
    );
}

#[test]
fn generate_vault_reads_the_four_answers() {
    let b = Borrowers::new(2, IdMap::new());
    let d = vault_responses(-3, 1000, 1, 7, Address { hi: 0, lo: 0 });
    let v = b
        .get_vault_info_generate_vault(&d[0], &d[1], &d[2], &d[3], 5)
        .unwrap();
    assert_eq!(v.vault_id, 5);
    assert!(v.is_initialized);
    assert!(!v.is_collateralized);
    assert!(!v.under_auction);
    assert_eq!(v.level, -3);
    assert_eq!(v.debt, 1000);
    assert_eq!(v.series_id, 1);
    assert_eq!(v.ilk_id, 7);
}

#[test]
fn auctioned_vault_is_flagged() {
    let b = Borrowers::new(2, IdMap::new());
    let d = vault_responses(2, 1000, 1, 7, Address { hi: 0, lo: 9 });
    let v = b
        .get_vault_info_generate_vault(&d[0], &d[1], &d[2], &d[3], 5)
        .unwrap();
    assert!(v.is_collateralized);
    assert!(v.under_auction);
}

#[test]
fn failed_read_fails_only_that_vault() {
    let b = Borrowers::new(2, IdMap::new());
    let mut d = vault_responses(1, 1000, 1, 7, Address { hi: 0, lo: 0 });
    d[1] = ResultData { success: false, return_data: CallResponse::Malformed };
    let r = b.get_vault_info_generate_vault(&d[0], &d[1], &d[2], &d[3], 5);
    assert_eq!(r, Err(KeeperError::RemoteReadError));
}

#[test]
fn parse_response_preserves_input_order() {
    let b = Borrowers::new(2, IdMap::new());
    let mut resp = vault_responses(1, 100, 1, 7, Address { hi: 0, lo: 0 });
    resp.extend(vault_responses(-1, 200, 1, 7, Address { hi: 0, lo: 0 }));
    let per_vault = b
        .get_vault_info_chunk_parse_response(&vec![5, 6], Ok(resp))
        .unwrap();
    assert_eq!(per_vault.len(), 2);
    assert_eq!(per_vault[0].as_ref().unwrap().vault_id, 5);
    assert_eq!(per_vault[1].as_ref().unwrap().vault_id, 6);
    assert!(per_vault[0].as_ref().unwrap().is_collateralized);
    assert!(!per_vault[1].as_ref().unwrap().is_collateralized);
}

#[test]
fn transport_failure_of_a_chunk_is_fatal() {
    let b = Borrowers::new(2, IdMap::new());
    let r = b.get_vault_info_chunk_parse_response(&vec![5], Err(KeeperError::RemoteReadError));
    assert_eq!(r, Err(KeeperError::ConfigurationError));
    // A response of the wrong shape is fatal too.
    let short = vault_responses(1, 100, 1, 7, Address { hi: 0, lo: 0 });
    let r2 = b.get_vault_info_chunk_parse_response(&vec![5, 6], Ok(short));
    assert_eq!(r2, Err(KeeperError::ConfigurationError));
}

fn cache() -> ImmutableCache {
    let mut series_to_base: IdMap<u64> = IdMap::new();
    series_to_base.insert(1, 7);
    ImmutableCache::new(series_to_base, IdMap::new())
}

#[test]
fn reclassify_marks_trivial_vaults_collateralized() {
    let b = Borrowers::new(2, IdMap::new());
    let c = cache();
    // Collateral asset 7 equals series 1's base asset: ignorable.
    let trivial = Vault {
        vault_id: 5,
        is_initialized: true,
        is_collateralized: false,
        under_auction: false,
        level: -1,
        debt: 10,
        ilk_id: 7,
        series_id: 1,
    };
    // Series 2 is not cached: the check cannot be answered.
    let unknown = Vault { series_id: 2, vault_id: 6, ..trivial };
    let out = b.reclassify_vaults(&c, vec![Ok(trivial), Ok(unknown)]);
    assert_eq!(out.len(), 2);
    assert!(out[0].as_ref().unwrap().is_collateralized);
    assert_eq!(out[1], Err(KeeperError::RemoteReadError));
}

#[test]
fn refresh_never_drops_an_id() {
    // Output length always equals the working-set length: a failed vault
    // becomes an uninitialized placeholder, never a gap.
    let mut b = Borrowers::new(2, IdMap::new());
    let good = Vault {
        vault_id: 2,
        is_initialized: true,
        is_collateralized: true,
        under_auction: false,
        level: 5,
        debt: 100,
        ilk_id: 7,
        series_id: 1,
    };
    let all_ids = vec![2, 4];
    let results = vec![Ok(good), Err(KeeperError::DecodeError)];
    b.update_vaults(&all_ids, &results);
    assert_eq!(b.vaults.len(), all_ids.len());
    assert_eq!(b.vaults.get(2), Some(&good));
    let placeholder = b.vaults.get(4).unwrap();
    assert!(!placeholder.is_initialized);
    assert_eq!(placeholder.vault_id, 4);
    assert_eq!(placeholder.debt, 0);
    // A later refresh overwrites in place and keeps the set complete.
    let all2 = vec![2, 3, 4];
    let results2 = vec![
        Err(KeeperError::RemoteReadError),
        Ok(Vault { vault_id: 3, ..good }),
        Ok(Vault { vault_id: 4, ..good }),
    ];
    b.update_vaults(&all2, &results2);
    assert_eq!(b.vaults.len(), 3);
    assert!(!b.vaults.get(2).unwrap().is_initialized);
    assert!(b.vaults.get(4).unwrap().is_initialized);
}

#[test]
fn oversized_batch_bound_gives_one_chunk() {
    let b = Borrowers::new(100, IdMap::new());
    assert_eq!(b.chunk_ids(&vec![1, 2, 3]), vec![vec![1, 2, 3]]);
}

#[test]
fn wrong_shaped_answer_is_a_decode_error() {
    let b = Borrowers::new(2, IdMap::new());
    let mut d = vault_responses(1, 1000, 1, 7, Address { hi: 0, lo: 0 });
    // The level slot answers with a balances payload.
    d[0] = ok_data(CallResponse::Balances(1, 2));
    let r = b.get_vault_info_generate_vault(&d[0], &d[1], &d[2], &d[3], 5);
    assert_eq!(r, Err(KeeperError::DecodeError));
    d[0] = ok_data(CallResponse::Malformed);
    let r2 = b.get_vault_info_generate_vault(&d[0], &d[1], &d[2], &d[3], 5);
    assert_eq!(r2, Err(KeeperError::DecodeError));
}
