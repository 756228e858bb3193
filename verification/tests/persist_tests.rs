//! Persistence and router-output decoding.
use yield_liquidator::borrowers::Vault;
use yield_liquidator::idmap::IdMap;
use yield_liquidator::keeper::State;
use yield_liquidator::persist::{decode_state, encode_state};
use yield_liquidator::swap_router::stdout_to_swap;

fn sample_vault(id: u128, level: i128) -> Vault {
    Vault {
        vault_id: id,
        is_initialized: true,
        is_collateralized: level >= 0,
        under_auction: false,
        level,
        debt: 12345678901234567890,
        ilk_id: 7,
        series_id: 1,
    }
}

fn sample_state() -> State {
    let mut auctions: IdMap<bool> = IdMap::new();
    auctions.insert(1, true);
    auctions.insert(9, false);
    let mut vaults: IdMap<Vault> = IdMap::new();
    vaults.insert(5, sample_vault(5, -3));
    vaults.insert(7, sample_vault(7, 11));
    State { auctions, vaults, last_block: 42 }
}

#[test]
fn state_round_trips() {
    // Serialize then deserialize reproduces an identical auction registry,
    // vault map and last block.
    let st = sample_state();
    let bytes = encode_state(&st);
    let back = decode_state(&bytes).unwrap();
    assert_eq!(back.last_block, 42);
    assert_eq!(back.auctions.len(), 2);
    assert_eq!(back.auctions.get(1), Some(&true));
    assert_eq!(back.auctions.get(9), Some(&false));
    assert_eq!(back.vaults.len(), 2);
    assert_eq!(back.vaults.get(5), Some(&sample_vault(5, -3)));
    assert_eq!(back.vaults.get(7), Some(&sample_vault(7, 11)));
}

#[test]
fn empty_state_round_trips() {
    let st = State::new();
    let bytes = encode_state(&st);
    assert_eq!(bytes, b"{\"auctions\":[],\"vaults\":[],\"last_block\":0}".to_vec());
    let back = decode_state(&bytes).unwrap();
    assert_eq!(back.last_block, 0);
    assert_eq!(back.auctions.len(), 0);
    assert_eq!(back.vaults.len(), 0);
}

#[test]
fn encoding_is_readable_json() {
    let mut auctions: IdMap<bool> = IdMap::new();
    auctions.insert(3, true);
    let st = State { auctions, vaults: IdMap::new(), last_block: 7 };
    let bytes = encode_state(&st);
    assert_eq!(
        bytes,
        b"{\"auctions\":[[3,true]],\"vaults\":[],\"last_block\":7}".to_vec()
    );
}

#[test]
fn negative_levels_survive() {
    let mut vaults: IdMap<Vault> = IdMap::new();
    vaults.insert(2, sample_vault(2, i128::MIN));
    vaults.insert(3, sample_vault(3, i128::MAX));
    let st = State { auctions: IdMap::new(), vaults, last_block: 1 };
    let back = decode_state(&encode_state(&st)).unwrap();
    assert_eq!(back.vaults.get(2).unwrap().level, i128::MIN);
    assert_eq!(back.vaults.get(3).unwrap().level, i128::MAX);
}

#[test]
fn malformed_documents_are_rejected() {
    assert!(decode_state(&b"".to_vec()).is_none());
    assert!(decode_state(&b"{}".to_vec()).is_none());
    assert!(decode_state(&b"{\"auctions\":[],\"vaults\":[]}".to_vec()).is_none());
    // Trailing bytes after the document.
    assert!(decode_state(&b"{\"auctions\":[],\"vaults\":[],\"last_block\":0}x".to_vec()).is_none());
    // Entries out of ascending key order.
    assert!(decode_state(
        &b"{\"auctions\":[[9,true],[1,true]],\"vaults\":[],\"last_block\":0}".to_vec()
    )
    .is_none());
}

#[test]
fn router_output_decodes_to_calldata() {
    let out = stdout_to_swap(&b"{\"data\":\"0xdeadBEEF01\"}\n".to_vec()).unwrap();
    assert_eq!(out.calldata, vec![0xde, 0xad, 0xbe, 0xef, 0x01]);
    assert!(out.calldata.len() > 4, "calldata should be at least 4 bytes long");
}

#[test]
fn malformed_router_output_is_an_error() {
    assert!(stdout_to_swap(&b"".to_vec()).is_err());
    assert!(stdout_to_swap(&b"{\"data\":\"deadbeef\"}".to_vec()).is_err());
    // An odd number of hex digits.
    assert!(stdout_to_swap(&b"{\"data\":\"0xabc\"}".to_vec()).is_err());
    // Trailing bytes that are not whitespace.
    assert!(stdout_to_swap(&b"{\"data\":\"0xab\"}junk".to_vec()).is_err());
    // The empty payload is still well-formed.
    let empty = stdout_to_swap(&b"{\"data\":\"0x\"}".to_vec()).unwrap();
    assert!(empty.calldata.is_empty());
}

#[test]
fn handwritten_document_decodes() {
    let doc = b"{\"auctions\":[[4,true]],\"vaults\":[[6,[6,true,false,false,-2,77,7,1]]],\"last_block\":9}".to_vec();
    let st = decode_state(&doc).unwrap();
    assert_eq!(st.last_block, 9);
    assert_eq!(st.auctions.get(4), Some(&true));
    let v = st.vaults.get(6).unwrap();
    assert_eq!(v.vault_id, 6);
    assert!(v.is_initialized);
    assert!(!v.is_collateralized);
    assert_eq!(v.level, -2);
    assert_eq!(v.debt, 77);
    assert_eq!(v.ilk_id, 7);
    assert_eq!(v.series_id, 1);
    // Re-encoding gives back the same canonical bytes.
    assert_eq!(encode_state(&st), doc);
}
