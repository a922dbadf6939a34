use banana_mint::asset::{AssetId, AssetTransfer};
use banana_mint::mint::{BananaMint, MintError, BANANA_CAP, MONKEY_BLOCK, MONKEY_PER_BURN};

const MYSELF: AssetId = AssetId { block: 2, tx: 900 };

fn contract() -> BananaMint {
    BananaMint::new(vec![7, 9, 11], vec![0x89, 0x50, 0x4e, 0x47])
}

fn monkey(tx: u128) -> AssetTransfer {
    AssetTransfer { id: AssetId { block: MONKEY_BLOCK, tx }, value: MONKEY_PER_BURN }
}

fn txid_with(last: u8, seed: u8) -> Vec<u8> {
    let mut t = vec![seed; 32];
    t[31] = last;
    t
}

fn block_with(b: u8) -> Vec<u8> {
    let mut blk = vec![0u8; 80];
    blk[67] = b;
    blk
}

#[test]
fn single_burn_yields_xor_times_hundred() {
    let mut c = contract();
    let r = c.mint_with_txid(&vec![monkey(7)], &txid_with(0x03, 1), &block_with(0x05), MYSELF);
    assert_eq!(r, Ok(AssetTransfer { id: MYSELF, value: 600 }));
    assert_eq!(c.total_supply(), 600);
}

#[test]
fn each_burn_adds_the_same_yield() {
    let mut c = contract();
    let r = c.mint_with_txid(&vec![monkey(7), monkey(9), monkey(11)], &txid_with(0xff, 1), &block_with(0x0f), MYSELF);
    assert_eq!(r, Ok(AssetTransfer { id: MYSELF, value: 3 * 0xf0 * 100 }));
    assert_eq!(c.total_supply(), 72_000);
}

#[test]
fn replayed_transaction_is_rejected() {
    let mut c = contract();
    let t = txid_with(0x03, 1);
    assert!(c.mint_with_txid(&vec![monkey(7)], &t, &block_with(5), MYSELF).is_ok());
    assert_eq!(c.mint_with_txid(&vec![monkey(9)], &t, &block_with(5), MYSELF), Err(MintError::AlreadyMinted));
    assert_eq!(c.mint_with_txid(&vec![], &t, &block_with(5), MYSELF), Err(MintError::AlreadyMinted));
    assert_eq!(c.total_supply(), 600);
}

#[test]
fn failed_validation_still_marks_the_transaction() {
    let mut c = contract();
    let t = txid_with(0x03, 2);
    let bad = AssetTransfer { id: AssetId { block: 3, tx: 7 }, value: MONKEY_PER_BURN };
    assert_eq!(c.mint_with_txid(&vec![bad], &t, &block_with(5), MYSELF), Err(MintError::InvalidAsset));
    assert!(c.has_tx_hash(&t));
    assert_eq!(c.mint_with_txid(&vec![monkey(7)], &t, &block_with(5), MYSELF), Err(MintError::AlreadyMinted));
}

#[test]
fn mint_reaching_cap_exactly_succeeds() {
    let mut c = contract();
    c.set_total_supply(BANANA_CAP - 600);
    let r = c.mint_with_txid(&vec![monkey(7)], &txid_with(0x03, 3), &block_with(5), MYSELF);
    assert_eq!(r, Ok(AssetTransfer { id: MYSELF, value: 600 }));
    assert_eq!(c.total_supply(), BANANA_CAP);
}

#[test]
fn mint_one_past_cap_fails() {
    let mut c = contract();
    c.set_total_supply(BANANA_CAP - 599);
    let r = c.mint_with_txid(&vec![monkey(7)], &txid_with(0x03, 3), &block_with(5), MYSELF);
    assert_eq!(r, Err(MintError::CapExceeded));
    assert_eq!(c.total_supply(), BANANA_CAP - 599);
}

#[test]
fn supply_overflow_is_reported() {
    let mut c = contract();
    c.set_total_supply(u128::MAX - 10);
    let r = c.mint_with_txid(&vec![monkey(7)], &txid_with(0x03, 3), &block_with(5), MYSELF);
    assert_eq!(r, Err(MintError::Overflow));
}

#[test]
fn wrong_block_is_invalid_asset() {
    let mut c = contract();
    let bad = AssetTransfer { id: AssetId { block: 4, tx: 7 }, value: MONKEY_PER_BURN };
    assert_eq!(c.mint_with_txid(&vec![bad], &txid_with(1, 4), &block_with(5), MYSELF), Err(MintError::InvalidAsset));
    assert_eq!(c.total_supply(), 0);
}

#[test]
fn unlisted_instance_is_invalid_asset() {
    let mut c = contract();
    assert_eq!(c.mint_with_txid(&vec![monkey(8)], &txid_with(1, 5), &block_with(5), MYSELF), Err(MintError::InvalidAsset));
}

#[test]
fn invalid_asset_after_valid_ones_fails() {
    let mut c = contract();
    let r = c.mint_with_txid(&vec![monkey(7), monkey(9), monkey(10)], &txid_with(1, 6), &block_with(5), MYSELF);
    assert_eq!(r, Err(MintError::InvalidAsset));
    assert_eq!(c.total_supply(), 0);
}

#[test]
fn wrong_amount_fails() {
    let mut c = contract();
    let t = AssetTransfer { id: AssetId { block: MONKEY_BLOCK, tx: 7 }, value: 999 };
    assert_eq!(c.mint_with_txid(&vec![t], &txid_with(1, 7), &block_with(5), MYSELF), Err(MintError::WrongBurnAmount));
}

#[test]
fn later_transfer_with_wrong_amount_fails() {
    let mut c = contract();
    let later = AssetTransfer { id: AssetId { block: MONKEY_BLOCK, tx: 9 }, value: 999 };
    let r = c.mint_with_txid(&vec![monkey(7), later], &txid_with(0x03, 8), &block_with(5), MYSELF);
    assert_eq!(r, Err(MintError::WrongBurnAmount));
    assert_eq!(c.total_supply(), 0);
    let mut d = contract();
    let tiny = AssetTransfer { id: AssetId { block: MONKEY_BLOCK, tx: 11 }, value: 1 };
    let r = d.mint_with_txid(&vec![monkey(7), monkey(9), tiny], &txid_with(0x03, 8), &block_with(5), MYSELF);
    assert_eq!(r, Err(MintError::WrongBurnAmount));
}

#[test]
fn first_faulty_transfer_decides_the_error() {
    let wrong_amount = AssetTransfer { id: AssetId { block: MONKEY_BLOCK, tx: 7 }, value: 2000 };
    let wrong_id = AssetTransfer { id: AssetId { block: MONKEY_BLOCK, tx: 8 }, value: MONKEY_PER_BURN };
    let mut c = contract();
    let r = c.mint_with_txid(&vec![wrong_amount, wrong_id], &txid_with(0x03, 9), &block_with(5), MYSELF);
    assert_eq!(r, Err(MintError::WrongBurnAmount));
    let mut d = contract();
    let r = d.mint_with_txid(&vec![wrong_id, wrong_amount], &txid_with(0x03, 9), &block_with(5), MYSELF);
    assert_eq!(r, Err(MintError::InvalidAsset));
}

#[test]
fn empty_input_fails_without_effect() {
    let mut c = contract();
    c.set_total_supply(1234);
    let t = txid_with(1, 9);
    assert_eq!(c.mint_with_txid(&vec![], &t, &block_with(5), MYSELF), Err(MintError::EmptyInput));
    assert_eq!(c.total_supply(), 1234);
    assert!(!c.has_tx_hash(&t));
}

#[test]
fn supply_stays_within_cap_over_many_mints() {
    let mut c = contract();
    c.set_total_supply(BANANA_CAP - 5_000);
    for seed in 0u8..20 {
        let _ = c.mint_with_txid(&vec![monkey(7)], &txid_with(0xff, seed), &block_with(0), MYSELF);
        assert!(c.total_supply() <= BANANA_CAP);
    }
    assert_eq!(c.total_supply(), BANANA_CAP - 5_000);
}

#[test]
fn mint_tokens_is_not_implemented() {
    assert_eq!(contract().mint_tokens(), Err(MintError::NotImplemented));
    assert_eq!(MintError::NotImplemented.message(), "Minting not implemented");
    assert_eq!(MintError::AlreadyMinted.message(), "Transaction already used for mint");
    assert_eq!(MintError::CapExceeded.message(), "Banana cap exceeded");
}
