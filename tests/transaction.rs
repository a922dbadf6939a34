use banana_mint::asset::{AssetId, AssetTransfer};
use banana_mint::mint::{BananaMint, MintError, MONKEY_BLOCK, MONKEY_PER_BURN};

fn sample_transaction(sats: u64) -> bitcoin::Transaction {
    bitcoin::Transaction {
        version: bitcoin::transaction::Version::TWO,
        lock_time: bitcoin::absolute::LockTime::ZERO,
        input: vec![bitcoin::TxIn::default()],
        output: vec![bitcoin::TxOut { value: bitcoin::Amount::from_sat(sats), script_pubkey: bitcoin::ScriptBuf::new() }],
    }
}

#[test]
fn yield_uses_the_decoded_transaction_id() {
    let tx = sample_transaction(5000);
    let raw = bitcoin::consensus::encode::serialize(&tx);
    let txid_last = bitcoin::hashes::Hash::to_byte_array(tx.compute_txid())[31];
    let mut block = vec![0u8; 80];
    block[67] = 0x5a;
    let me = AssetId { block: 2, tx: 900 };
    let mut c = BananaMint::new(vec![7], Vec::new());
    let incoming = vec![AssetTransfer { id: AssetId { block: MONKEY_BLOCK, tx: 7 }, value: MONKEY_PER_BURN }];
    let r = c.monkey_to_banana(&incoming, &raw, &block, me);
    let expected = (0x5a ^ txid_last) as u128 * 100;
    assert_eq!(r, Ok(AssetTransfer { id: me, value: expected }));
    assert_eq!(c.monkey_to_banana(&incoming, &raw, &block, me), Err(MintError::AlreadyMinted));
}

#[test]
fn undecodable_transaction_is_rejected() {
    let mut c = BananaMint::new(vec![7], Vec::new());
    let incoming = vec![AssetTransfer { id: AssetId { block: MONKEY_BLOCK, tx: 7 }, value: MONKEY_PER_BURN }];
    let r = c.monkey_to_banana(&incoming, &vec![1, 2, 3], &vec![0u8; 80], AssetId { block: 2, tx: 1 });
    assert_eq!(r, Err(MintError::InvalidTransaction));
    assert_eq!(c.total_supply(), 0);
}
