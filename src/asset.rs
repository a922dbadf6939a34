//! Asset identifiers, attached transfers, and their 32-byte record form.
use vstd::prelude::*;
use vstd::string::StringExecFns;
use crate::outside::{decimal, decimal_string};
use crate::codec::{
    le_bytes, le_value, lemma_le_bytes_len, lemma_le_round_trip, lemma_pow256_16, u128_from_le,
    u128_le_bytes, RECORD_BYTES,
};

verus! {

/// A namespaced identifier: a token class or one collectible instance.
#[derive(Clone, Copy, Debug, PartialEq, Eq, Structural)]
pub struct AssetId {
    pub block: u128,
    pub tx: u128,
}

/// An amount of one asset attached to, or emitted by, a message.
#[derive(Clone, Copy, Debug, PartialEq, Eq, Structural)]
pub struct AssetTransfer {
    pub id: AssetId,
    pub value: u128,
}

/// The text `block:tx` of an id, both in decimal.
pub open spec fn label_text(id: AssetId) -> Seq<char> {
    decimal(id.block as nat) + seq![':'] + decimal(id.tx as nat)
}

/// The label `block:tx` of `id`.
pub fn asset_label(id: &AssetId) -> (r: String)
    ensures
        r@ == label_text(*id),
{
    let mut s = decimal_string(id.block);
    proof {
        reveal_strlit(":");
    }
    s.append(":");
    let tx = decimal_string(id.tx);
    s.append(tx.as_str());
    s
}

/// The stored form of an id: `block`, then `tx`, each as 16 little-endian bytes.
pub open spec fn record_bytes(id: AssetId) -> Seq<u8> {
    le_bytes(id.block as nat, 16) + le_bytes(id.tx as nat, 16)
}

/// The id held in a 32-byte record.
pub open spec fn record_of(b: Seq<u8>) -> AssetId {
    AssetId {
        block: le_value(b.subrange(0, 16)) as u128,
        tx: le_value(b.subrange(16, 32)) as u128,
    }
}

/// Every record has 32 bytes, and reading one back gives the id it was made from.
pub proof fn lemma_record_round_trip(id: AssetId)
    ensures
        record_bytes(id).len() == 32,
        record_of(record_bytes(id)) == id,
{
    lemma_le_bytes_len(id.block as nat, 16);
    lemma_le_bytes_len(id.tx as nat, 16);
    lemma_pow256_16();
    lemma_le_round_trip(id.block as nat, 16);
    lemma_le_round_trip(id.tx as nat, 16);
    let b = record_bytes(id);
    assert(b.subrange(0, 16) =~= le_bytes(id.block as nat, 16));
    assert(b.subrange(16, 32) =~= le_bytes(id.tx as nat, 16));
}

/// The 32-byte record of `id`.
pub fn encode_record(id: &AssetId) -> (r: Vec<u8>)
    ensures
        r@ == record_bytes(*id),
{
    let mut r = u128_le_bytes(id.block);
    let mut tx = u128_le_bytes(id.tx);
    r.append(&mut tx);
    r
}

/// The id held in the 32-byte record `b`.
pub fn decode_record(b: &Vec<u8>) -> (r: AssetId)
    requires
        b@.len() == RECORD_BYTES,
    ensures
        r == record_of(b@),
{
    let block = u128_from_le(b.as_slice(), 0);
    let tx = u128_from_le(b.as_slice(), 16);
    AssetId { block, tx }
}

} // verus!
