//! Calls into bitcoin, serde_json and std formatting, with the contracts this
//! crate relies on.
use vstd::prelude::*;

verus! {

/// The identifier of the transaction serialized at the front of `raw`, as its
/// 32 hash bytes in internal order; `None` where no transaction decodes.
pub uninterp spec fn txid_of(raw: Seq<u8>) -> Option<Seq<u8>>;

/// The JSON text of an array of strings.
pub uninterp spec fn json_string_array(items: Seq<Seq<char>>) -> Seq<char>;

/// The texts of a list of strings.
pub open spec fn texts_of(v: Seq<String>) -> Seq<Seq<char>> {
    v.map_values(|s: String| s@)
}

#[verifier::external_type_specification]
#[verifier::external_body]
pub struct ExJsonError(serde_json::Error);

/// Relies on bitcoin's `consensus::encode::deserialize_partial::<Transaction>`,
/// which decodes a transaction from the front of `raw`, and on
/// `Transaction::compute_txid`, whose double SHA-256 digest has 32 bytes.
#[verifier::external_body]
pub(crate) fn decode_txid(raw: &Vec<u8>) -> (r: Option<Vec<u8>>)
    ensures
        match r {
            Some(t) => txid_of(raw@) == Some(t@) && t@.len() == 32,
            None => txid_of(raw@) is None,
        },
{
    match bitcoin::consensus::encode::deserialize_partial::<bitcoin::Transaction>(raw) {
        Ok((tx, _)) => Some(bitcoin::hashes::Hash::to_byte_array(tx.compute_txid()).to_vec()),
        Err(_) => None,
    }
}

/// Relies on `serde_json::to_string` for a `Vec<String>`: its text depends on the
/// strings alone, and it fails only where a `Serialize` impl fails or a map has
/// keys that are not strings, neither of which a list of strings has.
#[verifier::external_body]
pub(crate) fn json_of_strings(items: &Vec<String>) -> (r: Result<String, serde_json::Error>)
    ensures
        r is Ok,
        r is Ok ==> r->Ok_0@ == json_string_array(texts_of(items@)),
{
    serde_json::to_string(items)
}

/// The character of a decimal digit.
pub open spec fn digit_char(d: nat) -> char {
    if d == 0 { '0' }
    else if d == 1 { '1' }
    else if d == 2 { '2' }
    else if d == 3 { '3' }
    else if d == 4 { '4' }
    else if d == 5 { '5' }
    else if d == 6 { '6' }
    else if d == 7 { '7' }
    else if d == 8 { '8' }
    else { '9' }
}

/// `n` in decimal, without sign or leading zeros.
pub open spec fn decimal(n: nat) -> Seq<char>
    decreases n,
{
    if n < 10 {
        seq![digit_char(n)]
    } else {
        decimal(n / 10) + seq![digit_char(n % 10)]
    }
}

/// Relies on `u128::to_string`, std's `Display` for `u128`, which writes plain
/// decimal digits.
#[verifier::external_body]
pub(crate) fn decimal_string(n: u128) -> (r: String)
    ensures
        r@ == decimal(n as nat),
{
    n.to_string()
}

} // verus!
