//! Properties of the mint engine and the registry, proved over the model.
use vstd::prelude::*;
use crate::asset::{lemma_record_round_trip, AssetId, AssetTransfer};
use crate::mint::{
    burn_total, check_transfers, lemma_check_error_persists, transfer_fault, valid_monkey, MintError,
    MintModel, BANANA_CAP, MONKEY_PER_BURN,
};

verus! {

/// A mint never takes the supply above the cap: from a state within the cap,
/// every outcome stays within it, and a successful mint raises the supply by
/// exactly the amount it emits.
pub proof fn lemma_mint_keeps_supply_within_cap(
    m: MintModel,
    transfers: Seq<AssetTransfer>,
    txid: Seq<u8>,
    block: Seq<u8>,
    myself: AssetId,
)
    requires
        m.supply <= BANANA_CAP,
    ensures
        m.mint(transfers, txid, block, myself).1.supply <= BANANA_CAP,
        m.mint(transfers, txid, block, myself).0 is Ok ==> m.mint(transfers, txid, block, myself).1.supply
            == m.supply + m.mint(transfers, txid, block, myself).0->Ok_0.value,
        m.mint(transfers, txid, block, myself).0 is Err ==> m.mint(transfers, txid, block, myself).1.supply
            == m.supply,
{
}

/// Once a call with attached transfers has run for a transaction identifier
/// (or the identifier was already used), any later call with the same
/// identifier fails with `AlreadyMinted` and changes nothing, whatever it carries.
pub proof fn lemma_replay_rejected(
    m: MintModel,
    first: Seq<AssetTransfer>,
    second: Seq<AssetTransfer>,
    txid: Seq<u8>,
    block1: Seq<u8>,
    block2: Seq<u8>,
    myself1: AssetId,
    myself2: AssetId,
)
    requires
        first.len() > 0 || m.used.contains(txid),
    ensures
        ({
            let after = m.mint(first, txid, block1, myself1).1;
            &&& after.mint(second, txid, block2, myself2).0 == Err::<AssetTransfer, MintError>(MintError::AlreadyMinted)
            &&& after.mint(second, txid, block2, myself2).1 == after
        }),
{
    let after = m.mint(first, txid, block1, myself1).1;
    assert(after.used.contains(txid));
}

/// With valid transfers whose yield brings the supply to exactly the cap the
/// mint succeeds; where it would bring it one unit past, it fails with
/// `CapExceeded`.
pub proof fn lemma_cap_boundary(
    m: MintModel,
    transfers: Seq<AssetTransfer>,
    txid: Seq<u8>,
    block: Seq<u8>,
    myself: AssetId,
)
    requires
        !m.used.contains(txid),
        transfers.len() > 0,
        burn_total(m.whitelist, transfers, block, txid) is Ok,
    ensures
        m.supply + burn_total(m.whitelist, transfers, block, txid)->Ok_0 == BANANA_CAP ==> {
            &&& m.mint(transfers, txid, block, myself).0 is Ok
            &&& m.mint(transfers, txid, block, myself).1.supply == BANANA_CAP
        },
        m.supply + burn_total(m.whitelist, transfers, block, txid)->Ok_0 == BANANA_CAP + 1
            ==> m.mint(transfers, txid, block, myself).0 == Err::<AssetTransfer, MintError>(MintError::CapExceeded),
{
}

/// Where every transfer among the first `n` either passes or fails with `e`,
/// checking them passes or fails with `e`.
proof fn lemma_prefix_faults_only(whitelist: Seq<u128>, transfers: Seq<AssetTransfer>, n: nat, e: MintError)
    requires
        n <= transfers.len(),
        forall|j: int|
            0 <= j < n ==> #[trigger] transfer_fault(whitelist, transfers[j]) is None || transfer_fault(
                whitelist,
                transfers[j],
            ) == Some(e),
    ensures
        check_transfers(whitelist, transfers, n) is Ok || check_transfers(whitelist, transfers, n) == Err::<
            (),
            MintError,
        >(e),
    decreases n,
{
    if n > 0 {
        lemma_prefix_faults_only(whitelist, transfers, (n - 1) as nat, e);
    }
}

/// A transfer of an id outside the collectible class or the whitelist fails the
/// call with `InvalidAsset`, whatever valid transfers stand around it, unless
/// a transfer before it fails first on its amount.
pub proof fn lemma_invalid_asset_rejected(
    m: MintModel,
    transfers: Seq<AssetTransfer>,
    txid: Seq<u8>,
    block: Seq<u8>,
    myself: AssetId,
    k: int,
)
    requires
        !m.used.contains(txid),
        0 <= k < transfers.len(),
        !valid_monkey(m.whitelist, transfers[k].id),
        forall|j: int|
            0 <= j < k ==> #[trigger] transfers[j].value == MONKEY_PER_BURN || !valid_monkey(m.whitelist, transfers[j].id),
    ensures
        m.mint(transfers, txid, block, myself).0 == Err::<AssetTransfer, MintError>(MintError::InvalidAsset),
{
    assert forall|j: int| 0 <= j < k implies #[trigger] transfer_fault(m.whitelist, transfers[j]) is None
        || transfer_fault(m.whitelist, transfers[j]) == Some(MintError::InvalidAsset) by {
        assert(transfers[j].value == MONKEY_PER_BURN || !valid_monkey(m.whitelist, transfers[j].id));
    }
    lemma_prefix_faults_only(m.whitelist, transfers, k as nat, MintError::InvalidAsset);
    assert(check_transfers(m.whitelist, transfers, (k + 1) as nat) == Err::<(), MintError>(MintError::InvalidAsset));
    lemma_check_error_persists(m.whitelist, transfers, (k + 1) as nat, transfers.len(), MintError::InvalidAsset);
}

/// A transfer of a valid collectible whose amount is not the burn unit fails
/// the call with `WrongBurnAmount`, unless a transfer before it fails first on
/// its id.
pub proof fn lemma_wrong_amount_rejected(
    m: MintModel,
    transfers: Seq<AssetTransfer>,
    txid: Seq<u8>,
    block: Seq<u8>,
    myself: AssetId,
    k: int,
)
    requires
        !m.used.contains(txid),
        0 <= k < transfers.len(),
        transfers[k].value != MONKEY_PER_BURN,
        forall|j: int| 0 <= j <= k ==> valid_monkey(m.whitelist, #[trigger] transfers[j].id),
    ensures
        m.mint(transfers, txid, block, myself).0 == Err::<AssetTransfer, MintError>(MintError::WrongBurnAmount),
{
    assert forall|j: int| 0 <= j < k implies #[trigger] transfer_fault(m.whitelist, transfers[j]) is None
        || transfer_fault(m.whitelist, transfers[j]) == Some(MintError::WrongBurnAmount) by {
        assert(valid_monkey(m.whitelist, transfers[j].id));
    }
    assert(valid_monkey(m.whitelist, transfers[k].id));
    lemma_prefix_faults_only(m.whitelist, transfers, k as nat, MintError::WrongBurnAmount);
    assert(check_transfers(m.whitelist, transfers, (k + 1) as nat) == Err::<(), MintError>(MintError::WrongBurnAmount));
    lemma_check_error_persists(m.whitelist, transfers, (k + 1) as nat, transfers.len(), MintError::WrongBurnAmount);
}

/// A call with no attached transfers changes nothing, and fails with
/// `EmptyInput` unless its identifier was already used.
pub proof fn lemma_empty_input_rejected(m: MintModel, txid: Seq<u8>, block: Seq<u8>, myself: AssetId)
    ensures
        m.mint(Seq::empty(), txid, block, myself).1 == m,
        !m.used.contains(txid) ==> m.mint(Seq::empty(), txid, block, myself).0
            == Err::<AssetTransfer, MintError>(MintError::EmptyInput),
{
}

/// Pushing an id returns the new count, a lookup of the top then gives the id
/// back, and a pop returns it and restores the count (the count must have room
/// to grow).
pub proof fn lemma_registry_round_trip(m: MintModel, id: AssetId)
    requires
        m.count < u128::MAX,
    ensures
        m.push(id).0 == Ok::<u128, MintError>((m.count + 1) as u128),
        m.push(id).1.lookup((m.push(id).1.count - 1) as nat) == Ok::<AssetId, MintError>(id),
        m.push(id).1.pop().0 == Ok::<AssetId, MintError>(id),
        m.push(id).1.pop().1.count == m.count,
{
    lemma_record_round_trip(id);
}

/// Popping an empty registry fails with `Underflow` and changes nothing.
pub proof fn lemma_pop_empty(m: MintModel)
    requires
        m.count == 0,
    ensures
        m.pop() == (Err::<AssetId, MintError>(MintError::Underflow), m),
{
}

} // verus!
