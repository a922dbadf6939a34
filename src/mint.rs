//! The token's state and its rules: supply ledger, replay guard, collectible
//! registry and the burn-to-mint engine.
use vstd::prelude::*;
use std::collections::HashMap;
use crate::asset::{asset_label, decode_record, label_text, encode_record, record_bytes, record_of, AssetId, AssetTransfer};
use crate::codec::{le_bytes, u128_le_bytes, RECORD_BYTES};
use crate::outside::{
    decode_txid, json_of_strings, json_string_array, texts_of, txid_of,
};

verus! {

broadcast use vstd::std_specs::hash::group_hash_axioms;

/// Block of the collectible class whose instances may be burned.
pub const MONKEY_BLOCK: u128 = 2;

/// Tokens credited for one mint unit.
pub const BANANA_PER_MINT: u128 = 25_500;

/// Number of mint units that the cap allows.
pub const BANANA_MINT: u128 = 200_000;

/// Largest total supply that may ever exist.
pub const BANANA_CAP: u128 = BANANA_MINT * BANANA_PER_MINT;

/// Amount of a collectible that each attached transfer must burn.
pub const MONKEY_PER_BURN: u128 = 1000;

/// Offset of the block byte that enters the yield.
pub const BLOCK_BYTE: usize = 67;

/// Offset of the transaction-identifier byte that enters the yield.
pub const TXID_BYTE: usize = 31;

/// Factor applied to the mixed byte to give the yield of one burn.
pub const YIELD_SCALE: u128 = 100;

/// Why an operation was rejected.
#[derive(Clone, Copy, Debug, PartialEq, Eq, Structural)]
pub enum MintError {
    Overflow,
    Underflow,
    AlreadyMinted,
    EmptyInput,
    InvalidAsset,
    WrongBurnAmount,
    CapExceeded,
    CorruptRecord,
    NotImplemented,
    InvalidTransaction,
    Serialization,
}

/// The sentence that describes each error.
pub open spec fn error_message(e: MintError) -> Seq<char> {
    match e {
        MintError::Overflow => "arithmetic overflow"@,
        MintError::Underflow => "arithmetic underflow"@,
        MintError::AlreadyMinted => "Transaction already used for mint"@,
        MintError::EmptyInput => "Must send at least 1000 Monkey to mint"@,
        MintError::InvalidAsset => "Invalid Monkey ID"@,
        MintError::WrongBurnAmount => "Not correct $monkey supplied to mint"@,
        MintError::CapExceeded => "Banana cap exceeded"@,
        MintError::CorruptRecord => "Invalid instance data length"@,
        MintError::NotImplemented => "Minting not implemented"@,
        MintError::InvalidTransaction => "transaction does not decode"@,
        MintError::Serialization => "cannot serialize the instance list"@,
    }
}

impl MintError {
    /// A sentence for the caller.
    pub fn message(&self) -> (r: &'static str)
        ensures
            r@ == error_message(*self),
    {
        match self {
            MintError::Overflow => "arithmetic overflow",
            MintError::Underflow => "arithmetic underflow",
            MintError::AlreadyMinted => "Transaction already used for mint",
            MintError::EmptyInput => "Must send at least 1000 Monkey to mint",
            MintError::InvalidAsset => "Invalid Monkey ID",
            MintError::WrongBurnAmount => "Not correct $monkey supplied to mint",
            MintError::CapExceeded => "Banana cap exceeded",
            MintError::CorruptRecord => "Invalid instance data length",
            MintError::NotImplemented => "Minting not implemented",
            MintError::InvalidTransaction => "transaction does not decode",
            MintError::Serialization => "cannot serialize the instance list",
        }
    }
}

/// What a `BananaMint` holds, as mathematical values.
pub ghost struct MintModel {
    /// Total minted supply.
    pub supply: u128,
    /// Number of registered collectible instances.
    pub count: u128,
    /// Registry records by 1-based slot; a missing slot reads as empty.
    pub slots: Map<u128, Seq<u8>>,
    /// Transaction identifiers that have minted.
    pub used: Set<Seq<u8>>,
    /// Instance numbers of the collectibles that may be burned.
    pub whitelist: Seq<u128>,
    /// The metadata image.
    pub image: Seq<u8>,
}

impl MintModel {
    pub open spec fn with_supply(self, supply: u128) -> MintModel {
        MintModel { supply, ..self }
    }

    pub open spec fn with_used(self, txid: Seq<u8>) -> MintModel {
        MintModel { used: self.used.insert(txid), ..self }
    }

    pub open spec fn with_count(self, count: u128) -> MintModel {
        MintModel { count, ..self }
    }

    pub open spec fn with_slot(self, slot: u128, record: Seq<u8>) -> MintModel {
        MintModel { slots: self.slots.insert(slot, record), ..self }
    }

    /// The id read by a zero-based lookup of `index`, in slot `index + 1`; a
    /// slot that is missing or does not hold exactly 32 bytes is corrupt.
    pub open spec fn lookup(self, index: nat) -> Result<AssetId, MintError> {
        let slot = index + 1;
        if slot <= u128::MAX && self.slots.contains_key(slot as u128) && self.slots[slot as u128].len() == 32 {
            Ok(record_of(self.slots[slot as u128]))
        } else {
            Err(MintError::CorruptRecord)
        }
    }

    /// Appending `id` to the registry: its record goes to slot `count + 1`,
    /// which becomes the count returned.
    pub open spec fn push(self, id: AssetId) -> (Result<u128, MintError>, MintModel) {
        if self.count == u128::MAX {
            (Err(MintError::Overflow), self)
        } else {
            let n = (self.count + 1) as u128;
            (Ok(n), self.with_slot(n, record_bytes(id)).with_count(n))
        }
    }

    /// Removing the top of the registry: the id in slot `count` is returned,
    /// that slot is emptied and the count drops by one.
    pub open spec fn pop(self) -> (Result<AssetId, MintError>, MintModel) {
        if self.count == 0 {
            (Err(MintError::Underflow), self)
        } else {
            match self.lookup((self.count - 1) as nat) {
                Ok(id) => (Ok(id), self.with_slot(self.count, Seq::empty()).with_count((self.count - 1) as u128)),
                Err(e) => (Err(e), self),
            }
        }
    }
}

/// Whether `id` is a collectible that may be burned: of the collectible class,
/// with a whitelisted instance number.
pub open spec fn valid_monkey(whitelist: Seq<u128>, id: AssetId) -> bool {
    id.block == MONKEY_BLOCK && whitelist.contains(id.tx)
}

/// Tokens yielded by one burn: the designated block byte XOR the designated
/// transaction-identifier byte, times the scale.
pub open spec fn burn_yield(block: Seq<u8>, txid: Seq<u8>) -> nat {
    ((block[BLOCK_BYTE as int] ^ txid[TXID_BYTE as int]) as nat) * (YIELD_SCALE as nat)
}

/// Why one attached transfer cannot be burned, if it cannot: an id that is
/// not a valid collectible, or an amount other than the burn unit.
pub open spec fn transfer_fault(whitelist: Seq<u128>, t: AssetTransfer) -> Option<MintError> {
    if !valid_monkey(whitelist, t.id) {
        Some(MintError::InvalidAsset)
    } else if t.value != MONKEY_PER_BURN {
        Some(MintError::WrongBurnAmount)
    } else {
        None
    }
}

/// Checking the first `n` transfers in order: the fault of the first one that
/// has a fault.
pub open spec fn check_transfers(whitelist: Seq<u128>, transfers: Seq<AssetTransfer>, n: nat) -> Result<
    (),
    MintError,
>
    decreases n,
{
    if n == 0 {
        Ok(())
    } else {
        match check_transfers(whitelist, transfers, (n - 1) as nat) {
            Err(e) => Err(e),
            Ok(_) => match transfer_fault(whitelist, transfers[n - 1]) {
                Some(e) => Err(e),
                None => Ok(()),
            },
        }
    }
}

/// Outcome of burning the attached transfers: the first fault in input order,
/// or the total yield, the same amount for every burn.
pub open spec fn burn_total(
    whitelist: Seq<u128>,
    transfers: Seq<AssetTransfer>,
    block: Seq<u8>,
    txid: Seq<u8>,
) -> Result<nat, MintError> {
    match check_transfers(whitelist, transfers, transfers.len()) {
        Err(e) => Err(e),
        Ok(_) => Ok(transfers.len() * burn_yield(block, txid)),
    }
}

/// Once the first `i` transfers fail, the first `n >= i` fail the same way.
pub proof fn lemma_check_error_persists(
    whitelist: Seq<u128>,
    transfers: Seq<AssetTransfer>,
    i: nat,
    n: nat,
    e: MintError,
)
    requires
        i <= n,
        check_transfers(whitelist, transfers, i) == Err::<(), MintError>(e),
    ensures
        check_transfers(whitelist, transfers, n) == Err::<(), MintError>(e),
    decreases n - i,
{
    if i < n {
        lemma_check_error_persists(whitelist, transfers, i + 1, n, e);
    }
}

impl MintModel {
    /// One burn-to-mint by transaction `txid`: the response and the next state.
    /// A used identifier and an empty list change nothing. Past those checks the
    /// identifier is marked used before the transfers are checked, and stays
    /// marked whatever follows; only a mint within the cap raises the supply.
    pub open spec fn mint(
        self,
        transfers: Seq<AssetTransfer>,
        txid: Seq<u8>,
        block: Seq<u8>,
        myself: AssetId,
    ) -> (Result<AssetTransfer, MintError>, MintModel) {
        if self.used.contains(txid) {
            (Err(MintError::AlreadyMinted), self)
        } else if transfers.len() == 0 {
            (Err(MintError::EmptyInput), self)
        } else {
            let marked = self.with_used(txid);
            match burn_total(self.whitelist, transfers, block, txid) {
                Err(e) => (Err(e), marked),
                Ok(total) => {
                    if self.supply + total > u128::MAX {
                        (Err(MintError::Overflow), marked)
                    } else if self.supply + total > BANANA_CAP {
                        (Err(MintError::CapExceeded), marked)
                    } else {
                        (
                            Ok(AssetTransfer { id: myself, value: total as u128 }),
                            marked.with_supply((self.supply + total) as u128),
                        )
                    }
                },
            }
        }
    }
}

impl MintModel {
    /// The ids in slots `1..=n`, or the error of the first slot that is not a
    /// record.
    pub open spec fn stack_ids(self, n: nat) -> Result<Seq<AssetId>, MintError>
        decreases n,
    {
        if n == 0 {
            Ok(Seq::empty())
        } else {
            match self.stack_ids((n - 1) as nat) {
                Ok(ids) => match self.lookup((n - 1) as nat) {
                    Ok(id) => Ok(ids.push(id)),
                    Err(e) => Err(e),
                },
                Err(e) => Err(e),
            }
        }
    }
}

/// The records of `ids`, one after another.
pub open spec fn records_concat(ids: Seq<AssetId>) -> Seq<u8>
    decreases ids.len(),
{
    if ids.len() == 0 {
        Seq::empty()
    } else {
        records_concat(ids.drop_last()) + record_bytes(ids.last())
    }
}

/// The `block:tx` labels of `ids`.
pub open spec fn labels_of(ids: Seq<AssetId>) -> Seq<Seq<char>> {
    ids.map_values(|id: AssetId| label_text(id))
}

/// State of the token contract.
pub struct BananaMint {
    total_supply: u128,
    instance_count: u128,
    instance_slots: HashMap<u128, Vec<u8>>,
    used_txids: Vec<Vec<u8>>,
    monkey_ids: Vec<u128>,
    image: Vec<u8>,
}

impl View for BananaMint {
    type V = MintModel;

    closed spec fn view(&self) -> MintModel {
        MintModel {
            supply: self.total_supply,
            count: self.instance_count,
            slots: self.instance_slots@.map_values(|v: Vec<u8>| v@),
            used: Set::new(
                |t: Seq<u8>| exists|i: int| 0 <= i < self.used_txids@.len() && #[trigger] self.used_txids@[i]@ == t,
            ),
            whitelist: self.monkey_ids@,
            image: self.image@,
        }
    }
}

impl BananaMint {
    /// A contract with nothing minted or registered, accepting the collectibles
    /// numbered in `monkey_ids` and answering metadata queries with `image`.
    pub fn new(monkey_ids: Vec<u128>, image: Vec<u8>) -> (r: BananaMint)
        ensures
            r@.supply == 0,
            r@.count == 0,
            r@.slots == Map::<u128, Seq<u8>>::empty(),
            r@.used == Set::<Seq<u8>>::empty(),
            r@.whitelist == monkey_ids@,
            r@.image == image@,
    {
        let r = BananaMint {
            total_supply: 0,
            instance_count: 0,
            instance_slots: HashMap::new(),
            used_txids: Vec::new(),
            monkey_ids,
            image,
        };
        assert(r@.slots =~= Map::<u128, Seq<u8>>::empty());
        assert(r@.used =~= Set::<Seq<u8>>::empty());
        r
    }

    /// Total minted supply.
    pub fn total_supply(&self) -> (r: u128)
        ensures
            r == self@.supply,
    {
        self.total_supply
    }

    /// Overwrites the total minted supply.
    pub fn set_total_supply(&mut self, v: u128)
        ensures
            final(self)@ == old(self)@.with_supply(v),
    {
        self.total_supply = v;
    }

    /// Adds `v` to the supply; fails with `Overflow` where the sum leaves 128 bits.
    /// The cap is the caller's to enforce.
    pub fn increase_total_supply(&mut self, v: u128) -> (r: Result<(), MintError>)
        ensures
            r is Err <==> old(self)@.supply + v > u128::MAX,
            r is Err ==> r == Err::<(), MintError>(MintError::Overflow) && final(self)@ == old(self)@,
            r is Ok ==> final(self)@ == old(self)@.with_supply((old(self)@.supply + v) as u128),
    {
        match self.total_supply.checked_add(v) {
            Some(t) => {
                self.set_total_supply(t);
                Ok(())
            },
            None => Err(MintError::Overflow),
        }
    }

    /// Takes `v` from the supply; fails with `Underflow` where `v` exceeds it.
    pub fn decrease_total_supply(&mut self, v: u128) -> (r: Result<(), MintError>)
        ensures
            r is Err <==> v > old(self)@.supply,
            r is Err ==> r == Err::<(), MintError>(MintError::Underflow) && final(self)@ == old(self)@,
            r is Ok ==> final(self)@ == old(self)@.with_supply((old(self)@.supply - v) as u128),
    {
        match self.total_supply.checked_sub(v) {
            Some(t) => {
                self.set_total_supply(t);
                Ok(())
            },
            None => Err(MintError::Underflow),
        }
    }

    /// Number of registered collectible instances.
    pub fn instances_count(&self) -> (r: u128)
        ensures
            r == self@.count,
    {
        self.instance_count
    }

    /// Overwrites the number of registered instances.
    pub fn set_instances_count(&mut self, count: u128)
        ensures
            final(self)@ == old(self)@.with_count(count),
    {
        self.instance_count = count;
    }

    /// Overwrites the raw record held in registry slot `slot`.
    pub fn set_instance_record(&mut self, slot: u128, record: Vec<u8>)
        ensures
            final(self)@ == old(self)@.with_slot(slot, record@),
    {
        let ghost before = self@;
        let ghost rec = record@;
        self.instance_slots.insert(slot, record);
        assert(self@.slots =~= before.slots.insert(slot, rec));
        assert(self@ =~= before.with_slot(slot, rec));
    }

    /// The raw record held in registry slot `slot`, if any was written.
    pub fn instance_record(&self, slot: u128) -> (r: Option<Vec<u8>>)
        ensures
            match r {
                Some(b) => self@.slots.contains_key(slot) && b@ == self@.slots[slot],
                None => !self@.slots.contains_key(slot),
            },
    {
        match self.instance_slots.get(&slot) {
            Some(b) => Some(b.clone()),
            None => None,
        }
    }

    /// Appends `instance_id` to the registry and returns the new count; fails
    /// with `Overflow` where the count is already the largest `u128`.
    pub fn add_instance(&mut self, instance_id: &AssetId) -> (r: Result<u128, MintError>)
        ensures
            (r, final(self)@) == old(self)@.push(*instance_id),
    {
        let count = self.instances_count();
        let new_count = match count.checked_add(1) {
            Some(n) => n,
            None => return Err(MintError::Overflow),
        };
        let bytes = encode_record(instance_id);
        self.set_instance_record(new_count, bytes);
        self.set_instances_count(new_count);
        Ok(new_count)
    }

    /// Removes and returns the top instance; fails with `Underflow` on an empty
    /// registry and with `CorruptRecord` where the top slot is not a record.
    pub fn pop_instance(&mut self) -> (r: Result<AssetId, MintError>)
        ensures
            (r, final(self)@) == old(self)@.pop(),
    {
        let count = self.instances_count();
        let new_count = match count.checked_sub(1) {
            Some(n) => n,
            None => return Err(MintError::Underflow),
        };
        let instance_id = self.lookup_instance(new_count)?;
        self.set_instance_record(count, Vec::new());
        self.set_instances_count(new_count);
        Ok(instance_id)
    }

    /// The instance at zero-based `index`, read from slot `index + 1`.
    pub fn lookup_instance(&self, index: u128) -> (r: Result<AssetId, MintError>)
        ensures
            r == self@.lookup(index as nat),
    {
        if index == u128::MAX {
            return Err(MintError::CorruptRecord);
        }
        let slot = index + 1;
        match self.instance_slots.get(&slot) {
            Some(bytes) => {
                if bytes.len() != RECORD_BYTES {
                    return Err(MintError::CorruptRecord);
                }
                Ok(decode_record(bytes))
            },
            None => Err(MintError::CorruptRecord),
        }
    }

    /// Whether `id` is a collectible that may be burned.
    pub fn is_valid_monkey(&self, id: &AssetId) -> (r: bool)
        ensures
            r == valid_monkey(self@.whitelist, *id),
    {
        if id.block != MONKEY_BLOCK {
            return false;
        }
        let mut i: usize = 0;
        while i < self.monkey_ids.len()
            invariant
                id.block == MONKEY_BLOCK,
                i <= self.monkey_ids@.len(),
                forall|j: int| 0 <= j < i ==> self.monkey_ids@[j] != id.tx,
            decreases self.monkey_ids@.len() - i,
        {
            if self.monkey_ids[i] == id.tx {
                assert(self@.whitelist == self.monkey_ids@);
                assert(self@.whitelist[i as int] == id.tx);
                return true;
            }
            i = i + 1;
        }
        false
    }

    /// Burns the attached collectibles of transaction `txid` and mints their
    /// yield: the transfer of this contract's token `myself` that results, or
    /// the first check that failed.
    pub fn mint_with_txid(
        &mut self,
        incoming: &Vec<AssetTransfer>,
        txid: &Vec<u8>,
        block: &Vec<u8>,
        myself: AssetId,
    ) -> (r: Result<AssetTransfer, MintError>)
        requires
            txid@.len() == 32,
            block@.len() > BLOCK_BYTE,
        ensures
            (r, final(self)@) == old(self)@.mint(incoming@, txid@, block@, myself),
    {
        if self.has_tx_hash(txid) {
            return Err(MintError::AlreadyMinted);
        }
        if incoming.len() == 0 {
            return Err(MintError::EmptyInput);
        }
        self.add_tx_hash(txid);
        let ghost marked = self@;
        let ghost y = burn_yield(block@, txid@);
        let mut total: u128 = 0;
        let mut i: usize = 0;
        while i < incoming.len()
            invariant
                self@ == marked,
                marked == old(self)@.with_used(txid@),
                !old(self)@.used.contains(txid@),
                txid@.len() == 32,
                block@.len() > BLOCK_BYTE,
                y == burn_yield(block@, txid@),
                y <= 25_500,
                0 < incoming@.len(),
                i <= incoming@.len(),
                check_transfers(old(self)@.whitelist, incoming@, i as nat) == Ok::<(), MintError>(()),
                total == i * y,
            decreases incoming@.len() - i,
        {
            let transfer = incoming[i];
            if !self.is_valid_monkey(&transfer.id) {
                proof {
                    lemma_check_error_persists(
                        old(self)@.whitelist, incoming@, (i + 1) as nat, incoming@.len(), MintError::InvalidAsset);
                }
                return Err(MintError::InvalidAsset);
            }
            if transfer.value != MONKEY_PER_BURN {
                proof {
                    lemma_check_error_persists(
                        old(self)@.whitelist, incoming@, (i + 1) as nat, incoming@.len(), MintError::WrongBurnAmount);
                }
                return Err(MintError::WrongBurnAmount);
            }
            let mixed: u8 = block[BLOCK_BYTE] ^ txid[TXID_BYTE];
            let value: u128 = mixed as u128 * YIELD_SCALE;
            assert(value == y);
            assert(total + value <= (i + 1) * 25_500) by (nonlinear_arith)
                requires
                    total == i * y,
                    value == y,
                    y <= 25_500,
            ;
            assert((i + 1) * 25_500 <= u128::MAX) by (nonlinear_arith)
                requires
                    i < 0x1_0000_0000_0000_0000,
            ;
            total = total + value;
            i = i + 1;
            assert(total == i * y) by (nonlinear_arith)
                requires
                    total == (i - 1) * y + y,
            ;
        }
        assert(burn_total(old(self)@.whitelist, incoming@, block@, txid@) == Ok::<nat, MintError>(total as nat));
        let supply = self.total_supply();
        let new_total = match supply.checked_add(total) {
            Some(n) => n,
            None => return Err(MintError::Overflow),
        };
        if new_total > BANANA_CAP {
            return Err(MintError::CapExceeded);
        }
        match self.increase_total_supply(total) {
            Ok(()) => {},
            Err(e) => return Err(e),
        }
        Ok(AssetTransfer { id: myself, value: total })
    }

    /// Burn-to-mint for the transaction serialized in `transaction`, at the
    /// block serialized in `block`; fails with `InvalidTransaction` where no
    /// transaction decodes.
    pub fn monkey_to_banana(
        &mut self,
        incoming: &Vec<AssetTransfer>,
        transaction: &Vec<u8>,
        block: &Vec<u8>,
        myself: AssetId,
    ) -> (r: Result<AssetTransfer, MintError>)
        requires
            block@.len() > BLOCK_BYTE,
        ensures
            match txid_of(transaction@) {
                None => r == Err::<AssetTransfer, MintError>(MintError::InvalidTransaction)
                    && final(self)@ == old(self)@,
                Some(t) => (r, final(self)@) == old(self)@.mint(incoming@, t, block@, myself),
            },
    {
        match Self::transaction_id(transaction) {
            Some(txid) => self.mint_with_txid(incoming, &txid, block, myself),
            None => Err(MintError::InvalidTransaction),
        }
    }

    /// The identifier of the transaction serialized in `transaction`, or `None`
    /// where none decodes.
    pub fn transaction_id(transaction: &Vec<u8>) -> (r: Option<Vec<u8>>)
        ensures
            match r {
                Some(t) => txid_of(transaction@) == Some(t@) && t@.len() == 32,
                None => txid_of(transaction@) is None,
            },
    {
        decode_txid(transaction)
    }

    /// The separate mint message, which is not offered.
    pub fn mint_tokens(&self) -> (r: Result<AssetTransfer, MintError>)
        ensures
            r == Err::<AssetTransfer, MintError>(MintError::NotImplemented),
    {
        Err(MintError::NotImplemented)
    }

    /// The token's name.
    pub fn name(&self) -> (r: String)
        ensures
            r@ == "banana"@,
    {
        "banana".to_owned()
    }

    /// The token's symbol.
    pub fn symbol(&self) -> (r: String)
        ensures
            r@ == "banana"@,
    {
        "banana".to_owned()
    }

    /// The total supply, as 16 little-endian bytes.
    pub fn get_total_supply(&self) -> (r: Vec<u8>)
        ensures
            r@ == le_bytes(self@.supply as nat, 16),
    {
        u128_le_bytes(self.total_supply())
    }

    /// The cap, as 16 little-endian bytes.
    pub fn get_cap(&self) -> (r: Vec<u8>)
        ensures
            r@ == le_bytes(BANANA_CAP as nat, 16),
    {
        u128_le_bytes(BANANA_CAP)
    }

    /// The number of registered instances, as 16 little-endian bytes.
    pub fn get_minted(&self) -> (r: Vec<u8>)
        ensures
            r@ == le_bytes(self@.count as nat, 16),
    {
        u128_le_bytes(self.instances_count())
    }

    /// The tokens of one mint unit, as 16 little-endian bytes.
    pub fn get_value_per_mint(&self) -> (r: Vec<u8>)
        ensures
            r@ == le_bytes(BANANA_PER_MINT as nat, 16),
    {
        u128_le_bytes(BANANA_PER_MINT)
    }

    /// The metadata image.
    pub fn get_data(&self) -> (r: Vec<u8>)
        ensures
            r@ == self@.image,
    {
        self.image.clone()
    }

    /// The number of registered instances, as 16 little-endian bytes.
    pub fn get_monkey_stack_count(&self) -> (r: Vec<u8>)
        ensures
            r@ == le_bytes(self@.count as nat, 16),
    {
        u128_le_bytes(self.instances_count())
    }

    /// The records of all registered instances, bottom first.
    pub fn get_monkey_stack(&self) -> (r: Result<Vec<u8>, MintError>)
        ensures
            match self@.stack_ids(self@.count as nat) {
                Ok(ids) => r is Ok && r->Ok_0@ == records_concat(ids),
                Err(e) => r == Err::<Vec<u8>, MintError>(e),
            },
    {
        let count = self.instances_count();
        let mut out: Vec<u8> = Vec::new();
        let ghost mut ids: Seq<AssetId> = Seq::empty();
        let mut i: u128 = 0;
        while i < count
            invariant
                count == self@.count,
                i <= count,
                self@.stack_ids(i as nat) == Ok::<Seq<AssetId>, MintError>(ids),
                out@ == records_concat(ids),
            decreases count - i,
        {
            let id = match self.lookup_instance(i) {
                Ok(id) => id,
                Err(e) => {
                    proof { lemma_stack_error_persists(self@, (i + 1) as nat, self@.count as nat, e); }
                    return Err(e);
                },
            };
            let mut bytes = encode_record(&id);
            out.append(&mut bytes);
            proof {
                let prev = ids;
                ids = ids.push(id);
                assert(ids.drop_last() =~= prev);
            }
            i = i + 1;
        }
        Ok(out)
    }

    /// The registered instances as a JSON array of `block:tx` strings, bottom
    /// first.
    pub fn get_monkey_stack_json(&self) -> (r: Result<String, MintError>)
        ensures
            match self@.stack_ids(self@.count as nat) {
                Ok(ids) => r is Ok && r->Ok_0@ == json_string_array(labels_of(ids)),
                Err(e) => r == Err::<String, MintError>(e),
            },
    {
        let count = self.instances_count();
        let mut labels: Vec<String> = Vec::new();
        let ghost mut ids: Seq<AssetId> = Seq::empty();
        let mut i: u128 = 0;
        while i < count
            invariant
                count == self@.count,
                i <= count,
                self@.stack_ids(i as nat) == Ok::<Seq<AssetId>, MintError>(ids),
                texts_of(labels@) == labels_of(ids),
            decreases count - i,
        {
            let id = match self.lookup_instance(i) {
                Ok(id) => id,
                Err(e) => {
                    proof { lemma_stack_error_persists(self@, (i + 1) as nat, self@.count as nat, e); }
                    return Err(e);
                },
            };
            let ghost before = labels@;
            let label = asset_label(&id);
            let ghost text = label@;
            labels.push(label);
            proof {
                let prev = ids;
                ids = ids.push(id);
                assert(texts_of(before).len() == labels_of(prev).len());
                assert(labels@.len() == ids.len());
                assert forall|k: int| 0 <= k < labels@.len() implies
                    texts_of(labels@)[k] == #[trigger] labels_of(ids)[k] by {
                    if k < before.len() {
                        assert(texts_of(before)[k] == labels_of(prev)[k]);
                        assert(labels@[k] == before[k]);
                        assert(ids[k] == prev[k]);
                    } else {
                        assert(labels@[k]@ == text);
                        assert(ids[k] == id);
                    }
                }
                assert(texts_of(labels@) =~= labels_of(ids));
            }
            i = i + 1;
        }
        match json_of_strings(&labels) {
            Ok(s) => Ok(s),
            Err(_) => Err(MintError::Serialization),
        }
    }

    /// Whether transaction `txid` has already minted.
    pub fn has_tx_hash(&self, txid: &Vec<u8>) -> (r: bool)
        ensures
            r == self@.used.contains(txid@),
    {
        let mut i: usize = 0;
        while i < self.used_txids.len()
            invariant
                i <= self.used_txids@.len(),
                forall|j: int| 0 <= j < i ==> self.used_txids@[j]@ != txid@,
            decreases self.used_txids@.len() - i,
        {
            if bytes_equal(&self.used_txids[i], txid) {
                assert(self@.used.contains(txid@)) by {
                    assert(self.used_txids@[i as int]@ == txid@);
                }
                return true;
            }
            i = i + 1;
        }
        false
    }

    /// Records that transaction `txid` has minted.
    pub fn add_tx_hash(&mut self, txid: &Vec<u8>)
        ensures
            final(self)@ == old(self)@.with_used(txid@),
    {
        let ghost before = self@;
        self.used_txids.push(txid.clone());
        assert(self@.used =~= before.used.insert(txid@)) by {
            let n = self.used_txids@.len() - 1;
            assert(self.used_txids@[n]@ == txid@);
            assert forall|t: Seq<u8>| before.used.contains(t) implies self@.used.contains(t) by {
                let i = choose|i: int| 0 <= i < old(self).used_txids@.len() && #[trigger] old(self).used_txids@[i]@ == t;
                assert(self.used_txids@[i] == old(self).used_txids@[i]);
            }
            assert forall|t: Seq<u8>| self@.used.contains(t) implies before.used.insert(txid@).contains(t) by {
                let i = choose|i: int| 0 <= i < self.used_txids@.len() && #[trigger] self.used_txids@[i]@ == t;
                if i < n {
                    assert(self.used_txids@[i] == old(self).used_txids@[i]);
                }
            }
        }
        assert(self@ =~= before.with_used(txid@));
    }
}

/// Once the slots up to `i` fail, the slots up to any `n >= i` fail the same way.
pub proof fn lemma_stack_error_persists(m: MintModel, i: nat, n: nat, e: MintError)
    requires
        i <= n,
        m.stack_ids(i) == Err::<Seq<AssetId>, MintError>(e),
    ensures
        m.stack_ids(n) == Err::<Seq<AssetId>, MintError>(e),
    decreases n - i,
{
    if i < n {
        lemma_stack_error_persists(m, i + 1, n, e);
    }
}

/// Whether two byte strings are equal.
pub fn bytes_equal(a: &Vec<u8>, b: &Vec<u8>) -> (r: bool)
    ensures
        r == (a@ == b@),
{
    if a.len() != b.len() {
        return false;
    }
    let mut i: usize = 0;
    while i < a.len()
        invariant
            a@.len() == b@.len(),
            i <= a@.len(),
            forall|j: int| 0 <= j < i ==> a@[j] == b@[j],
        decreases a@.len() - i,
    {
        if a[i] != b[i] {
            return false;
        }
        i = i + 1;
    }
    assert(a@ =~= b@);
    true
}

} // verus!
