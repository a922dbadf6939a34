use banana_mint::asset::{decode_record, encode_record, AssetId};
use banana_mint::codec::{u128_from_le, u128_le_bytes};
use banana_mint::mint::{BananaMint, MintError, BANANA_CAP, BANANA_PER_MINT};

fn contract() -> BananaMint {
    BananaMint::new(vec![7], vec![1, 2, 3])
}

#[test]
fn push_then_lookup_top() {
    let mut c = contract();
    let id = AssetId { block: 2, tx: 614 };
    assert_eq!(c.add_instance(&id), Ok(1));
    assert_eq!(c.lookup_instance(c.instances_count() - 1), Ok(id));
}

#[test]
fn push_then_pop_restores_count() {
    let mut c = contract();
    let a = AssetId { block: 2, tx: 1 };
    let b = AssetId { block: u128::MAX, tx: 1 << 100 };
    assert_eq!(c.add_instance(&a), Ok(1));
    assert_eq!(c.add_instance(&b), Ok(2));
    assert_eq!(c.pop_instance(), Ok(b));
    assert_eq!(c.instances_count(), 1);
    assert_eq!(c.pop_instance(), Ok(a));
    assert_eq!(c.instances_count(), 0);
}

#[test]
fn pop_empty_underflows() {
    let mut c = contract();
    assert_eq!(c.pop_instance(), Err(MintError::Underflow));
    assert_eq!(c.instances_count(), 0);
}

#[test]
fn popped_slot_reads_corrupt() {
    let mut c = contract();
    c.add_instance(&AssetId { block: 2, tx: 5 }).unwrap();
    c.pop_instance().unwrap();
    assert_eq!(c.lookup_instance(0), Err(MintError::CorruptRecord));
    assert_eq!(c.lookup_instance(u128::MAX), Err(MintError::CorruptRecord));
}

#[test]
fn push_at_largest_count_overflows() {
    let mut c = contract();
    c.set_instances_count(u128::MAX);
    assert_eq!(c.add_instance(&AssetId { block: 2, tx: 5 }), Err(MintError::Overflow));
    assert_eq!(c.instances_count(), u128::MAX);
}

#[test]
fn pop_over_missing_record_is_corrupt() {
    let mut c = contract();
    c.set_instances_count(3);
    assert_eq!(c.pop_instance(), Err(MintError::CorruptRecord));
    assert_eq!(c.instances_count(), 3);
    assert_eq!(c.get_monkey_stack(), Err(MintError::CorruptRecord));
    assert_eq!(c.get_monkey_stack_json(), Err(MintError::CorruptRecord));
}

#[test]
fn record_layout_is_little_endian() {
    let r = encode_record(&AssetId { block: 2, tx: 0x0102 });
    let mut expected = vec![0u8; 32];
    expected[0] = 2;
    expected[16] = 0x02;
    expected[17] = 0x01;
    assert_eq!(r, expected);
    assert_eq!(decode_record(&r), AssetId { block: 2, tx: 0x0102 });
}

#[test]
fn u128_bytes_round_trip() {
    let n: u128 = 0x0123_4567_89ab_cdef_fedc_ba98_7654_3210;
    let b = u128_le_bytes(n);
    assert_eq!(b, n.to_le_bytes().to_vec());
    assert_eq!(u128_from_le(&b, 0), n);
    assert_eq!(u128_from_le(&[9, 1, 0, 0, 0, 0, 0, 0, 0, 0, 0, 0, 0, 0, 0, 0, 0], 1), 1);
}

#[test]
fn monkey_stack_concatenates_records() {
    let mut c = contract();
    c.add_instance(&AssetId { block: 2, tx: 7 }).unwrap();
    c.add_instance(&AssetId { block: 2, tx: 300 }).unwrap();
    let mut expected = encode_record(&AssetId { block: 2, tx: 7 });
    expected.extend(encode_record(&AssetId { block: 2, tx: 300 }));
    assert_eq!(c.get_monkey_stack(), Ok(expected));
    assert_eq!(c.get_monkey_stack_count(), 2u128.to_le_bytes().to_vec());
    assert_eq!(c.get_minted(), 2u128.to_le_bytes().to_vec());
}

#[test]
fn monkey_stack_json_lists_labels() {
    let mut c = contract();
    assert_eq!(c.get_monkey_stack_json(), Ok("[]".to_string()));
    c.add_instance(&AssetId { block: 2, tx: 7 }).unwrap();
    c.add_instance(&AssetId { block: 2, tx: 12345 }).unwrap();
    assert_eq!(c.get_monkey_stack_json(), Ok("[\"2:7\",\"2:12345\"]".to_string()));
}

#[test]
fn monkey_stack_json_after_two_pushes() {
    let mut c = contract();
    assert_eq!(c.add_instance(&AssetId { block: 2, tx: 5 }), Ok(1));
    assert_eq!(c.add_instance(&AssetId { block: 2, tx: 614 }), Ok(2));
    let json = c.get_monkey_stack_json().unwrap();
    assert_eq!(json.into_bytes(), br#"["2:5","2:614"]"#.to_vec());
}

#[test]
fn labels_are_decimal_block_colon_tx() {
    assert_eq!(banana_mint::asset::asset_label(&AssetId { block: 0, tx: u128::MAX }), format!("0:{}", u128::MAX));
    assert_eq!(banana_mint::asset::asset_label(&AssetId { block: 10, tx: 9 }), "10:9");
}

#[test]
fn read_only_queries() {
    let mut c = contract();
    c.set_total_supply(600);
    assert_eq!(c.name(), "banana");
    assert_eq!(c.symbol(), "banana");
    assert_eq!(c.get_total_supply(), 600u128.to_le_bytes().to_vec());
    assert_eq!(c.get_cap(), BANANA_CAP.to_le_bytes().to_vec());
    assert_eq!(BANANA_CAP, 5_100_000_000);
    assert_eq!(c.get_value_per_mint(), BANANA_PER_MINT.to_le_bytes().to_vec());
    assert_eq!(c.get_data(), vec![1, 2, 3]);
}

#[test]
fn supply_increase_and_decrease() {
    let mut c = contract();
    assert_eq!(c.increase_total_supply(10), Ok(()));
    assert_eq!(c.decrease_total_supply(11), Err(MintError::Underflow));
    assert_eq!(c.decrease_total_supply(4), Ok(()));
    assert_eq!(c.total_supply(), 6);
    assert_eq!(c.increase_total_supply(u128::MAX), Err(MintError::Overflow));
    assert_eq!(c.total_supply(), 6);
}
