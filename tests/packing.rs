use bitgen::{ubits, Bit, U};

#[test]
fn lib_test_size() {
    // 4 bits so should use 1 byte
    let tuple = (false, true, false, true);
    let bit_tuple = Bit::from(tuple);
    assert_eq!(bit_tuple.byte_len(), 1);

    // 16 bits so should use 2 bytes
    let tuple = (false, ubits::<14>(1337), true);
    let bit_tuple = Bit::from(tuple);
    assert_eq!(bit_tuple.byte_len(), 2);

    // 25 bits so should use 4 bytes
    let tuple = (false, [true; 23], true);
    let bit_tuple = Bit::from(tuple);
    assert_eq!(bit_tuple.byte_len(), 4);
}

#[test]
fn main_test_size() {
    let tuple = (false, true, false, true);
    let bit_tuple = Bit::from(tuple);
    assert_eq!(bit_tuple.byte_len(), 1);

    let tuple = (false, ubits::<14>(1337), true);
    let bit_tuple = Bit::from(tuple);
    assert_eq!(bit_tuple.byte_len(), 2);

    let tuple = (false, [true; 23], true);
    let bit_tuple = Bit::from(tuple);
    assert_eq!(bit_tuple.byte_len(), 4);
}

#[test]
fn lib_test_persistence() {
    let tuple = (false, true, false, true);
    let bit_tuple = Bit::from(tuple);
    assert_eq!(tuple, bit_tuple.access().extract());

    let tuple = (true, ubits::<2>(3), true, true, true);
    let bit_tuple = Bit::from(tuple);
    assert_eq!(tuple, bit_tuple.access().extract());

    let tuple = (false, ubits::<14>(10), false, [true, false, true, true, false]);
    let bit_tuple = Bit::from(tuple);
    assert_eq!(tuple, bit_tuple.access().extract());
}

#[test]
fn main_test_persistence() {
    let tuple = (false, true, false, true);
    let bit_tuple = Bit::from(tuple);
    assert_eq!(tuple, bit_tuple.access().extract());

    let tuple = (true, ubits::<2>(3), true, true, true);
    let bit_tuple = Bit::from(tuple);
    assert_eq!(tuple, bit_tuple.access().extract());

    let tuple = (false, ubits::<14>(10), false, [true, false, true, true, false]);
    let bit_tuple = Bit::from(tuple);
    assert_eq!(tuple, bit_tuple.access().extract());
}

#[test]
fn lib_test_access() {
    let tuple = (false, true, false, true);
    let bit_tuple = Bit::from(tuple);

    assert_eq!(bit_tuple.access().get::<0>().extract(), false);
    assert_eq!(bit_tuple.access().get::<1>().extract(), true);
    assert_eq!(bit_tuple.access().get::<2>().extract(), false);
    assert_eq!(bit_tuple.access().get::<3>().extract(), true);

    let tuple = (false, true, false, [true, true, true, false, true, true]);
    let bit_tuple = Bit::from(tuple);
    assert_eq!(bit_tuple.access().get::<0>().extract(), false);
    assert_eq!(bit_tuple.access().get::<1>().extract(), true);
    assert_eq!(bit_tuple.access().get::<2>().extract(), false);
    for i in 0..6 {
        assert_eq!(bit_tuple.access().get::<3>().get_dyn(i).extract(), i != 3);
    }
}

#[test]
fn main_test_access() {
    let tuple = (false, true, false, true);
    let bit_tuple = Bit::from(tuple);

    assert_eq!(bit_tuple.access().get::<1>().extract(), true);

    let tuple = (false, true, false, [true, true, true, false, true, true]);
    let bit_tuple = Bit::from(tuple);
    assert_eq!(bit_tuple.access().get::<3>().get_dyn(3).extract(), false);
}

#[test]
fn lib_test_mutability_access() {
    let tuple = (false, true, false, true);
    let mut bit_tuple = Bit::from(tuple);

    assert_eq!(bit_tuple.access().extract(), tuple);

    bit_tuple.access_mut().get::<0>().insert(true);
    bit_tuple.access_mut().get::<2>().insert(true);

    assert_eq!(bit_tuple.access().extract(), (true, true, true, true));

    let mut tuple = (false, true, false, [false; 61]);
    let mut bit_tuple = Bit::from(tuple);

    tuple.3[32] = true;
    bit_tuple.access_mut().get::<3>().get_dyn(32).insert(true);

    assert_eq!(bit_tuple.access().get::<3>().get_dyn(32).extract(), true);

    assert_eq!(bit_tuple.access().extract(), tuple);
}

#[test]
fn main_test_mutability_access() {
    let tuple = (false, true, false, true);
    let mut bit_tuple = Bit::from(tuple);

    bit_tuple.access_mut().get::<0>().insert(true);
    bit_tuple.access_mut().get::<2>().insert(true);

    assert_eq!(bit_tuple.access().extract(), (true, true, true, true));

    let tuple = (false, true, false, [false; 61]);
    let mut bit_tuple = Bit::from(tuple);
    bit_tuple.access_mut().get::<3>().get_dyn(32).insert(true);
    assert_eq!(bit_tuple.access().get::<3>().get_dyn(32).extract(), true);
}

#[test]
fn lib_test_extreme_size() {
    let arr = [false; 1024 * 128];
    let mut bit_arr = Bit::from(arr);

    bit_arr.access_mut().get_dyn(69420).insert(true);

    assert_eq!(bit_arr.access().get_dyn(69420).extract(), true);
}

#[test]
fn main_test_extreme_size() {
    let arr = [false; 1024 * 128];
    let mut bit_arr = Bit::from(arr);

    bit_arr.access_mut().get_dyn(69420).insert(true);

    assert_eq!(bit_arr.access().get_dyn(69420).extract(), true);
}

#[test]
fn test_iterator() {
    let mut arr = [false; 32];
    for i in (0..32).step_by(3) {
        arr[i] = true;
    }

    let mut bit_arr = Bit::from(arr);
    assert_eq!(arr, bit_arr.access().extract());

    let root = bit_arr.access();
    let mut iter = root.iter();
    let mut i = 0;
    while let Some(bit) = iter.next() {
        assert_eq!(i % 3 == 0, bit.extract());
        i += 1;
    }
    assert_eq!(i, 32);
    assert_eq!(arr, bit_arr.access().extract());

    let mut root = bit_arr.access_mut();
    for i in 0..root.len() {
        root.get_dyn_mut(i).insert(true);
    }
    assert_eq!([true; 32], bit_arr.access().extract());
}

#[test]
fn small_tuple_scenario() {
    let mut bits = Bit::from((false, true, false, true));
    assert_eq!(bits.byte_len(), 1);
    assert_eq!(bits.access().get::<1>().extract(), true);
    bits.access_mut().get::<0>().insert(true);
    assert_eq!(bits.access().extract(), (true, true, false, true));
}

#[test]
fn large_array_scenario() {
    let mut bits = Bit::from([false; 131072]);
    assert_eq!(bits.byte_len(), 16384);
    bits.access_mut().get_dyn(69420).insert(true);
    assert_eq!(bits.access().get_dyn(69420).extract(), true);
    let bytes = bits.as_bytes();
    for (i, byte) in bytes.iter().enumerate() {
        if i == 69420 / 8 {
            assert_eq!(*byte, 1u8 << (69420 % 8));
        } else {
            assert_eq!(*byte, 0);
        }
    }
    assert_eq!(bits.access().get_dyn(69419).extract(), false);
    assert_eq!(bits.access().get_dyn(69421).extract(), false);
}

#[test]
fn bit_layout_is_least_significant_first() {
    let bits = Bit::from((true, [false; 7], true));
    assert_eq!(bits.as_bytes(), &[0b0000_0001u8, 0b0000_0001u8][..]);
    let bits = Bit::from((ubits::<3>(0b101), 0xABu8));
    // 101 in bits 0..3, then 0xAB from bit 3 on
    assert_eq!(bits.as_bytes(), &[0b0101_1101u8, 0b0000_0101u8][..]);
    assert_eq!(bits.access().get::<1>().extract(), 0xAB);
}

#[test]
fn field_independence() {
    let mut bits = Bit::from((ubits::<5>(17), 0x1234u16, true, ubits::<7>(99)));
    bits.access_mut().get::<1>().insert(0xFFFF);
    assert_eq!(bits.access().get::<0>().extract(), U(17));
    assert_eq!(bits.access().get::<2>().extract(), true);
    assert_eq!(bits.access().get::<3>().extract(), U(99));
    bits.access_mut().get::<0>().insert(ubits(0));
    bits.access_mut().get::<3>().insert(ubits(0));
    assert_eq!(bits.access().get::<1>().extract(), 0xFFFF);
    assert_eq!(bits.access().extract(), (U(0), 0xFFFF, true, U(0)));
}

#[test]
fn index_consistency() {
    let arr = [3u8, 250, 7, 0, 128];
    let bits = Bit::from((true, arr));
    assert_eq!(bits.access().get::<1>().get::<0>().extract(), bits.access().get::<1>().get_dyn(0).extract());
    assert_eq!(bits.access().get::<1>().get::<1>().extract(), bits.access().get::<1>().get_dyn(1).extract());
    assert_eq!(bits.access().get::<1>().get::<4>().extract(), bits.access().get::<1>().get_dyn(4).extract());
    for i in 0..5 {
        assert_eq!(bits.access().get::<1>().get_dyn(i).extract(), arr[i]);
    }
    assert_eq!(bits.access().get::<1>().len(), 5);
    assert!(!bits.access().get::<1>().is_empty());
}

#[test]
fn map_applies_function() {
    let mut bits = Bit::from((true, 40u8, false));
    bits.access_mut().get::<1>().map(|x: u8| x / 2 + 1);
    assert_eq!(bits.access().extract(), (true, 21u8, false));
}

#[test]
fn unit_and_empty_array_take_no_bytes() {
    let bits = Bit::from(());
    assert_eq!(bits.byte_len(), 0);
    let bits = Bit::from((true, (), [false; 0], true));
    assert_eq!(bits.byte_len(), 1);
    assert_eq!(bits.access().extract(), (true, (), [false; 0], true));
}

#[test]
fn native_widths_round_trip() {
    let v = (true, 0xBEEFu16, 0xDEAD_BEEFu32, 0x0123_4567_89AB_CDEFu64, 0x5Au8);
    let bits = Bit::from(v);
    assert_eq!(bits.byte_len(), (1 + 16 + 32 + 64 + 8 + 7) / 8);
    assert_eq!(bits.access().extract(), v);
    let bits = Bit::from(0xA5C3u16);
    assert_eq!(bits.as_u16(), 0xA5C3);
    let bits = Bit::from(0x1234_5678u32);
    assert_eq!(bits.as_u32(), 0x1234_5678);
    let bits = Bit::from(u64::MAX - 1);
    assert_eq!(bits.as_u64(), u64::MAX - 1);
    let bits = Bit::from(0xC3u8);
    assert_eq!(bits.as_u8(), 0xC3);
    let bits = Bit::from((0x0123_4567_89AB_CDEFu64, 0xFEDC_BA98_7654_3210u64));
    assert_eq!(bits.as_u128(), 0xFEDC_BA98_7654_3210_0123_4567_89AB_CDEFu128);
}

#[test]
fn reinterpret_same_width() {
    let mut bits = Bit::from((true, false, true, true, false, false, false, true));
    assert_eq!(bits.access_as::<u8>().extract(), 0b1000_1101);
    bits.access_as_mut::<u8>().insert(0b0000_0110);
    assert_eq!(bits.access().extract(), (false, true, true, false, false, false, false, false));
    assert_eq!(bits.access_mut().access().extract(), (false, true, true, false, false, false, false, false));
}
