use bitgen::{bits_to_bytes, closest_pow_2, get_byte_range, ibits, log2, max_with_bits, ubits, Bit, BitType, InRange, Underlying, I, U};

#[test]
fn round_trip_at_every_offset() {
    for offset in 0..8usize {
        let mut buf = [0xFFu8; 12];
        let v = (ubits::<13>(0x1ABC), true, ibits::<9>(-200), 0x5Au8);
        <(U<13>, bool, I<9>, u8)>::from_aligned(&v, &mut buf, offset);
        assert_eq!(<(U<13>, bool, I<9>, u8)>::to_aligned(&buf, offset), v);
        // bits before the offset are untouched
        assert_eq!(buf[0] & ((1u8 << offset) - 1), (1u8 << offset) - 1);

        let mut buf = [0u8; 12];
        let w = [Some(ubits::<3>(5)), None, Some(ubits::<3>(0))];
        <[Option<U<3>>; 3]>::from_aligned(&w, &mut buf, offset);
        assert_eq!(<[Option<U<3>>; 3]>::to_aligned(&buf, offset), w);

        let mut buf = [0u8; 12];
        <u64>::from_aligned(&0xFEDC_BA98_7654_3210u64, &mut buf, offset);
        assert_eq!(<u64>::to_aligned(&buf, offset), 0xFEDC_BA98_7654_3210u64);
        assert_eq!(buf[9], 0);
    }
}

#[test]
fn write_leaves_neighbours_alone() {
    let mut buf = [0b1010_1010u8, 0b0101_0101u8];
    <U<6>>::from_aligned(&ubits(0), &mut buf, 5);
    // bits 5..11 cleared, the rest unchanged
    assert_eq!(buf, [0b0000_1010u8, 0b0101_0000u8]);
}

#[test]
fn signed_narrow_values() {
    for v in [-128i64, -1, 0, 1, 127] {
        let bits = Bit::from((true, ibits::<8>(v), false));
        assert_eq!(bits.access().get::<1>().extract(), I(v));
    }
    let bits = Bit::from(ibits::<5>(-16));
    assert_eq!(bits.as_bytes(), &[0b0001_0000u8][..]);
    assert_eq!(bits.access().extract().extract_underlying(), -16);
    assert!(bits.access().extract().is_negative());
    let bits = Bit::from(ibits::<64>(i64::MIN));
    assert_eq!(bits.access().extract(), I(i64::MIN));
    assert!(I::<4>::fits(7));
    assert!(I::<4>::fits(-8));
    assert!(!I::<4>::fits(8));
    assert!(!I::<4>::fits(-9));
}

#[test]
fn signed_arithmetic() {
    let a = ibits::<6>(-20);
    let b = ibits::<6>(7);
    assert_eq!(a.add(b), I(-13));
    assert_eq!(a.sub(b), I(-27));
    assert_eq!(b.mul(ibits(-4)), I(-28));
    assert_eq!(a.div(b), I(-2));
    assert_eq!(ibits::<6>(-21).div(ibits(-7)), I(3));
    let mut c = ibits::<6>(10);
    c.add_assign(ibits(5));
    assert_eq!(c, I(15));
    c.sub_assign(ibits(20));
    assert_eq!(c, I(-5));
    c.mul_assign(ibits(3));
    assert_eq!(c, I(-15));
    c.div_assign(ibits(2));
    assert_eq!(c, I(-7));
    assert_eq!(ibits::<8>(-3).shl(4), I(-48));
    assert_eq!(ibits::<8>(5).shl(3), I(40));
    assert_eq!(ibits::<64>(-1).shl(63), I(i64::MIN));
    assert_eq!(ibits::<8>(-7).shr(1), I(-4));
    assert_eq!(ibits::<8>(7).shr(1), I(3));
    assert_eq!(ibits::<8>(-128).shr(7), I(-1));
    c.shl_assign(2);
    assert_eq!(c, I(-28));
    c.shr_assign(3);
    assert_eq!(c, I(-4));
}

#[test]
fn unsigned_arithmetic() {
    let a = ubits::<10>(1000);
    let b = ubits::<10>(23);
    assert_eq!(a.sub(b), U(977));
    assert_eq!(b.add(ubits(1000)), U(1023));
    assert_eq!(b.mul(ubits(44)), U(1012));
    assert_eq!(a.div(b), U(43));
    assert_eq!(a.rem(b), U(11));
    assert_eq!(a.bitand(b), U(1000 & 23));
    assert_eq!(a.bitor(b), U(1000 | 23));
    assert_eq!(a.bitxor(b), U(1000 ^ 23));
    assert_eq!(b.shl(5), U(736));
    assert_eq!(a.shr(3), U(125));
    assert_eq!(a.value(), 1000);
    assert_eq!(U::<10>::new(5), U(5));
}

#[test]
fn width_helpers() {
    assert_eq!(log2(0), 0);
    assert_eq!(log2(1), 1);
    assert_eq!(log2(5), 3);
    assert_eq!(log2(8), 4);
    assert_eq!(closest_pow_2(0), 1);
    assert_eq!(closest_pow_2(1), 1);
    assert_eq!(closest_pow_2(2), 2);
    assert_eq!(closest_pow_2(3), 4);
    assert_eq!(closest_pow_2(5), 8);
    assert_eq!(closest_pow_2(8), 8);
    assert_eq!(max_with_bits(0), 0);
    assert_eq!(max_with_bits(3), 7);
    assert_eq!(max_with_bits(64), u64::MAX);
    assert_eq!(max_with_bits(100), u64::MAX);
    assert_eq!(bits_to_bytes(0), 0);
    assert_eq!(bits_to_bytes(1), 1);
    assert_eq!(bits_to_bytes(16), 2);
    assert_eq!(bits_to_bytes(25), 4);
    assert_eq!(get_byte_range(0, 0), 0..0);
    assert_eq!(get_byte_range(5, 3), 0..1);
    assert_eq!(get_byte_range(5, 4), 0..2);
    assert_eq!(get_byte_range(17, 16), 2..5);
    assert_eq!(Underlying::<3>::bytes(), 1);
    assert_eq!(Underlying::<14>::bytes(), 2);
    assert_eq!(Underlying::<17>::bytes(), 4);
    assert_eq!(Underlying::<33>::bytes(), 8);
    assert!(InRange::<3, 1, 5>::holds());
    assert!(!InRange::<6, 1, 5>::holds());
}

#[test]
fn zeroed_container() {
    let bits: Bit<(U<12>, bool, [u8; 2])> = Bit::default();
    assert_eq!(bits.byte_len(), 4);
    assert_eq!(bits.as_bytes(), &[0u8, 0, 0, 0][..]);
    assert_eq!(bits.access().extract(), (U(0), false, [0u8, 0]));
}

#[test]
fn native_signed_round_trip() {
    let v = (-5i8, true, -30000i16, i32::MIN, -1i64, i8::MAX);
    let bits = Bit::from(v);
    assert_eq!(bits.byte_len(), (8 + 1 + 16 + 32 + 64 + 8 + 7) / 8);
    assert_eq!(bits.access().extract(), v);
    let bits = Bit::from(-2i8);
    assert_eq!(bits.as_u8(), 0xFE);
    let bits = Bit::from(i64::MIN);
    assert_eq!(bits.as_u64(), 1u64 << 63);
}
