use bitgen::{
    discriminant_bits, ubits, Bit, BitCheck, BitPredicate, BitType, BitVec, PredicateAnd, Union2, Union3,
    Union4, Union5, Union6, Union7, Union8, NONE_TAG, SOME_TAG, U,
};

#[test]
fn option_tags_are_name_hashes() {
    assert_eq!(SOME_TAG, const_fnv1a_hash::fnv1a_hash_str_64("Some"));
    assert_eq!(NONE_TAG, const_fnv1a_hash::fnv1a_hash_str_64("None"));
}

#[test]
fn option_variant_gating() {
    let mut bits = Bit::from((true, Some(ubits::<4>(9)), false));
    assert_eq!(bits.byte_len(), 1);
    assert_eq!(bits.access().get::<1>().get_maybe::<SOME_TAG>().extract(), Some(U(9)));
    assert_eq!(bits.access().get::<1>().get_maybe::<NONE_TAG>().extract(), None);
    assert_eq!(bits.access_mut().get::<1>().get_maybe::<NONE_TAG>().insert(()), Err(()));
    assert_eq!(bits.access().extract(), (true, Some(U(9)), false));
    assert_eq!(bits.access_mut().get::<1>().get_maybe::<SOME_TAG>().insert(ubits(3)), Ok(()));
    assert_eq!(bits.access().extract(), (true, Some(U(3)), false));
    assert_eq!(
        bits.access_mut().get::<1>().get_maybe::<SOME_TAG>().map(|x: U<4>| U(x.0 * 5)),
        Ok(())
    );
    assert_eq!(bits.access().extract(), (true, Some(U(15)), false));

    bits.access_mut().get::<1>().insert(None);
    assert_eq!(bits.access().get::<1>().get_maybe::<SOME_TAG>().extract(), None);
    assert_eq!(bits.access().get::<1>().get_maybe::<NONE_TAG>().extract(), Some(()));
    assert_eq!(bits.access_mut().get::<1>().get_maybe::<SOME_TAG>().insert(ubits(1)), Err(()));
    assert_eq!(
        bits.access_mut().get::<1>().get_maybe::<SOME_TAG>().map(|x: U<4>| x),
        Err(())
    );
    assert_eq!(bits.access().extract(), (true, None, false));
}

#[test]
fn nested_options_need_every_discriminant() {
    let bits = Bit::from(Some((true, Some(7u8))));
    let inner = bits.access().get_maybe::<SOME_TAG>().get::<1>().get_maybe::<SOME_TAG>();
    assert_eq!(inner.extract(), Some(7));
    let bits = Bit::from(Some((true, None::<u8>)));
    let inner = bits.access().get_maybe::<SOME_TAG>().get::<1>().get_maybe::<SOME_TAG>();
    assert_eq!(inner.extract(), None);
    let bits = Bit::from(None::<(bool, Option<u8>)>);
    let inner = bits.access().get_maybe::<SOME_TAG>().get::<1>().get_maybe::<SOME_TAG>();
    assert_eq!(inner.extract(), None);
}

#[test]
fn gated_array_elements() {
    let bits = Bit::from(Some([1u8, 2, 3]));
    let arr = bits.access().get_maybe::<SOME_TAG>();
    assert_eq!(arr.len(), 3);
    assert_eq!(arr.get_dyn(2).extract(), Some(3));
    let bits = Bit::from(None::<[u8; 3]>);
    assert_eq!(bits.access().get_maybe::<SOME_TAG>().get_dyn(2).extract(), None);
}

#[test]
fn predicates() {
    let bytes = [0b1011_0100u8, 0b0000_0001u8];
    let c = BitCheck { offset: 2, num_bits: 3, expected: 0b101 };
    assert!(c.is_true(&bytes));
    let d = BitCheck { offset: 5, num_bits: 4, expected: 0b1101 };
    assert!(d.is_true(&bytes));
    let e = BitCheck { offset: 5, num_bits: 4, expected: 0b0101 };
    assert!(!e.is_true(&bytes));
    let zero = BitCheck { offset: 0, num_bits: 0, expected: 0 };
    assert!(zero.is_true(&bytes));
    assert!(PredicateAnd(c, d).is_true(&bytes));
    assert!(!PredicateAnd(c, e).is_true(&bytes));
    assert!(!PredicateAnd(e, zero).is_true(&bytes));
}

#[test]
fn discriminant_widths() {
    assert_eq!(discriminant_bits(0), 0);
    assert_eq!(discriminant_bits(1), 0);
    assert_eq!(discriminant_bits(2), 1);
    assert_eq!(discriminant_bits(4), 2);
    assert_eq!(discriminant_bits(5), 3);
    assert_eq!(discriminant_bits(6), 3);
    assert_eq!(discriminant_bits(8), 3);
    assert_eq!(discriminant_bits(9), 4);
}

/// A union of six variants: a three-bit discriminant followed by the
/// payload region, which is as wide as the widest payload (a `u8`).
type Shape = Union6<(), U<3>, (bool, bool), (), u8, ()>;

#[test]
fn six_variant_union() {
    assert_eq!(discriminant_bits(6), 3);
    assert_eq!(Shape::bits(), 3 + <u8>::bits());
    let mut bits = Bit::from((Shape::V4(42), Shape::V1(ubits(5))));
    assert_eq!(bits.byte_len(), 3);
    assert_eq!(bits.access().extract(), (Shape::V4(42), Shape::V1(U(5))));
    assert_eq!(bits.access().get::<0>().get_maybe::<4>().extract(), Some(42));
    assert_eq!(bits.access().get::<0>().get_maybe::<1>().extract(), None);
    assert_eq!(bits.access().get::<1>().get_maybe::<1>().extract(), Some(U(5)));
    assert_eq!(bits.access().get::<1>().get_maybe::<4>().extract(), None);
    assert_eq!(bits.access_mut().get::<0>().get_maybe::<1>().insert(ubits(1)), Err(()));
    assert_eq!(bits.access().extract(), (Shape::V4(42), Shape::V1(U(5))));
    assert_eq!(bits.access_mut().get::<0>().get_maybe::<4>().insert(7), Ok(()));
    assert_eq!(bits.access().extract(), (Shape::V4(7), Shape::V1(U(5))));
    for s in [Shape::V0(()), Shape::V2((true, false)), Shape::V3(()), Shape::V5(())] {
        let b = Bit::from(s);
        assert_eq!(b.byte_len(), 2);
        assert_eq!(b.access().extract(), s);
        assert_eq!(b.access().get_maybe::<4>().extract(), None);
    }
    let b = Bit::from(Shape::V2((true, false)));
    assert_eq!(b.access().get_maybe::<2>().get::<0>().extract(), Some(true));
    assert_eq!(b.access().get_maybe::<2>().get::<1>().extract(), Some(false));
}

#[test]
fn union_widths() {
    assert_eq!(<Union2<bool, u8>>::bits(), 1 + 8);
    assert_eq!(<Union3<(), (), U<5>>>::bits(), 2 + 5);
    assert_eq!(<Union4<u16, (), (), ()>>::bits(), 2 + 16);
    assert_eq!(<Union5<(), (), (), (), ()>>::bits(), 3);
    assert_eq!(<Union7<bool, bool, bool, bool, bool, bool, u32>>::bits(), 3 + 32);
    assert_eq!(<Union8<(), (), (), (), (), (), (), U<12>>>::bits(), 3 + 12);
}

#[test]
fn union_round_trip_in_vector() {
    let mut v: BitVec<Union3<bool, u8, ()>> = BitVec::new();
    v.push(Union3::V1(200));
    v.push(Union3::V2(()));
    v.push(Union3::V0(true));
    assert_eq!(v.get(0), Some(Union3::V1(200)));
    assert_eq!(v.get(1), Some(Union3::V2(())));
    assert_eq!(v.get(2), Some(Union3::V0(true)));
    assert_eq!(v.access(0).get_maybe::<1>().extract(), Some(200));
    assert_eq!(v.access(2).get_maybe::<1>().extract(), None);
}
