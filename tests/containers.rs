use bitgen::{ubits, Bit, BitContainer, BitVec, U};

#[test]
fn vector_push_get_pop() {
    let mut v: BitVec<U<5>> = BitVec::new();
    assert!(v.is_empty());
    assert_eq!(v.get(0), None);
    for i in 0..40u64 {
        v.push(ubits(i % 32));
        assert_eq!(v.len(), (i + 1) as usize);
    }
    for i in 0..40usize {
        assert_eq!(v.get(i), Some(U((i % 32) as u64)));
    }
    assert_eq!(v.get(40), None);
    assert_eq!(v.pop_back(), Some(U(39 % 32)));
    assert_eq!(v.len(), 39);
    v.pop();
    assert_eq!(v.len(), 38);
    assert_eq!(v.get(38), None);
    v.push(ubits(31));
    assert_eq!(v.get(38), Some(U(31)));
    assert_eq!(v.get(37), Some(U(37 % 32)));
}

#[test]
fn vector_pop_on_empty() {
    let mut v: BitVec<bool> = BitVec::new();
    v.pop();
    assert_eq!(v.pop_back(), None);
    assert_eq!(v.len(), 0);
}

#[test]
fn vector_cursors() {
    let mut v: BitVec<(bool, U<3>)> = BitVec::new();
    v.push((true, ubits(1)));
    v.push((false, ubits(6)));
    v.push((true, ubits(3)));
    assert_eq!(v.access(1).extract(), (false, U(6)));
    v.access_mut(1).get::<1>().insert(ubits(2));
    assert_eq!(v.get(1), Some((false, U(2))));
    assert_eq!(v.get(0), Some((true, U(1))));
    assert_eq!(v.get(2), Some((true, U(3))));
    assert_eq!(v.access(2).get::<0>().extract(), true);
}

#[test]
fn container_bytes() {
    let bits = Bit::from((0x12u8, 0x34u8, 0x56u8));
    assert_eq!(bits.get_full(), &[0x12u8, 0x34, 0x56][..]);
    assert_eq!(bits.get_range(1..3), &[0x34u8, 0x56][..]);
    let mut v: BitVec<u8> = BitVec::new();
    v.push(9);
    v.push(8);
    assert_eq!(&v.get_full()[0..2], &[9u8, 8][..]);
    assert_eq!(v.get_range(1..2), &[8u8][..]);
}
