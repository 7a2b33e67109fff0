//! Event identifier construction and arithmetic.

use many_core::eventid::EventId;
use num_bigint::BigUint;

#[test]
fn eventid_from_bytevec() {
    let b: Vec<u8> = vec![1, 2, 3, 4, 5];
    let t = EventId::from_bytes(b.clone());
    assert_eq!(b.as_slice(), t.to_vec().as_slice());
}

#[test]
fn eventid_from_biguint() {
    let v = u64::MAX;
    let t = EventId::from_bytes(BigUint::from(v).to_bytes_be());
    assert_eq!(v.to_be_bytes(), t.to_vec().as_slice());
}

#[test]
fn eventid_from_u64() {
    let v = u64::MAX;
    let t = EventId::from_u64(v);
    assert_eq!(v.to_be_bytes(), t.to_vec().as_slice());
}

#[test]
fn eventid_add() {
    let v = u64::MAX;
    let t = EventId::from_u64(v).add_u32(1);
    assert_eq!(t.to_vec(), (BigUint::from(u64::MAX) + 1u32).to_bytes_be());
    let t = t.add_u32(1);
    assert_eq!(t.to_vec(), (BigUint::from(u64::MAX) + 2u32).to_bytes_be());

    let b = v.to_be_bytes().to_vec();
    let t2 = EventId::from_u64(v).add_bytes(&b);
    assert_eq!(t2.to_vec(), (BigUint::from(v) * 2u64).to_bytes_be());
}

#[test]
fn eventid_sub() {
    let v = u64::MAX;
    let t = EventId::from_u64(v).sub_u32(1);
    assert_eq!(t.to_vec(), (v - 1).to_be_bytes());

    let b = 1u64.to_be_bytes().to_vec();
    let t2 = EventId::from_u64(v).sub_bytes(&b);
    assert_eq!(t2.to_vec(), (v - 1).to_be_bytes());
}

#[test]
fn eventid_zero_sum() {
    let t = EventId::from_u64(0).add_u32(0);
    assert_eq!(t.to_vec(), vec![0u8]);
}

#[test]
fn eventid_lex_order_same_length() {
    let a = EventId::from_u64(5 << 32 | 1);
    let b = EventId::from_u64(5 << 32 | 2);
    assert!(a.lex_lt(&b));
    assert!(!b.lex_lt(&a));
}
