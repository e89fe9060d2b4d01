use ha_ndarray::dtype::{CDatatype, Negate};

#[test]
fn identities_and_bounds() {
    assert_eq!(<u8 as CDatatype>::zero(), 0);
    assert_eq!(<u8 as CDatatype>::one(), 1);
    assert_eq!(<u8 as CDatatype>::max(), 255);
    assert_eq!(<i16 as CDatatype>::min(), -32768);
    assert_eq!(<i64 as CDatatype>::max(), i64::MAX);
}

#[test]
fn scalar_arithmetic_wraps_at_the_bounds() {
    assert_eq!(CDatatype::add(250u8, 10u8), 4);
    assert_eq!(CDatatype::sub(3u8, 5u8), 254);
    assert_eq!(CDatatype::mul(16u8, 17u8), 16);
    assert_eq!(CDatatype::add(i32::MAX, 1), i32::MIN);
    assert_eq!(CDatatype::mul(i64::MAX, 2), -2);
    assert_eq!(CDatatype::abs(-7i16), 7);
    assert_eq!(CDatatype::abs(i8::MIN), i8::MIN);
}

#[test]
fn scalar_division_rounds_towards_zero() {
    assert_eq!(CDatatype::div(7i32, -2), -3);
    assert_eq!(CDatatype::rem(-7i32, 2), -1);
    assert_eq!(CDatatype::div(i8::MIN, -1i8), i8::MIN);
    assert_eq!(CDatatype::rem(i8::MIN, -1i8), 0);
    assert_eq!(CDatatype::div(200u8, 7u8), 28);
    assert_eq!(CDatatype::rem(200u8, 7u8), 4);
}

#[test]
fn negation_not_and_comparisons() {
    assert_eq!(Negate::neg(5i32), -5);
    assert_eq!(Negate::neg(i32::MIN), i32::MIN);
    assert_eq!(Negate::neg(1u16), -1i16);
    assert_eq!(Negate::neg(40000u16), 25536i16);
    assert_eq!(Negate::neg(u64::MAX), 1i64);
    assert_eq!(CDatatype::not(0u32), 1);
    assert_eq!(CDatatype::not(9u32), 0);
    assert!(CDatatype::same(3i8, 3i8));
    assert!(CDatatype::less(-3i8, 3i8));
    assert!(!CDatatype::less(3u8, 3u8));
}
