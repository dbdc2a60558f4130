use proka_kernel::bytes::{push_bytes, push_u32_le, push_u64_le, push_zeros, read_u32_le, read_u64_le};
use proka_kernel::text::{digit, push_decimal, push_padded};

#[test]
fn little_endian_round_trip() {
    let mut v = Vec::new();
    push_u32_le(&mut v, 0x1234_5678);
    push_u64_le(&mut v, 0x0102_0304_0506_0708);
    push_zeros(&mut v, 2);
    push_bytes(&mut v, &[9, 9]);
    assert_eq!(&v[..4], &[0x78, 0x56, 0x34, 0x12]);
    assert_eq!(read_u32_le(&v, 0), 0x1234_5678);
    assert_eq!(read_u64_le(&v, 4), 0x0102_0304_0506_0708);
    assert_eq!(&v[12..], &[0, 0, 9, 9]);
}

#[test]
fn decimal_text() {
    let mut out = Vec::new();
    push_decimal(&mut out, 0);
    out.push(' ');
    push_decimal(&mut out, 18446744073709551615);
    out.push(' ');
    push_padded(&mut out, 7, 3);
    out.push(' ');
    push_padded(&mut out, 12345, 2);
    let s: String = out.into_iter().collect();
    assert_eq!(s, "0 18446744073709551615 007 12345");
    assert_eq!(digit(7), '7');
}
