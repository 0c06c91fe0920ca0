use bytesutil::Combine;
use bytesutil::ReadBytes;
use bytesutil::WriteBytes;
use bytesutil::traits::fill_step;

fn round_trips_both_orders<V: ReadBytes + PartialEq + Copy>(v: V) -> bool {
    let le = v.to_le_vec();
    let be = v.to_be_vec();
    V::read_bytes_le(&le) == v && V::read_bytes_be(&be) == v
}

#[test]
fn unsigned_round_trips() {
    assert!(round_trips_both_orders(0u8));
    assert!(round_trips_both_orders(u8::MAX));
    assert!(round_trips_both_orders(0u16));
    assert!(round_trips_both_orders(0xABCDu16));
    assert!(round_trips_both_orders(u16::MAX));
    assert!(round_trips_both_orders(0u32));
    assert!(round_trips_both_orders(0xDEADBEEFu32));
    assert!(round_trips_both_orders(u32::MAX));
    assert!(round_trips_both_orders(0u64));
    assert!(round_trips_both_orders(u64::MAX));
    assert!(round_trips_both_orders(0u128));
    assert!(round_trips_both_orders(u128::MAX));
}

#[test]
fn signed_round_trips() {
    assert!(round_trips_both_orders(0i8));
    assert!(round_trips_both_orders(i8::MIN));
    assert!(round_trips_both_orders(i8::MAX));
    assert!(round_trips_both_orders(-1i8));
    assert!(round_trips_both_orders(0i16));
    assert!(round_trips_both_orders(i16::MIN));
    assert!(round_trips_both_orders(i16::MAX));
    assert!(round_trips_both_orders(0i32));
    assert!(round_trips_both_orders(i32::MIN));
    assert!(round_trips_both_orders(i32::MAX));
    assert!(round_trips_both_orders(-42i32));
    assert!(round_trips_both_orders(0i64));
    assert!(round_trips_both_orders(i64::MIN));
    assert!(round_trips_both_orders(i64::MAX));
    assert!(round_trips_both_orders(0i128));
    assert!(round_trips_both_orders(i128::MIN));
    assert!(round_trips_both_orders(i128::MAX));
}

#[test]
fn bool_round_trips() {
    assert!(round_trips_both_orders(true));
    assert!(round_trips_both_orders(false));
    assert_eq!(true.to_le_vec(), vec![1u8]);
    assert_eq!(false.to_be_vec(), vec![0u8]);
}

#[test]
fn float_bit_patterns_round_trip() {
    for bits in [
        42.42f64.to_bits(),
        0.0f64.to_bits(),
        (-0.0f64).to_bits(),
        f64::NAN.to_bits(),
        f64::INFINITY.to_bits(),
        f64::NEG_INFINITY.to_bits(),
    ] {
        assert_eq!(u64::read_bytes_le(&bits.to_le_vec()), bits);
        assert_eq!(u64::read_bytes_be(&bits.to_be_vec()), bits);
    }
    for bits in [1.5f32.to_bits(), f32::NAN.to_bits(), f32::MIN_POSITIVE.to_bits()] {
        assert_eq!(u32::read_bytes_le(&bits.to_le_vec()), bits);
        assert_eq!(u32::read_bytes_be(&bits.to_be_vec()), bits);
    }
}

#[test]
fn exact_byte_layout() {
    assert_eq!(0x01020304u32.to_le_vec(), vec![4, 3, 2, 1]);
    assert_eq!(0x01020304u32.to_be_vec(), vec![1, 2, 3, 4]);
    assert_eq!((-2i32).to_le_vec(), vec![0xFE, 0xFF, 0xFF, 0xFF]);
    assert_eq!((-2i32).to_be_vec(), vec![0xFF, 0xFF, 0xFF, 0xFE]);
    assert_eq!(0x0102u16.to_le_vec(), vec![2, 1]);
    assert_eq!(i8::MIN.to_le_vec(), vec![0x80]);
    assert_eq!(u128::MAX.to_le_vec(), vec![0xFF; 16]);
}

#[test]
fn cross_order_encodings_differ() {
    assert_ne!(0x0102u16.to_le_vec(), 0x0102u16.to_be_vec());
    assert_ne!(0x01020304u32.to_le_vec(), 0x01020304u32.to_be_vec());
    assert_ne!(1u64.to_le_vec(), 1u64.to_be_vec());
    // A palindromic representation is the one case where the orders agree.
    assert_eq!(0x0101u16.to_le_vec(), 0x0101u16.to_be_vec());
}

#[test]
fn bool_decode_widens_any_nonzero_byte() {
    assert_eq!(bool::read_bytes_le(&[0u8]), false);
    assert_eq!(bool::read_bytes_be(&[0u8]), false);
    assert_eq!(bool::read_bytes_le(&[1u8]), true);
    assert_eq!(bool::read_bytes_be(&[1u8]), true);
    assert_eq!(bool::read_bytes_le(&[7u8]), true);
    assert_eq!(bool::read_bytes_be(&[0xFFu8]), true);
}

#[test]
fn decode_reads_only_leading_width_bytes() {
    let bytes = [0x01u8, 0x02, 0x03, 0x04, 0x05, 0x06];
    assert_eq!(u16::read_bytes_le(&bytes), 0x0201);
    assert_eq!(u16::read_bytes_be(&bytes), 0x0102);
    assert_eq!(u32::read_bytes_le(&bytes), 0x04030201);
    assert_eq!(u32::read_bytes_be(&bytes), 0x01020304);
}

#[test]
fn write_into_buffer_at_offset() {
    let mut buf = vec![0xEEu8; 8];
    0x0102u16.write_bytes_le(&mut buf[3..]);
    assert_eq!(buf, vec![0xEE, 0xEE, 0xEE, 0x02, 0x01, 0xEE, 0xEE, 0xEE]);
    0x0102u16.write_bytes_be(&mut buf);
    assert_eq!(buf, vec![0x01, 0x02, 0xEE, 0x02, 0x01, 0xEE, 0xEE, 0xEE]);
}

#[test]
fn read_and_write_through_slices() {
    let mut buf = [0u8; 4];
    (-2i32).write_bytes_le(&mut buf);
    assert_eq!(buf, [0xFE, 0xFF, 0xFF, 0xFF]);
    assert_eq!(i32::read_bytes_le(&buf), -2);
    true.write_bytes_be(&mut buf[1..]);
    assert_eq!(buf, [0xFE, 1, 0xFF, 0xFF]);
}

#[test]
fn widths_match_kinds() {
    assert_eq!(u8::width(), 1);
    assert_eq!(i8::width(), 1);
    assert_eq!(u16::width(), 2);
    assert_eq!(i16::width(), 2);
    assert_eq!(u32::width(), 4);
    assert_eq!(i32::width(), 4);
    assert_eq!(u64::width(), 8);
    assert_eq!(i64::width(), 8);
    assert_eq!(u128::width(), 16);
    assert_eq!(i128::width(), 16);
    assert_eq!(bool::width(), 1);
    assert_eq!(0xABu8.to_le_vec().len(), 1);
    assert_eq!(0xABCDu16.to_be_vec().len(), 2);
}

#[test]
fn combine_pairs_the_two_ends() {
    let combined = Combine::new(vec![1u8, 2], vec![3u8]);
    let (read_end, write_end) = combined.into_parts();
    assert_eq!(read_end, vec![1, 2]);
    assert_eq!(write_end, vec![3]);
}

#[test]
fn fill_step_accounts_and_stops() {
    assert_eq!(fill_step(0, 4, 10), (4, true));
    assert_eq!(fill_step(4, 2, 10), (6, true));
    assert_eq!(fill_step(6, 4, 10), (10, false));
    assert_eq!(fill_step(9, 1, 10), (10, false));
    assert_eq!(fill_step(0, 10, 10), (10, false));
    assert_eq!(fill_step(4, 0, 10), (4, false));
    assert_eq!(fill_step(0, 0, 10), (0, false));
}
