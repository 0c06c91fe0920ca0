use bytesutil::ByteBuf;
use bytesutil::StaticByteBuf;

fn test_function<I: Into<ByteBuf<[u8; 16]>>>(_: I) {}

#[test]
fn basic() {
    let mut buffer = StaticByteBuf::<16>::default();
    buffer.set_le(0, 42i32).set_be(8, 42.42f64.to_bits());
    assert!(buffer.get_le::<i32>(0) == 42);
    assert!(f64::from_bits(buffer.get_be::<u64>(8)) == 42.42);
    test_function(buffer.set_le(0, 12i32));
    test_function([0; 16]);
}

#[test]
fn vec() {
    let mut buffer = ByteBuf::new(vec![0 as u8, 0 as u8, 0 as u8, 0 as u8]);
    buffer.set_le(0, 42i32);
    assert!(buffer.get_le::<i32>(0) == 42);
    let v = buffer.into_inner();
    assert!(v[0] == 42);
}

#[test]
fn borrowed() {
    let mut inner = vec![0 as u8, 0 as u8, 0 as u8, 0 as u8];
    let mut buffer = ByteBuf::new(&mut *inner);
    buffer.set_be(0, 42i32);
    assert!(buffer.get_be::<i32>(0) == 42);
    assert!(inner[3] == 42);
}

#[test]
fn middle_write_leaves_zeroes() {
    let mut buffer = ByteBuf::new([0u8; 16]);
    buffer.set_le(0, 42i32).set_be(8, 42.42f64.to_bits());
    let bytes = buffer.into_inner();
    assert_eq!(bytes[0], 42);
    assert_eq!(&bytes[1..8], &[0, 0, 0, 0, 0, 0, 0]);
}

#[test]
fn chained_sets_read_back_independently() {
    let mut buffer = ByteBuf::new(vec![0u8; 8]);
    buffer.set_le(0, 1u8).set_le(1, 2u8).set_be(2, 0x0304u16).set_le(4, 0x05060708u32);
    assert_eq!(buffer.get_le::<u8>(0), 1);
    assert_eq!(buffer.get_le::<u8>(1), 2);
    assert_eq!(buffer.get_be::<u16>(2), 0x0304);
    assert_eq!(buffer.get_le::<u32>(4), 0x05060708);
    assert_eq!(buffer.into_inner(), vec![1, 2, 3, 4, 8, 7, 6, 5]);
}

#[test]
fn growable_storage_unwraps_with_encoded_bytes() {
    let mut buffer = ByteBuf::new(vec![0u8; 4]);
    buffer.set_le(0, 42i32);
    assert_eq!(buffer.into_inner(), vec![42, 0, 0, 0]);
}

#[test]
fn access_up_to_the_exact_boundary() {
    let buffer = ByteBuf::new(vec![1u8, 2, 3, 4]);
    assert_eq!(buffer.get_le::<u32>(0), 0x04030201);
    assert_eq!(buffer.get_le::<u8>(3), 4);
    let mut writable = ByteBuf::new(vec![0u8; 2]);
    writable.set_be(0, 0x0102u16).set_le(1, 0xFFu8);
    assert_eq!(writable.into_inner(), vec![1, 0xFF]);
}

#[test]
fn later_write_wins_on_overlap() {
    let mut buffer = ByteBuf::new(vec![0u8; 4]);
    buffer.set_le(0, 0x01020304u32).set_le(0, 0x05060708u32);
    assert_eq!(buffer.get_le::<u32>(0), 0x05060708);
}

#[test]
fn write_at_offset_changes_only_its_field() {
    let mut buffer = ByteBuf::new(vec![0xAAu8; 8]);
    buffer.set_le(3, 0x0102u16);
    let v = buffer.into_inner();
    assert_eq!(v, vec![0xAA, 0xAA, 0xAA, 0x02, 0x01, 0xAA, 0xAA, 0xAA]);
}

#[test]
fn get_reads_stored_bytes() {
    let buffer = ByteBuf::new(vec![1u8, 2, 3, 4]);
    assert_eq!(buffer.get_le::<u32>(0), 0x04030201);
    assert_eq!(buffer.get_be::<u32>(0), 0x01020304);
    assert_eq!(buffer.get_le::<u16>(1), 0x0302);
    assert_eq!(buffer.get_be::<u16>(1), 0x0203);
}

#[test]
fn big_endian_layout_in_borrowed_region() {
    let mut inner = vec![0u8, 0, 0, 0];
    let mut buffer = ByteBuf::new(&mut *inner);
    buffer.set_be(0, 42i32);
    assert!(buffer.get_be::<i32>(0) == 42);
    assert_eq!(inner, vec![0, 0, 0, 42]);
}

#[test]
fn view_of_borrowed_array() {
    let mut storage = [0u8; 4];
    let mut buffer = ByteBuf::new(&mut storage[..]);
    buffer.set_le(0, -2i32);
    assert_eq!(buffer.get_le::<i32>(0), -2);
    assert_eq!(storage, [0xFE, 0xFF, 0xFF, 0xFF]);
}

#[test]
fn storage_passthrough() {
    let mut buffer = ByteBuf::new(vec![9u8, 8, 7]);
    assert_eq!(buffer.storage().len(), 3);
    buffer.storage_mut().push(6);
    assert_eq!(buffer.into_inner(), vec![9, 8, 7, 6]);
}

#[test]
fn conversions_wrap_and_copy() {
    let buffer: ByteBuf<[u8; 2]> = [1u8, 2].into();
    assert_eq!(buffer.get_le::<u16>(0), 0x0201);
    let copied: ByteBuf<[u8; 2]> = ByteBuf::from(&buffer);
    assert_eq!(copied.get_be::<u16>(0), 0x0102);
    let from_ref: ByteBuf<[u8; 2]> = ByteBuf::from(&[3u8, 4]);
    assert_eq!(from_ref.get_le::<u16>(0), 0x0403);
    let from_mut: ByteBuf<[u8; 2]> = ByteBuf::from(&mut [7u8, 8]);
    assert_eq!(from_mut.get_le::<u16>(0), 0x0807);
}

#[test]
fn boundary_rule_is_exact() {
    let buffer = ByteBuf::new(vec![0u8; 4]);
    assert!(buffer.fits::<u32>(0));
    assert!(!buffer.fits::<u32>(1));
    assert!(buffer.fits::<u16>(2));
    assert!(!buffer.fits::<u16>(3));
    assert!(buffer.fits::<u8>(3));
    assert!(!buffer.fits::<u8>(4));
    assert!(!buffer.fits::<u8>(5));
    assert!(!buffer.fits::<i64>(0));
    assert!(!buffer.fits::<u128>(0));
    assert!(buffer.fits::<bool>(3));
    assert!(!buffer.fits::<bool>(4));
    let empty = ByteBuf::new(Vec::<u8>::new());
    assert!(!empty.fits::<u8>(0));
}

#[test]
fn default_view_is_default_storage() {
    let buffer: ByteBuf<[u8; 4]> = Default::default();
    assert_eq!(buffer.into_inner(), [0u8; 4]);
    let empty: ByteBuf<Vec<u8>> = Default::default();
    assert_eq!(empty.into_inner(), Vec::<u8>::new());
}
