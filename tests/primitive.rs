use structurs::{
    CodecError, Pad, PrimitiveRead, PrimitiveWrite, Read, Reader, Source, Write, Writer,
};

#[test]
fn reads_little_endian_u32() {
    let mut c = Source::new(vec![87, 0, 0, 0]);
    assert_eq!(u32::read_le(&mut c), Ok(87));
}

#[test]
fn reads_big_endian_u32() {
    let mut c = Source::new(vec![0, 0, 0, 226]);
    assert_eq!(u32::read_be(&mut c), Ok(226));
}

#[test]
fn reads_signed_values_in_both_orders() {
    let mut c = Source::new(vec![0x22, 0x8a, 0x8a, 0x22]);
    assert_eq!(i16::read_le(&mut c), Ok(-30174));
    assert_eq!(i16::read_be(&mut c), Ok(-30174));
    let mut c = Source::new(vec![0xff; 16]);
    assert_eq!(i128::read_le(&mut c), Ok(-1));
    let mut c = Source::new(vec![0x80]);
    assert_eq!(i8::read_be(&mut c), Ok(-128));
}

#[test]
fn native_read_matches_std() {
    let bytes = [1u8, 2, 3, 4, 5, 6, 7, 8];
    let mut c = Source::new(bytes.to_vec());
    assert_eq!(u64::read_ne(&mut c), Ok(u64::from_ne_bytes(bytes)));
    let mut c = Source::new(bytes.to_vec());
    assert_eq!(i64::read(&mut c), Ok(i64::from_ne_bytes(bytes)));
}

#[test]
fn short_scalar_read_consumes_nothing() {
    let mut c = Source::new(vec![1, 2, 3]);
    assert_eq!(u32::read_le(&mut c), Err(CodecError::ShortRead));
    assert_eq!(c.position(), 0);
    assert_eq!(u16::read_be(&mut c), Ok(0x0102));
    assert_eq!(c.remaining(), 1);
}

#[test]
fn writes_in_each_order() {
    let mut out: Vec<u8> = vec![9];
    0x01020304u32.write_le(&mut out);
    0x01020304u32.write_be(&mut out);
    (-2i16).write_be(&mut out);
    assert_eq!(out, vec![9, 4, 3, 2, 1, 1, 2, 3, 4, 0xff, 0xfe]);
    let mut native: Vec<u8> = Vec::new();
    0x0102u16.write(&mut native);
    assert_eq!(native, 0x0102u16.to_ne_bytes().to_vec());
    let mut wide: Vec<u8> = Vec::new();
    u128::MAX.write_le(&mut wide);
    assert_eq!(wide, vec![0xff; 16]);
}

#[test]
fn reader_trait_reads_typed_values() {
    let mut c = Source::new(vec![241, 255, 255, 255, 25, 0, 97, 0, 0, 7]);
    assert_eq!(c.read_le::<i32>(), Ok(-15));
    assert_eq!(c.read_le::<u16>(), Ok(25));
    assert_eq!(c.read_le::<u16>(), Ok(97));
    assert_eq!(c.read_be::<u16>(), Ok(7));
    assert_eq!(c.read_as::<u8>(), Err(CodecError::ShortRead));
}

#[test]
fn writer_trait_writes_typed_values() {
    let mut out: Vec<u8> = Vec::new();
    out.write_le(&0x1234u16);
    out.write_be(&0x1234u16);
    out.write_as(&7u8);
    assert_eq!(out, vec![0x34, 0x12, 0x12, 0x34, 7]);
}

#[test]
fn round_trip_of_each_width() {
    let mut out: Vec<u8> = Vec::new();
    200u8.write_be(&mut out);
    (-3i32).write_le(&mut out);
    u64::MAX.write_be(&mut out);
    i128::MIN.write_le(&mut out);
    let mut c = Source::new(out);
    assert_eq!(u8::read_be(&mut c), Ok(200));
    assert_eq!(i32::read_le(&mut c), Ok(-3));
    assert_eq!(u64::read_be(&mut c), Ok(u64::MAX));
    assert_eq!(i128::read_le(&mut c), Ok(i128::MIN));
}

#[test]
fn read_exact_takes_the_asked_bytes() {
    let mut c = Source::new(vec![1, 2, 3]);
    assert_eq!(c.read_exact(2), Ok(vec![1, 2]));
    assert_eq!(c.read_exact(2), Err(CodecError::ShortRead));
    assert_eq!(c.read_exact(1), Ok(vec![3]));
}

#[test]
fn pad_is_a_unit_marker() {
    assert_eq!(Pad::default(), Pad);
}

#[test]
fn read_as_reads_native_scalars_and_fails_short() {
    let mut c = Source::new(vec![241, 255, 255, 255, 25, 0, 97, 0]);
    assert_eq!(c.read_as::<i32>(), Ok(i32::from_ne_bytes([241, 255, 255, 255])));
    assert_eq!(c.read_as::<u16>(), Ok(u16::from_ne_bytes([25, 0])));
    assert_eq!(c.read_as::<u16>(), Ok(u16::from_ne_bytes([97, 0])));
    assert_eq!(c.position(), 8);
    assert_eq!(c.read_as::<u16>(), Err(CodecError::ShortRead));
    assert_eq!(c.position(), 8);
}

#[test]
fn write_as_appends_the_native_image() {
    let mut out: Vec<u8> = vec![1];
    out.write_as(&(-15i32));
    assert_eq!(out, [vec![1u8], (-15i32).to_ne_bytes().to_vec()].concat());
}
