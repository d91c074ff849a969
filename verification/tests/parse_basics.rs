use std::marker::PhantomData;

use toy_ttf::parse::font_directory::parse_font_scaler_type;
use toy_ttf::parse::{DynArr, Parse};
use toy_ttf::tables::font_directory::ScalerType;

#[test]
fn derive_works() {
    // A record of three 16-bit fields decodes field by field in
    // declaration order.
    assert_eq!(u16::approx_file_size() * 3, 2 + 2 + 2);

    let buf: &[u8] = &[0, 5, 0, 6, 0, 12];
    let (rest, a) = u16::parse(buf);
    let (rest, b) = u16::parse(rest);
    let (rest, c) = u16::parse(rest);
    assert_eq!((a, b, c), (5, 6, 12));
    assert_eq!(rest.len(), 0);
}

#[test]
fn parse_scaler_type() {
    let tags: [u32; 4] = [0x74727565, 0x00010000, 0x74797031, 0x4F54544F];
    let expecteds = [
        ScalerType::TTF,
        ScalerType::TTF,
        ScalerType::PostScript,
        ScalerType::OpenType,
    ];
    for (tag, expected) in tags.iter().zip(expecteds.iter()) {
        println!("tag = {:x}, exp = {:?}", tag, expected);
        let buf: [u8; 4] = [(tag >> 24) as u8, (tag >> 16) as u8, (tag >> 8) as u8, *tag as u8];
        let (rest, scaler) = parse_font_scaler_type(&buf).unwrap();
        assert_eq!(&scaler, expected);
        assert_eq!(rest.len(), 0);
    }
    assert_eq!(parse_font_scaler_type(&[0, 0, 0, 1]), None);
}

#[test]
fn exact_buffer_consumed() {
    // Decoding a value from a buffer of exactly its encoded size consumes
    // the whole buffer.
    let buf: &[u8] = &[0x12, 0x34, 0x56, 0x78];
    let (rest, v) = u32::parse(buf);
    assert_eq!(v, 0x12345678);
    assert_eq!(rest.len(), 0);

    let buf2: &[u8] = &[0xFF, 0x80];
    let (rest2, w) = i16::parse(buf2);
    assert_eq!(w, -128);
    assert_eq!(rest2.len(), 0);
}

#[test]
fn dyn_arr_split_partition() {
    // Splitting a typed view partitions its elements.
    let bytes: Vec<u8> = vec![0, 1, 0, 2, 0, 3];
    let arr: DynArr<u16> = DynArr(&bytes, PhantomData);
    assert_eq!(arr.len(), 3);
    let (left, right) = arr.split_at(1);
    assert_eq!(left.len(), 1);
    assert_eq!(right.len(), 2);
    assert_eq!(left.at(0), 1);
    assert_eq!(right.at(0), 2);
    assert_eq!(right.at(1), 3);
    assert_eq!(arr.at(0), 1);
    assert_eq!(arr.at(1), 2);
    assert_eq!(arr.at(2), 3);
}

#[test]
fn signed_primitives() {
    let (_, v) = i8::parse(&[0xFE, 0]);
    assert_eq!(v, -2);
    let (_, v) = i32::parse(&[0xFF, 0xFF, 0xFF, 0xFB]);
    assert_eq!(v, -5);
    let (_, v) = u64::parse(&[0, 0, 0, 1, 0, 0, 0, 2]);
    assert_eq!(v, 0x100000002);
    let (_, v) = i64::parse(&[0xFF, 0xFF, 0xFF, 0xFF, 0xFF, 0xFF, 0xFF, 0xFF]);
    assert_eq!(v, -1);
}
