use wasm_interface::cursor::Cursor;
use wasm_interface::error::ErrorKind;
use wasm_interface::leb::{
    encode_sleb, encode_uleb, read_i32_leb, read_i64_leb, read_u32_leb, read_u64_leb,
};

fn roundtrip_u64(n: u64) {
    let bytes = encode_uleb(n);
    let mut c = Cursor::new(&bytes);
    let got = read_u64_leb(&mut c).expect("canonical encoding must decode");
    assert_eq!(got, n);
    assert_eq!(c.pos, bytes.len(), "the whole encoding must be consumed");
}

fn roundtrip_u32(n: u32) {
    let bytes = encode_uleb(n as u64);
    let mut c = Cursor::new(&bytes);
    let got = read_u32_leb(&mut c).expect("canonical encoding must decode");
    assert_eq!(got, n);
    assert_eq!(c.pos, bytes.len());
}

fn roundtrip_i64(n: i64) {
    let bytes = encode_sleb(n);
    let mut c = Cursor::new(&bytes);
    let got = read_i64_leb(&mut c).expect("canonical encoding must decode");
    assert_eq!(got, n);
    assert_eq!(c.pos, bytes.len());
}

fn roundtrip_i32(n: i32) {
    let bytes = encode_sleb(n as i64);
    let mut c = Cursor::new(&bytes);
    let got = read_i32_leb(&mut c).expect("canonical encoding must decode");
    assert_eq!(got, n);
    assert_eq!(c.pos, bytes.len());
}

#[test]
fn unsigned_roundtrip_samples() {
    for n in [
        0u64,
        1,
        63,
        64,
        127,
        128,
        129,
        300,
        16383,
        16384,
        0xffff_ffff,
        0x1_0000_0000,
        u64::MAX - 1,
        u64::MAX,
    ] {
        roundtrip_u64(n);
    }
}

#[test]
fn unsigned_32_roundtrip_samples() {
    for n in [0u32, 1, 127, 128, 624485, u32::MAX - 1, u32::MAX] {
        roundtrip_u32(n);
    }
}

#[test]
fn signed_roundtrip_samples() {
    for n in [
        0i64,
        1,
        -1,
        63,
        64,
        -64,
        -65,
        127,
        -128,
        -123456,
        123456,
        i64::MIN,
        i64::MAX,
    ] {
        roundtrip_i64(n);
    }
}

#[test]
fn signed_32_roundtrip_samples() {
    for n in [0i32, 1, -1, 63, -64, 64, -65, i32::MIN, i32::MAX] {
        roundtrip_i32(n);
    }
}

#[test]
fn known_encodings() {
    assert_eq!(encode_uleb(0), vec![0x00]);
    assert_eq!(encode_uleb(127), vec![0x7f]);
    assert_eq!(encode_uleb(128), vec![0x80, 0x01]);
    assert_eq!(encode_uleb(624485), vec![0xe5, 0x8e, 0x26]);
    assert_eq!(encode_sleb(-1), vec![0x7f]);
    assert_eq!(encode_sleb(-64), vec![0x40]);
    assert_eq!(encode_sleb(-65), vec![0xbf, 0x7f]);
    assert_eq!(encode_sleb(64), vec![0xc0, 0x00]);
}

#[test]
fn padded_zero_is_malformed() {
    // a non-canonical (padded) encoding of 0
    let bytes = [0x80u8, 0x00];
    let mut c = Cursor::new(&bytes);
    let e = read_u32_leb(&mut c).expect_err("padding must be rejected");
    assert_eq!(e.kind, ErrorKind::Leb128Malformed);
    assert_eq!(e.offset, 1);
    assert_eq!(c.pos, 0, "a failed read leaves the offset unchanged");
}

#[test]
fn padded_zero_is_malformed_signed() {
    let bytes = [0x80u8, 0x00];
    let mut c = Cursor::new(&bytes);
    let e = read_i64_leb(&mut c).expect_err("padding must be rejected");
    assert_eq!(e.kind, ErrorKind::Leb128Malformed);
    assert_eq!(e.offset, 1);
}

#[test]
fn signed_sign_extension_padding_is_malformed() {
    // -1 encoded with a redundant 0x7f continuation
    let bytes = [0xffu8, 0x7f];
    let mut c = Cursor::new(&bytes);
    let e = read_i64_leb(&mut c).expect_err("padding must be rejected");
    assert_eq!(e.kind, ErrorKind::Leb128Malformed);
    assert_eq!(e.offset, 1);
}

#[test]
fn unsigned_overflow_of_u32() {
    // five bytes whose final byte carries bits beyond 32
    let bytes = [0xffu8, 0xff, 0xff, 0xff, 0x7f];
    let mut c = Cursor::new(&bytes);
    let e = read_u32_leb(&mut c).expect_err("too wide for u32");
    assert_eq!(e.kind, ErrorKind::Leb128Overflow);
    assert_eq!(e.offset, 4);
}

#[test]
fn continuation_past_max_bytes_is_malformed() {
    let bytes = [0x80u8, 0x80, 0x80, 0x80, 0x80, 0x01];
    let mut c = Cursor::new(&bytes);
    let e = read_u32_leb(&mut c).expect_err("too many continuation bytes for u32");
    assert_eq!(e.kind, ErrorKind::Leb128Malformed);
    assert_eq!(e.offset, 4);
}

#[test]
fn truncated_leb_is_eof() {
    let bytes = [0x80u8];
    let mut c = Cursor::new(&bytes);
    let e = read_u32_leb(&mut c).expect_err("missing continuation byte");
    assert_eq!(e.kind, ErrorKind::UnexpectedEof);
    assert_eq!(e.offset, 1);
    assert_eq!(c.pos, 0);
}
