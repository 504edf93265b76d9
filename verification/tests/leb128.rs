use dwarf_read::cursor::Cursor;
use dwarf_read::endian::Endian;
use dwarf_read::error::Error;

#[test]
fn uleb_decodes_single_byte() {
    let data: Vec<u8> = vec![0x00, 0x7f];
    let mut c = Cursor::new(&data, Endian::Little);
    assert_eq!(c.read_uleb128(), Ok(0));
    assert_eq!(c.offset(), 1);
    assert_eq!(c.read_uleb128(), Ok(127));
    assert_eq!(c.offset(), 2);
}

#[test]
fn uleb_decodes_multi_byte_and_stops_at_terminator() {
    // decode(encode(624485)) == 624485, and the cursor advances by exactly
    // the encoded length even with trailing bytes present
    let data: Vec<u8> = vec![0xe5, 0x8e, 0x26, 0xaa, 0xbb];
    let mut c = Cursor::new(&data, Endian::Little);
    assert_eq!(c.read_uleb128(), Ok(624485));
    assert_eq!(c.offset(), 3);
}

#[test]
fn uleb_decodes_non_canonical_padding() {
    // 0x80 0x00 encodes zero in two bytes; the value is zero and both bytes
    // are consumed
    let data: Vec<u8> = vec![0x80, 0x00];
    let mut c = Cursor::new(&data, Endian::Little);
    assert_eq!(c.read_uleb128(), Ok(0));
    assert_eq!(c.offset(), 2);
}

#[test]
fn uleb_decodes_u64_max() {
    let data: Vec<u8> = vec![0xff, 0xff, 0xff, 0xff, 0xff, 0xff, 0xff, 0xff, 0xff, 0x01];
    let mut c = Cursor::new(&data, Endian::Little);
    assert_eq!(c.read_uleb128(), Ok(u64::MAX));
    assert_eq!(c.offset(), 10);
}

#[test]
fn uleb_empty_input_is_end_of_input() {
    let data: Vec<u8> = vec![];
    let mut c = Cursor::new(&data, Endian::Little);
    assert_eq!(c.read_uleb128(), Err(Error::UnexpectedEndOfInput));
    assert_eq!(c.offset(), 0);
}

#[test]
fn uleb_truncated_is_malformed_and_moves_nothing() {
    let data: Vec<u8> = vec![0xe5, 0x8e];
    let mut c = Cursor::new(&data, Endian::Little);
    assert_eq!(c.read_uleb128(), Err(Error::MalformedLeb128));
    assert_eq!(c.offset(), 0);
}

#[test]
fn uleb_overflow_is_malformed() {
    // nine full payload bytes followed by a terminator of 2: the value
    // would need 65 bits
    let data: Vec<u8> = vec![0xff, 0xff, 0xff, 0xff, 0xff, 0xff, 0xff, 0xff, 0xff, 0x02];
    let mut c = Cursor::new(&data, Endian::Little);
    assert_eq!(c.read_uleb128(), Err(Error::MalformedLeb128));
    assert_eq!(c.offset(), 0);
}

#[test]
fn uleb_longer_than_ten_bytes_is_malformed() {
    let data: Vec<u8> = vec![0x80, 0x80, 0x80, 0x80, 0x80, 0x80, 0x80, 0x80, 0x80, 0x80, 0x00];
    let mut c = Cursor::new(&data, Endian::Little);
    assert_eq!(c.read_uleb128(), Err(Error::MalformedLeb128));
    assert_eq!(c.offset(), 0);
}

#[test]
fn sleb_decodes_small_values() {
    let data: Vec<u8> = vec![0x02, 0x7e, 0x3f, 0x40];
    let mut c = Cursor::new(&data, Endian::Little);
    assert_eq!(c.read_sleb128(), Ok(2));
    assert_eq!(c.read_sleb128(), Ok(-2));
    assert_eq!(c.read_sleb128(), Ok(63));
    assert_eq!(c.read_sleb128(), Ok(-64));
    assert_eq!(c.offset(), 4);
}

#[test]
fn sleb_decodes_multi_byte() {
    // decode(encode(-624485)) == -624485, stopping exactly at the
    // terminating byte
    let data: Vec<u8> = vec![0x9b, 0xf1, 0x59, 0x55];
    let mut c = Cursor::new(&data, Endian::Little);
    assert_eq!(c.read_sleb128(), Ok(-624485));
    assert_eq!(c.offset(), 3);
}

#[test]
fn sleb_decodes_i64_extremes() {
    let data: Vec<u8> = vec![
        0x80, 0x80, 0x80, 0x80, 0x80, 0x80, 0x80, 0x80, 0x80, 0x7f, // i64::MIN
        0xff, 0xff, 0xff, 0xff, 0xff, 0xff, 0xff, 0xff, 0xff, 0x00, // i64::MAX
    ];
    let mut c = Cursor::new(&data, Endian::Little);
    assert_eq!(c.read_sleb128(), Ok(i64::MIN));
    assert_eq!(c.read_sleb128(), Ok(i64::MAX));
    assert_eq!(c.offset(), 20);
}

#[test]
fn sleb_overflow_is_malformed() {
    // ten bytes whose value lies below i64::MIN
    let data: Vec<u8> = vec![0xff, 0xff, 0xff, 0xff, 0xff, 0xff, 0xff, 0xff, 0xff, 0x41];
    let mut c = Cursor::new(&data, Endian::Little);
    assert_eq!(c.read_sleb128(), Err(Error::MalformedLeb128));
    assert_eq!(c.offset(), 0);
}

#[test]
fn sleb_truncated_is_malformed_and_moves_nothing() {
    let data: Vec<u8> = vec![0x9b, 0xf1];
    let mut c = Cursor::new(&data, Endian::Little);
    assert_eq!(c.read_sleb128(), Err(Error::MalformedLeb128));
    assert_eq!(c.offset(), 0);
}
