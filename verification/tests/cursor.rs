use dwarf_read::cursor::Cursor;
use dwarf_read::endian::Endian;
use dwarf_read::error::Error;

#[test]
fn fixed_width_reads_little_endian() {
    let data: Vec<u8> = vec![0x01, 0x02, 0x03, 0x04, 0x05, 0x06, 0x07, 0x08, 0x09, 0x0a, 0x0b,
        0x0c, 0x0d, 0x0e, 0x0f];
    let mut c = Cursor::new(&data, Endian::Little);
    assert_eq!(c.read_u8(), Ok(0x01));
    assert_eq!(c.read_u16(), Ok(0x0302));
    assert_eq!(c.read_u32(), Ok(0x07060504));
    assert_eq!(c.read_u64(), Ok(0x0f0e0d0c0b0a0908));
    assert_eq!(c.offset(), 15);
    assert!(c.is_empty());
}

#[test]
fn fixed_width_reads_big_endian() {
    let data: Vec<u8> = vec![0x01, 0x02, 0x03, 0x04, 0x05, 0x06, 0x07, 0x08, 0x09, 0x0a, 0x0b,
        0x0c, 0x0d, 0x0e, 0x0f];
    let mut c = Cursor::new(&data, Endian::Big);
    assert_eq!(c.read_u8(), Ok(0x01));
    assert_eq!(c.read_u16(), Ok(0x0203));
    assert_eq!(c.read_u32(), Ok(0x04050607));
    assert_eq!(c.read_u64(), Ok(0x08090a0b0c0d0e0f));
}

#[test]
fn read_unsigned_handles_odd_widths() {
    let data: Vec<u8> = vec![0x11, 0x22, 0x33];
    let mut le = Cursor::new(&data, Endian::Little);
    assert_eq!(le.read_unsigned(3), Ok(0x332211));
    let mut be = Cursor::new(&data, Endian::Big);
    assert_eq!(be.read_unsigned(3), Ok(0x112233));
}

#[test]
fn short_reads_fail_without_moving() {
    let data: Vec<u8> = vec![0x01, 0x02];
    let mut c = Cursor::new(&data, Endian::Little);
    assert_eq!(c.read_u32(), Err(Error::UnexpectedEndOfInput));
    assert_eq!(c.offset(), 0);
    assert_eq!(c.read_u16(), Ok(0x0201));
    assert_eq!(c.read_u8(), Err(Error::UnexpectedEndOfInput));
    assert_eq!(c.offset(), 2);
}

#[test]
fn read_bytes_returns_exact_slice() {
    let data: Vec<u8> = vec![0xde, 0xad, 0xbe, 0xef];
    let mut c = Cursor::new(&data, Endian::Little);
    assert_eq!(c.read_bytes(3), Ok(vec![0xde, 0xad, 0xbe]));
    assert_eq!(c.offset(), 3);
    assert_eq!(c.read_bytes(2), Err(Error::UnexpectedEndOfInput));
    assert_eq!(c.offset(), 3);
}

#[test]
fn read_null_terminated_consumes_terminator() {
    let data: Vec<u8> = vec![b'm', b'a', b'i', b'n', 0x00, 0x42];
    let mut c = Cursor::new(&data, Endian::Little);
    assert_eq!(c.read_null_terminated(), Ok(b"main".to_vec()));
    assert_eq!(c.offset(), 5);
    assert_eq!(c.read_u8(), Ok(0x42));
}

#[test]
fn read_null_terminated_without_terminator_fails_in_place() {
    let data: Vec<u8> = vec![b'a', b'b'];
    let mut c = Cursor::new(&data, Endian::Little);
    assert_eq!(c.read_null_terminated(), Err(Error::UnexpectedEndOfInput));
    assert_eq!(c.offset(), 0);
}

#[test]
fn sub_cursor_is_scoped_and_independent() {
    let data: Vec<u8> = vec![0x01, 0x02, 0x03, 0x04];
    let mut c = Cursor::new(&data, Endian::Little);
    assert_eq!(c.read_u8(), Ok(0x01));
    let mut sub = c.sub_cursor(2).unwrap();
    assert_eq!(sub.offset(), 0);
    assert_eq!(sub.read_u16(), Ok(0x0302));
    // the sub-cursor reaches only two bytes
    assert_eq!(sub.read_u8(), Err(Error::UnexpectedEndOfInput));
    // the parent has not moved
    assert_eq!(c.offset(), 1);
    assert_eq!(c.sub_cursor(4).err(), Some(Error::UnexpectedEndOfInput));
}

#[test]
fn copies_share_bytes_with_independent_positions() {
    let data: Vec<u8> = vec![0x10, 0x20];
    let mut a = Cursor::new(&data, Endian::Little);
    let mut b = a;
    assert_eq!(a.read_u8(), Ok(0x10));
    assert_eq!(b.offset(), 0);
    assert_eq!(b.read_u16(), Ok(0x2010));
    assert_eq!(a.offset(), 1);
}

#[test]
fn remaining_len_tracks_reads() {
    let data: Vec<u8> = vec![1, 2, 3];
    let mut c = Cursor::new(&data, Endian::Little);
    assert_eq!(c.remaining_len(), 3);
    c.read_u8().unwrap();
    assert_eq!(c.remaining_len(), 2);
    assert!(!c.is_empty());
    assert_eq!(c.endianness(), Endian::Little);
}
