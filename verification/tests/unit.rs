use dwarf_read::cursor::Cursor;
use dwarf_read::endian::Endian;
use dwarf_read::error::Error;
use dwarf_read::unit::{CompilationUnitHeader, Format, TypeUnitHeader};

#[test]
fn parses_dwarf32_version4_header_within_bounds() {
    // unit length 10: seven bytes of header fields, three of entry data;
    // the decoder never reads past the length field's end plus the length
    let data: Vec<u8> = vec![
        0x0a, 0x00, 0x00, 0x00, // unit_length = 10
        0x04, 0x00, // version 4
        0x34, 0x12, 0x00, 0x00, // debug_abbrev_offset = 0x1234
        0x08, // address_size
        0xaa, 0xbb, 0xcc, // entry data
    ];
    let mut c = Cursor::new(&data, Endian::Little);
    let h = CompilationUnitHeader::parse(&mut c).unwrap();
    assert_eq!(h.offset, 0);
    assert_eq!(h.unit_length, 10);
    assert_eq!(h.version, 4);
    assert_eq!(h.format, Format::Dwarf32);
    assert_eq!(h.debug_abbrev_offset, 0x1234);
    assert_eq!(h.address_size, 8);
    // the cursor stands just past the header, inside 4 + 10 bytes
    assert_eq!(c.offset(), 11);
    assert!(c.offset() <= 4 + 10);
}

#[test]
fn parses_dwarf64_header() {
    let data: Vec<u8> = vec![
        0xff, 0xff, 0xff, 0xff, // 64-bit escape
        0x0f, 0x00, 0x00, 0x00, 0x00, 0x00, 0x00, 0x00, // unit_length = 15
        0x03, 0x00, // version 3
        0x78, 0x56, 0x34, 0x12, 0x00, 0x00, 0x00, 0x00, // abbrev offset, 8 bytes
        0x04, // address_size
        0x00, 0x00, 0x00, 0x00, // entry data
    ];
    let mut c = Cursor::new(&data, Endian::Little);
    let h = CompilationUnitHeader::parse(&mut c).unwrap();
    assert_eq!(h.format, Format::Dwarf64);
    assert_eq!(h.version, 3);
    assert_eq!(h.unit_length, 15);
    assert_eq!(h.debug_abbrev_offset, 0x12345678);
    assert_eq!(h.address_size, 4);
    assert_eq!(c.offset(), 12 + 11);
}

#[test]
fn parses_version5_field_order() {
    // DWARF 5 reorders the fields: unit type, address size, then the
    // abbreviation offset
    let data: Vec<u8> = vec![
        0x08, 0x00, 0x00, 0x00, // unit_length = 8
        0x05, 0x00, // version 5
        0x01, // unit type: compile
        0x08, // address_size
        0x21, 0x43, 0x00, 0x00, // debug_abbrev_offset = 0x4321
    ];
    let mut c = Cursor::new(&data, Endian::Little);
    let h = CompilationUnitHeader::parse(&mut c).unwrap();
    assert_eq!(h.version, 5);
    assert_eq!(h.address_size, 8);
    assert_eq!(h.debug_abbrev_offset, 0x4321);
}

#[test]
fn parses_big_endian_header() {
    let data: Vec<u8> = vec![
        0x00, 0x00, 0x00, 0x09, // unit_length = 9
        0x00, 0x02, // version 2
        0x00, 0x00, 0x00, 0x55, // abbrev offset
        0x04, // address size
        0x00, 0x00, // entry data
    ];
    let mut c = Cursor::new(&data, Endian::Big);
    let h = CompilationUnitHeader::parse(&mut c).unwrap();
    assert_eq!(h.version, 2);
    assert_eq!(h.debug_abbrev_offset, 0x55);
    assert_eq!(h.address_size, 4);
}

#[test]
fn rejects_unrecognized_versions() {
    for bad in [0x01u8, 0x06] {
        let data: Vec<u8> = vec![
            0x07, 0x00, 0x00, 0x00, bad, 0x00, 0x00, 0x00, 0x00, 0x00, 0x04,
        ];
        let mut c = Cursor::new(&data, Endian::Little);
        assert_eq!(
            CompilationUnitHeader::parse(&mut c),
            Err(Error::UnsupportedVersion)
        );
        assert_eq!(c.offset(), 0);
    }
}

#[test]
fn rejects_reserved_initial_length() {
    let data: Vec<u8> = vec![0xf0, 0xff, 0xff, 0xff, 0x00, 0x00, 0x00, 0x00];
    let mut c = Cursor::new(&data, Endian::Little);
    assert_eq!(
        CompilationUnitHeader::parse(&mut c),
        Err(Error::InvalidLengthEncoding)
    );
    assert_eq!(c.offset(), 0);
}

#[test]
fn rejects_length_beyond_section() {
    let data: Vec<u8> = vec![0xff, 0x00, 0x00, 0x00, 0x04, 0x00, 0x00, 0x00, 0x00, 0x00, 0x04];
    let mut c = Cursor::new(&data, Endian::Little);
    assert_eq!(
        CompilationUnitHeader::parse(&mut c),
        Err(Error::InvalidLengthEncoding)
    );
    assert_eq!(c.offset(), 0);
}

#[test]
fn rejects_header_fields_crossing_unit_length() {
    // length 3 cannot hold even the version and the remaining fields
    let data: Vec<u8> = vec![0x03, 0x00, 0x00, 0x00, 0x04, 0x00, 0x00, 0x00, 0x00, 0x00, 0x04];
    let mut c = Cursor::new(&data, Endian::Little);
    assert_eq!(
        CompilationUnitHeader::parse(&mut c),
        Err(Error::InvalidLengthEncoding)
    );
    assert_eq!(c.offset(), 0);
}

#[test]
fn rejects_bad_address_size() {
    let data: Vec<u8> = vec![
        0x07, 0x00, 0x00, 0x00, 0x04, 0x00, 0x00, 0x00, 0x00, 0x00, 0x09,
    ];
    let mut c = Cursor::new(&data, Endian::Little);
    assert_eq!(
        CompilationUnitHeader::parse(&mut c),
        Err(Error::InvalidLengthEncoding)
    );
}

#[test]
fn parses_type_unit_header() {
    let data: Vec<u8> = vec![
        0x13, 0x00, 0x00, 0x00, // unit_length = 19
        0x04, 0x00, // version 4
        0x10, 0x00, 0x00, 0x00, // abbrev offset
        0x08, // address size
        0xef, 0xcd, 0xab, 0x89, 0x67, 0x45, 0x23, 0x01, // type signature
        0x1d, 0x00, 0x00, 0x00, // type offset
    ];
    let mut c = Cursor::new(&data, Endian::Little);
    let t = TypeUnitHeader::parse(&mut c).unwrap();
    assert_eq!(t.header.version, 4);
    assert_eq!(t.header.debug_abbrev_offset, 0x10);
    assert_eq!(t.type_signature, 0x0123456789abcdef);
    assert_eq!(t.type_offset, 0x1d);
    assert_eq!(c.offset(), 23);
}

#[test]
fn header_offset_records_unit_position() {
    let data: Vec<u8> = vec![
        0x00, 0x00, // padding before the unit
        0x07, 0x00, 0x00, 0x00, 0x04, 0x00, 0x00, 0x00, 0x00, 0x00, 0x04,
    ];
    let mut c = Cursor::new(&data, Endian::Little);
    c.seek(2);
    let h = CompilationUnitHeader::parse(&mut c).unwrap();
    assert_eq!(h.offset, 2);
}
