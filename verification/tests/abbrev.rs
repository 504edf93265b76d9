use dwarf_read::abbrev::{Abbreviations, AbbreviationsCache};
use dwarf_read::cursor::Cursor;
use dwarf_read::dwarf::{DebugAbbrev, Dwarf};
use dwarf_read::endian::Endian;
use dwarf_read::error::Error;
use dwarf_read::unit::{CompilationUnitHeader, Format};

fn one_entry_table() -> Vec<u8> {
    vec![
        0x01, // code 1
        0x11, // tag: compile unit
        0x01, // has children
        0x03, 0x08, // name attribute, string form
        0x00, 0x00, // attribute list terminator
        0x00, // table terminator
    ]
}

#[test]
fn decodes_single_declaration_table() {
    let data = one_entry_table();
    let mut c = Cursor::new(&data, Endian::Little);
    let abbrevs = Abbreviations::parse(&mut c).unwrap();
    assert_eq!(abbrevs.count(), 1);
    let d = abbrevs.get(1).unwrap();
    assert_eq!(d.code, 1);
    assert_eq!(d.tag, 0x11);
    assert!(d.has_children);
    assert_eq!(d.attributes.len(), 1);
    assert_eq!(d.attributes[0].name, 0x03);
    assert_eq!(d.attributes[0].form, 0x08);
    assert_eq!(d.attributes[0].implicit_const, None);
    // the mapping holds nothing else
    assert!(abbrevs.get(2).is_none());
    assert!(abbrevs.get(0).is_none());
    // the table is fully consumed, terminator included
    assert_eq!(c.offset(), data.len());
}

#[test]
fn table_without_terminator_is_end_of_input() {
    let mut data = one_entry_table();
    data.pop(); // drop the terminating zero code
    let mut c = Cursor::new(&data, Endian::Little);
    assert_eq!(
        Abbreviations::parse(&mut c).err(),
        Some(Error::UnexpectedEndOfInput)
    );
    assert_eq!(c.offset(), 0);
}

#[test]
fn duplicate_codes_are_rejected() {
    let data: Vec<u8> = vec![
        0x01, 0x11, 0x01, 0x00, 0x00, // code 1
        0x01, 0x2e, 0x00, 0x00, 0x00, // code 1 again
        0x00,
    ];
    let mut c = Cursor::new(&data, Endian::Little);
    assert_eq!(
        Abbreviations::parse(&mut c).err(),
        Some(Error::DuplicateAbbreviationCode)
    );
    assert_eq!(c.offset(), 0);
}

#[test]
fn unknown_tag_is_rejected() {
    let data: Vec<u8> = vec![0x01, 0x06, 0x00, 0x00, 0x00, 0x00];
    let mut c = Cursor::new(&data, Endian::Little);
    assert_eq!(Abbreviations::parse(&mut c).err(), Some(Error::UnknownTag));
}

#[test]
fn unknown_attribute_is_rejected() {
    let data: Vec<u8> = vec![0x01, 0x11, 0x00, 0x04, 0x08, 0x00, 0x00, 0x00];
    let mut c = Cursor::new(&data, Endian::Little);
    assert_eq!(
        Abbreviations::parse(&mut c).err(),
        Some(Error::UnknownAttribute)
    );
}

#[test]
fn unknown_form_is_rejected() {
    let data: Vec<u8> = vec![0x01, 0x11, 0x00, 0x03, 0x02, 0x00, 0x00, 0x00];
    let mut c = Cursor::new(&data, Endian::Little);
    assert_eq!(Abbreviations::parse(&mut c).err(), Some(Error::UnknownForm));
}

#[test]
fn implicit_const_value_lives_in_the_table() {
    let data: Vec<u8> = vec![
        0x01, 0x11, 0x00, // code 1, compile unit, no children
        0x1c, 0x21, 0x7b, // const-value attribute, implicit-const form, -5
        0x00, 0x00, 0x00,
    ];
    let mut c = Cursor::new(&data, Endian::Little);
    let abbrevs = Abbreviations::parse(&mut c).unwrap();
    let d = abbrevs.get(1).unwrap();
    assert_eq!(d.attributes[0].form, 0x21);
    assert_eq!(d.attributes[0].implicit_const, Some(-5));
}

#[test]
fn repeated_decodes_are_structurally_equal() {
    let data = one_entry_table();
    let mut c1 = Cursor::new(&data, Endian::Little);
    let a1 = Abbreviations::parse(&mut c1).unwrap();
    let mut c2 = Cursor::new(&data, Endian::Little);
    let a2 = Abbreviations::parse(&mut c2).unwrap();
    assert_eq!(a1, a2);
}

#[test]
fn cache_answers_equal_fresh_decodes() {
    let data = one_entry_table();
    let mut cache = AbbreviationsCache::new(&data, Endian::Little);
    let first = cache.abbreviations_at(&data, 0).unwrap();
    let second = cache.abbreviations_at(&data, 0).unwrap();
    assert_eq!(first, second);
    let mut c = Cursor::new(&data, Endian::Little);
    let fresh = Abbreviations::parse(&mut c).unwrap();
    assert_eq!(first, fresh);
    assert_eq!(
        cache.abbreviations_at(&data, data.len() as u64 + 1).err(),
        Some(Error::OffsetOutOfBounds)
    );
}

#[test]
fn dwarf_resolves_unit_abbreviations_by_offset() {
    // two tables: an empty one at offset 0, the real one at offset 1
    let mut data: Vec<u8> = vec![0x00];
    data.extend(one_entry_table());
    let dwarf = Dwarf {
        endian: Endian::Little,
        debug_abbrev: DebugAbbrev { data },
        ..Default::default()
    };
    let header = CompilationUnitHeader {
        offset: 0,
        unit_length: 7,
        version: 4,
        format: Format::Dwarf32,
        debug_abbrev_offset: 1,
        address_size: 8,
    };
    let abbrevs = dwarf.abbreviations(&header).unwrap();
    assert_eq!(abbrevs.count(), 1);
    assert_eq!(abbrevs.get(1).unwrap().tag, 0x11);

    let empty = dwarf
        .abbreviations(&CompilationUnitHeader {
            debug_abbrev_offset: 0,
            ..header
        })
        .unwrap();
    assert_eq!(empty.count(), 0);

    let oob = dwarf.abbreviations(&CompilationUnitHeader {
        debug_abbrev_offset: 100,
        ..header
    });
    assert_eq!(oob.err(), Some(Error::OffsetOutOfBounds));

    let mut cache = AbbreviationsCache::new(&dwarf.debug_abbrev.data, dwarf.endian);
    let cached = dwarf.abbreviations_cached(&header, &mut cache).unwrap();
    assert_eq!(cached, abbrevs);
}
