use dwarf_read::abbrev::Abbreviations;
use dwarf_read::cursor::Cursor;
use dwarf_read::dwarf::{DebugAbbrev, DebugInfo, DebugStr, Dwarf};
use dwarf_read::endian::Endian;
use dwarf_read::error::Error;
use dwarf_read::form::{decode_attribute, Attribute, AttributeValue};
use dwarf_read::unit::CompilationUnitHeader;

fn dwarf_with_strings(primary: Vec<u8>, supplementary: Vec<u8>) -> Dwarf {
    Dwarf {
        endian: Endian::Little,
        debug_str: DebugStr { data: primary },
        debug_str_sup: DebugStr { data: supplementary },
        ..Default::default()
    }
}

#[test]
fn attr_string_resolves_primary_offset() {
    // "main\0" lies at offset 3 of the primary string section
    let dwarf = dwarf_with_strings(b"ab\0main\0".to_vec(), Vec::new());
    let attr = Attribute { name: 0x03, value: AttributeValue::DebugStrRef(3) };
    assert_eq!(dwarf.attr_string(&attr), Some(b"main".to_vec()));
}

#[test]
fn attr_string_returns_inline_strings_directly() {
    let dwarf = dwarf_with_strings(Vec::new(), Vec::new());
    let attr = Attribute { name: 0x03, value: AttributeValue::InlineString(b"main".to_vec()) };
    assert_eq!(dwarf.attr_string(&attr), Some(b"main".to_vec()));
}

#[test]
fn attr_string_is_not_applicable_to_numeric_values() {
    let dwarf = dwarf_with_strings(b"main\0".to_vec(), Vec::new());
    let attr = Attribute { name: 0x03, value: AttributeValue::Data4(0) };
    assert_eq!(dwarf.attr_string(&attr), None);
    let addr = Attribute { name: 0x11, value: AttributeValue::Addr(0) };
    assert_eq!(dwarf.attr_string(&addr), None);
}

#[test]
fn attr_string_resolves_supplementary_against_its_own_section() {
    // both sections hold a string at offset 0; the supplementary reference
    // must read the supplementary bytes, never the primary ones
    let dwarf = dwarf_with_strings(b"primary\0".to_vec(), b"auxilia\0".to_vec());
    let sup = Attribute { name: 0x03, value: AttributeValue::DebugStrRefSup(0) };
    assert_eq!(dwarf.attr_string(&sup), Some(b"auxilia".to_vec()));
    let prim = Attribute { name: 0x03, value: AttributeValue::DebugStrRef(0) };
    assert_eq!(dwarf.attr_string(&prim), Some(b"primary".to_vec()));
}

#[test]
fn attr_string_supplementary_with_identical_bytes() {
    let dwarf = dwarf_with_strings(b"same\0".to_vec(), b"same\0".to_vec());
    let sup = Attribute { name: 0x03, value: AttributeValue::DebugStrRefSup(0) };
    assert_eq!(dwarf.attr_string(&sup), Some(b"same".to_vec()));
}

#[test]
fn attr_string_surfaces_bad_offsets_as_none() {
    let dwarf = dwarf_with_strings(b"main\0xx".to_vec(), Vec::new());
    // beyond the section
    let oob = Attribute { name: 0x03, value: AttributeValue::DebugStrRef(100) };
    assert_eq!(dwarf.attr_string(&oob), None);
    // inside the section but with no terminator after it
    let nonul = Attribute { name: 0x03, value: AttributeValue::DebugStrRef(5) };
    assert_eq!(dwarf.attr_string(&nonul), None);
}

#[test]
fn get_str_reports_exact_error_kinds() {
    let section = DebugStr { data: b"ab\0cd".to_vec() };
    assert_eq!(get_ok(&section, 0), b"ab".to_vec());
    assert_eq!(get_ok(&section, 1), b"b".to_vec());
    assert_eq!(get_ok(&section, 2), Vec::<u8>::new());
    assert_eq!(section.get_str(3).err(), Some(Error::UnexpectedEndOfInput));
    assert_eq!(section.get_str(6).err(), Some(Error::OffsetOutOfBounds));
}

fn get_ok(section: &DebugStr, offset: u64) -> Vec<u8> {
    section.get_str(offset).unwrap()
}

#[test]
fn whole_pipeline_decodes_a_unit_name() {
    // .debug_abbrev: one declaration: code 1, compile unit, no children,
    // one attribute (name, inline string)
    let abbrev_bytes: Vec<u8> = vec![0x01, 0x11, 0x00, 0x03, 0x08, 0x00, 0x00, 0x00];
    // .debug_info: one DWARF32 version 4 unit whose first entry uses
    // abbreviation 1 and carries the inline string "crt0\0"
    let info_bytes: Vec<u8> = vec![
        0x0d, 0x00, 0x00, 0x00, // unit_length = 13
        0x04, 0x00, // version
        0x00, 0x00, 0x00, 0x00, // abbrev offset 0
        0x08, // address size
        0x01, // abbreviation code of the first entry
        b'c', b'r', b't', b'0', 0x00, // its name attribute
    ];
    let dwarf = Dwarf {
        endian: Endian::Little,
        debug_abbrev: DebugAbbrev { data: abbrev_bytes },
        debug_info: DebugInfo { data: info_bytes },
        ..Default::default()
    };
    let mut cursor = dwarf.debug_info.cursor_at(0, dwarf.endian).unwrap();
    let header = CompilationUnitHeader::parse(&mut cursor).unwrap();
    assert_eq!(header.unit_length, 13);
    let abbrevs: Abbreviations = dwarf.abbreviations(&header).unwrap();
    let code = cursor.read_uleb128().unwrap();
    let decl = abbrevs.get(code).unwrap();
    assert_eq!(decl.tag, 0x11);
    let mut attrs = Vec::new();
    for aspec in &decl.attributes {
        attrs.push(
            decode_attribute(&mut cursor, aspec, header.address_size, header.format).unwrap(),
        );
    }
    assert_eq!(attrs.len(), 1);
    assert_eq!(dwarf.attr_string(&attrs[0]), Some(b"crt0".to_vec()));
    // the whole unit has been consumed without crossing its boundary
    assert_eq!(cursor.offset(), 4 + 13);
}

#[test]
fn cursor_at_rejects_offsets_beyond_the_section() {
    let info = DebugInfo { data: vec![0x00, 0x01] };
    assert!(info.cursor_at(2, Endian::Little).is_ok());
    match info.cursor_at(3, Endian::Little) {
        Ok(_) => panic!("offset beyond the section must be refused"),
        Err(e) => assert_eq!(e, Error::OffsetOutOfBounds),
    }
    let mut c: Cursor = info.cursor_at(1, Endian::Little).unwrap();
    assert_eq!(c.read_u8(), Ok(0x01));
}
