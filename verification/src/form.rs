use vstd::prelude::*;

use crate::abbrev::AttributeSpecification;
use crate::cursor::{
    same_window, spec_read_bytes, spec_read_null_terminated, spec_read_u8, spec_read_uleb128,
    spec_read_sleb128, spec_read_word, Cursor, CursorModel,
};
use crate::error::Error;
use crate::unit::{spec_offset_size, Format};

verus! {

// The form codes of DWARF versions 2 to 5: the binary encoding rules for
// attribute values.  The same byte pattern is interpreted differently
// depending solely on the form code, never on inspection of the bytes.

pub const DW_FORM_ADDR: u64 = 0x01;

pub const DW_FORM_BLOCK2: u64 = 0x03;

pub const DW_FORM_BLOCK4: u64 = 0x04;

pub const DW_FORM_DATA2: u64 = 0x05;

pub const DW_FORM_DATA4: u64 = 0x06;

pub const DW_FORM_DATA8: u64 = 0x07;

pub const DW_FORM_STRING: u64 = 0x08;

pub const DW_FORM_BLOCK: u64 = 0x09;

pub const DW_FORM_BLOCK1: u64 = 0x0a;

pub const DW_FORM_DATA1: u64 = 0x0b;

pub const DW_FORM_FLAG: u64 = 0x0c;

pub const DW_FORM_SDATA: u64 = 0x0d;

pub const DW_FORM_STRP: u64 = 0x0e;

pub const DW_FORM_UDATA: u64 = 0x0f;

pub const DW_FORM_REF_ADDR: u64 = 0x10;

pub const DW_FORM_REF1: u64 = 0x11;

pub const DW_FORM_REF2: u64 = 0x12;

pub const DW_FORM_REF4: u64 = 0x13;

pub const DW_FORM_REF8: u64 = 0x14;

pub const DW_FORM_REF_UDATA: u64 = 0x15;

pub const DW_FORM_INDIRECT: u64 = 0x16;

pub const DW_FORM_SEC_OFFSET: u64 = 0x17;

pub const DW_FORM_EXPRLOC: u64 = 0x18;

pub const DW_FORM_FLAG_PRESENT: u64 = 0x19;

pub const DW_FORM_STRX: u64 = 0x1a;

pub const DW_FORM_ADDRX: u64 = 0x1b;

pub const DW_FORM_REF_SUP4: u64 = 0x1c;

pub const DW_FORM_STRP_SUP: u64 = 0x1d;

pub const DW_FORM_DATA16: u64 = 0x1e;

pub const DW_FORM_LINE_STRP: u64 = 0x1f;

pub const DW_FORM_REF_SIG8: u64 = 0x20;

pub const DW_FORM_IMPLICIT_CONST: u64 = 0x21;

pub const DW_FORM_LOCLISTX: u64 = 0x22;

pub const DW_FORM_RNGLISTX: u64 = 0x23;

pub const DW_FORM_REF_SUP8: u64 = 0x24;

pub const DW_FORM_STRX1: u64 = 0x25;

pub const DW_FORM_STRX2: u64 = 0x26;

pub const DW_FORM_STRX3: u64 = 0x27;

pub const DW_FORM_STRX4: u64 = 0x28;

pub const DW_FORM_ADDRX1: u64 = 0x29;

pub const DW_FORM_ADDRX2: u64 = 0x2a;

pub const DW_FORM_ADDRX3: u64 = 0x2b;

pub const DW_FORM_ADDRX4: u64 = 0x2c;

/// Whether `f` is a form code of the recognized enumeration.  The codes run
/// contiguously from `DW_FORM_addr` to `DW_FORM_addrx4`, with 0x02 reserved.
pub open spec fn spec_known_form(f: u64) -> bool {
    1 <= f <= 0x2c && f != 2
}

/// Executable counterpart of `spec_known_form`.
pub fn known_form(f: u64) -> (r: bool)
    ensures
        r == spec_known_form(f),
{
    1 <= f && f <= 0x2c && f != 2
}

/// A decoded attribute value: one variant for every decoded shape.  Offsets
/// are typed by their target section — an offset decoded from a
/// string-reference form can never be confused with a line-table offset.
#[derive(Clone, Debug, PartialEq, Eq)]
pub enum AttributeValue {
    /// An address of `address_size` bytes.
    Addr(u64),
    /// A length-prefixed block of opaque bytes.
    Block(Vec<u8>),
    /// A one-byte constant.
    Data1(u8),
    /// A two-byte constant.
    Data2(u16),
    /// A four-byte constant.
    Data4(u32),
    /// An eight-byte constant.
    Data8(u64),
    /// A sixteen-byte constant.
    Data16(Vec<u8>),
    /// A signed variable-length constant.
    Sdata(i64),
    /// An unsigned variable-length constant.
    Udata(u64),
    /// A block of DWARF expression byte code.
    Exprloc(Vec<u8>),
    /// A boolean flag.
    Flag(bool),
    /// An offset into a version-dependent section, disambiguated by the
    /// attribute name.
    SecOffset(u64),
    /// A reference to an entry within this entry's own unit.
    UnitRef(u64),
    /// A reference to an entry anywhere in the info section.
    DebugInfoRef(u64),
    /// A reference into the info section of a supplementary object file.
    DebugInfoRefSup(u64),
    /// An offset into the string section.
    DebugStrRef(u64),
    /// An offset into the string section of a supplementary object file.
    DebugStrRefSup(u64),
    /// An offset into the line-program string section.
    DebugLineStrRef(u64),
    /// An index into the string-offsets table of a split object.
    DebugStrOffsetsIndex(u64),
    /// An index into the address table of a split object.
    DebugAddrIndex(u64),
    /// An index or offset into the location lists.
    LocationListsRef(u64),
    /// An index or offset into the range lists.
    RangeListsRef(u64),
    /// The 64-bit signature of a type defined in a type unit.
    DebugTypesRef(u64),
    /// A string lying inline in the entry's bytes, without its terminator.
    InlineString(Vec<u8>),
}

/// The mathematical shape of a decoded attribute value.
pub ghost enum AttributeValueModel {
    Addr(u64),
    Block(Seq<u8>),
    Data1(u8),
    Data2(u16),
    Data4(u32),
    Data8(u64),
    Data16(Seq<u8>),
    Sdata(i64),
    Udata(u64),
    Exprloc(Seq<u8>),
    Flag(bool),
    SecOffset(u64),
    UnitRef(u64),
    DebugInfoRef(u64),
    DebugInfoRefSup(u64),
    DebugStrRef(u64),
    DebugStrRefSup(u64),
    DebugLineStrRef(u64),
    DebugStrOffsetsIndex(u64),
    DebugAddrIndex(u64),
    LocationListsRef(u64),
    RangeListsRef(u64),
    DebugTypesRef(u64),
    InlineString(Seq<u8>),
}

impl View for AttributeValue {
    type V = AttributeValueModel;

    open spec fn view(&self) -> AttributeValueModel {
        match self {
            AttributeValue::Addr(v) => AttributeValueModel::Addr(*v),
            AttributeValue::Block(v) => AttributeValueModel::Block(v@),
            AttributeValue::Data1(v) => AttributeValueModel::Data1(*v),
            AttributeValue::Data2(v) => AttributeValueModel::Data2(*v),
            AttributeValue::Data4(v) => AttributeValueModel::Data4(*v),
            AttributeValue::Data8(v) => AttributeValueModel::Data8(*v),
            AttributeValue::Data16(v) => AttributeValueModel::Data16(v@),
            AttributeValue::Sdata(v) => AttributeValueModel::Sdata(*v),
            AttributeValue::Udata(v) => AttributeValueModel::Udata(*v),
            AttributeValue::Exprloc(v) => AttributeValueModel::Exprloc(v@),
            AttributeValue::Flag(v) => AttributeValueModel::Flag(*v),
            AttributeValue::SecOffset(v) => AttributeValueModel::SecOffset(*v),
            AttributeValue::UnitRef(v) => AttributeValueModel::UnitRef(*v),
            AttributeValue::DebugInfoRef(v) => AttributeValueModel::DebugInfoRef(*v),
            AttributeValue::DebugInfoRefSup(v) => AttributeValueModel::DebugInfoRefSup(*v),
            AttributeValue::DebugStrRef(v) => AttributeValueModel::DebugStrRef(*v),
            AttributeValue::DebugStrRefSup(v) => AttributeValueModel::DebugStrRefSup(*v),
            AttributeValue::DebugLineStrRef(v) => AttributeValueModel::DebugLineStrRef(*v),
            AttributeValue::DebugStrOffsetsIndex(v) => AttributeValueModel::DebugStrOffsetsIndex(
                *v,
            ),
            AttributeValue::DebugAddrIndex(v) => AttributeValueModel::DebugAddrIndex(*v),
            AttributeValue::LocationListsRef(v) => AttributeValueModel::LocationListsRef(*v),
            AttributeValue::RangeListsRef(v) => AttributeValueModel::RangeListsRef(*v),
            AttributeValue::DebugTypesRef(v) => AttributeValueModel::DebugTypesRef(*v),
            AttributeValue::InlineString(v) => AttributeValueModel::InlineString(v@),
        }
    }
}

/// Completes a block-shaped form whose length field has just been read.
pub open spec fn spec_block_after_len(
    r: Result<(u64, CursorModel), Error>,
    exprloc: bool,
) -> Result<(AttributeValueModel, CursorModel), Error> {
    match r {
        Err(e) => Err(e),
        Ok((n, c1)) => match spec_read_bytes(c1, n as int) {
            Err(e) => Err(e),
            Ok((bytes, c2)) => Ok(
                (
                    if exprloc {
                        AttributeValueModel::Exprloc(bytes)
                    } else {
                        AttributeValueModel::Block(bytes)
                    },
                    c2,
                ),
            ),
        },
    }
}

/// What decoding one attribute value of form `form` yields, for every form
/// that encodes its value in the entry's byte stream directly.  `indirect`
/// carries no value of its own and the implicit-constant form stores its
/// value in the abbreviation table, so both are refused here, as is every
/// unrecognized code.
pub open spec fn spec_parse_attr_value_raw(
    c: CursorModel,
    form: u64,
    address_size: u8,
    format: Format,
) -> Result<(AttributeValueModel, CursorModel), Error> {
    if form == DW_FORM_ADDR {
        match spec_read_word(c, address_size as int) {
            Err(e) => Err(e),
            Ok((v, c1)) => Ok((AttributeValueModel::Addr(v), c1)),
        }
    } else if form == DW_FORM_BLOCK1 {
        spec_block_after_len(spec_read_word(c, 1), false)
    } else if form == DW_FORM_BLOCK2 {
        spec_block_after_len(spec_read_word(c, 2), false)
    } else if form == DW_FORM_BLOCK4 {
        spec_block_after_len(spec_read_word(c, 4), false)
    } else if form == DW_FORM_BLOCK {
        spec_block_after_len(spec_read_uleb128(c), false)
    } else if form == DW_FORM_EXPRLOC {
        spec_block_after_len(spec_read_uleb128(c), true)
    } else if form == DW_FORM_DATA1 {
        match spec_read_u8(c) {
            Err(e) => Err(e),
            Ok((v, c1)) => Ok((AttributeValueModel::Data1(v), c1)),
        }
    } else if form == DW_FORM_DATA2 {
        match spec_read_word(c, 2) {
            Err(e) => Err(e),
            Ok((v, c1)) => Ok((AttributeValueModel::Data2(v as u16), c1)),
        }
    } else if form == DW_FORM_DATA4 {
        match spec_read_word(c, 4) {
            Err(e) => Err(e),
            Ok((v, c1)) => Ok((AttributeValueModel::Data4(v as u32), c1)),
        }
    } else if form == DW_FORM_DATA8 {
        match spec_read_word(c, 8) {
            Err(e) => Err(e),
            Ok((v, c1)) => Ok((AttributeValueModel::Data8(v), c1)),
        }
    } else if form == DW_FORM_DATA16 {
        match spec_read_bytes(c, 16) {
            Err(e) => Err(e),
            Ok((bytes, c1)) => Ok((AttributeValueModel::Data16(bytes), c1)),
        }
    } else if form == DW_FORM_STRING {
        match spec_read_null_terminated(c) {
            Err(e) => Err(e),
            Ok((bytes, c1)) => Ok((AttributeValueModel::InlineString(bytes), c1)),
        }
    } else if form == DW_FORM_FLAG {
        match spec_read_u8(c) {
            Err(e) => Err(e),
            Ok((v, c1)) => Ok((AttributeValueModel::Flag(v != 0), c1)),
        }
    } else if form == DW_FORM_FLAG_PRESENT {
        Ok((AttributeValueModel::Flag(true), c))
    } else if form == DW_FORM_SDATA {
        match spec_read_sleb128(c) {
            Err(e) => Err(e),
            Ok((v, c1)) => Ok((AttributeValueModel::Sdata(v), c1)),
        }
    } else if form == DW_FORM_UDATA {
        match spec_read_uleb128(c) {
            Err(e) => Err(e),
            Ok((v, c1)) => Ok((AttributeValueModel::Udata(v), c1)),
        }
    } else if form == DW_FORM_STRP {
        match spec_read_word(c, spec_offset_size(format)) {
            Err(e) => Err(e),
            Ok((v, c1)) => Ok((AttributeValueModel::DebugStrRef(v), c1)),
        }
    } else if form == DW_FORM_STRP_SUP {
        match spec_read_word(c, spec_offset_size(format)) {
            Err(e) => Err(e),
            Ok((v, c1)) => Ok((AttributeValueModel::DebugStrRefSup(v), c1)),
        }
    } else if form == DW_FORM_LINE_STRP {
        match spec_read_word(c, spec_offset_size(format)) {
            Err(e) => Err(e),
            Ok((v, c1)) => Ok((AttributeValueModel::DebugLineStrRef(v), c1)),
        }
    } else if form == DW_FORM_SEC_OFFSET {
        match spec_read_word(c, spec_offset_size(format)) {
            Err(e) => Err(e),
            Ok((v, c1)) => Ok((AttributeValueModel::SecOffset(v), c1)),
        }
    } else if form == DW_FORM_REF_ADDR {
        match spec_read_word(c, spec_offset_size(format)) {
            Err(e) => Err(e),
            Ok((v, c1)) => Ok((AttributeValueModel::DebugInfoRef(v), c1)),
        }
    } else if form == DW_FORM_REF1 {
        match spec_read_word(c, 1) {
            Err(e) => Err(e),
            Ok((v, c1)) => Ok((AttributeValueModel::UnitRef(v), c1)),
        }
    } else if form == DW_FORM_REF2 {
        match spec_read_word(c, 2) {
            Err(e) => Err(e),
            Ok((v, c1)) => Ok((AttributeValueModel::UnitRef(v), c1)),
        }
    } else if form == DW_FORM_REF4 {
        match spec_read_word(c, 4) {
            Err(e) => Err(e),
            Ok((v, c1)) => Ok((AttributeValueModel::UnitRef(v), c1)),
        }
    } else if form == DW_FORM_REF8 {
        match spec_read_word(c, 8) {
            Err(e) => Err(e),
            Ok((v, c1)) => Ok((AttributeValueModel::UnitRef(v), c1)),
        }
    } else if form == DW_FORM_REF_UDATA {
        match spec_read_uleb128(c) {
            Err(e) => Err(e),
            Ok((v, c1)) => Ok((AttributeValueModel::UnitRef(v), c1)),
        }
    } else if form == DW_FORM_REF_SUP4 {
        match spec_read_word(c, 4) {
            Err(e) => Err(e),
            Ok((v, c1)) => Ok((AttributeValueModel::DebugInfoRefSup(v), c1)),
        }
    } else if form == DW_FORM_REF_SUP8 {
        match spec_read_word(c, 8) {
            Err(e) => Err(e),
            Ok((v, c1)) => Ok((AttributeValueModel::DebugInfoRefSup(v), c1)),
        }
    } else if form == DW_FORM_REF_SIG8 {
        match spec_read_word(c, 8) {
            Err(e) => Err(e),
            Ok((v, c1)) => Ok((AttributeValueModel::DebugTypesRef(v), c1)),
        }
    } else if form == DW_FORM_STRX {
        match spec_read_uleb128(c) {
            Err(e) => Err(e),
            Ok((v, c1)) => Ok((AttributeValueModel::DebugStrOffsetsIndex(v), c1)),
        }
    } else if form == DW_FORM_STRX1 {
        match spec_read_word(c, 1) {
            Err(e) => Err(e),
            Ok((v, c1)) => Ok((AttributeValueModel::DebugStrOffsetsIndex(v), c1)),
        }
    } else if form == DW_FORM_STRX2 {
        match spec_read_word(c, 2) {
            Err(e) => Err(e),
            Ok((v, c1)) => Ok((AttributeValueModel::DebugStrOffsetsIndex(v), c1)),
        }
    } else if form == DW_FORM_STRX3 {
        match spec_read_word(c, 3) {
            Err(e) => Err(e),
            Ok((v, c1)) => Ok((AttributeValueModel::DebugStrOffsetsIndex(v), c1)),
        }
    } else if form == DW_FORM_STRX4 {
        match spec_read_word(c, 4) {
            Err(e) => Err(e),
            Ok((v, c1)) => Ok((AttributeValueModel::DebugStrOffsetsIndex(v), c1)),
        }
    } else if form == DW_FORM_ADDRX {
        match spec_read_uleb128(c) {
            Err(e) => Err(e),
            Ok((v, c1)) => Ok((AttributeValueModel::DebugAddrIndex(v), c1)),
        }
    } else if form == DW_FORM_ADDRX1 {
        match spec_read_word(c, 1) {
            Err(e) => Err(e),
            Ok((v, c1)) => Ok((AttributeValueModel::DebugAddrIndex(v), c1)),
        }
    } else if form == DW_FORM_ADDRX2 {
        match spec_read_word(c, 2) {
            Err(e) => Err(e),
            Ok((v, c1)) => Ok((AttributeValueModel::DebugAddrIndex(v), c1)),
        }
    } else if form == DW_FORM_ADDRX3 {
        match spec_read_word(c, 3) {
            Err(e) => Err(e),
            Ok((v, c1)) => Ok((AttributeValueModel::DebugAddrIndex(v), c1)),
        }
    } else if form == DW_FORM_ADDRX4 {
        match spec_read_word(c, 4) {
            Err(e) => Err(e),
            Ok((v, c1)) => Ok((AttributeValueModel::DebugAddrIndex(v), c1)),
        }
    } else if form == DW_FORM_LOCLISTX {
        match spec_read_uleb128(c) {
            Err(e) => Err(e),
            Ok((v, c1)) => Ok((AttributeValueModel::LocationListsRef(v), c1)),
        }
    } else if form == DW_FORM_RNGLISTX {
        match spec_read_uleb128(c) {
            Err(e) => Err(e),
            Ok((v, c1)) => Ok((AttributeValueModel::RangeListsRef(v), c1)),
        }
    } else {
        Err(Error::UnknownForm)
    }
}

/// What decoding one attribute value yields.  The `indirect` form encodes
/// another form code followed by that form's bytes; the indirection recurses
/// exactly one level — a second `indirect`, or an implicit constant, behind
/// an `indirect` is a decode error.
pub open spec fn spec_parse_attr_value(
    c: CursorModel,
    form: u64,
    address_size: u8,
    format: Format,
) -> Result<(AttributeValueModel, CursorModel), Error> {
    if form == DW_FORM_INDIRECT {
        match spec_read_uleb128(c) {
            Err(e) => Err(e),
            Ok((f2, c1)) => if f2 == DW_FORM_INDIRECT || f2 == DW_FORM_IMPLICIT_CONST {
                Err(Error::UnknownForm)
            } else {
                spec_parse_attr_value_raw(c1, f2, address_size, format)
            },
        }
    } else {
        spec_parse_attr_value_raw(c, form, address_size, format)
    }
}

/// Decodes the value of one directly encoded form; the caller restores the
/// cursor on failure.
fn parse_value_raw(cursor: &mut Cursor, form: u64, address_size: u8, format: Format) -> (r: Result<
    AttributeValue,
    Error,
>)
    requires
        old(cursor)@.wf(),
        1 <= address_size <= 8,
    ensures
        final(cursor)@.wf(),
        same_window(old(cursor)@, final(cursor)@),
        match r {
            Ok(v) => spec_parse_attr_value_raw(old(cursor)@, form, address_size, format) == Ok::<
                _,
                Error,
            >((v@, final(cursor)@)),
            Err(e) => spec_parse_attr_value_raw(old(cursor)@, form, address_size, format) == Err::<
                (AttributeValueModel, CursorModel),
                _,
            >(e),
        },
{
    if form <= DW_FORM_EXPRLOC {
        parse_value_raw_low(cursor, form, address_size, format)
    } else {
        parse_value_raw_high(cursor, form, address_size, format)
    }
}

/// The forms up to and including `DW_FORM_exprloc`.
#[verifier::rlimit(100)]
fn parse_value_raw_low(
    cursor: &mut Cursor,
    form: u64,
    address_size: u8,
    format: Format,
) -> (r: Result<AttributeValue, Error>)
    requires
        old(cursor)@.wf(),
        1 <= address_size <= 8,
        form <= 0x18,
    ensures
        final(cursor)@.wf(),
        same_window(old(cursor)@, final(cursor)@),
        match r {
            Ok(v) => spec_parse_attr_value_raw(old(cursor)@, form, address_size, format) == Ok::<
                _,
                Error,
            >((v@, final(cursor)@)),
            Err(e) => spec_parse_attr_value_raw(old(cursor)@, form, address_size, format) == Err::<
                (AttributeValueModel, CursorModel),
                _,
            >(e),
        },
{
    if form == DW_FORM_ADDR {
        match cursor.read_unsigned(address_size as usize) {
            Ok(v) => Ok(AttributeValue::Addr(v)),
            Err(e) => Err(e),
        }
    } else if form == DW_FORM_BLOCK1 {
        let n = match cursor.read_unsigned(1) {
            Ok(v) => v,
            Err(e) => {
                return Err(e);
            },
        };
        match read_block(cursor, n) {
            Ok(b) => Ok(AttributeValue::Block(b)),
            Err(e) => Err(e),
        }
    } else if form == DW_FORM_BLOCK2 {
        let n = match cursor.read_unsigned(2) {
            Ok(v) => v,
            Err(e) => {
                return Err(e);
            },
        };
        match read_block(cursor, n) {
            Ok(b) => Ok(AttributeValue::Block(b)),
            Err(e) => Err(e),
        }
    } else if form == DW_FORM_BLOCK4 {
        let n = match cursor.read_unsigned(4) {
            Ok(v) => v,
            Err(e) => {
                return Err(e);
            },
        };
        match read_block(cursor, n) {
            Ok(b) => Ok(AttributeValue::Block(b)),
            Err(e) => Err(e),
        }
    } else if form == DW_FORM_BLOCK {
        let n = match cursor.read_uleb128() {
            Ok(v) => v,
            Err(e) => {
                return Err(e);
            },
        };
        match read_block(cursor, n) {
            Ok(b) => Ok(AttributeValue::Block(b)),
            Err(e) => Err(e),
        }
    } else if form == DW_FORM_EXPRLOC {
        let n = match cursor.read_uleb128() {
            Ok(v) => v,
            Err(e) => {
                return Err(e);
            },
        };
        match read_block(cursor, n) {
            Ok(b) => Ok(AttributeValue::Exprloc(b)),
            Err(e) => Err(e),
        }
    } else if form == DW_FORM_DATA1 {
        match cursor.read_u8() {
            Ok(v) => Ok(AttributeValue::Data1(v)),
            Err(e) => Err(e),
        }
    } else if form == DW_FORM_DATA2 {
        match cursor.read_u16() {
            Ok(v) => Ok(AttributeValue::Data2(v)),
            Err(e) => Err(e),
        }
    } else if form == DW_FORM_DATA4 {
        match cursor.read_u32() {
            Ok(v) => Ok(AttributeValue::Data4(v)),
            Err(e) => Err(e),
        }
    } else if form == DW_FORM_DATA8 {
        match cursor.read_u64() {
            Ok(v) => Ok(AttributeValue::Data8(v)),
            Err(e) => Err(e),
        }
    } else if form == DW_FORM_STRING {
        match cursor.read_null_terminated() {
            Ok(b) => Ok(AttributeValue::InlineString(b)),
            Err(e) => Err(e),
        }
    } else if form == DW_FORM_FLAG {
        match cursor.read_u8() {
            Ok(v) => Ok(AttributeValue::Flag(v != 0)),
            Err(e) => Err(e),
        }
    } else if form == DW_FORM_SDATA {
        match cursor.read_sleb128() {
            Ok(v) => Ok(AttributeValue::Sdata(v)),
            Err(e) => Err(e),
        }
    } else if form == DW_FORM_UDATA {
        match cursor.read_uleb128() {
            Ok(v) => Ok(AttributeValue::Udata(v)),
            Err(e) => Err(e),
        }
    } else if form == DW_FORM_STRP {
        match cursor.read_unsigned(format.word_size()) {
            Ok(v) => Ok(AttributeValue::DebugStrRef(v)),
            Err(e) => Err(e),
        }
    } else if form == DW_FORM_SEC_OFFSET {
        match cursor.read_unsigned(format.word_size()) {
            Ok(v) => Ok(AttributeValue::SecOffset(v)),
            Err(e) => Err(e),
        }
    } else if form == DW_FORM_REF_ADDR {
        match cursor.read_unsigned(format.word_size()) {
            Ok(v) => Ok(AttributeValue::DebugInfoRef(v)),
            Err(e) => Err(e),
        }
    } else if form == DW_FORM_REF1 {
        match cursor.read_unsigned(1) {
            Ok(v) => Ok(AttributeValue::UnitRef(v)),
            Err(e) => Err(e),
        }
    } else if form == DW_FORM_REF2 {
        match cursor.read_unsigned(2) {
            Ok(v) => Ok(AttributeValue::UnitRef(v)),
            Err(e) => Err(e),
        }
    } else if form == DW_FORM_REF4 {
        match cursor.read_unsigned(4) {
            Ok(v) => Ok(AttributeValue::UnitRef(v)),
            Err(e) => Err(e),
        }
    } else if form == DW_FORM_REF8 {
        match cursor.read_unsigned(8) {
            Ok(v) => Ok(AttributeValue::UnitRef(v)),
            Err(e) => Err(e),
        }
    } else if form == DW_FORM_REF_UDATA {
        match cursor.read_uleb128() {
            Ok(v) => Ok(AttributeValue::UnitRef(v)),
            Err(e) => Err(e),
        }
    } else {
        Err(Error::UnknownForm)
    }
}

/// The forms above `DW_FORM_exprloc`.
#[verifier::rlimit(100)]
fn parse_value_raw_high(
    cursor: &mut Cursor,
    form: u64,
    address_size: u8,
    format: Format,
) -> (r: Result<AttributeValue, Error>)
    requires
        old(cursor)@.wf(),
        1 <= address_size <= 8,
        form > 0x18,
    ensures
        final(cursor)@.wf(),
        same_window(old(cursor)@, final(cursor)@),
        match r {
            Ok(v) => spec_parse_attr_value_raw(old(cursor)@, form, address_size, format) == Ok::<
                _,
                Error,
            >((v@, final(cursor)@)),
            Err(e) => spec_parse_attr_value_raw(old(cursor)@, form, address_size, format) == Err::<
                (AttributeValueModel, CursorModel),
                _,
            >(e),
        },
{
    if form == DW_FORM_FLAG_PRESENT {
        Ok(AttributeValue::Flag(true))
    } else if form == DW_FORM_DATA16 {
        match cursor.read_bytes(16) {
            Ok(b) => Ok(AttributeValue::Data16(b)),
            Err(e) => Err(e),
        }
    } else if form == DW_FORM_STRP_SUP {
        match cursor.read_unsigned(format.word_size()) {
            Ok(v) => Ok(AttributeValue::DebugStrRefSup(v)),
            Err(e) => Err(e),
        }
    } else if form == DW_FORM_LINE_STRP {
        match cursor.read_unsigned(format.word_size()) {
            Ok(v) => Ok(AttributeValue::DebugLineStrRef(v)),
            Err(e) => Err(e),
        }
    } else if form == DW_FORM_REF_SUP4 {
        match cursor.read_unsigned(4) {
            Ok(v) => Ok(AttributeValue::DebugInfoRefSup(v)),
            Err(e) => Err(e),
        }
    } else if form == DW_FORM_REF_SUP8 {
        match cursor.read_unsigned(8) {
            Ok(v) => Ok(AttributeValue::DebugInfoRefSup(v)),
            Err(e) => Err(e),
        }
    } else if form == DW_FORM_REF_SIG8 {
        match cursor.read_unsigned(8) {
            Ok(v) => Ok(AttributeValue::DebugTypesRef(v)),
            Err(e) => Err(e),
        }
    } else if form == DW_FORM_STRX {
        match cursor.read_uleb128() {
            Ok(v) => Ok(AttributeValue::DebugStrOffsetsIndex(v)),
            Err(e) => Err(e),
        }
    } else if form == DW_FORM_STRX1 {
        match cursor.read_unsigned(1) {
            Ok(v) => Ok(AttributeValue::DebugStrOffsetsIndex(v)),
            Err(e) => Err(e),
        }
    } else if form == DW_FORM_STRX2 {
        match cursor.read_unsigned(2) {
            Ok(v) => Ok(AttributeValue::DebugStrOffsetsIndex(v)),
            Err(e) => Err(e),
        }
    } else if form == DW_FORM_STRX3 {
        match cursor.read_unsigned(3) {
            Ok(v) => Ok(AttributeValue::DebugStrOffsetsIndex(v)),
            Err(e) => Err(e),
        }
    } else if form == DW_FORM_STRX4 {
        match cursor.read_unsigned(4) {
            Ok(v) => Ok(AttributeValue::DebugStrOffsetsIndex(v)),
            Err(e) => Err(e),
        }
    } else if form == DW_FORM_ADDRX {
        match cursor.read_uleb128() {
            Ok(v) => Ok(AttributeValue::DebugAddrIndex(v)),
            Err(e) => Err(e),
        }
    } else if form == DW_FORM_ADDRX1 {
        match cursor.read_unsigned(1) {
            Ok(v) => Ok(AttributeValue::DebugAddrIndex(v)),
            Err(e) => Err(e),
        }
    } else if form == DW_FORM_ADDRX2 {
        match cursor.read_unsigned(2) {
            Ok(v) => Ok(AttributeValue::DebugAddrIndex(v)),
            Err(e) => Err(e),
        }
    } else if form == DW_FORM_ADDRX3 {
        match cursor.read_unsigned(3) {
            Ok(v) => Ok(AttributeValue::DebugAddrIndex(v)),
            Err(e) => Err(e),
        }
    } else if form == DW_FORM_ADDRX4 {
        match cursor.read_unsigned(4) {
            Ok(v) => Ok(AttributeValue::DebugAddrIndex(v)),
            Err(e) => Err(e),
        }
    } else if form == DW_FORM_LOCLISTX {
        match cursor.read_uleb128() {
            Ok(v) => Ok(AttributeValue::LocationListsRef(v)),
            Err(e) => Err(e),
        }
    } else if form == DW_FORM_RNGLISTX {
        match cursor.read_uleb128() {
            Ok(v) => Ok(AttributeValue::RangeListsRef(v)),
            Err(e) => Err(e),
        }
    } else {
        Err(Error::UnknownForm)
    }
}

/// Reads the `n` bytes of a length-prefixed block.
fn read_block(cursor: &mut Cursor, n: u64) -> (r: Result<Vec<u8>, Error>)
    requires
        old(cursor)@.wf(),
    ensures
        final(cursor)@.wf(),
        same_window(old(cursor)@, final(cursor)@),
        match r {
            Ok(v) => spec_read_bytes(old(cursor)@, n as int) == Ok::<_, Error>((
                v@,
                final(cursor)@,
            )),
            Err(e) => spec_read_bytes(old(cursor)@, n as int) == Err::<(Seq<u8>, CursorModel), _>(
                e,
            ) && final(cursor)@ == old(cursor)@,
        },
{
    if n > cursor.remaining_len() as u64 {
        return Err(Error::UnexpectedEndOfInput);
    }
    cursor.read_bytes(n as usize)
}

/// Decodes one attribute value: dispatches on the form code into exactly one
/// read operation, given the unit's address size and offset width.  On
/// failure the cursor is left where it started, so a caller can report the
/// exact failing byte position; an unrecognized form code in particular
/// fails with `UnknownForm` and moves nothing.
pub fn parse_attribute_value(
    cursor: &mut Cursor,
    form: u64,
    address_size: u8,
    format: Format,
) -> (r: Result<AttributeValue, Error>)
    requires
        old(cursor)@.wf(),
        1 <= address_size <= 8,
    ensures
        final(cursor)@.wf(),
        same_window(old(cursor)@, final(cursor)@),
        match r {
            Ok(v) => spec_parse_attr_value(old(cursor)@, form, address_size, format) == Ok::<
                _,
                Error,
            >((v@, final(cursor)@)),
            Err(e) => spec_parse_attr_value(old(cursor)@, form, address_size, format) == Err::<
                (AttributeValueModel, CursorModel),
                _,
            >(e) && final(cursor)@ == old(cursor)@,
        },
        !spec_known_form(form) ==> r == Err::<AttributeValue, Error>(Error::UnknownForm),
{
    let base = cursor.position();
    if form == DW_FORM_INDIRECT {
        let f2 = match cursor.read_uleb128() {
            Ok(v) => v,
            Err(e) => {
                cursor.seek(base);
                return Err(e);
            },
        };
        if f2 == DW_FORM_INDIRECT || f2 == DW_FORM_IMPLICIT_CONST {
            cursor.seek(base);
            return Err(Error::UnknownForm);
        }
        match parse_value_raw(cursor, f2, address_size, format) {
            Ok(v) => Ok(v),
            Err(e) => {
                cursor.seek(base);
                Err(e)
            },
        }
    } else {
        match parse_value_raw(cursor, form, address_size, format) {
            Ok(v) => Ok(v),
            Err(e) => {
                cursor.seek(base);
                Err(e)
            },
        }
    }
}

/// An attribute: its name paired with its decoded value.
#[derive(Clone, Debug, PartialEq, Eq)]
pub struct Attribute {
    /// The attribute's name code.
    pub name: u64,
    /// The attribute's decoded value.
    pub value: AttributeValue,
}

/// The mathematical shape of a decoded attribute.
pub ghost struct AttributeModel {
    pub name: u64,
    pub value: AttributeValueModel,
}

impl View for Attribute {
    type V = AttributeModel;

    open spec fn view(&self) -> AttributeModel {
        AttributeModel { name: self.name, value: self.value@ }
    }
}

/// What decoding the attribute described by `aspec` yields: an implicit
/// constant comes from the abbreviation table and consumes no entry bytes;
/// every other form is decoded from the stream.
pub open spec fn spec_decode_attribute(
    c: CursorModel,
    aspec: AttributeSpecification,
    address_size: u8,
    format: Format,
) -> Result<(AttributeModel, CursorModel), Error> {
    if aspec.form == DW_FORM_IMPLICIT_CONST {
        match aspec.implicit_const {
            Some(v) => Ok((AttributeModel { name: aspec.name, value: AttributeValueModel::Sdata(v) }, c)),
            None => Err(Error::UnknownForm),
        }
    } else {
        match spec_parse_attr_value(c, aspec.form, address_size, format) {
            Err(e) => Err(e),
            Ok((v, c1)) => Ok((AttributeModel { name: aspec.name, value: v }, c1)),
        }
    }
}

/// Decodes one attribute of an entry, following one (attribute name, form)
/// pair of the entry's abbreviation declaration.  On failure the cursor is
/// left where it started.
pub fn decode_attribute(
    cursor: &mut Cursor,
    aspec: &AttributeSpecification,
    address_size: u8,
    format: Format,
) -> (r: Result<Attribute, Error>)
    requires
        old(cursor)@.wf(),
        1 <= address_size <= 8,
    ensures
        final(cursor)@.wf(),
        same_window(old(cursor)@, final(cursor)@),
        match r {
            Ok(a) => spec_decode_attribute(old(cursor)@, *aspec, address_size, format) == Ok::<
                _,
                Error,
            >((a@, final(cursor)@)),
            Err(e) => spec_decode_attribute(old(cursor)@, *aspec, address_size, format) == Err::<
                (AttributeModel, CursorModel),
                _,
            >(e) && final(cursor)@ == old(cursor)@,
        },
{
    if aspec.form == DW_FORM_IMPLICIT_CONST {
        match aspec.implicit_const {
            Some(v) => Ok(Attribute { name: aspec.name, value: AttributeValue::Sdata(v) }),
            None => Err(Error::UnknownForm),
        }
    } else {
        match parse_attribute_value(cursor, aspec.form, address_size, format) {
            Ok(v) => Ok(Attribute { name: aspec.name, value: v }),
            Err(e) => Err(e),
        }
    }
}

} // verus!
