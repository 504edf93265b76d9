use vstd::prelude::*;

use crate::cursor::{same_window, spec_read_u8, spec_read_word, Cursor, CursorModel};
use crate::error::Error;

verus! {

/// Whether a unit uses the 32-bit or the 64-bit DWARF format.
///
/// The choice is made by the unit's initial length field and fixes the width
/// (four or eight bytes) of every offset-typed field decoded within the unit.
#[derive(Clone, Copy, Debug, PartialEq, Eq, Structural)]
pub enum Format {
    Dwarf32,
    Dwarf64,
}

/// The width in bytes of an offset-typed field under format `f`.
pub open spec fn spec_offset_size(f: Format) -> int {
    match f {
        Format::Dwarf32 => 4,
        Format::Dwarf64 => 8,
    }
}

/// The width in bytes of the initial length field under format `f`: four
/// bytes, or four bytes of escape plus eight of length.
pub open spec fn spec_initial_length_size(f: Format) -> int {
    match f {
        Format::Dwarf32 => 4,
        Format::Dwarf64 => 12,
    }
}

impl Format {
    /// The width in bytes of an offset-typed field under this format.
    pub fn word_size(self) -> (n: usize)
        ensures
            n == spec_offset_size(self),
    {
        match self {
            Format::Dwarf32 => 4,
            Format::Dwarf64 => 8,
        }
    }
}

/// The header of a compilation unit: where the unit lies in its section, the
/// byte extent of its entry tree (exclusive of the length field itself), the
/// DWARF version, the offset-width format, where its abbreviation table
/// starts in the abbreviation section, and the byte width of addresses.
#[derive(Clone, Copy, Debug, PartialEq, Eq, Structural)]
pub struct CompilationUnitHeader {
    /// Byte offset of the unit within its section, measured from where the
    /// cursor that parsed it began.
    pub offset: usize,
    /// Declared length in bytes of the unit's contents after the length
    /// field; no read belonging to this unit may cross that boundary.
    pub unit_length: u64,
    /// The DWARF version of this unit, between 2 and 5.
    pub version: u16,
    /// Whether offsets within this unit are four or eight bytes wide.
    pub format: Format,
    /// Offset of this unit's abbreviation table in the abbreviation section.
    pub debug_abbrev_offset: u64,
    /// The width in bytes of an address, between 1 and 8.
    pub address_size: u8,
}

/// The header of a type unit: a compilation-unit header followed by the
/// type's 64-bit signature and the offset of its defining entry.
#[derive(Clone, Copy, Debug, PartialEq, Eq, Structural)]
pub struct TypeUnitHeader {
    /// The fields shared with compilation-unit headers.
    pub header: CompilationUnitHeader,
    /// The 64-bit signature under which other units refer to this type.
    pub type_signature: u64,
    /// Offset of the type's defining entry, relative to the unit.
    pub type_offset: u64,
}

/// What reading the initial length field yields: a plain 4-byte length, or
/// the reserved `0xffff_ffff` escape followed by an 8-byte length; the other
/// reserved values fail.
pub open spec fn spec_parse_initial_length(c: CursorModel) -> Result<
    ((Format, u64), CursorModel),
    Error,
> {
    match spec_read_word(c, 4) {
        Err(e) => Err(e),
        Ok((w, c1)) => if w < 0xffff_fff0 {
            Ok(((Format::Dwarf32, w), c1))
        } else if w == 0xffff_ffff {
            match spec_read_word(c1, 8) {
                Err(e) => Err(e),
                Ok((l, c2)) => Ok(((Format::Dwarf64, l), c2)),
            }
        } else {
            Err(Error::InvalidLengthEncoding)
        },
    }
}

/// A fixed-width read that must also stay inside the unit's stated length:
/// crossing `unit_end` is inconsistent framing, not end of input.
pub open spec fn spec_read_word_in_unit(c: CursorModel, n: int, unit_end: int) -> Result<
    (u64, CursorModel),
    Error,
> {
    if c.pos + n > unit_end {
        Err(Error::InvalidLengthEncoding)
    } else {
        spec_read_word(c, n)
    }
}

/// A one-byte read that must stay inside the unit's stated length.
pub open spec fn spec_read_u8_in_unit(c: CursorModel, unit_end: int) -> Result<
    (u8, CursorModel),
    Error,
> {
    if c.pos + 1 > unit_end {
        Err(Error::InvalidLengthEncoding)
    } else {
        spec_read_u8(c)
    }
}

/// What reading the version-dependent middle of a header yields: for DWARF 5
/// a unit-type byte, the address size, then the abbreviation offset; for
/// DWARF 2 to 4 the abbreviation offset then the address size.  An address
/// size of zero or above eight is malformed framing.
pub open spec fn spec_parse_header_fields(
    c: CursorModel,
    format: Format,
    version: u64,
    unit_end: int,
) -> Result<((u64, u8), CursorModel), Error> {
    if version == 5 {
        match spec_read_u8_in_unit(c, unit_end) {
            Err(e) => Err(e),
            Ok((_unit_type, c1)) => match spec_read_u8_in_unit(c1, unit_end) {
                Err(e) => Err(e),
                Ok((asz, c2)) => match spec_read_word_in_unit(c2, spec_offset_size(format), unit_end) {
                    Err(e) => Err(e),
                    Ok((ao, c3)) => if asz == 0 || asz > 8 {
                        Err(Error::InvalidLengthEncoding)
                    } else {
                        Ok(((ao, asz), c3))
                    },
                },
            },
        }
    } else {
        match spec_read_word_in_unit(c, spec_offset_size(format), unit_end) {
            Err(e) => Err(e),
            Ok((ao, c1)) => match spec_read_u8_in_unit(c1, unit_end) {
                Err(e) => Err(e),
                Ok((asz, c2)) => if asz == 0 || asz > 8 {
                    Err(Error::InvalidLengthEncoding)
                } else {
                    Ok(((ao, asz), c2))
                },
            },
        }
    }
}

/// The header record a successful parse yields, given the cursor state at
/// the start of the unit.
pub open spec fn spec_header_record(
    c0: CursorModel,
    format: Format,
    unit_length: u64,
    version: u64,
    abbrev_offset: u64,
    address_size: u8,
) -> CompilationUnitHeader {
    CompilationUnitHeader {
        offset: (c0.pos - c0.start) as usize,
        unit_length,
        version: version as u16,
        format,
        debug_abbrev_offset: abbrev_offset,
        address_size,
    }
}

/// What parsing a whole unit header yields: the header together with, for
/// type units, the type signature and type offset (zero otherwise), and the
/// cursor advanced past the header.  The stated unit length must not exceed
/// the bytes remaining in the window, the version must be recognized, and
/// every header field must lie inside the stated length.
pub open spec fn spec_parse_unit_header(c: CursorModel, is_type: bool) -> Result<
    ((CompilationUnitHeader, u64, u64), CursorModel),
    Error,
> {
    match spec_parse_initial_length(c) {
        Err(e) => Err(e),
        Ok(((format, unit_length), c1)) => if unit_length > c1.end - c1.pos {
            Err(Error::InvalidLengthEncoding)
        } else {
            let unit_end = c1.pos + unit_length;
            match spec_read_word_in_unit(c1, 2, unit_end) {
                Err(e) => Err(e),
                Ok((version, c2)) => if version < 2 || version > 5 {
                    Err(Error::UnsupportedVersion)
                } else {
                    match spec_parse_header_fields(c2, format, version, unit_end) {
                        Err(e) => Err(e),
                        Ok(((ao, asz), c3)) => if is_type {
                            match spec_read_word_in_unit(c3, 8, unit_end) {
                                Err(e) => Err(e),
                                Ok((sig, c4)) => match spec_read_word_in_unit(
                                    c4,
                                    spec_offset_size(format),
                                    unit_end,
                                ) {
                                    Err(e) => Err(e),
                                    Ok((to, c5)) => Ok((
                                        (
                                            spec_header_record(
                                                c,
                                                format,
                                                unit_length,
                                                version,
                                                ao,
                                                asz,
                                            ),
                                            sig,
                                            to,
                                        ),
                                        c5,
                                    )),
                                },
                            }
                        } else {
                            Ok((
                                (
                                    spec_header_record(c, format, unit_length, version, ao, asz),
                                    0u64,
                                    0u64,
                                ),
                                c3,
                            ))
                        },
                    }
                },
            }
        },
    }
}

/// Parses a unit header: the shared worker behind the compilation-unit and
/// type-unit entry points.  On failure the cursor is left where it started.
#[verifier::rlimit(100)]
fn parse_unit_header(cursor: &mut Cursor, is_type: bool) -> (r: Result<
    (CompilationUnitHeader, u64, u64),
    Error,
>)
    requires
        old(cursor)@.wf(),
    ensures
        final(cursor)@.wf(),
        same_window(old(cursor)@, final(cursor)@),
        match r {
            Ok(h) => spec_parse_unit_header(old(cursor)@, is_type) == Ok::<_, Error>((
                h,
                final(cursor)@,
            )),
            Err(e) => spec_parse_unit_header(old(cursor)@, is_type) == Err::<
                ((CompilationUnitHeader, u64, u64), CursorModel),
                _,
            >(e) && final(cursor)@ == old(cursor)@,
        },
{
    let ghost c0 = cursor@;
    let base = cursor.position();
    let start_offset = cursor.offset();
    let w = match cursor.read_u32() {
        Ok(w) => w,
        Err(e) => {
            return Err(e);
        },
    };
    let (format, unit_length) = if w < 0xffff_fff0 {
        (Format::Dwarf32, w as u64)
    } else if w == 0xffff_ffff {
        match cursor.read_u64() {
            Ok(l) => (Format::Dwarf64, l),
            Err(e) => {
                cursor.seek(base);
                return Err(e);
            },
        }
    } else {
        cursor.seek(base);
        return Err(Error::InvalidLengthEncoding);
    };
    let rem = cursor.remaining_len();
    if unit_length > rem as u64 {
        cursor.seek(base);
        return Err(Error::InvalidLengthEncoding);
    }
    proof {
        assert(cursor@.pos + unit_length <= cursor@.end <= usize::MAX);
    }
    let unit_end = cursor.position() + (unit_length as usize);
    if unit_end - cursor.position() < 2 {
        cursor.seek(base);
        return Err(Error::InvalidLengthEncoding);
    }
    let version = match cursor.read_u16() {
        Ok(v) => v,
        Err(e) => {
            cursor.seek(base);
            return Err(e);
        },
    };
    if version < 2 || version > 5 {
        cursor.seek(base);
        return Err(Error::UnsupportedVersion);
    }
    let osz = format.word_size();
    let (abbrev_offset, address_size) = if version == 5 {
        if unit_end - cursor.position() < 1 {
            cursor.seek(base);
            return Err(Error::InvalidLengthEncoding);
        }
        let _unit_type = match cursor.read_u8() {
            Ok(b) => b,
            Err(e) => {
                cursor.seek(base);
                return Err(e);
            },
        };
        if unit_end - cursor.position() < 1 {
            cursor.seek(base);
            return Err(Error::InvalidLengthEncoding);
        }
        let asz = match cursor.read_u8() {
            Ok(b) => b,
            Err(e) => {
                cursor.seek(base);
                return Err(e);
            },
        };
        if unit_end - cursor.position() < osz {
            cursor.seek(base);
            return Err(Error::InvalidLengthEncoding);
        }
        let ao = match cursor.read_unsigned(osz) {
            Ok(v) => v,
            Err(e) => {
                cursor.seek(base);
                return Err(e);
            },
        };
        if asz == 0 || asz > 8 {
            cursor.seek(base);
            return Err(Error::InvalidLengthEncoding);
        }
        (ao, asz)
    } else {
        if unit_end - cursor.position() < osz {
            cursor.seek(base);
            return Err(Error::InvalidLengthEncoding);
        }
        let ao = match cursor.read_unsigned(osz) {
            Ok(v) => v,
            Err(e) => {
                cursor.seek(base);
                return Err(e);
            },
        };
        if unit_end - cursor.position() < 1 {
            cursor.seek(base);
            return Err(Error::InvalidLengthEncoding);
        }
        let asz = match cursor.read_u8() {
            Ok(b) => b,
            Err(e) => {
                cursor.seek(base);
                return Err(e);
            },
        };
        if asz == 0 || asz > 8 {
            cursor.seek(base);
            return Err(Error::InvalidLengthEncoding);
        }
        (ao, asz)
    };
    let (sig, toff) = if is_type {
        if unit_end - cursor.position() < 8 {
            cursor.seek(base);
            return Err(Error::InvalidLengthEncoding);
        }
        let sig = match cursor.read_u64() {
            Ok(v) => v,
            Err(e) => {
                cursor.seek(base);
                return Err(e);
            },
        };
        if unit_end - cursor.position() < osz {
            cursor.seek(base);
            return Err(Error::InvalidLengthEncoding);
        }
        let to = match cursor.read_unsigned(osz) {
            Ok(v) => v,
            Err(e) => {
                cursor.seek(base);
                return Err(e);
            },
        };
        (sig, to)
    } else {
        (0u64, 0u64)
    };
    let h = CompilationUnitHeader {
        offset: start_offset,
        unit_length,
        version,
        format,
        debug_abbrev_offset: abbrev_offset,
        address_size,
    };
    Ok((h, sig, toff))
}

impl CompilationUnitHeader {
    /// Parses a compilation-unit header from a cursor positioned at a unit
    /// boundary.  On success the cursor stands just past the header, ready
    /// for the unit's first entry, and it never advances beyond the end of
    /// the length field plus the stated unit length.  On failure the cursor
    /// is left where it started.
    pub fn parse(cursor: &mut Cursor) -> (r: Result<CompilationUnitHeader, Error>)
        requires
            old(cursor)@.wf(),
        ensures
            final(cursor)@.wf(),
            same_window(old(cursor)@, final(cursor)@),
            match r {
                Ok(h) => spec_parse_unit_header(old(cursor)@, false) == Ok::<_, Error>((
                    (h, 0u64, 0u64),
                    final(cursor)@,
                )) && final(cursor)@.pos <= old(cursor)@.pos + spec_initial_length_size(h.format)
                    + h.unit_length,
                Err(e) => spec_parse_unit_header(old(cursor)@, false) == Err::<
                    ((CompilationUnitHeader, u64, u64), CursorModel),
                    _,
                >(e) && final(cursor)@ == old(cursor)@,
            },
    {
        match parse_unit_header(cursor, false) {
            Ok((h, _sig, _toff)) => Ok(h),
            Err(e) => Err(e),
        }
    }
}

impl TypeUnitHeader {
    /// Parses a type-unit header: as for a compilation unit, with the type
    /// signature and type offset read after the common fields.  The same
    /// framing bound holds: the cursor never advances beyond the end of the
    /// length field plus the stated unit length.
    pub fn parse(cursor: &mut Cursor) -> (r: Result<TypeUnitHeader, Error>)
        requires
            old(cursor)@.wf(),
        ensures
            final(cursor)@.wf(),
            same_window(old(cursor)@, final(cursor)@),
            match r {
                Ok(t) => spec_parse_unit_header(old(cursor)@, true) == Ok::<_, Error>((
                    (t.header, t.type_signature, t.type_offset),
                    final(cursor)@,
                )) && final(cursor)@.pos <= old(cursor)@.pos + spec_initial_length_size(
                    t.header.format,
                ) + t.header.unit_length,
                Err(e) => spec_parse_unit_header(old(cursor)@, true) == Err::<
                    ((CompilationUnitHeader, u64, u64), CursorModel),
                    _,
                >(e) && final(cursor)@ == old(cursor)@,
            },
    {
        match parse_unit_header(cursor, true) {
            Ok((h, sig, toff)) => Ok(
                TypeUnitHeader { header: h, type_signature: sig, type_offset: toff },
            ),
            Err(e) => Err(e),
        }
    }
}

} // verus!
