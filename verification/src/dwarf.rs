use vstd::prelude::*;

use crate::abbrev::{spec_abbreviations_at, AbbreviationModel, Abbreviations, AbbreviationsCache};
use crate::cursor::{first_nul, Cursor, CursorModel};
use crate::endian::Endian;
use crate::error::Error;
use crate::form::{Attribute, AttributeValue};
use crate::unit::{CompilationUnitHeader, TypeUnitHeader};

verus! {

/// What looking up the zero-terminated string at `offset` of a string
/// section yields: the bytes before the terminator.  An offset beyond the
/// section is out of bounds; a missing terminator is end of input.  A bad
/// offset never silently yields an empty string.
pub open spec fn spec_get_str(s: Seq<u8>, offset: u64) -> Result<Seq<u8>, Error> {
    if offset > s.len() {
        Err(Error::OffsetOutOfBounds)
    } else {
        let j = first_nul(s, offset as int, s.len() as int);
        if j < 0 {
            Err(Error::UnexpectedEndOfInput)
        } else {
            Ok(s.subrange(offset as int, j))
        }
    }
}

/// The `.debug_abbrev` section: the abbreviation tables.
#[derive(Debug, Default)]
pub struct DebugAbbrev {
    /// The raw section bytes.
    pub data: Vec<u8>,
}

/// The `.debug_info` section: the compilation units.
#[derive(Debug, Default)]
pub struct DebugInfo {
    /// The raw section bytes.
    pub data: Vec<u8>,
}

/// The `.debug_line` section: the line-number programs.
#[derive(Debug, Default)]
pub struct DebugLine {
    /// The raw section bytes.
    pub data: Vec<u8>,
}

/// A `.debug_str` section: zero-terminated strings referenced by offset.
#[derive(Debug, Default)]
pub struct DebugStr {
    /// The raw section bytes.
    pub data: Vec<u8>,
}

/// The `.debug_types` section: the type units.
#[derive(Debug, Default)]
pub struct DebugTypes {
    /// The raw section bytes.
    pub data: Vec<u8>,
}

/// The location lists of the `.debug_loc` and `.debug_loclists` sections.
#[derive(Debug, Default)]
pub struct LocationLists {
    /// The raw bytes of `.debug_loc`.
    pub debug_loc: Vec<u8>,
    /// The raw bytes of `.debug_loclists`.
    pub debug_loclists: Vec<u8>,
}

/// The range lists of the `.debug_ranges` and `.debug_rnglists` sections.
#[derive(Debug, Default)]
pub struct RangeLists {
    /// The raw bytes of `.debug_ranges`.
    pub debug_ranges: Vec<u8>,
    /// The raw bytes of `.debug_rnglists`.
    pub debug_rnglists: Vec<u8>,
}

impl DebugInfo {
    /// A cursor over the section, beginning at `offset`: the way unit
    /// headers are iterated, each unit's next sibling lying at the previous
    /// unit's offset plus its initial-length size plus its unit length.
    pub fn cursor_at<'a>(&'a self, offset: usize, endian: Endian) -> (r: Result<
        Cursor<'a>,
        Error,
    >)
        ensures
            match r {
                Ok(c) => offset <= self.data@.len() && c@.wf() && c@ == (CursorModel {
                    buf: self.data@,
                    start: offset as int,
                    pos: offset as int,
                    end: self.data@.len() as int,
                    endian,
                }),
                Err(e) => e == Error::OffsetOutOfBounds && offset > self.data@.len(),
            },
    {
        if offset > self.data.len() {
            Err(Error::OffsetOutOfBounds)
        } else {
            Ok(Cursor::new_at(&self.data, offset, endian))
        }
    }
}

impl DebugTypes {
    /// A cursor over the section, beginning at `offset`, for iterating type
    /// units.
    pub fn cursor_at<'a>(&'a self, offset: usize, endian: Endian) -> (r: Result<
        Cursor<'a>,
        Error,
    >)
        ensures
            match r {
                Ok(c) => offset <= self.data@.len() && c@.wf() && c@ == (CursorModel {
                    buf: self.data@,
                    start: offset as int,
                    pos: offset as int,
                    end: self.data@.len() as int,
                    endian,
                }),
                Err(e) => e == Error::OffsetOutOfBounds && offset > self.data@.len(),
            },
    {
        if offset > self.data.len() {
            Err(Error::OffsetOutOfBounds)
        } else {
            Ok(Cursor::new_at(&self.data, offset, endian))
        }
    }
}

impl DebugStr {
    /// The zero-terminated string at `offset`, without its terminator.
    /// Fails — it never substitutes an empty string — where the offset lies
    /// beyond the section or no terminator follows it.
    pub fn get_str(&self, offset: u64) -> (r: Result<Vec<u8>, Error>)
        ensures
            match r {
                Ok(v) => spec_get_str(self.data@, offset) == Ok::<_, Error>(v@),
                Err(e) => spec_get_str(self.data@, offset) == Err::<Seq<u8>, _>(e),
            },
    {
        if offset > self.data.len() as u64 {
            return Err(Error::OffsetOutOfBounds);
        }
        let mut cursor = Cursor::new_at(&self.data, offset as usize, Endian::Little);
        match cursor.read_null_terminated() {
            Ok(v) => Ok(v),
            Err(e) => Err(e),
        }
    }
}

/// Decodes the abbreviation table at `offset` of the abbreviation section.
fn abbreviations_impl(section: &DebugAbbrev, endian: Endian, offset: u64) -> (r: Result<
    Abbreviations,
    Error,
>)
    ensures
        match r {
            Ok(a) => spec_abbreviations_at(section.data@, offset, endian) == Ok::<_, Error>(a@),
            Err(e) => spec_abbreviations_at(section.data@, offset, endian) == Err::<
                Seq<AbbreviationModel>,
                _,
            >(e),
        },
{
    if offset > section.data.len() as u64 {
        return Err(Error::OffsetOutOfBounds);
    }
    let mut cursor = Cursor::new_at(&section.data, offset as usize, endian);
    match Abbreviations::parse(&mut cursor) {
        Ok(a) => Ok(a),
        Err(e) => Err(e),
    }
}

/// All of the commonly used DWARF sections, and other common information:
/// the aggregator that ties the sections together and resolves
/// cross-section references.  It holds no other mutable state; every
/// operation is a pure function of the held bytes, so calls are independent
/// and idempotent, and independent cursors over the same sections may be
/// used concurrently.
#[derive(Debug, Default)]
pub struct Dwarf {
    /// The endianity of bytes that are read.
    pub endian: Endian,
    /// The `.debug_abbrev` section.
    pub debug_abbrev: DebugAbbrev,
    /// The `.debug_info` section.
    pub debug_info: DebugInfo,
    /// The `.debug_line` section.
    pub debug_line: DebugLine,
    /// The `.debug_str` section.
    pub debug_str: DebugStr,
    /// The `.debug_str` section for a supplementary object file.
    pub debug_str_sup: DebugStr,
    /// The `.debug_types` section.
    pub debug_types: DebugTypes,
    /// The location lists in the `.debug_loc` and `.debug_loclists` sections.
    pub locations: LocationLists,
    /// The range lists in the `.debug_ranges` and `.debug_rnglists` sections.
    pub ranges: RangeLists,
}

impl Dwarf {
    /// Parse the abbreviations for a compilation unit: the table at the
    /// unit's recorded abbreviation offset.  Fails if the offset lies
    /// outside the abbreviation section or the table is malformed.
    pub fn abbreviations(&self, unit: &CompilationUnitHeader) -> (r: Result<Abbreviations, Error>)
        ensures
            match r {
                Ok(a) => spec_abbreviations_at(
                    self.debug_abbrev.data@,
                    unit.debug_abbrev_offset,
                    self.endian,
                ) == Ok::<_, Error>(a@),
                Err(e) => spec_abbreviations_at(
                    self.debug_abbrev.data@,
                    unit.debug_abbrev_offset,
                    self.endian,
                ) == Err::<Seq<AbbreviationModel>, _>(e),
            },
    {
        abbreviations_impl(&self.debug_abbrev, self.endian, unit.debug_abbrev_offset)
    }

    /// Parse the abbreviations for a type unit: the identical algorithm,
    /// reached from the structurally different type-unit header.
    pub fn type_abbreviations(&self, unit: &TypeUnitHeader) -> (r: Result<Abbreviations, Error>)
        ensures
            match r {
                Ok(a) => spec_abbreviations_at(
                    self.debug_abbrev.data@,
                    unit.header.debug_abbrev_offset,
                    self.endian,
                ) == Ok::<_, Error>(a@),
                Err(e) => spec_abbreviations_at(
                    self.debug_abbrev.data@,
                    unit.header.debug_abbrev_offset,
                    self.endian,
                ) == Err::<Seq<AbbreviationModel>, _>(e),
            },
    {
        abbreviations_impl(&self.debug_abbrev, self.endian, unit.header.debug_abbrev_offset)
    }

    /// Parse the abbreviations for a compilation unit through a cache keyed
    /// by table offset, so that units sharing one table decode it once.
    /// The result equals what `abbreviations` would give.
    pub fn abbreviations_cached(
        &self,
        unit: &CompilationUnitHeader,
        cache: &mut AbbreviationsCache,
    ) -> (r: Result<Abbreviations, Error>)
        requires
            old(cache).wf(),
            old(cache).section_bytes() == self.debug_abbrev.data@,
            old(cache).byte_order() == self.endian,
        ensures
            final(cache).wf(),
            final(cache).section_bytes() == old(cache).section_bytes(),
            final(cache).byte_order() == old(cache).byte_order(),
            match r {
                Ok(a) => spec_abbreviations_at(
                    self.debug_abbrev.data@,
                    unit.debug_abbrev_offset,
                    self.endian,
                ) == Ok::<_, Error>(a@),
                Err(e) => spec_abbreviations_at(
                    self.debug_abbrev.data@,
                    unit.debug_abbrev_offset,
                    self.endian,
                ) == Err::<Seq<AbbreviationModel>, _>(e),
            },
    {
        cache.abbreviations_at(&self.debug_abbrev.data, unit.debug_abbrev_offset)
    }

    /// Try to return an attribute's value as a string.
    ///
    /// If the attribute's value is an inline string, return it directly; if
    /// it is an offset into the primary string section, look it up there; if
    /// it is an offset into the supplementary object file's string section,
    /// look it up in that section and never in the primary one.  For any
    /// other value shape the answer is `None`: not an error, but a shape
    /// mismatch the caller checks for by the variant tag.  A string
    /// reference whose offset does not resolve also yields `None`.
    pub fn attr_string(&self, attr: &Attribute) -> (r: Option<Vec<u8>>)
        ensures
            (match attr.value {
                AttributeValue::InlineString(s) => r matches Some(v) && v@ == s@,
                AttributeValue::DebugStrRef(off) => match spec_get_str(self.debug_str.data@, off) {
                    Ok(sv) => r matches Some(v) && v@ == sv,
                    Err(_) => r is None,
                },
                AttributeValue::DebugStrRefSup(off) => match spec_get_str(
                    self.debug_str_sup.data@,
                    off,
                ) {
                    Ok(sv) => r matches Some(v) && v@ == sv,
                    Err(_) => r is None,
                },
                _ => r is None,
            }),
    {
        match &attr.value {
            AttributeValue::InlineString(s) => Some(copy_bytes(s)),
            AttributeValue::DebugStrRef(off) => match self.debug_str.get_str(*off) {
                Ok(v) => Some(v),
                Err(_) => None,
            },
            AttributeValue::DebugStrRefSup(off) => match self.debug_str_sup.get_str(*off) {
                Ok(v) => Some(v),
                Err(_) => None,
            },
            _ => None,
        }
    }
}

/// An owned copy of a byte buffer.
#[verifier::loop_isolation(false)]
fn copy_bytes(v: &Vec<u8>) -> (r: Vec<u8>)
    ensures
        r@ == v@,
{
    let mut out: Vec<u8> = Vec::new();
    let mut i: usize = 0;
    while i < v.len()
        invariant
            i <= v@.len(),
            out@ == v@.subrange(0, i as int),
        decreases v@.len() - i,
    {
        proof {
            assert(v@.subrange(0, i + 1) =~= v@.subrange(0, i as int).push(v@[i as int]));
        }
        out.push(v[i]);
        i = i + 1;
    }
    proof {
        assert(out@ =~= v@);
    }
    out
}

} // verus!
