use vstd::prelude::*;

use crate::cursor::{
    same_window, spec_read_u8, spec_read_uleb128, spec_read_sleb128, Cursor, CursorModel,
};
use crate::endian::Endian;
use crate::error::Error;
use crate::form::{known_form, spec_known_form, DW_FORM_IMPLICIT_CONST};

verus! {

/// Whether `t` is an entry tag of the recognized enumeration: the standard
/// tags of DWARF versions 2 to 5, plus the vendor extension range.
pub open spec fn spec_known_tag(t: u64) -> bool {
    (1 <= t <= 0x4b && t != 0x06 && t != 0x07 && t != 0x09 && t != 0x0c && t != 0x0e && t != 0x14
        && t != 0x3e) || (0x4080 <= t <= 0xffff)
}

/// Executable counterpart of `spec_known_tag`.
pub fn known_tag(t: u64) -> (r: bool)
    ensures
        r == spec_known_tag(t),
{
    (1 <= t && t <= 0x4b && t != 0x06 && t != 0x07 && t != 0x09 && t != 0x0c && t != 0x0e && t
        != 0x14 && t != 0x3e) || (0x4080 <= t && t <= 0xffff)
}

/// Whether `a` is an attribute name of the recognized enumeration: the
/// standard names of DWARF versions 2 to 5, plus the vendor extension range.
pub open spec fn spec_known_attribute(a: u64) -> bool {
    (1 <= a <= 0x8c && a != 0x04 && a != 0x05 && a != 0x06 && a != 0x07 && a != 0x08 && a != 0x0a
        && a != 0x0e && a != 0x0f && a != 0x14 && a != 0x1f && a != 0x23 && a != 0x24 && a != 0x26
        && a != 0x28 && a != 0x29 && a != 0x2b && a != 0x2d && a != 0x30 && a != 0x75) || (0x2000
        <= a <= 0x3fff)
}

/// Executable counterpart of `spec_known_attribute`.
pub fn known_attribute(a: u64) -> (r: bool)
    ensures
        r == spec_known_attribute(a),
{
    (1 <= a && a <= 0x8c && a != 0x04 && a != 0x05 && a != 0x06 && a != 0x07 && a != 0x08 && a
        != 0x0a && a != 0x0e && a != 0x0f && a != 0x14 && a != 0x1f && a != 0x23 && a != 0x24 && a
        != 0x26 && a != 0x28 && a != 0x29 && a != 0x2b && a != 0x2d && a != 0x30 && a != 0x75) || (
    0x2000 <= a && a <= 0x3fff)
}

/// One (attribute name, form) pair of an abbreviation declaration, with the
/// inline constant that the implicit-constant form stores in the table
/// itself rather than in each entry.
#[derive(Clone, Copy, Debug, PartialEq, Eq)]
pub struct AttributeSpecification {
    /// The attribute's name code.
    pub name: u64,
    /// The form code that fixes the byte layout of the attribute's value.
    pub form: u64,
    /// The table-resident value; present exactly for the implicit-constant
    /// form.
    pub implicit_const: Option<i64>,
}

/// The mathematical shape of one abbreviation declaration.
pub ghost struct AbbreviationModel {
    pub code: u64,
    pub tag: u64,
    pub has_children: bool,
    pub attributes: Seq<AttributeSpecification>,
}

/// One abbreviation declaration: a non-zero code, the entry tag it stands
/// for, whether such entries have children, and the ordered attribute
/// specifications that fix the order in which attribute values are decoded.
#[derive(Clone, Debug, PartialEq, Eq)]
pub struct Abbreviation {
    /// The declaration's code; zero is the table terminator, never a code.
    pub code: u64,
    /// The entry tag.
    pub tag: u64,
    /// Whether entries using this declaration have children.
    pub has_children: bool,
    /// The attribute specifications, in decoding order.
    pub attributes: Vec<AttributeSpecification>,
}

impl View for Abbreviation {
    type V = AbbreviationModel;

    open spec fn view(&self) -> AbbreviationModel {
        AbbreviationModel {
            code: self.code,
            tag: self.tag,
            has_children: self.has_children,
            attributes: self.attributes@,
        }
    }
}

impl Abbreviation {
    /// A structurally equal copy of this declaration.
    #[verifier::loop_isolation(false)]
    pub fn duplicate(&self) -> (r: Abbreviation)
        ensures
            r@ == self@,
    {
        let mut attrs: Vec<AttributeSpecification> = Vec::new();
        let mut i: usize = 0;
        while i < self.attributes.len()
            invariant
                i <= self.attributes@.len(),
                attrs@ == self.attributes@.subrange(0, i as int),
            decreases self.attributes@.len() - i,
        {
            proof {
                assert(self.attributes@.subrange(0, i + 1) =~= self.attributes@.subrange(
                    0,
                    i as int,
                ).push(self.attributes@[i as int]));
            }
            attrs.push(self.attributes[i]);
            i = i + 1;
        }
        proof {
            assert(attrs@ =~= self.attributes@);
        }
        Abbreviation {
            code: self.code,
            tag: self.tag,
            has_children: self.has_children,
            attributes: attrs,
        }
    }
}

/// Whether some declaration in `s` carries `code`.
pub open spec fn spec_has_code(s: Seq<AbbreviationModel>, code: u64) -> bool {
    exists|i: int| 0 <= i < s.len() && s[i].code == code
}

/// The first declaration in `s` carrying `code`, if any.
pub open spec fn spec_find_code(s: Seq<AbbreviationModel>, code: u64) -> Option<AbbreviationModel>
    decreases s.len(),
{
    if s.len() == 0 {
        None
    } else if s[0].code == code {
        Some(s[0])
    } else {
        spec_find_code(s.skip(1), code)
    }
}

/// Finding walks past every declaration whose code differs.
pub proof fn lemma_find_code_at(s: Seq<AbbreviationModel>, code: u64, i: int)
    requires
        0 <= i < s.len(),
        s[i].code == code,
        forall|k: int| 0 <= k < i ==> s[k].code != code,
    ensures
        spec_find_code(s, code) == Some(s[i]),
    decreases i,
{
    if i > 0 {
        lemma_find_code_at(s.skip(1), code, i - 1);
    }
}

/// Where no declaration carries the code, finding yields nothing.
pub proof fn lemma_find_code_none(s: Seq<AbbreviationModel>, code: u64)
    requires
        forall|k: int| 0 <= k < s.len() ==> s[k].code != code,
    ensures
        spec_find_code(s, code) is None,
    decreases s.len(),
{
    if s.len() > 0 {
        lemma_find_code_none(s.skip(1), code);
    }
}

/// What parsing the (attribute name, form) list of one declaration yields:
/// pairs accumulate onto `acc` until the (0, 0) terminator; unknown names
/// and forms are decode errors, and the implicit-constant form reads its
/// signed constant from the table inline.
pub open spec fn spec_parse_attribute_specs(
    c: CursorModel,
    acc: Seq<AttributeSpecification>,
) -> Result<(Seq<AttributeSpecification>, CursorModel), Error>
    decreases c.end - c.pos,
    via spec_parse_attribute_specs_decreases
{
    match spec_read_uleb128(c) {
        Err(e) => Err(e),
        Ok((name, c1)) => match spec_read_uleb128(c1) {
            Err(e) => Err(e),
            Ok((form, c2)) => if name == 0 && form == 0 {
                Ok((acc, c2))
            } else if !spec_known_attribute(name) {
                Err(Error::UnknownAttribute)
            } else if !spec_known_form(form) {
                Err(Error::UnknownForm)
            } else if form == DW_FORM_IMPLICIT_CONST {
                match spec_read_sleb128(c2) {
                    Err(e) => Err(e),
                    Ok((v, c3)) => spec_parse_attribute_specs(
                        c3,
                        acc.push(AttributeSpecification { name, form, implicit_const: Some(v) }),
                    ),
                }
            } else {
                spec_parse_attribute_specs(
                    c2,
                    acc.push(AttributeSpecification { name, form, implicit_const: None }),
                )
            },
        },
    }
}

#[via_fn]
proof fn spec_parse_attribute_specs_decreases(c: CursorModel, acc: Seq<AttributeSpecification>) {
    crate::leb128::lemma_leb_end_range(c.buf, c.pos, c.end);
    if let Ok((name, c1)) = spec_read_uleb128(c) {
        crate::leb128::lemma_leb_end_range(c1.buf, c1.pos, c1.end);
        if let Ok((form, c2)) = spec_read_uleb128(c1) {
            crate::leb128::lemma_leb_end_range(c2.buf, c2.pos, c2.end);
        }
    }
}

/// Parses on success only moves forward, and stays inside the window.
pub proof fn lemma_attribute_specs_monotone(c: CursorModel, acc: Seq<AttributeSpecification>)
    ensures
        match spec_parse_attribute_specs(c, acc) {
            Ok((_, c2)) => c.pos <= c2.pos <= c.end && c2.end == c.end && c2.buf == c.buf
                && c2.start == c.start && c2.endian == c.endian,
            Err(_) => true,
        },
    decreases c.end - c.pos,
{
    crate::leb128::lemma_leb_end_range(c.buf, c.pos, c.end);
    if let Ok((name, c1)) = spec_read_uleb128(c) {
        crate::leb128::lemma_leb_end_range(c1.buf, c1.pos, c1.end);
        if let Ok((form, c2)) = spec_read_uleb128(c1) {
            crate::leb128::lemma_leb_end_range(c2.buf, c2.pos, c2.end);
            if !(name == 0 && form == 0) && spec_known_attribute(name) && spec_known_form(form) {
                if form == DW_FORM_IMPLICIT_CONST {
                    if let Ok((v, c3)) = spec_read_sleb128(c2) {
                        lemma_attribute_specs_monotone(
                            c3,
                            acc.push(
                                AttributeSpecification { name, form, implicit_const: Some(v) },
                            ),
                        );
                    }
                } else {
                    lemma_attribute_specs_monotone(
                        c2,
                        acc.push(AttributeSpecification { name, form, implicit_const: None }),
                    );
                }
            }
        }
    }
}

/// What parsing one abbreviation declaration (after its code) yields: a
/// tag, checked against the recognized enumeration, the has-children byte
/// (any non-zero value counts as yes), and the attribute list.
pub open spec fn spec_parse_abbreviation(c: CursorModel, code: u64) -> Result<
    (AbbreviationModel, CursorModel),
    Error,
> {
    match spec_read_uleb128(c) {
        Err(e) => Err(e),
        Ok((tag, c1)) => if !spec_known_tag(tag) {
            Err(Error::UnknownTag)
        } else {
            match spec_read_u8(c1) {
                Err(e) => Err(e),
                Ok((hc, c2)) => match spec_parse_attribute_specs(c2, Seq::empty()) {
                    Err(e) => Err(e),
                    Ok((attrs, c3)) => Ok(
                        (
                            AbbreviationModel { code, tag, has_children: hc != 0, attributes: attrs },
                            c3,
                        ),
                    ),
                },
            }
        },
    }
}

/// A declaration parse on success only moves forward, inside the window.
pub proof fn lemma_abbreviation_monotone(c: CursorModel, code: u64)
    ensures
        match spec_parse_abbreviation(c, code) {
            Ok((_, c2)) => c.pos <= c2.pos <= c.end && c2.end == c.end && c2.buf == c.buf
                && c2.start == c.start && c2.endian == c.endian,
            Err(_) => true,
        },
{
    crate::leb128::lemma_leb_end_range(c.buf, c.pos, c.end);
    if let Ok((tag, c1)) = spec_read_uleb128(c) {
        if spec_known_tag(tag) {
            if let Ok((hc, c2)) = spec_read_u8(c1) {
                lemma_attribute_specs_monotone(c2, Seq::empty());
            }
        }
    }
}

/// What parsing a whole abbreviation table yields: declarations accumulate
/// onto `acc` until the terminating zero code; a code that repeats within
/// one table is a decode error.
pub open spec fn spec_parse_abbreviations(
    c: CursorModel,
    acc: Seq<AbbreviationModel>,
) -> Result<(Seq<AbbreviationModel>, CursorModel), Error>
    decreases c.end - c.pos,
    via spec_parse_abbreviations_decreases
{
    match spec_read_uleb128(c) {
        Err(e) => Err(e),
        Ok((code, c1)) => if code == 0 {
            Ok((acc, c1))
        } else {
            match spec_parse_abbreviation(c1, code) {
                Err(e) => Err(e),
                Ok((decl, c2)) => if spec_has_code(acc, code) {
                    Err(Error::DuplicateAbbreviationCode)
                } else {
                    spec_parse_abbreviations(c2, acc.push(decl))
                },
            }
        },
    }
}

#[via_fn]
proof fn spec_parse_abbreviations_decreases(c: CursorModel, acc: Seq<AbbreviationModel>) {
    crate::leb128::lemma_leb_end_range(c.buf, c.pos, c.end);
    if let Ok((code, c1)) = spec_read_uleb128(c) {
        if code != 0 {
            lemma_abbreviation_monotone(c1, code);
        }
    }
}

/// What decoding the abbreviation table at `offset` of the abbreviation
/// section yields: the table's declarations, fully consumed up to the
/// terminating zero code.  An offset beyond the section fails.  The result
/// is a pure function of the section bytes and the offset: decoding the
/// same table twice gives structurally equal results.
pub open spec fn spec_abbreviations_at(section: Seq<u8>, offset: u64, endian: Endian) -> Result<
    Seq<AbbreviationModel>,
    Error,
> {
    if offset > section.len() {
        Err(Error::OffsetOutOfBounds)
    } else {
        match spec_parse_abbreviations(
            CursorModel {
                buf: section,
                start: offset as int,
                pos: offset as int,
                end: section.len() as int,
                endian,
            },
            Seq::empty(),
        ) {
            Err(e) => Err(e),
            Ok((decls, _c)) => Ok(decls),
        }
    }
}

/// Abbreviation decoding is deterministic: two decodes of the same section
/// bytes at the same offset return structurally equal tables.  The parsing
/// functions tie their results to `spec_abbreviations_at`, so any two
/// successful decode calls — cached or not — agree.
pub proof fn lemma_abbreviations_deterministic(
    section: Seq<u8>,
    offset: u64,
    endian: Endian,
    r1: Seq<AbbreviationModel>,
    r2: Seq<AbbreviationModel>,
)
    requires
        spec_abbreviations_at(section, offset, endian) == Ok::<_, Error>(r1),
        spec_abbreviations_at(section, offset, endian) == Ok::<_, Error>(r2),
    ensures
        r1 == r2,
{
}

/// Executable counterpart of `spec_has_code` over a declaration vector.
#[verifier::loop_isolation(false)]
fn has_code(decls: &Vec<Abbreviation>, code: u64) -> (r: bool)
    ensures
        r == spec_has_code(decls@.map_values(|d: Abbreviation| d@), code),
{
    let ghost m = decls@.map_values(|d: Abbreviation| d@);
    let mut i: usize = 0;
    while i < decls.len()
        invariant
            i <= decls@.len(),
            m == decls@.map_values(|d: Abbreviation| d@),
            forall|k: int| 0 <= k < i ==> m[k].code != code,
        decreases decls@.len() - i,
    {
        if decls[i].code == code {
            proof {
                assert(m[i as int].code == code);
            }
            return true;
        }
        i = i + 1;
    }
    false
}

/// Parses the (attribute name, form) list of one declaration.
#[verifier::loop_isolation(false)]
#[verifier::rlimit(100)]
fn parse_attribute_specs(cursor: &mut Cursor) -> (r: Result<Vec<AttributeSpecification>, Error>)
    requires
        old(cursor)@.wf(),
    ensures
        final(cursor)@.wf(),
        same_window(old(cursor)@, final(cursor)@),
        match r {
            Ok(v) => spec_parse_attribute_specs(old(cursor)@, Seq::empty()) == Ok::<_, Error>((
                v@,
                final(cursor)@,
            )),
            Err(e) => spec_parse_attribute_specs(old(cursor)@, Seq::empty()) == Err::<
                (Seq<AttributeSpecification>, CursorModel),
                _,
            >(e),
        },
        old(cursor)@.pos <= final(cursor)@.pos,
{
    let ghost c0 = cursor@;
    let mut out: Vec<AttributeSpecification> = Vec::new();
    loop
        invariant
            cursor@.wf(),
            same_window(c0, cursor@),
            c0.wf(),
            c0.pos <= cursor@.pos,
            spec_parse_attribute_specs(c0, Seq::empty()) == spec_parse_attribute_specs(
                cursor@,
                out@,
            ),
        decreases c0.end - cursor@.pos,
    {
        let name = match cursor.read_uleb128() {
            Ok(v) => v,
            Err(e) => {
                return Err(e);
            },
        };
        let form = match cursor.read_uleb128() {
            Ok(v) => v,
            Err(e) => {
                return Err(e);
            },
        };
        if name == 0 && form == 0 {
            return Ok(out);
        }
        if !known_attribute(name) {
            return Err(Error::UnknownAttribute);
        }
        if !known_form(form) {
            return Err(Error::UnknownForm);
        }
        if form == DW_FORM_IMPLICIT_CONST {
            let v = match cursor.read_sleb128() {
                Ok(v) => v,
                Err(e) => {
                    return Err(e);
                },
            };
            out.push(AttributeSpecification { name, form, implicit_const: Some(v) });
        } else {
            out.push(AttributeSpecification { name, form, implicit_const: None });
        }
    }
}

/// Parses one abbreviation declaration, whose non-zero code has just been
/// read.
fn parse_abbreviation(cursor: &mut Cursor, code: u64) -> (r: Result<Abbreviation, Error>)
    requires
        old(cursor)@.wf(),
    ensures
        final(cursor)@.wf(),
        same_window(old(cursor)@, final(cursor)@),
        match r {
            Ok(d) => spec_parse_abbreviation(old(cursor)@, code) == Ok::<_, Error>((
                d@,
                final(cursor)@,
            )),
            Err(e) => spec_parse_abbreviation(old(cursor)@, code) == Err::<
                (AbbreviationModel, CursorModel),
                _,
            >(e),
        },
        old(cursor)@.pos <= final(cursor)@.pos,
{
    let tag = match cursor.read_uleb128() {
        Ok(v) => v,
        Err(e) => {
            return Err(e);
        },
    };
    if !known_tag(tag) {
        return Err(Error::UnknownTag);
    }
    let hc = match cursor.read_u8() {
        Ok(v) => v,
        Err(e) => {
            return Err(e);
        },
    };
    let attrs = match parse_attribute_specs(cursor) {
        Ok(v) => v,
        Err(e) => {
            return Err(e);
        },
    };
    Ok(Abbreviation { code, tag, has_children: hc != 0, attributes: attrs })
}

/// An abbreviation table: the declarations referenced by one or more units,
/// keyed uniquely by their codes, built by fully consuming one table byte
/// stream up to its terminating zero code.
#[derive(Debug, PartialEq, Eq)]
pub struct Abbreviations {
    decls: Vec<Abbreviation>,
}

impl View for Abbreviations {
    type V = Seq<AbbreviationModel>;

    closed spec fn view(&self) -> Seq<AbbreviationModel> {
        self.decls@.map_values(|d: Abbreviation| d@)
    }
}

impl Abbreviations {
    /// How many declarations the table holds.
    pub fn count(&self) -> (r: usize)
        ensures
            r == self@.len(),
    {
        self.decls.len()
    }

    /// The declaration carrying `code`, if the table has one.
    #[verifier::loop_isolation(false)]
    pub fn get(&self, code: u64) -> (r: Option<&Abbreviation>)
        ensures
            match r {
                Some(d) => spec_find_code(self@, code) == Some(d@),
                None => spec_find_code(self@, code) is None,
            },
    {
        let ghost m = self@;
        let mut i: usize = 0;
        while i < self.decls.len()
            invariant
                i <= self.decls@.len(),
                m == self@,
                forall|k: int| 0 <= k < i ==> m[k].code != code,
            decreases self.decls@.len() - i,
        {
            if self.decls[i].code == code {
                proof {
                    lemma_find_code_at(m, code, i as int);
                }
                return Some(&self.decls[i]);
            }
            i = i + 1;
        }
        proof {
            lemma_find_code_none(m, code);
        }
        None
    }

    /// A structurally equal copy of this table.
    #[verifier::loop_isolation(false)]
    pub fn duplicate(&self) -> (r: Abbreviations)
        ensures
            r@ == self@,
    {
        let mut out: Vec<Abbreviation> = Vec::new();
        let mut i: usize = 0;
        while i < self.decls.len()
            invariant
                i <= self.decls@.len(),
                out@.map_values(|d: Abbreviation| d@) == self.decls@.map_values(
                    |d: Abbreviation| d@,
                ).subrange(0, i as int),
            decreases self.decls@.len() - i,
        {
            let d = self.decls[i].duplicate();
            proof {
                assert(out@.push(d).map_values(|d: Abbreviation| d@) =~= out@.map_values(
                    |d: Abbreviation| d@,
                ).push(d@));
                assert(self.decls@.map_values(|d: Abbreviation| d@).subrange(0, i + 1)
                    =~= self.decls@.map_values(|d: Abbreviation| d@).subrange(0, i as int).push(
                    self.decls@.map_values(|d: Abbreviation| d@)[i as int],
                ));
            }
            out.push(d);
            i = i + 1;
        }
        proof {
            assert(out@.map_values(|d: Abbreviation| d@) =~= self@);
        }
        Abbreviations { decls: out }
    }

    /// Decodes an abbreviation table by fully consuming the byte stream at
    /// the cursor, up to and including the terminating zero code.  On
    /// failure the cursor is left where it started.
    #[verifier::loop_isolation(false)]
    #[verifier::rlimit(100)]
    pub fn parse(cursor: &mut Cursor) -> (r: Result<Abbreviations, Error>)
        requires
            old(cursor)@.wf(),
        ensures
            final(cursor)@.wf(),
            same_window(old(cursor)@, final(cursor)@),
            match r {
                Ok(a) => spec_parse_abbreviations(old(cursor)@, Seq::empty()) == Ok::<_, Error>((
                    a@,
                    final(cursor)@,
                )),
                Err(e) => spec_parse_abbreviations(old(cursor)@, Seq::empty()) == Err::<
                    (Seq<AbbreviationModel>, CursorModel),
                    _,
                >(e) && final(cursor)@ == old(cursor)@,
            },
    {
        let ghost c0 = cursor@;
        let base = cursor.position();
        let mut decls: Vec<Abbreviation> = Vec::new();
        proof {
            assert(decls@.map_values(|d: Abbreviation| d@) =~= Seq::<AbbreviationModel>::empty());
        }
        loop
            invariant
                cursor@.wf(),
                same_window(c0, cursor@),
                c0.wf(),
                base == c0.pos,
                c0.start <= base <= cursor@.pos,
                spec_parse_abbreviations(c0, Seq::empty()) == spec_parse_abbreviations(
                    cursor@,
                    decls@.map_values(|d: Abbreviation| d@),
                ),
            decreases c0.end - cursor@.pos,
        {
            let ghost acc = decls@.map_values(|d: Abbreviation| d@);
            let code = match cursor.read_uleb128() {
                Ok(v) => v,
                Err(e) => {
                    cursor.seek(base);
                    return Err(e);
                },
            };
            if code == 0 {
                return Ok(Abbreviations { decls });
            }
            let decl = match parse_abbreviation(cursor, code) {
                Ok(d) => d,
                Err(e) => {
                    cursor.seek(base);
                    return Err(e);
                },
            };
            if has_code(&decls, code) {
                cursor.seek(base);
                return Err(Error::DuplicateAbbreviationCode);
            }
            proof {
                assert(decls@.push(decl).map_values(|d: Abbreviation| d@) =~= acc.push(decl@));
            }
            decls.push(decl);
        }
    }
}

/// An explicit cache of decoded abbreviation tables, keyed by table offset
/// within one abbreviation section.
///
/// Many units of one object file share the same abbreviation table;
/// re-decoding it per unit would be correct but wasteful.  The cache is
/// bound at construction to the identity of one section's bytes, so every
/// value it hands out equals what a fresh decode of those bytes would give.
/// It is used through exclusive references, so no reader can observe a
/// partially constructed table.
pub struct AbbreviationsCache {
    section: Ghost<Seq<u8>>,
    endian: Endian,
    entries: Vec<(u64, Abbreviations)>,
}

impl AbbreviationsCache {
    /// The bytes of the abbreviation section this cache is bound to.
    pub closed spec fn section_bytes(self) -> Seq<u8> {
        self.section@
    }

    /// The byte order this cache is bound to.
    pub closed spec fn byte_order(self) -> Endian {
        self.endian
    }

    /// Every cached table equals what decoding the section at its offset
    /// gives.
    pub closed spec fn wf(self) -> bool {
        forall|i: int|
            0 <= i < self.entries@.len() ==> spec_abbreviations_at(
                self.section@,
                self.entries@[i].0,
                self.endian,
            ) == Ok::<_, Error>(self.entries@[i].1@)
    }

    /// An empty cache bound to one abbreviation section.
    pub fn new(section: &Vec<u8>, endian: Endian) -> (r: AbbreviationsCache)
        ensures
            r.wf(),
            r.section_bytes() == section@,
            r.byte_order() == endian,
    {
        AbbreviationsCache { section: Ghost(section@), endian, entries: Vec::new() }
    }

    /// The already-cached table at `offset`, if one is held.
    #[verifier::loop_isolation(false)]
    fn cached_at(&self, offset: u64) -> (r: Option<&Abbreviations>)
        requires
            self.wf(),
        ensures
            match r {
                Some(a) => spec_abbreviations_at(self.section_bytes(), offset, self.byte_order())
                    == Ok::<_, Error>(a@),
                None => true,
            },
    {
        let mut i: usize = 0;
        while i < self.entries.len()
            invariant
                self.wf(),
                i <= self.entries@.len(),
            decreases self.entries@.len() - i,
        {
            if self.entries[i].0 == offset {
                return Some(&self.entries[i].1);
            }
            i = i + 1;
        }
        None
    }

    /// The table at `offset`: decoded once, then answered from the cache.
    /// The result is the same either way — the table that the section bytes
    /// determine at that offset.
    pub fn abbreviations_at(&mut self, section: &Vec<u8>, offset: u64) -> (r: Result<
        Abbreviations,
        Error,
    >)
        requires
            old(self).wf(),
            old(self).section_bytes() == section@,
        ensures
            final(self).wf(),
            final(self).section_bytes() == old(self).section_bytes(),
            final(self).byte_order() == old(self).byte_order(),
            match r {
                Ok(a) => spec_abbreviations_at(section@, offset, old(self).byte_order()) == Ok::<
                    _,
                    Error,
                >(a@),
                Err(e) => spec_abbreviations_at(section@, offset, old(self).byte_order()) == Err::<
                    Seq<AbbreviationModel>,
                    _,
                >(e),
            },
    {
        match self.cached_at(offset) {
            Some(a) => {
                return Ok(a.duplicate());
            },
            None => {},
        }
        if offset > section.len() as u64 {
            return Err(Error::OffsetOutOfBounds);
        }
        let mut cursor = Cursor::new_at(section, offset as usize, self.endian);
        match Abbreviations::parse(&mut cursor) {
            Ok(a) => {
                let ghost old_entries = self.entries@;
                let copy = a.duplicate();
                self.entries.push((offset, copy));
                proof {
                    assert forall|i: int| 0 <= i < self.entries@.len() implies
                        spec_abbreviations_at(
                            self.section@,
                            self.entries@[i].0,
                            self.endian,
                        ) == Ok::<_, Error>(self.entries@[i].1@) by {
                        if i < old_entries.len() {
                            assert(self.entries@[i] == old_entries[i]);
                        }
                    }
                }
                Ok(a)
            },
            Err(e) => Err(e),
        }
    }
}

} // verus!
