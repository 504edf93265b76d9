use vstd::prelude::*;

verus! {

/// The ways a DWARF decode operation can fail.
///
/// Every decoding function in this crate returns its failure to the caller;
/// there is no local recovery and no silent substitution of default values.
#[derive(Clone, Copy, Debug, PartialEq, Eq, Structural)]
pub enum Error {
    /// A read requested more bytes than remain in the cursor's window.
    UnexpectedEndOfInput,
    /// Unit length framing is inconsistent: a reserved initial-length escape
    /// was used, the stated unit length exceeds the remaining section bytes,
    /// or a header field does not fit inside the stated unit length.
    InvalidLengthEncoding,
    /// A unit declares a DWARF version this decoder does not recognize.
    UnsupportedVersion,
    /// A form code outside the recognized enumeration was encountered.
    UnknownForm,
    /// An attribute name outside the recognized enumeration was encountered.
    UnknownAttribute,
    /// An entry tag outside the recognized enumeration was encountered.
    UnknownTag,
    /// The same abbreviation code appears twice in one abbreviation table.
    DuplicateAbbreviationCode,
    /// A variable-length integer's encoded magnitude overflows its target
    /// width, or its byte stream ends in the middle of an encoding.
    MalformedLeb128,
    /// A decoded section-relative offset does not address a valid position in
    /// the target section.
    OffsetOutOfBounds,
}

} // verus!
