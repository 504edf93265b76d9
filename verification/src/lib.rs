//! A reader for the DWARF debugging-information format.
//!
//! This crate decodes the binary structures that compilers embed in object
//! files: compilation-unit and type-unit headers, abbreviation tables, and
//! attribute values in their many byte-level forms, together with the
//! cross-section resolution of string references.  Every decode operation is
//! bounds-checked and fallible; the contracts state byte-exactly which value
//! each operation yields and on which inputs it fails.

pub mod abbrev;
pub mod cursor;
pub mod dwarf;
pub mod form;
pub mod endian;
pub mod error;
pub mod leb128;
pub mod unit;
