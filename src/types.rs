use vstd::prelude::*;

verus! {

use core::ops::Range;

/// Relies on the derived `Clone` of `core::ops::Range`, which `Type` and `Parameter` use in
/// their own derived `Clone`; nothing is assumed of its result.
pub assume_specification<Idx: Clone>[ <Range<Idx> as Clone>::clone ](r: &Range<Idx>) -> Range<
    Idx,
>;

/// Wire type of one argument of a format string.
#[derive(Clone, Debug, PartialEq)]
pub enum Type {
    /// The half-open bit range `start..end` of a 32-bit argument, with `start < end < 32`.
    BitField(Range<u8>),
    Bool,
    /// `{:?}`: a debug-style dump.
    Format,
    I8,
    I16,
    I32,
    Isize,
    /// String slice, passed directly rather than as an interned string index.
    Str,
    /// Interned string index.
    IStr,
    U8,
    U16,
    U24,
    U32,
    Usize,
    /// Byte slice `{:[u8]}`.
    Slice,
    /// Byte array `{:[u8; N]}` of the given length.
    Array(usize),
    F32,
}

/// One argument placeholder of a format string, with its resolved index.
#[derive(Clone, Debug, PartialEq)]
pub struct Parameter {
    pub index: usize,
    pub ty: Type,
    /// Byte offsets of the placeholder, from its `{` to just past its `}`.
    pub span: Range<usize>,
}

/// A placeholder as the scanner finds it: its index is present only where written out.
pub struct Placeholder {
    pub index: Option<usize>,
    pub ty: Type,
    pub span: Range<usize>,
}

/// Why a format string was rejected.
#[derive(Clone, Copy, Debug, PartialEq, Eq)]
pub enum ParseError {
    /// The string ends inside a placeholder or a number.
    Unterminated,
    /// The character after `{` and an optional index is neither `:` nor `{`.
    MissingColon,
    /// A `}` that is not part of `}}`.
    UnmatchedClose,
    /// The reserved character `@`.
    ForbiddenAt,
    /// The text after `:` is no known type.
    InvalidArgument,
    /// Nothing but spaces follows `[u8;`.
    InvalidArraySpecifier,
    /// No digit where an array length must stand.
    ArrayLengthExpected,
    /// An array length is not followed by `]}`.
    ArrayCloseMissing,
    /// A bit range is not followed by `}`.
    BitFieldCloseMissing,
    /// A position index or an array length does not fit in `usize`.
    Overflow,
    /// The explicit index was given two types that are not both bit fields.
    TypeConflict(usize),
    /// The indices used are not `0..n` for some `n`.
    UnusedPositions,
}

/// The description of each error.
pub open spec fn message_text(e: ParseError) -> Seq<char> {
    match e {
        ParseError::Unterminated => "expected `}` but string was terminated"@,
        ParseError::MissingColon => "`{` must be followed by `:`"@,
        ParseError::UnmatchedClose => "unmatched `}` in format string"@,
        ParseError::ForbiddenAt => "format string cannot contain the `@` character"@,
        ParseError::InvalidArgument => "invalid format argument"@,
        ParseError::InvalidArraySpecifier => "invalid array specifier"@,
        ParseError::ArrayLengthExpected => "expected array length literal"@,
        ParseError::ArrayCloseMissing => "missing `]}` after array length"@,
        ParseError::BitFieldCloseMissing => "missing `}` after bitfield range"@,
        ParseError::Overflow => "position index must fit in `usize`"@,
        ParseError::TypeConflict(_) => "argument assigned more than one type"@,
        ParseError::UnusedPositions => "the format string contains unused positions"@,
    }
}

impl ParseError {
    /// A short description of the error.
    pub fn message(&self) -> (r: &'static str)
        ensures
            r@ == message_text(*self),
    {
        match self {
            ParseError::Unterminated => "expected `}` but string was terminated",
            ParseError::MissingColon => "`{` must be followed by `:`",
            ParseError::UnmatchedClose => "unmatched `}` in format string",
            ParseError::ForbiddenAt => "format string cannot contain the `@` character",
            ParseError::InvalidArgument => "invalid format argument",
            ParseError::InvalidArraySpecifier => "invalid array specifier",
            ParseError::ArrayLengthExpected => "expected array length literal",
            ParseError::ArrayCloseMissing => "missing `]}` after array length",
            ParseError::BitFieldCloseMissing => "missing `}` after bitfield range",
            ParseError::Overflow => "position index must fit in `usize`",
            ParseError::TypeConflict(_) => "argument assigned more than one type",
            ParseError::UnusedPositions => "the format string contains unused positions",
        }
    }
}

/// Two types may not share an explicit index: they differ, and are not both bit fields.
pub open spec fn conflicting(a: Type, b: Type) -> bool {
    a != b && !(a is BitField && b is BitField)
}

/// Whether `a` and `b` may not be given to the same explicit index.
pub fn types_conflict(a: &Type, b: &Type) -> (r: bool)
    ensures
        r == conflicting(*a, *b),
{
    match (a, b) {
        (Type::BitField(_), Type::BitField(_)) => false,
        (Type::Bool, Type::Bool) => false,
        (Type::Format, Type::Format) => false,
        (Type::I8, Type::I8) => false,
        (Type::I16, Type::I16) => false,
        (Type::I32, Type::I32) => false,
        (Type::Isize, Type::Isize) => false,
        (Type::Str, Type::Str) => false,
        (Type::IStr, Type::IStr) => false,
        (Type::U8, Type::U8) => false,
        (Type::U16, Type::U16) => false,
        (Type::U24, Type::U24) => false,
        (Type::U32, Type::U32) => false,
        (Type::Usize, Type::Usize) => false,
        (Type::Slice, Type::Slice) => false,
        (Type::Array(x), Type::Array(y)) => *x != *y,
        (Type::F32, Type::F32) => false,
        _ => true,
    }
}

} // verus!
