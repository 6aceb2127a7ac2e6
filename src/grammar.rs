use vstd::prelude::*;

verus! {

use core::ops::Range;
use vstd::set_lib::set_int_range;
use crate::types::{conflicting, ParseError, Parameter, Placeholder, Type};

pub const OPEN_BRACE: u8 = 0x7b;

pub const CLOSE_BRACE: u8 = 0x7d;

pub const COLON: u8 = 0x3a;

pub const AT_SIGN: u8 = 0x40;

pub const DOT: u8 = 0x2e;

pub const SPACE: u8 = 0x20;

pub const OPEN_BRACKET: u8 = 0x5b;

pub const CLOSE_BRACKET: u8 = 0x5d;

pub const SEMICOLON: u8 = 0x3b;

pub const DIGIT_ZERO: u8 = 0x30;

pub const DIGIT_NINE: u8 = 0x39;

/// Number of entries in the catalog of type tags.
pub const TAG_COUNT: usize = 15;

pub open spec fn is_ascii_digit(c: u8) -> bool {
    DIGIT_ZERO <= c <= DIGIT_NINE
}

/// End of the run of ASCII digits that starts at `i`.
pub open spec fn digits_end(b: Seq<u8>, i: int) -> int
    decreases b.len() - i,
{
    if 0 <= i < b.len() && is_ascii_digit(b[i]) {
        digits_end(b, i + 1)
    } else {
        i
    }
}

/// End of the run of ASCII spaces that starts at `i`.
pub open spec fn spaces_end(b: Seq<u8>, i: int) -> int
    decreases b.len() - i,
{
    if 0 <= i < b.len() && b[i] == SPACE {
        spaces_end(b, i + 1)
    } else {
        i
    }
}

/// Value of the decimal digits `d`.
pub open spec fn decimal(d: Seq<u8>) -> nat
    decreases d.len(),
{
    if d.len() == 0 {
        0
    } else {
        decimal(d.drop_last()) * 10 + (d.last() - DIGIT_ZERO) as nat
    }
}

/// An optional decimal `usize` at `i`: `None` where no digit stands there, else its value
/// and its number of digits. A run of digits must be followed by some other character.
pub open spec fn usize_at(b: Seq<u8>, i: int) -> Result<Option<(usize, usize)>, ParseError> {
    if !(0 <= i < b.len() && is_ascii_digit(b[i])) {
        Ok(None)
    } else {
        let e = digits_end(b, i);
        let v = decimal(b.subrange(i, e));
        if e >= b.len() {
            Err(ParseError::Unterminated)
        } else if v > usize::MAX {
            Err(ParseError::Overflow)
        } else {
            Ok(Some((v as usize, (e - i) as usize)))
        }
    }
}

/// A non-empty decimal `u8` at `i`, with the position just past its digits.
pub open spec fn u8_at(b: Seq<u8>, i: int) -> Option<(u8, int)> {
    let e = digits_end(b, i);
    let v = decimal(b.subrange(i, e));
    if e == i || v > u8::MAX {
        None
    } else {
        Some((v as u8, e))
    }
}

/// A bit range `start..end` at `i`, with `start < end < 32`, and the position just past it.
pub open spec fn bit_range_at(b: Seq<u8>, i: int) -> Option<(u8, u8, int)> {
    match u8_at(b, i) {
        None => None,
        Some((s, e1)) => if e1 + 2 <= b.len() && b[e1] == DOT && b[e1 + 1] == DOT {
            match u8_at(b, e1 + 2) {
                None => None,
                Some((t, e2)) => if s < t && t < 32 {
                    Some((s, t, e2))
                } else {
                    None
                },
            }
        } else {
            None
        },
    }
}

/// Text of the `k`-th entry of the catalog of type tags, closing brace included.
pub open spec fn tag_text(k: int) -> Seq<u8> {
    if k == 0 {
        seq![0x3f, 0x7d]  // ?}
    } else if k == 1 {
        seq![0x73, 0x74, 0x72, 0x7d]  // str}
    } else if k == 2 {
        seq![0x69, 0x73, 0x74, 0x72, 0x7d]  // istr}
    } else if k == 3 {
        seq![0x75, 0x38, 0x7d]  // u8}
    } else if k == 4 {
        seq![0x75, 0x31, 0x36, 0x7d]  // u16}
    } else if k == 5 {
        seq![0x75, 0x32, 0x34, 0x7d]  // u24}
    } else if k == 6 {
        seq![0x75, 0x33, 0x32, 0x7d]  // u32}
    } else if k == 7 {
        seq![0x66, 0x33, 0x32, 0x7d]  // f32}
    } else if k == 8 {
        seq![0x69, 0x38, 0x7d]  // i8}
    } else if k == 9 {
        seq![0x69, 0x31, 0x36, 0x7d]  // i16}
    } else if k == 10 {
        seq![0x69, 0x33, 0x32, 0x7d]  // i32}
    } else if k == 11 {
        seq![0x62, 0x6f, 0x6f, 0x6c, 0x7d]  // bool}
    } else if k == 12 {
        seq![0x5b, 0x75, 0x38, 0x5d, 0x7d]  // [u8]}
    } else if k == 13 {
        seq![0x75, 0x73, 0x69, 0x7a, 0x65, 0x7d]  // usize}
    } else {
        seq![0x69, 0x73, 0x69, 0x7a, 0x65, 0x7d]  // isize}
    }
}

/// Type of the `k`-th entry of the catalog of type tags.
pub open spec fn tag_type(k: int) -> Type {
    if k == 0 {
        Type::Format
    } else if k == 1 {
        Type::Str
    } else if k == 2 {
        Type::IStr
    } else if k == 3 {
        Type::U8
    } else if k == 4 {
        Type::U16
    } else if k == 5 {
        Type::U24
    } else if k == 6 {
        Type::U32
    } else if k == 7 {
        Type::F32
    } else if k == 8 {
        Type::I8
    } else if k == 9 {
        Type::I16
    } else if k == 10 {
        Type::I32
    } else if k == 11 {
        Type::Bool
    } else if k == 12 {
        Type::Slice
    } else if k == 13 {
        Type::Usize
    } else {
        Type::Isize
    }
}

/// The text `[u8;` that opens a fixed-size array tag.
pub open spec fn array_open() -> Seq<u8> {
    seq![OPEN_BRACKET, 0x75, 0x38, SEMICOLON]
}

/// `t` stands in `b` at `i`.
pub open spec fn has_prefix(b: Seq<u8>, i: int, t: Seq<u8>) -> bool {
    0 <= i && i + t.len() <= b.len() && b.subrange(i, i + t.len()) == t
}

/// The first catalog entry from the `k`-th on whose text stands at `i`.
pub open spec fn first_tag(b: Seq<u8>, i: int, k: int) -> Option<int>
    decreases TAG_COUNT - k,
{
    if k < 0 || k >= TAG_COUNT {
        None
    } else if has_prefix(b, i, tag_text(k)) {
        Some(k)
    } else {
        first_tag(b, i, k + 1)
    }
}

/// The entry that `first_tag` finds stands at `i`.
pub proof fn lemma_first_tag(b: Seq<u8>, i: int, k: int)
    requires
        first_tag(b, i, k) is Some,
    ensures
        0 <= first_tag(b, i, k)->0 < TAG_COUNT,
        has_prefix(b, i, tag_text(first_tag(b, i, k)->0)),
    decreases TAG_COUNT - k,
{
    if 0 <= k < TAG_COUNT && !has_prefix(b, i, tag_text(k)) {
        lemma_first_tag(b, i, k + 1);
    }
}

/// The array tag whose text after `[u8;` starts at `i`: its type and the length of that text.
pub open spec fn array_tag(b: Seq<u8>, i: int) -> Result<(Type, usize), ParseError> {
    let k = spaces_end(b, i);
    if k >= b.len() {
        Err(ParseError::InvalidArraySpecifier)
    } else {
        match usize_at(b, k) {
            Err(e) => Err(e),
            Ok(None) => Err(ParseError::ArrayLengthExpected),
            Ok(Some((n, d))) => {
                let e = k + d;
                if e + 2 <= b.len() && b[e] == CLOSE_BRACKET && b[e + 1] == CLOSE_BRACE {
                    Ok((Type::Array(n), #[verifier::truncate] ((e + 2 - i) as usize)))
                } else {
                    Err(ParseError::ArrayCloseMissing)
                }
            },
        }
    }
}

/// The type tag that starts at `i`, just after a `:`: its type and the length of its text,
/// closing brace included. The catalog comes first, then arrays, then bit ranges.
pub open spec fn type_tag(b: Seq<u8>, i: int) -> Result<(Type, usize), ParseError> {
    match first_tag(b, i, 0) {
        Some(k) => Ok((tag_type(k), tag_text(k).len() as usize)),
        None => if has_prefix(b, i, array_open()) {
            match array_tag(b, i + 4) {
                Err(e) => Err(e),
                Ok((t, n)) => Ok((t, #[verifier::truncate] ((n + 4) as usize))),
            }
        } else {
            match bit_range_at(b, i) {
                None => Err(ParseError::InvalidArgument),
                Some((s, t, e)) => if e < b.len() && b[e] == CLOSE_BRACE {
                    Ok(
                        (
                            Type::BitField(Range { start: s, end: t }),
                            #[verifier::truncate] ((e + 1 - i) as usize),
                        ),
                    )
                } else {
                    Err(ParseError::BitFieldCloseMissing)
                },
            }
        },
    }
}

/// Some placeholder of `acc` has the explicit index `i` and a type that conflicts with `ty`.
pub open spec fn conflicts_with(acc: Seq<Placeholder>, i: usize, ty: Type) -> bool {
    exists|k: int| 0 <= k < acc.len() && acc[k].index == Some(i) && conflicting(acc[k].ty, ty)
}

/// Scans `b` from `i` on, after the placeholders `acc`: all placeholders, or the first error.
///
/// `{{` and `}}` are escaped braces; a `{` may also follow an index, which is then ignored.
pub open spec fn scan(b: Seq<u8>, i: int, acc: Seq<Placeholder>) -> Result<
    Seq<Placeholder>,
    ParseError,
>
    decreases if i < b.len() { b.len() - i } else { 0 },
{
    if i < 0 || i >= b.len() {
        Ok(acc)
    } else if b[i] == AT_SIGN {
        Err(ParseError::ForbiddenAt)
    } else if b[i] == CLOSE_BRACE {
        if i + 1 < b.len() && b[i + 1] == CLOSE_BRACE {
            scan(b, i + 2, acc)
        } else {
            Err(ParseError::UnmatchedClose)
        }
    } else if b[i] == OPEN_BRACE {
        match usize_at(b, i + 1) {
            Err(e) => Err(e),
            Ok(head) => {
                let d: nat = match head {
                    Some((_, d)) => d as nat,
                    None => 0,
                };
                let index = match head {
                    Some((n, _)) => Some(n),
                    None => None,
                };
                let h = i + 1 + d;
                if h >= b.len() {
                    Err(ParseError::Unterminated)
                } else if b[h] == OPEN_BRACE {
                    scan(b, h + 1, acc)
                } else if b[h] == COLON {
                    match type_tag(b, h + 1) {
                        Err(e) => Err(e),
                        Ok((ty, n)) => {
                            let end = h + 1 + n;
                            let p = Placeholder {
                                index,
                                ty,
                                span: Range {
                                    start: #[verifier::truncate] (i as usize),
                                    end: #[verifier::truncate] (end as usize),
                                },
                            };
                            if index is Some && conflicts_with(acc, index->0, ty) {
                                Err(ParseError::TypeConflict(index->0))
                            } else {
                                scan(b, end, acc.push(p))
                            }
                        },
                    }
                } else {
                    Err(ParseError::MissingColon)
                }
            },
        }
    } else {
        scan(b, i + 1, acc)
    }
}

/// `j` is the least index from `c` on that is not in `used`.
pub open spec fn first_free(used: Set<int>, c: int, j: int) -> bool {
    c <= j && !used.contains(j) && forall|m: int| c <= m < j ==> used.contains(m)
}

/// The least index from `c` on that is not in `used`.
pub open spec fn next_free(used: Set<int>, c: int) -> int {
    choose|j: int| first_free(used, c, j)
}

/// Indices given to the first `n` placeholders of `ps`, with the cursor of implicit indices
/// and the set of indices used after them.
pub open spec fn allot(ps: Seq<Placeholder>, n: nat) -> (Seq<usize>, int, Set<int>)
    decreases n,
{
    if n == 0 {
        (seq![], 0, Set::empty())
    } else {
        let (idx, c, used) = allot(ps, (n - 1) as nat);
        match ps[n - 1].index {
            Some(i) => (idx.push(i), c, used.insert(i as int)),
            None => {
                let j = next_free(used, c);
                (idx.push(j as usize), j, used.insert(j))
            },
        }
    }
}

/// The set of indices used is `0..n` for its size `n`.
pub open spec fn gap_free(used: Set<int>) -> bool {
    used == set_int_range(0, used.len() as int)
}

/// The placeholders `ps` with the indices `idx`.
pub open spec fn with_indices(ps: Seq<Placeholder>, idx: Seq<usize>) -> Seq<Parameter> {
    Seq::new(ps.len(), |k: int| Parameter { index: idx[k], ty: ps[k].ty, span: ps[k].span })
}

/// The parameters of the placeholders `ps`, or the error that their indices give.
pub open spec fn assigned(ps: Seq<Placeholder>) -> Result<Seq<Parameter>, ParseError> {
    let (idx, _, used) = allot(ps, ps.len());
    if gap_free(used) {
        Ok(with_indices(ps, idx))
    } else {
        Err(ParseError::UnusedPositions)
    }
}

/// What the format string with the bytes `b` parses to.
pub open spec fn parsed(b: Seq<u8>) -> Result<Seq<Parameter>, ParseError> {
    match scan(b, 0, seq![]) {
        Err(e) => Err(e),
        Ok(ps) => assigned(ps),
    }
}

} // verus!
