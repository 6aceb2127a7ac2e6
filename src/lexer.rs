use vstd::prelude::*;

verus! {

use core::ops::Range;
use crate::grammar::{
    array_open, array_tag, bit_range_at, conflicts_with, decimal, digits_end, first_tag,
    has_prefix, is_ascii_digit, lemma_first_tag, scan, spaces_end, tag_text, tag_type, type_tag,
    u8_at, usize_at, AT_SIGN, CLOSE_BRACE, CLOSE_BRACKET, COLON, DIGIT_NINE, DIGIT_ZERO, DOT,
    OPEN_BRACE, OPEN_BRACKET, SEMICOLON, SPACE, TAG_COUNT,
};
use crate::types::{conflicting, types_conflict, ParseError, Placeholder, Type};
use vstd::string::StringSliceAdditionalSpecFns;

/// Whether `c` is an ASCII digit.
pub fn is_digit(c: Option<u8>) -> (r: bool)
    ensures
        r == (c is Some && is_ascii_digit(c->0)),
{
    match c {
        Some(d) => DIGIT_ZERO <= d && d <= DIGIT_NINE,
        None => false,
    }
}

/// End of the run of ASCII digits that starts at `i`.
fn skip_digits(b: &[u8], i: usize) -> (e: usize)
    requires
        i <= b@.len(),
    ensures
        e as int == digits_end(b@, i as int),
        i <= e <= b@.len(),
        forall|k: int| i <= k < e ==> is_ascii_digit(#[trigger] b@[k]),
{
    let mut e = i;
    while e < b.len() && is_digit(Some(b[e]))
        invariant
            i <= e <= b@.len(),
            digits_end(b@, e as int) == digits_end(b@, i as int),
            forall|k: int| i <= k < e ==> is_ascii_digit(#[trigger] b@[k]),
        decreases b@.len() - e,
    {
        e += 1;
    }
    e
}

/// End of the run of ASCII spaces that starts at `i`.
fn skip_spaces(b: &[u8], i: usize) -> (e: usize)
    requires
        i <= b@.len(),
    ensures
        e as int == spaces_end(b@, i as int),
        i <= e <= b@.len(),
{
    let mut e = i;
    while e < b.len() && b[e] == SPACE
        invariant
            i <= e <= b@.len(),
            spaces_end(b@, e as int) == spaces_end(b@, i as int),
        decreases b@.len() - e,
    {
        e += 1;
    }
    e
}

/// A longer run of digits reads as a value at least as large.
proof fn lemma_decimal_grows(b: Seq<u8>, lo: int, k: int, hi: int)
    requires
        0 <= lo <= k <= hi <= b.len(),
    ensures
        decimal(b.subrange(lo, k)) <= decimal(b.subrange(lo, hi)),
    decreases hi - k,
{
    if k < hi {
        lemma_decimal_grows(b, lo, k, hi - 1);
        assert(b.subrange(lo, hi).drop_last() =~= b.subrange(lo, hi - 1));
    }
}

/// Value of the digits `b[lo..hi]`, where it fits in `usize`.
fn decimal_of(b: &[u8], lo: usize, hi: usize) -> (r: Option<usize>)
    requires
        lo <= hi <= b@.len(),
        forall|k: int| lo <= k < hi ==> is_ascii_digit(#[trigger] b@[k]),
    ensures
        match r {
            Some(v) => v as nat == decimal(b@.subrange(lo as int, hi as int)),
            None => decimal(b@.subrange(lo as int, hi as int)) > usize::MAX,
        },
{
    let mut v: usize = 0;
    let mut k = lo;
    assert(b@.subrange(lo as int, lo as int) =~= Seq::<u8>::empty());
    while k < hi
        invariant
            lo <= k <= hi <= b@.len(),
            forall|j: int| lo <= j < hi ==> is_ascii_digit(#[trigger] b@[j]),
            v as nat == decimal(b@.subrange(lo as int, k as int)),
        decreases hi - k,
    {
        let ghost next = b@.subrange(lo as int, k + 1);
        proof {
            assert(next.drop_last() =~= b@.subrange(lo as int, k as int));
            assert(is_ascii_digit(b@[k as int]));
        }
        let d = (b[k] - DIGIT_ZERO) as usize;
        let t = match v.checked_mul(10) {
            Some(t) => t,
            None => {
                proof {
                    lemma_decimal_grows(b@, lo as int, k + 1, hi as int);
                }
                return None;
            },
        };
        v = match t.checked_add(d) {
            Some(n) => n,
            None => {
                proof {
                    lemma_decimal_grows(b@, lo as int, k + 1, hi as int);
                }
                return None;
            },
        };
        k += 1;
    }
    Some(v)
}

/// Reads the optional decimal `usize` at `i`.
pub fn parse_usize_at(b: &[u8], i: usize) -> (r: Result<Option<(usize, usize)>, ParseError>)
    requires
        i <= b@.len(),
    ensures
        r == usize_at(b@, i as int),
        match r {
            Ok(Some((_, d))) => i + d < b@.len(),
            _ => true,
        },
{
    if i < b.len() && is_digit(Some(b[i])) {
        let e = skip_digits(b, i);
        if e >= b.len() {
            return Err(ParseError::Unterminated);
        }
        match decimal_of(b, i, e) {
            Some(v) => Ok(Some((v, e - i))),
            None => Err(ParseError::Overflow),
        }
    } else {
        Ok(None)
    }
}

/// Reads the optional decimal `usize` at the start of `s`: its value and its number of
/// digits, or `None` where `s` does not start with a digit.
///
/// A run of digits that reaches the end of `s` is `Unterminated`; one whose value does not
/// fit in `usize` is an `Overflow`.
pub fn parse_usize(s: &str) -> (r: Result<Option<(usize, usize)>, ParseError>)
    ensures
        r == usize_at(s.spec_bytes(), 0),
{
    parse_usize_at(s.as_bytes(), 0)
}

/// Reads a non-empty decimal `u8` at `i`, with the position just past its digits.
fn parse_u8_at(b: &[u8], i: usize) -> (r: Option<(u8, usize)>)
    requires
        i <= b@.len(),
    ensures
        match r {
            Some((v, e)) => u8_at(b@, i as int) == Some((v, e as int)) && i < e <= b@.len(),
            None => u8_at(b@, i as int) is None,
        },
{
    let e = skip_digits(b, i);
    if e == i {
        return None;
    }
    match decimal_of(b, i, e) {
        Some(v) => if v <= 255 {
            Some((v as u8, e))
        } else {
            None
        },
        None => None,
    }
}

/// Reads a bit range `start..end` at `i`, with `start < end < 32`: its bounds and the
/// position just past it.
pub fn parse_range(b: &[u8], i: usize) -> (r: Option<(u8, u8, usize)>)
    requires
        i <= b@.len(),
    ensures
        match r {
            Some((s, t, e)) => bit_range_at(b@, i as int) == Some((s, t, e as int)) && i < e
                <= b@.len(),
            None => bit_range_at(b@, i as int) is None,
        },
{
    let (s, e1) = match parse_u8_at(b, i) {
        Some(x) => x,
        None => return None,
    };
    if !(b.len() - e1 >= 2 && b[e1] == DOT && b[e1 + 1] == DOT) {
        return None;
    }
    let (t, e2) = match parse_u8_at(b, e1 + 2) {
        Some(x) => x,
        None => return None,
    };
    if s < t && t < 32 {
        Some((s, t, e2))
    } else {
        None
    }
}

/// Text of the `k`-th entry of the catalog of type tags.
fn tag_bytes(k: usize) -> (r: Vec<u8>)
    requires
        k < TAG_COUNT,
    ensures
        r@ == tag_text(k as int),
{
    let r = if k == 0 {
        vec![0x3f, 0x7d]
    } else if k == 1 {
        vec![0x73, 0x74, 0x72, 0x7d]
    } else if k == 2 {
        vec![0x69, 0x73, 0x74, 0x72, 0x7d]
    } else if k == 3 {
        vec![0x75, 0x38, 0x7d]
    } else if k == 4 {
        vec![0x75, 0x31, 0x36, 0x7d]
    } else if k == 5 {
        vec![0x75, 0x32, 0x34, 0x7d]
    } else if k == 6 {
        vec![0x75, 0x33, 0x32, 0x7d]
    } else if k == 7 {
        vec![0x66, 0x33, 0x32, 0x7d]
    } else if k == 8 {
        vec![0x69, 0x38, 0x7d]
    } else if k == 9 {
        vec![0x69, 0x31, 0x36, 0x7d]
    } else if k == 10 {
        vec![0x69, 0x33, 0x32, 0x7d]
    } else if k == 11 {
        vec![0x62, 0x6f, 0x6f, 0x6c, 0x7d]
    } else if k == 12 {
        vec![0x5b, 0x75, 0x38, 0x5d, 0x7d]
    } else if k == 13 {
        vec![0x75, 0x73, 0x69, 0x7a, 0x65, 0x7d]
    } else {
        vec![0x69, 0x73, 0x69, 0x7a, 0x65, 0x7d]
    };
    assert(r@ =~= tag_text(k as int));
    r
}

/// Type of the `k`-th entry of the catalog of type tags.
fn tag_type_of(k: usize) -> (r: Type)
    ensures
        r == tag_type(k as int),
{
    if k == 0 {
        Type::Format
    } else if k == 1 {
        Type::Str
    } else if k == 2 {
        Type::IStr
    } else if k == 3 {
        Type::U8
    } else if k == 4 {
        Type::U16
    } else if k == 5 {
        Type::U24
    } else if k == 6 {
        Type::U32
    } else if k == 7 {
        Type::F32
    } else if k == 8 {
        Type::I8
    } else if k == 9 {
        Type::I16
    } else if k == 10 {
        Type::I32
    } else if k == 11 {
        Type::Bool
    } else if k == 12 {
        Type::Slice
    } else if k == 13 {
        Type::Usize
    } else {
        Type::Isize
    }
}

/// Whether `t` stands in `b` at `i`.
fn has_prefix_at(b: &[u8], i: usize, t: &[u8]) -> (r: bool)
    requires
        i <= b@.len(),
    ensures
        r == has_prefix(b@, i as int, t@),
{
    if t.len() > b.len() - i {
        return false;
    }
    let mut k: usize = 0;
    while k < t.len()
        invariant
            k <= t@.len(),
            i + t@.len() <= b@.len() <= usize::MAX,
            forall|j: int| 0 <= j < k ==> b@[i + j] == t@[j],
        decreases t@.len() - k,
    {
        if b[i + k] != t[k] {
            assert(b@.subrange(i as int, i + t@.len())[k as int] != t@[k as int]);
            return false;
        }
        k += 1;
    }
    assert(b@.subrange(i as int, i + t@.len()) =~= t@);
    true
}

/// The first entry of the catalog of type tags whose text stands at `i`.
fn find_tag(b: &[u8], i: usize) -> (r: Option<usize>)
    requires
        i <= b@.len(),
    ensures
        match r {
            Some(k) => first_tag(b@, i as int, 0) == Some(k as int) && k < TAG_COUNT,
            None => first_tag(b@, i as int, 0) is None,
        },
{
    let mut k: usize = 0;
    while k < TAG_COUNT
        invariant
            i <= b@.len(),
            k <= TAG_COUNT,
            first_tag(b@, i as int, 0) == first_tag(b@, i as int, k as int),
        decreases TAG_COUNT - k,
    {
        let t = tag_bytes(k);
        if has_prefix_at(b, i, t.as_slice()) {
            return Some(k);
        }
        k += 1;
    }
    None
}

/// Reads the array tag whose text after `[u8;` starts at `i`: its type and the length of
/// that text.
fn parse_array(b: &[u8], i: usize) -> (r: Result<(Type, usize), ParseError>)
    requires
        i <= b@.len(),
    ensures
        r == array_tag(b@, i as int),
        match r {
            Ok((_, n)) => i + n <= b@.len(),
            _ => true,
        },
{
    let k = skip_spaces(b, i);
    if k >= b.len() {
        return Err(ParseError::InvalidArraySpecifier);
    }
    let (n, d) = match parse_usize_at(b, k) {
        Err(e) => return Err(e),
        Ok(None) => return Err(ParseError::ArrayLengthExpected),
        Ok(Some(x)) => x,
    };
    let e = k + d;
    if b.len() - e >= 2 && b[e] == CLOSE_BRACKET && b[e + 1] == CLOSE_BRACE {
        Ok((Type::Array(n), e + 2 - i))
    } else {
        Err(ParseError::ArrayCloseMissing)
    }
}

/// Reads the type tag that starts at `i`, just after a `:`: its type and the length of its
/// text, closing brace included.
pub fn parse_type(b: &[u8], i: usize) -> (r: Result<(Type, usize), ParseError>)
    requires
        i <= b@.len(),
    ensures
        r == type_tag(b@, i as int),
        match r {
            Ok((_, n)) => i + n <= b@.len(),
            _ => true,
        },
{
    let len = b.len();
    if let Some(k) = find_tag(b, i) {
        proof {
            lemma_first_tag(b@, i as int, 0);
        }
        let t = tag_bytes(k);
        return Ok((tag_type_of(k), t.len()));
    }
    let open = vec![OPEN_BRACKET, 0x75, 0x38, SEMICOLON];
    assert(open@ =~= array_open());
    if has_prefix_at(b, i, open.as_slice()) {
        match parse_array(b, i + 4) {
            Err(e) => Err(e),
            Ok((t, n)) => Ok((t, n + 4)),
        }
    } else {
        match parse_range(b, i) {
            None => Err(ParseError::InvalidArgument),
            Some((s, t, e)) => if e < len && b[e] == CLOSE_BRACE {
                Ok((Type::BitField(Range { start: s, end: t }), e + 1 - i))
            } else {
                Err(ParseError::BitFieldCloseMissing)
            },
        }
    }
}

/// Whether a placeholder of `acc` has the explicit index `i` and a type that conflicts
/// with `ty`.
fn conflict_in(acc: &Vec<Placeholder>, i: usize, ty: &Type) -> (r: bool)
    ensures
        r == conflicts_with(acc@, i, *ty),
{
    let mut k: usize = 0;
    while k < acc.len()
        invariant
            k <= acc@.len(),
            forall|j: int|
                0 <= j < k ==> !(acc@[j].index == Some(i) && conflicting(
                    #[trigger] acc@[j].ty,
                    *ty,
                )),
        decreases acc@.len() - k,
    {
        let p = &acc[k];
        let hit = match p.index {
            Some(j) => j == i && types_conflict(&p.ty, ty),
            None => false,
        };
        if hit {
            return true;
        }
        k += 1;
    }
    false
}

/// Scans the format string with the bytes `b`: its placeholders in order, or the first error.
pub fn scan_placeholders(b: &[u8]) -> (r: Result<Vec<Placeholder>, ParseError>)
    ensures
        match r {
            Ok(v) => scan(b@, 0, seq![]) == Ok::<Seq<Placeholder>, ParseError>(v@),
            Err(e) => scan(b@, 0, seq![]) == Err::<Seq<Placeholder>, ParseError>(e),
        },
{
    let mut acc: Vec<Placeholder> = Vec::new();
    let mut i: usize = 0;
    while i < b.len()
        invariant
            i <= b@.len(),
            scan(b@, 0, seq![]) == scan(b@, i as int, acc@),
        decreases b@.len() - i,
    {
        let c = b[i];
        if c == AT_SIGN {
            return Err(ParseError::ForbiddenAt);
        } else if c == CLOSE_BRACE {
            if b.len() - i >= 2 && b[i + 1] == CLOSE_BRACE {
                i += 2;
            } else {
                return Err(ParseError::UnmatchedClose);
            }
        } else if c == OPEN_BRACE {
            let head = match parse_usize_at(b, i + 1) {
                Err(e) => return Err(e),
                Ok(h) => h,
            };
            let (index, d) = match head {
                Some((n, d)) => (Some(n), d),
                None => (None, 0),
            };
            let h = i + 1 + d;
            if h >= b.len() {
                return Err(ParseError::Unterminated);
            }
            if b[h] == OPEN_BRACE {
                i = h + 1;
            } else if b[h] == COLON {
                let (ty, n) = match parse_type(b, h + 1) {
                    Err(e) => return Err(e),
                    Ok(x) => x,
                };
                let end = h + 1 + n;
                if let Some(x) = index {
                    if conflict_in(&acc, x, &ty) {
                        return Err(ParseError::TypeConflict(x));
                    }
                }
                acc.push(Placeholder { index, ty, span: Range { start: i, end } });
                i = end;
            } else {
                return Err(ParseError::MissingColon);
            }
        } else {
            i += 1;
        }
    }
    Ok(acc)
}

} // verus!
