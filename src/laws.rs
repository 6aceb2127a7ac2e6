use vstd::prelude::*;

verus! {

use core::ops::Range;
use vstd::set_lib::{lemma_int_range, lemma_len_subset, set_int_range};
use vstd::string::StringSliceAdditionalSpecFns;
use crate::grammar::{
    allot, array_open, assigned, digits_end, first_free, first_tag, has_prefix, is_ascii_digit,
    lemma_first_tag, next_free, parsed, scan, spaces_end, tag_text, type_tag, u8_at, usize_at,
    with_indices,
    AT_SIGN, CLOSE_BRACE, COLON, OPEN_BRACE, SPACE, TAG_COUNT,
};
use crate::types::{Parameter, ParseError, Placeholder, Type};

/// Bytes that the scanner passes over as plain text.
pub open spec fn is_literal(c: u8) -> bool {
    c != OPEN_BRACE && c != CLOSE_BRACE && c != AT_SIGN
}

/// `r` is the text of a placeholder of type `ty` in `b`: a `{`, decimal digits, a `:`, and
/// the tag of `ty`, which ends with the only `}` of the text.
pub open spec fn placeholder_text(b: Seq<u8>, r: Range<usize>, ty: Type) -> bool {
    &&& r.start < r.end <= b.len()
    &&& b[r.start as int] == OPEN_BRACE
    &&& b[r.end - 1] == CLOSE_BRACE
    &&& forall|k: int| r.start <= k < r.end - 1 ==> b[k] != CLOSE_BRACE
    &&& exists|h: int|
        #![trigger b[h]]
        r.start < h < r.end && b[h] == COLON && (forall|k: int|
            r.start < k < h ==> is_ascii_digit(#[trigger] b[k])) && type_tag(b, h + 1) == Ok::<
            (Type, usize),
            ParseError,
        >((ty, (r.end - h - 1) as usize))
}

/// The spans of `ps` follow one another without overlap.
pub open spec fn in_order(ps: Seq<Placeholder>) -> bool {
    forall|j: int, k: int|
        0 <= j < k < ps.len() ==> #[trigger] ps[j].span.end <= #[trigger] ps[k].span.start
}

/// Parsing depends on the text alone: equal strings parse to equal results.
pub proof fn lemma_parse_deterministic(s: &str, t: &str)
    requires
        s@ == t@,
    ensures
        parsed(s.spec_bytes()) == parsed(t.spec_bytes()),
{
}

/// An escaped brace, `{{` or `}}`, wherever the scanner meets it, adds no placeholder and
/// raises no error: scanning goes on just after it.
pub proof fn lemma_escape_skipped(b: Seq<u8>, i: int, acc: Seq<Placeholder>)
    requires
        0 <= i,
        i + 1 < b.len(),
        b[i] == b[i + 1],
        b[i] == OPEN_BRACE || b[i] == CLOSE_BRACE,
    ensures
        scan(b, i, acc) == scan(b, i + 2, acc),
{
}

/// Plain text is passed over without a placeholder or an error.
proof fn lemma_literal_skipped(b: Seq<u8>, i: int, j: int, acc: Seq<Placeholder>)
    requires
        0 <= i <= j <= b.len(),
        forall|k: int| i <= k < j ==> is_literal(#[trigger] b[k]),
    ensures
        scan(b, i, acc) == scan(b, j, acc),
    decreases j - i,
{
    if i < j {
        lemma_literal_skipped(b, i + 1, j, acc);
    }
}

/// A string made of plain text around one escaped brace, `{{` or `}}`, parses to no
/// parameters.
pub proof fn lemma_escape_in_text(x: Seq<u8>, e: Seq<u8>, y: Seq<u8>)
    requires
        forall|k: int| 0 <= k < x.len() ==> is_literal(#[trigger] x[k]),
        forall|k: int| 0 <= k < y.len() ==> is_literal(#[trigger] y[k]),
        e == seq![OPEN_BRACE, OPEN_BRACE] || e == seq![CLOSE_BRACE, CLOSE_BRACE],
    ensures
        parsed(x + e + y) == Ok::<Seq<Parameter>, ParseError>(seq![]),
{
    let b = x + e + y;
    let n = x.len() as int;
    lemma_literal_skipped(b, 0, n, seq![]);
    lemma_escape_skipped(b, n, seq![]);
    lemma_literal_skipped(b, n + 2, b.len() as int, seq![]);
    let ps = seq![];
    assert(allot(ps, 0) == (Seq::<usize>::empty(), 0int, Set::<int>::empty()));
    assert(set_int_range(0, 0) =~= Set::<int>::empty());
    assert(with_indices(ps, Seq::<usize>::empty()) =~= seq![]);
}

/// The bytes from `i` up to `digits_end` are digits.
proof fn lemma_digits(b: Seq<u8>, i: int)
    requires
        0 <= i <= b.len(),
    ensures
        i <= digits_end(b, i) <= b.len(),
        forall|k: int| i <= k < digits_end(b, i) ==> is_ascii_digit(#[trigger] b[k]),
    decreases b.len() - i,
{
    if i < b.len() && is_ascii_digit(b[i]) {
        lemma_digits(b, i + 1);
    }
}

/// The bytes from `i` up to `spaces_end` are spaces.
proof fn lemma_spaces(b: Seq<u8>, i: int)
    requires
        0 <= i <= b.len(),
    ensures
        i <= spaces_end(b, i) <= b.len(),
        forall|k: int| i <= k < spaces_end(b, i) ==> #[trigger] b[k] == SPACE,
    decreases b.len() - i,
{
    if i < b.len() && b[i] == SPACE {
        lemma_spaces(b, i + 1);
    }
}

/// Each tag text ends with its only `}`, and holds no `@`.
proof fn lemma_tag_text(k: int)
    requires
        0 <= k < TAG_COUNT,
    ensures
        tag_text(k).len() >= 2,
        tag_text(k).last() == CLOSE_BRACE,
        forall|j: int| 0 <= j < tag_text(k).len() - 1 ==> #[trigger] tag_text(k)[j] != CLOSE_BRACE,
        forall|j: int| 0 <= j < tag_text(k).len() ==> #[trigger] tag_text(k)[j] != AT_SIGN,
{
}

/// A type tag read at `i` ends with its only `}`, and holds no `@`.
proof fn lemma_type_tag_shape(b: Seq<u8>, i: int)
    requires
        0 <= i <= b.len() <= usize::MAX,
        type_tag(b, i) is Ok,
    ensures
        ({
            let n = type_tag(b, i)->Ok_0.1;
            &&& 1 <= n
            &&& i + n <= b.len()
            &&& b[i + n - 1] == CLOSE_BRACE
            &&& forall|k: int| i <= k < i + n - 1 ==> b[k] != CLOSE_BRACE
            &&& forall|k: int| i <= k < i + n ==> b[k] != AT_SIGN
        }),
{
    match first_tag(b, i, 0) {
        Some(t) => {
            lemma_first_tag(b, i, 0);
            lemma_tag_text(t);
            let s = tag_text(t);
            assert forall|k: int| i <= k < i + s.len() implies b[k] == s[k - i] by {
                assert(b.subrange(i, i + s.len())[k - i] == s[k - i]);
            }
        },
        None => {
            if has_prefix(b, i, array_open()) {
                let o = array_open();
                assert forall|k: int| i <= k < i + 4 implies b[k] == o[k - i] by {
                    assert(b.subrange(i, i + 4)[k - i] == o[k - i]);
                }
                lemma_spaces(b, i + 4);
                let sp = spaces_end(b, i + 4);
                lemma_digits(b, sp);
            } else {
                let (s, e1) = u8_at(b, i)->0;
                lemma_digits(b, i);
                lemma_digits(b, e1 + 2);
            }
        },
    }
}

/// A successful scan from `i` meets no `@`, and every placeholder it collects is the text
/// of its type, in order.
#[verifier::rlimit(100)]
#[verifier::spinoff_prover]
proof fn lemma_scan_spans(b: Seq<u8>, i: int, acc: Seq<Placeholder>)
    requires
        0 <= i,
        b.len() <= usize::MAX,
        forall|k: int|
            0 <= k < acc.len() ==> placeholder_text(b, #[trigger] acc[k].span, acc[k].ty),
        forall|k: int| 0 <= k < acc.len() ==> #[trigger] acc[k].span.end <= i,
        in_order(acc),
        scan(b, i, acc) is Ok,
    ensures
        ({
            let ps = scan(b, i, acc)->Ok_0;
            &&& forall|k: int|
                0 <= k < ps.len() ==> placeholder_text(b, #[trigger] ps[k].span, ps[k].ty)
            &&& in_order(ps)
            &&& forall|k: int| i <= k < b.len() ==> b[k] != AT_SIGN
        }),
    decreases if i < b.len() { b.len() - i } else { 0 },
{
    if i >= b.len() {
    } else if b[i] == CLOSE_BRACE {
        lemma_scan_spans(b, i + 2, acc);
    } else if b[i] == OPEN_BRACE {
        let head = usize_at(b, i + 1)->Ok_0;
        let d: nat = match head {
            Some((_, d)) => d as nat,
            None => 0,
        };
        let h = i + 1 + d;
        if is_ascii_digit(b[i + 1]) {
            lemma_digits(b, i + 1);
        }
        if b[h] == OPEN_BRACE {
            lemma_scan_spans(b, h + 1, acc);
        } else {
            lemma_type_tag_shape(b, h + 1);
            let (ty, n) = type_tag(b, h + 1)->Ok_0;
            let end = h + 1 + n;
            let index = match head {
                Some((v, _)) => Some(v),
                None => None,
            };
            let p = Placeholder {
                index,
                ty,
                span: Range {
                    start: #[verifier::truncate] (i as usize),
                    end: #[verifier::truncate] (end as usize),
                },
            };
            assert(b[h] == COLON);
            assert(placeholder_text(b, p.span, p.ty));
            let acc2 = acc.push(p);
            assert forall|k: int| 0 <= k < acc2.len() implies placeholder_text(
                b,
                #[trigger] acc2[k].span,
                acc2[k].ty,
            ) && acc2[k].span.end <= end by {
                if k < acc.len() {
                    assert(acc2[k] == acc[k]);
                }
            }
            assert(in_order(acc2));
            lemma_scan_spans(b, end, acc2);
        }
    } else {
        lemma_scan_spans(b, i + 1, acc);
    }
}

/// Each parameter's span holds exactly the text of its placeholder: a `{`, the digits of an
/// explicit index if any, a `:`, the tag of the parameter's type, and the `}` that closes
/// it. The spans follow one another in the string, without overlap.
pub proof fn lemma_spans_exact(b: Seq<u8>)
    requires
        b.len() <= usize::MAX,
        parsed(b) is Ok,
    ensures
        ({
            let ps = parsed(b)->Ok_0;
            &&& forall|k: int|
                0 <= k < ps.len() ==> placeholder_text(b, #[trigger] ps[k].span, ps[k].ty)
            &&& forall|j: int, k: int|
                0 <= j < k < ps.len() ==> #[trigger] ps[j].span.end <= #[trigger] ps[k].span.start
        }),
{
    lemma_scan_spans(b, 0, seq![]);
    let ps = scan(b, 0, seq![])->Ok_0;
    let (idx, _, _) = allot(ps, ps.len());
    assert(parsed(b) == assigned(ps));
    let qs = with_indices(ps, idx);
    assert forall|k: int| 0 <= k < qs.len() implies placeholder_text(
        b,
        #[trigger] qs[k].span,
        qs[k].ty,
    ) by {
        assert(qs[k].span == ps[k].span && qs[k].ty == ps[k].ty);
    }
    assert forall|j: int, k: int| 0 <= j < k < qs.len() implies #[trigger] qs[j].span.end
        <= #[trigger] qs[k].span.start by {
        assert(qs[j].span == ps[j].span && qs[k].span == ps[k].span);
    }
}

/// A string that holds `@` anywhere does not parse.
pub proof fn lemma_at_sign_rejected(b: Seq<u8>, k: int)
    requires
        b.len() <= usize::MAX,
        0 <= k < b.len(),
        b[k] == AT_SIGN,
    ensures
        parsed(b) is Err,
{
    if scan(b, 0, seq![]) is Ok {
        lemma_scan_spans(b, 0, seq![]);
    }
}

/// Where no index from `c` on is free, every index from `c` up to `m` is used.
proof fn lemma_used_upto(used: Set<int>, c: int, m: int)
    requires
        c <= m,
        !exists|j: int| first_free(used, c, j),
    ensures
        forall|x: int| c <= x < m ==> used.contains(x),
    decreases m - c,
{
    if m > c {
        lemma_used_upto(used, c, m - 1);
        if !used.contains(m - 1) {
            assert(first_free(used, c, m - 1));
        }
    }
}

/// A finite set leaves some index from `c` on free.
proof fn lemma_free_exists(used: Set<int>, c: int)
    requires
        used.finite(),
    ensures
        exists|j: int| first_free(used, c, j),
{
    if !exists|j: int| first_free(used, c, j) {
        let top = c + used.len() + 1;
        lemma_used_upto(used, c, top);
        assert(set_int_range(c, top).subset_of(used));
        lemma_int_range(c, top);
        lemma_len_subset(set_int_range(c, top), used);
    }
}

/// What `allot` keeps true: indices below the cursor are used, every index given is used,
/// and implicit indices grow and stay at most the cursor.
proof fn lemma_allot(ps: Seq<Placeholder>, n: nat)
    requires
        n <= ps.len() <= usize::MAX,
    ensures
        ({
            let (idx, c, used) = allot(ps, n);
            &&& used.finite()
            &&& used.len() <= n
            &&& idx.len() == n
            &&& 0 <= c
            &&& forall|m: int| 0 <= m < c ==> used.contains(m)
            &&& forall|k: int| 0 <= k < n ==> used.contains(#[trigger] idx[k] as int)
            &&& forall|k: int| 0 <= k < n && ps[k].index is None ==> #[trigger] idx[k] <= c
            &&& forall|j: int, k: int|
                0 <= j < k < n && ps[j].index is None && ps[k].index is None ==> #[trigger] idx[j]
                    < #[trigger] idx[k]
        }),
    decreases n,
{
    if n > 0 {
        lemma_allot(ps, (n - 1) as nat);
        let (idx, c, used) = allot(ps, (n - 1) as nat);
        if ps[n - 1].index is None {
            lemma_free_exists(used, c);
            let j = next_free(used, c);
            assert(first_free(used, c, j));
            assert(set_int_range(0, j).subset_of(used));
            lemma_int_range(0, j);
            lemma_len_subset(set_int_range(0, j), used);
            let idx2 = idx.push(j as usize);
            assert forall|k: int| 0 <= k < n implies used.insert(j).contains(
                #[trigger] idx2[k] as int,
            ) by {
                if k < n - 1 {
                    assert(idx2[k] == idx[k]);
                }
            }
            assert forall|k: int| 0 <= k < n && ps[k].index is None implies #[trigger] idx2[k]
                <= j by {
                if k < n - 1 {
                    assert(idx2[k] == idx[k]);
                }
            }
            assert forall|a: int, k: int|
                0 <= a < k < n && ps[a].index is None && ps[k].index is None
                    implies #[trigger] idx2[a] < #[trigger] idx2[k] by {
                assert(idx2[a] == idx[a]);
                if k < n - 1 {
                    assert(idx2[k] == idx[k]);
                } else {
                    assert(used.contains(idx[a] as int));
                }
            }
        } else {
            let i = ps[n - 1].index->0;
            let idx2 = idx.push(i);
            assert forall|k: int| 0 <= k < n implies used.insert(i as int).contains(
                #[trigger] idx2[k] as int,
            ) by {
                if k < n - 1 {
                    assert(idx2[k] == idx[k]);
                }
            }
            assert forall|k: int| 0 <= k < n && ps[k].index is None implies #[trigger] idx2[k]
                <= c by {
                assert(idx2[k] == idx[k]);
            }
            assert forall|a: int, k: int|
                0 <= a < k < n && ps[a].index is None && ps[k].index is None
                    implies #[trigger] idx2[a] < #[trigger] idx2[k] by {
                assert(idx2[a] == idx[a]);
                assert(idx2[k] == idx[k]);
            }
        }
    }
}

/// Placeholders without an explicit index get growing indices from left to right.
pub proof fn lemma_implicit_increasing(ps: Seq<Placeholder>, j: int, k: int)
    requires
        ps.len() <= usize::MAX,
        0 <= j < k < ps.len(),
        ps[j].index is None,
        ps[k].index is None,
        assigned(ps) is Ok,
    ensures
        assigned(ps)->Ok_0[j].index < assigned(ps)->Ok_0[k].index,
{
    lemma_allot(ps, ps.len());
    let (idx, _, _) = allot(ps, ps.len());
    assert(idx[j] < idx[k]);
}

} // verus!
