use vstd::prelude::*;

verus! {

use vstd::set_lib::{lemma_int_range, lemma_len_subset, lemma_subset_equality, set_int_range};
use crate::grammar::{allot, assigned, first_free, gap_free, next_free, with_indices};
use crate::types::{ParseError, Parameter, Placeholder};

/// Whether `x` is among `used`.
fn contains(used: &Vec<usize>, x: usize) -> (r: bool)
    ensures
        r == used@.contains(x),
{
    let mut k: usize = 0;
    while k < used.len()
        invariant
            k <= used@.len(),
            forall|j: int| 0 <= j < k ==> used@[j] != x,
        decreases used@.len() - k,
    {
        if used[k] == x {
            return true;
        }
        k += 1;
    }
    false
}

/// Gives each placeholder its final index and checks that the indices used are `0..n`.
///
/// An explicit index is kept. An implicit one is the least index, from a cursor on, that no
/// earlier placeholder uses; the cursor then moves to it.
pub fn assign_indices(params: Vec<Placeholder>) -> (r: Result<Vec<Parameter>, ParseError>)
    ensures
        match r {
            Ok(v) => assigned(params@) == Ok::<Seq<Parameter>, ParseError>(v@),
            Err(e) => assigned(params@) == Err::<Seq<Parameter>, ParseError>(e),
        },
{
    let ghost ps = params@;
    let n = params.len();
    let mut rest = params;
    let mut used: Vec<usize> = Vec::new();
    let mut cursor: usize = 0;
    let mut parameters: Vec<Parameter> = Vec::new();
    let ghost mut idx: Seq<usize> = seq![];
    let ghost mut uset: Set<int> = Set::empty();
    let mut k: usize = 0;
    while k < n
        invariant
            k <= n == ps.len(),
            ps == params@,
            rest@ == ps.subrange(k as int, n as int),
            allot(ps, k as nat) == (idx, cursor as int, uset),
            idx.len() == k,
            parameters@.len() == k,
            forall|j: int|
                0 <= j < k ==> #[trigger] parameters@[j] == (Parameter {
                    index: idx[j],
                    ty: ps[j].ty,
                    span: ps[j].span,
                }),
            uset.finite(),
            uset.len() == used@.len() <= k,
            used@.no_duplicates(),
            forall|m: int| #[trigger]
                uset.contains(m) <==> exists|j: int| 0 <= j < used@.len() && used@[j] as int == m,
            forall|m: int| 0 <= m < cursor ==> #[trigger] uset.contains(m),
        decreases n - k,
    {
        let ghost used0 = used@;
        let ghost uset0 = uset;
        let p = rest.remove(0);
        assert(p == ps[k as int]);
        let index = match p.index {
            Some(x) => {
                if !contains(&used, x) {
                    proof {
                        assert(!uset.contains(x as int));
                    }
                    used.push(x);
                    assert(used@[used@.len() - 1] == x);
                } else {
                    proof {
                        let j = choose|j: int| 0 <= j < used@.len() && used@[j] == x;
                        assert(uset.contains(x as int));
                        assert(uset.insert(x as int) =~= uset);
                    }
                }
                x
            },
            None => {
                let mut j = cursor;
                while contains(&used, j)
                    invariant
                        cursor <= j,
                        uset.finite(),
                        uset.len() == used@.len() <= k < n,
                        forall|m: int| #[trigger]
                            uset.contains(m) <==> exists|q: int|
                                0 <= q < used@.len() && used@[q] as int == m,
                        forall|m: int| 0 <= m < j ==> #[trigger] uset.contains(m),
                    decreases uset.len() - j,
                {
                    proof {
                        let q = choose|q: int| 0 <= q < used@.len() && used@[q] == j;
                        assert(uset.contains(j as int));
                        assert(set_int_range(0, j + 1).subset_of(uset));
                        lemma_int_range(0, j + 1);
                        lemma_len_subset(set_int_range(0, j + 1), uset);
                    }
                    j += 1;
                }
                proof {
                    assert(!uset.contains(j as int));
                    assert(first_free(uset, cursor as int, j as int));
                    let j2 = next_free(uset, cursor as int);
                    assert(first_free(uset, cursor as int, j2));
                    if j2 < j {
                        assert(uset.contains(j2));
                    } else if j2 > j {
                        assert(uset.contains(j as int));
                    }
                }
                used.push(j);
                assert(used@[used@.len() - 1] == j);
                cursor = j;
                j
            },
        };
        proof {
            idx = idx.push(index);
            uset = uset.insert(index as int);
            assert(rest@ =~= ps.subrange(k + 1, n as int));
            assert(used@.contains(index));
            assert(used@ == used0 || used@ == used0.push(index));
            assert forall|m: int| #[trigger]
                uset.contains(m) <==> exists|j: int|
                    0 <= j < used@.len() && used@[j] as int == m by {
                if uset.contains(m) {
                    if m == index as int {
                        let j = choose|j: int| 0 <= j < used@.len() && used@[j] == index;
                        assert(used@[j] as int == m);
                    } else {
                        assert(uset0.contains(m));
                        let j = choose|j: int| 0 <= j < used0.len() && used0[j] as int == m;
                        assert(used@[j] == used0[j]);
                    }
                }
                if exists|j: int| 0 <= j < used@.len() && used@[j] as int == m {
                    let j = choose|j: int| 0 <= j < used@.len() && used@[j] as int == m;
                    if j < used0.len() {
                        assert(used0[j] == used@[j]);
                        assert(uset0.contains(m));
                    }
                }
            }
        }
        parameters.push(Parameter { index, ty: p.ty, span: p.span });
        k += 1;
    }
    let m = used.len();
    let mut q: usize = 0;
    while q < m
        invariant
            q <= m == used@.len() == uset.len(),
            n == ps.len(),
            ps == params@,
            uset.finite(),
            forall|j: int| 0 <= j < q ==> used@[j] < m,
            forall|x: int| #[trigger]
                uset.contains(x) <==> exists|j: int| 0 <= j < used@.len() && used@[j] as int == x,
            allot(ps, n as nat) == (idx, cursor as int, uset),
        decreases m - q,
    {
        if used[q] >= m {
            proof {
                assert(uset.contains(used@[q as int] as int));
                assert(!set_int_range(0, m as int).contains(used@[q as int] as int));
                assert(!gap_free(uset));
            }
            return Err(ParseError::UnusedPositions);
        }
        q += 1;
    }
    proof {
        assert(uset.subset_of(set_int_range(0, m as int)));
        lemma_int_range(0, m as int);
        lemma_subset_equality(uset, set_int_range(0, m as int));
        assert(parameters@ =~= with_indices(ps, idx));
    }
    Ok(parameters)
}

} // verus!
