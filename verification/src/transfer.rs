//! Ordering guarantees of the bulk transfer scheduler.
//!
//! Tasks are handed out with ordinal indices, may complete in any
//! interleaving outside the library, and their results are re-sorted into
//! submission order before they reach the caller; the first hard failure
//! wins over any partial success.
use vstd::prelude::*;
use vstd::multiset::Multiset;
use crate::errors::ApiError;

verus! {

/// Tasks paired with their ordinal indices, in submission order. The index
/// exists purely so concurrent completion can be re-sorted afterwards, and
/// is unique within the batch.
pub fn index_tasks<T>(tasks: Vec<T>) -> (r: Vec<(u64, T)>)
    ensures
        r@.len() == tasks@.len(),
        forall|i: int|
            0 <= i < r@.len() ==> #[trigger] r@[i].0 == i as u64 && r@[i].1 == tasks@[i],
{
    let mut r: Vec<(u64, T)> = Vec::new();
    let mut rest = tasks;
    let ghost all = rest@;
    let mut i: usize = 0;
    proof {
        assert(all.subrange(0, all.len() as int) =~= all);
    }
    while rest.len() > 0
        invariant
            all == r@.map_values(|p: (u64, T)| p.1) + rest@,
            i == r@.len(),
            forall|j: int|
                0 <= j < r@.len() ==> #[trigger] r@[j].0 == j as u64 && r@[j].1 == all[j],
        decreases rest@.len(),
    {
        let ghost before = r@;
        let ghost rest_before = rest@;
        let t = rest.remove(0);
        proof {
            assert(rest_before =~= seq![t] + rest@);
        }
        r.push((i as u64, t));
        i = r.len();
        proof {
            assert(r@.map_values(|p: (u64, T)| p.1) =~= before.map_values(|p: (u64, T)| p.1)
                + seq![t]);
            assert(all =~= r@.map_values(|p: (u64, T)| p.1) + rest@);
        }
    }
    proof {
        assert(rest@ =~= Seq::<T>::empty());
        assert(r@.map_values(|p: (u64, T)| p.1) =~= all);
        assert(r@.len() == all.len());
    }
    r
}

/// Results sorted by their ordinal index: submission order.
pub open spec fn sorted_by_index<T>(s: Seq<(u64, T)>) -> bool {
    forall|i: int, j: int| 0 <= i < j < s.len() ==> #[trigger] s[i].0 <= #[trigger] s[j].0
}

/// The completed results re-sorted into submission order: the same
/// multiset of pairs, ascending by index. Completion order is forgotten.
#[verifier::loop_isolation(false)]
pub fn sort_by_index<T>(results: Vec<(u64, T)>) -> (r: Vec<(u64, T)>)
    ensures
        r@.to_multiset() == results@.to_multiset(),
        r@.len() == results@.len(),
        sorted_by_index(r@),
{
    broadcast use vstd::seq_lib::group_seq_properties;

    let mut out: Vec<(u64, T)> = Vec::new();
    let mut rest = results;
    let ghost all = rest@;
    while rest.len() > 0
        invariant
            out@.to_multiset().add(rest@.to_multiset()) == all.to_multiset(),
            out@.len() + rest@.len() == all.len(),
            sorted_by_index(out@),
        decreases rest@.len(),
    {
        let ghost rest_before = rest@;
        let item = rest.remove(0);
        proof {
            assert(rest_before =~= seq![item] + rest@);
            assert(rest_before.to_multiset() =~= rest@.to_multiset().insert(item));
        }
        let mut p: usize = 0;
        while p < out.len() && out[p].0 <= item.0
            invariant
                p <= out@.len(),
                forall|k: int| 0 <= k < p ==> #[trigger] out@[k].0 <= item.0,
            decreases out@.len() - p,
        {
            p += 1;
        }
        let ghost out_before = out@;
        out.insert(p, item);
        proof {
            assert(out@ =~= out_before.take(p as int) + seq![item] + out_before.skip(p as int));
            assert(out_before =~= out_before.take(p as int) + out_before.skip(p as int));
            vstd::seq_lib::lemma_multiset_commutative(
                out_before.take(p as int) + seq![item],
                out_before.skip(p as int),
            );
            vstd::seq_lib::lemma_multiset_commutative(out_before.take(p as int), seq![item]);
            vstd::seq_lib::lemma_multiset_commutative(
                out_before.take(p as int),
                out_before.skip(p as int),
            );
            assert(seq![item].to_multiset() =~= Multiset::<(u64, T)>::empty().insert(item));
            assert(out@.to_multiset() =~= out_before.to_multiset().insert(item));
            assert forall|i: int, j: int| 0 <= i < j < out@.len() implies #[trigger] out@[i].0
                <= #[trigger] out@[j].0 by {
                if j < p {
                } else if i < p && j == p {
                    assert(out@[i] == out_before[i]);
                } else if i == p {
                    assert(out@[j] == out_before[j - 1]);
                    assert(p <= j - 1 < out_before.len());
                    if p < out_before.len() {
                        assert(out_before[p as int].0 > item.0 || p == out_before.len());
                    }
                    assert(out_before[p as int].0 > item.0);
                    assert(out_before[j - 1].0 >= out_before[p as int].0);
                } else if i > p {
                    assert(out@[i] == out_before[i - 1]);
                    assert(out@[j] == out_before[j - 1]);
                } else {
                    assert(out@[i] == out_before[i]);
                    assert(out@[j] == out_before[j - 1]);
                    assert(out_before[i].0 <= item.0);
                    assert(out_before[p as int].0 > item.0 || j - 1 == p - 1);
                    if j - 1 >= p {
                        assert(out_before[j - 1].0 >= out_before[p as int].0);
                    }
                }
            }
        }
    }
    proof {
        assert(rest@.to_multiset() =~= Multiset::<(u64, T)>::empty());
        assert(out@.to_multiset() =~= all.to_multiset());
        all.to_multiset_ensures();
        out@.to_multiset_ensures();
    }
    out
}

/// The position of the first failed result, scanning completion order.
pub open spec fn first_err_idx<T>(s: Seq<(u64, Result<T, ApiError>)>) -> Option<int> {
    if exists|i: int| 0 <= i < s.len() && #[trigger] s[i].1 is Err {
        Some(choose|i: int| 0 <= i < s.len() && #[trigger] s[i].1 is Err && forall|j: int|
            0 <= j < i ==> !(#[trigger] s[j].1 is Err))
    } else {
        None
    }
}

/// The batch's outcome: its first hard failure, or — only where every task
/// succeeded — all results re-sorted into submission order. No silent
/// partial success.
#[verifier::loop_isolation(false)]
pub fn merge_outcomes<T>(outcomes: Vec<(u64, Result<T, ApiError>)>) -> (r: Result<
    Vec<(u64, T)>,
    ApiError,
>)
    ensures
        match r {
            Ok(done) => {
                &&& forall|i: int| 0 <= i < outcomes@.len() ==> #[trigger] outcomes@[i].1 is Ok
                &&& done@.len() == outcomes@.len()
                &&& sorted_by_index(done@)
                &&& done@.to_multiset() == outcomes@.map_values(
                    |p: (u64, Result<T, ApiError>)|
                        (
                            p.0,
                            match p.1 {
                                Ok(v) => v,
                                Err(_) => arbitrary(),
                            },
                        ),
                ).to_multiset()
            },
            Err(e) => exists|i: int|
                0 <= i < outcomes@.len() && #[trigger] outcomes@[i].1 == Err::<T, ApiError>(e)
                    && forall|j: int| 0 <= j < i ==> !(#[trigger] outcomes@[j].1 is Err),
        },
{
    let ghost all = outcomes@;
    let mut unwrapped: Vec<(u64, T)> = Vec::new();
    let mut rest = outcomes;
    proof {
        assert(all.subrange(0, all.len() as int) =~= all);
    }
    while rest.len() > 0
        invariant
            all == all.subrange(0, all.len() - rest@.len()) + rest@,
            unwrapped@.len() == all.len() - rest@.len(),
            forall|i: int|
                0 <= i < all.len() - rest@.len() ==> #[trigger] all[i].1 is Ok,
            forall|i: int|
                0 <= i < unwrapped@.len() ==> #[trigger] unwrapped@[i] == (
                    all[i].0,
                    all[i].1->Ok_0,
                ),
        decreases rest@.len(),
    {
        let ghost k = all.len() - rest@.len();
        let ghost rest_before = rest@;
        let item = rest.remove(0);
        proof {
            assert(rest_before[0] == all[k]);
        }
        match item.1 {
            Ok(v) => {
                unwrapped.push((item.0, v));
            },
            Err(e) => {
                proof {
                    assert(all[k].1 == Err::<T, ApiError>(e));
                }
                return Err(e);
            },
        }
    }
    proof {
        assert(unwrapped@.len() == all.len());
        let mapped = all.map_values(
            |p: (u64, Result<T, ApiError>)|
                (
                    p.0,
                    match p.1 {
                        Ok(v) => v,
                        Err(_) => arbitrary(),
                    },
                ),
        );
        assert(unwrapped@ =~= mapped);
    }
    Ok(sort_by_index(unwrapped))
}

} // verus!
