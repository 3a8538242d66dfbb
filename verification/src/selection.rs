//! The selection of vector objects: a set of object indices (built by
//! shift-click or by a marquee) or a single selected object.
use vstd::prelude::*;
use crate::frame::vector_views;
use crate::vector::VectorObject;

verus! {

/// Each index is smaller than the next: sorted, without repeats.
pub open spec fn strictly_increasing(s: Seq<usize>) -> bool {
    forall|i: int, j: int| 0 <= i < j < s.len() ==> s[i] < s[j]
}

/// Whether object `i` (of `n`) is selected: by the selection set when it has
/// members, else by the single selection.
pub open spec fn is_selected(set: Seq<usize>, single: Option<usize>, n: usize, i: usize) -> bool {
    &&& i < n
    &&& if set.len() > 0 {
        set.contains(i)
    } else {
        single == Some(i)
    }
}

/// Adds `e` to a sorted list without repeats, keeping it so.
fn insert_sorted(r: &mut Vec<usize>, e: usize)
    requires
        strictly_increasing(old(r)@),
    ensures
        strictly_increasing(final(r)@),
        forall|v: usize| final(r)@.contains(v) <==> old(r)@.contains(v) || v == e,
{
    let mut p: usize = 0;
    while p < r.len() && r[p] < e
        invariant
            p <= r@.len(),
            r@ == old(r)@,
            strictly_increasing(r@),
            forall|j: int| 0 <= j < p ==> r@[j] < e,
        decreases r@.len() - p,
    {
        p = p + 1;
    }
    if p < r.len() && r[p] == e {
        proof {
            assert(r@[p as int] == e);
        }
        return;
    }
    let ghost before = r@;
    r.insert(p, e);
    proof {
        before.insert_ensures(p as int, e);
        assert forall|i: int, j: int| 0 <= i < j < r@.len() implies r@[i] < r@[j] by {
            if j < p {
            } else if j == p {
                assert(r@[i] == before[i]);
            } else if i < p {
                assert(r@[j] == before[j - 1]);
                assert(before[p as int] > e);
            } else if i == p {
                assert(r@[j] == before[j - 1]);
                assert(before[p as int] > e);
                assert(before[p as int] <= before[j - 1]);
            } else {
                assert(r@[i] == before[i - 1]);
                assert(r@[j] == before[j - 1]);
            }
        }
        assert forall|v: usize| r@.contains(v) <==> before.contains(v) || v == e by {
            if r@.contains(v) {
                let i = choose|i: int| 0 <= i < r@.len() && r@[i] == v;
                if i < p {
                    assert(before[i] == v);
                } else if i > p {
                    assert(before[i - 1] == v);
                }
            }
            if before.contains(v) {
                let i = choose|i: int| 0 <= i < before.len() && before[i] == v;
                if i < p {
                    assert(r@[i] == v);
                } else {
                    assert(r@[i + 1] == v);
                }
            }
            if v == e {
                assert(r@[p as int] == e);
            }
        }
    }
}

/// The indices of the selected vector objects, sorted and without repeats:
/// those of the selection set that name one of the `n` objects or, when the
/// set is empty, the single selected object if it names one.
pub fn selected_objects(set: &Vec<usize>, single: Option<usize>, n: usize) -> (r: Vec<usize>)
    ensures
        strictly_increasing(r@),
        forall|i: usize| r@.contains(i) <==> is_selected(set@, single, n, i),
{
    let mut r: Vec<usize> = Vec::new();
    if set.len() > 0 {
        let mut k: usize = 0;
        while k < set.len()
            invariant
                k <= set@.len(),
                strictly_increasing(r@),
                forall|v: usize| r@.contains(v) <==> v < n && set@.take(k as int).contains(v),
            decreases set@.len() - k,
        {
            let e = set[k];
            let ghost prev = r@;
            if e < n {
                insert_sorted(&mut r, e);
            }
            proof {
                assert(set@.take(k + 1) =~= set@.take(k as int).push(e));
                assert forall|v: usize| r@.contains(v) <==> v < n && set@.take(k + 1).contains(v) by {
                    vstd::seq_lib::lemma_seq_contains_after_push(set@.take(k as int), e, v);
                }
            }
            k = k + 1;
        }
        proof {
            assert(set@.take(set@.len() as int) =~= set@);
        }
    } else {
        match single {
            Some(i) => {
                if i < n {
                    r.push(i);
                    proof {
                        assert forall|v: usize| r@.contains(v) <==> v == i by {
                            if v == i {
                                assert(r@[0] == i);
                            }
                        }
                    }
                }
            },
            None => {},
        }
    }
    r
}

/// The elements of `s` whose indices are not listed in `idxs`, in order.
pub open spec fn drop_indices<A>(s: Seq<A>, idxs: Seq<usize>) -> Seq<A>
    decreases s.len(),
{
    if s.len() == 0 {
        s
    } else {
        let rest = drop_indices(s.drop_last(), idxs);
        if idxs.contains((s.len() - 1) as usize) {
            rest
        } else {
            rest.push(s.last())
        }
    }
}

/// Copies the vector objects at the indices `idxs` (sorted, without repeats,
/// each naming an object) in that order; with `cut`, they also leave
/// `vectors`, the others keeping their order.
pub fn take_objects(vectors: &mut Vec<VectorObject>, idxs: &Vec<usize>, cut: bool) -> (r: Vec<VectorObject>)
    requires
        strictly_increasing(idxs@),
        forall|k: int| 0 <= k < idxs@.len() ==> idxs@[k] < old(vectors)@.len(),
    ensures
        vector_views(r@) == idxs@.map_values(|i: usize| vector_views(old(vectors)@)[i as int]),
        cut ==> vector_views(final(vectors)@) == drop_indices(vector_views(old(vectors)@), idxs@),
        !cut ==> final(vectors)@ == old(vectors)@,
{
    let ghost old_views = vector_views(vectors@);
    let mut r: Vec<VectorObject> = Vec::new();
    let mut k: usize = 0;
    while k < idxs.len()
        invariant
            k <= idxs@.len(),
            old_views == vector_views(vectors@),
            vectors@ == old(vectors)@,
            forall|j: int| 0 <= j < idxs@.len() ==> idxs@[j] < vectors@.len(),
            vector_views(r@) == idxs@.take(k as int).map_values(|i: usize| old_views[i as int]),
        decreases idxs@.len() - k,
    {
        let c = vectors[idxs[k]].clone();
        let ghost prev = r@;
        r.push(c);
        proof {
            assert(c@ == old_views[idxs@[k as int] as int]);
            assert(vector_views(r@) =~= vector_views(prev).push(c@));
            assert(idxs@.take(k + 1) =~= idxs@.take(k as int).push(idxs@[k as int]));
        }
        k = k + 1;
        proof {
            assert(vector_views(r@) =~= idxs@.take(k as int).map_values(|i: usize| old_views[i as int]));
        }
    }
    proof {
        assert(idxs@.take(idxs@.len() as int) =~= idxs@);
    }
    if !cut {
        return r;
    }
    let n = vectors.len();
    let mut kept: Vec<VectorObject> = Vec::new();
    let mut i: usize = 0;
    let mut j: usize = 0;
    while i < n
        invariant
            n == vectors@.len(),
            i <= n,
            j <= idxs@.len(),
            strictly_increasing(idxs@),
            old_views == vector_views(vectors@),
            forall|t: int| 0 <= t < j ==> idxs@[t] < i,
            vector_views(kept@) == drop_indices(old_views.take(i as int), idxs@),
        decreases n - i,
    {
        while j < idxs.len() && idxs[j] < i
            invariant
                j <= idxs@.len(),
                strictly_increasing(idxs@),
                forall|t: int| 0 <= t < j ==> idxs@[t] < i,
            decreases idxs@.len() - j,
        {
            j = j + 1;
        }
        let listed = j < idxs.len() && idxs[j] == i;
        proof {
            assert(listed == idxs@.contains(i)) by {
                if idxs@.contains(i) {
                    let t = choose|t: int| 0 <= t < idxs@.len() && idxs@[t] == i;
                    if t > j {
                        assert(idxs@[j as int] < idxs@[t]);
                    }
                }
            }
            assert(old_views.take(i + 1).drop_last() =~= old_views.take(i as int));
        }
        if !listed {
            kept.push(vectors[i].clone());
        }
        i = i + 1;
        proof {
            let t = old_views.take(i as int);
            assert(t.last() == old_views[i - 1]);
            assert(vector_views(kept@) =~= drop_indices(t, idxs@));
        }
    }
    proof {
        assert(old_views.take(n as int) =~= old_views);
    }
    *vectors = kept;
    r
}

/// Two sorted lists without repeats that hold the same indices are equal.
proof fn lemma_sorted_lists_equal(a: Seq<usize>, b: Seq<usize>)
    requires
        strictly_increasing(a),
        strictly_increasing(b),
        forall|v: usize| a.contains(v) <==> b.contains(v),
    ensures
        a == b,
    decreases a.len() + b.len(),
{
    if a.len() == 0 || b.len() == 0 {
        if a.len() > 0 {
            assert(a.contains(a[0]));
        }
        if b.len() > 0 {
            assert(b.contains(b[0]));
        }
        assert(a =~= b);
    } else {
        // The last elements are the largest of each: they agree.
        let la = a.last();
        let lb = b.last();
        assert(a.contains(la));
        assert(b.contains(lb));
        let ia = choose|i: int| 0 <= i < a.len() && a[i] == lb;
        let ib = choose|i: int| 0 <= i < b.len() && b[i] == la;
        assert(la == lb) by {
            if ia < a.len() - 1 {
                assert(a[ia] < la);
            }
            if ib < b.len() - 1 {
                assert(b[ib] < lb);
            }
        }
        let a2 = a.drop_last();
        let b2 = b.drop_last();
        assert forall|v: usize| a2.contains(v) <==> b2.contains(v) by {
            if a2.contains(v) {
                let i = choose|i: int| 0 <= i < a2.len() && a2[i] == v;
                assert(a.contains(v) && v < la);
                let k = choose|k: int| 0 <= k < b.len() && b[k] == v;
                if k == b.len() - 1 {
                    assert(v == lb);
                }
                assert(b2[k] == v);
            }
            if b2.contains(v) {
                let i = choose|i: int| 0 <= i < b2.len() && b2[i] == v;
                assert(b.contains(v) && v < lb);
                let k = choose|k: int| 0 <= k < a.len() && a[k] == v;
                if k == a.len() - 1 {
                    assert(v == la);
                }
                assert(a2[k] == v);
            }
        }
        lemma_sorted_lists_equal(a2, b2);
        assert(a =~= a2.push(la));
        assert(b =~= b2.push(lb));
    }
}

/// The selected objects depend only on which indices the selection set
/// holds: order and repeats make no difference.
pub proof fn law_selection_ignores_order(
    set1: Seq<usize>,
    set2: Seq<usize>,
    single: Option<usize>,
    n: usize,
    r1: Seq<usize>,
    r2: Seq<usize>,
)
    requires
        set1.len() > 0 <==> set2.len() > 0,
        forall|v: usize| set1.contains(v) <==> set2.contains(v),
        strictly_increasing(r1),
        forall|i: usize| r1.contains(i) <==> is_selected(set1, single, n, i),
        strictly_increasing(r2),
        forall|i: usize| r2.contains(i) <==> is_selected(set2, single, n, i),
    ensures
        r1 == r2,
{
    lemma_sorted_lists_equal(r1, r2);
}

} // verus!
