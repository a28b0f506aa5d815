//! Selections: a result that lists, in source order, one image of every
//! source element that passes a test, and nothing else.
use vstd::prelude::*;

verus! {

/// `out` lists `f` of every element of `src` that passes `keep`, each once, in
/// the order of `src`, and nothing else: some strictly increasing run of
/// indices of `src` picks exactly the passing elements, and `out` holds their
/// images.
pub open spec fn selects<A, B>(src: Seq<A>, out: Seq<B>, keep: spec_fn(A) -> bool, f: spec_fn(A) -> B) -> bool {
    exists|idx: Seq<int>| picked_by(src, out, keep, f, idx)
}

/// `idx` is a run of indices witnessing `selects(src, out, keep, f)`.
pub open spec fn picked_by<A, B>(
    src: Seq<A>,
    out: Seq<B>,
    keep: spec_fn(A) -> bool,
    f: spec_fn(A) -> B,
    idx: Seq<int>,
) -> bool {
    &&& idx.len() == out.len()
    &&& forall|j: int| 0 <= j < idx.len() ==> 0 <= #[trigger] idx[j] < src.len() && keep(src[idx[j]]) && out[j] == f(src[idx[j]])
    &&& forall|j: int, k: int| 0 <= j < k < idx.len() ==> #[trigger] idx[j] < #[trigger] idx[k]
    &&& forall|i: int| 0 <= i < src.len() && #[trigger] keep(src[i]) ==> exists|j: int| 0 <= j < idx.len() && idx[j] == i
}

/// Nothing is selected from nothing.
pub proof fn lemma_selects_empty<A, B>(keep: spec_fn(A) -> bool, f: spec_fn(A) -> B)
    ensures
        selects(Seq::<A>::empty(), Seq::<B>::empty(), keep, f),
{
    assert(picked_by(Seq::<A>::empty(), Seq::<B>::empty(), keep, f, Seq::<int>::empty()));
}

/// One more source element extends the selection by its image exactly when
/// it passes the test.
pub proof fn lemma_selects_push<A, B>(src: Seq<A>, out: Seq<B>, keep: spec_fn(A) -> bool, f: spec_fn(A) -> B, a: A)
    requires
        selects(src, out, keep, f),
    ensures
        keep(a) ==> selects(src.push(a), out.push(f(a)), keep, f),
        !keep(a) ==> selects(src.push(a), out, keep, f),
{
    let idx = choose|idx: Seq<int>| picked_by(src, out, keep, f, idx);
    let s2 = src.push(a);
    if keep(a) {
        let idx2 = idx.push(src.len() as int);
        let out2 = out.push(f(a));
        assert forall|j: int| 0 <= j < idx2.len() implies 0 <= #[trigger] idx2[j] < s2.len() && keep(s2[idx2[j]])
            && out2[j] == f(s2[idx2[j]]) by {
            if j < idx.len() {
                assert(idx2[j] == idx[j]);
                assert(s2[idx[j]] == src[idx[j]]);
            }
        }
        assert forall|j: int, k: int| 0 <= j < k < idx2.len() implies #[trigger] idx2[j] < #[trigger] idx2[k] by {
            if k < idx.len() {
                assert(idx2[j] == idx[j] && idx2[k] == idx[k]);
            } else {
                assert(idx2[j] == idx[j]);
            }
        }
        assert forall|i: int| 0 <= i < s2.len() && #[trigger] keep(s2[i]) implies exists|j: int| 0 <= j < idx2.len() && idx2[j] == i by {
            if i < src.len() {
                assert(s2[i] == src[i]);
                let j = choose|j: int| 0 <= j < idx.len() && idx[j] == i;
                assert(idx2[j] == i);
            } else {
                assert(idx2[idx.len() as int] == i);
            }
        }
        assert(picked_by(s2, out2, keep, f, idx2));
    } else {
        assert forall|j: int| 0 <= j < idx.len() implies 0 <= #[trigger] idx[j] < s2.len() && keep(s2[idx[j]])
            && out[j] == f(s2[idx[j]]) by {
            assert(s2[idx[j]] == src[idx[j]]);
        }
        assert forall|i: int| 0 <= i < s2.len() && #[trigger] keep(s2[i]) implies exists|j: int| 0 <= j < idx.len() && idx[j] == i by {
            if i < src.len() {
                assert(s2[i] == src[i]);
            }
        }
        assert(picked_by(s2, out, keep, f, idx));
    }
}

/// Selections from two sources, one after the other, make the selection from
/// the two sources joined.
pub proof fn lemma_selects_concat<A, B>(
    a: Seq<A>,
    x: Seq<B>,
    b: Seq<A>,
    y: Seq<B>,
    keep: spec_fn(A) -> bool,
    f: spec_fn(A) -> B,
)
    requires
        selects(a, x, keep, f),
        selects(b, y, keep, f),
    ensures
        selects(a + b, x + y, keep, f),
{
    let ia = choose|idx: Seq<int>| picked_by(a, x, keep, f, idx);
    let ib = choose|idx: Seq<int>| picked_by(b, y, keep, f, idx);
    let idx = ia + ib.map_values(|i: int| i + a.len());
    let src = a + b;
    let out = x + y;
    assert forall|j: int| 0 <= j < idx.len() implies 0 <= #[trigger] idx[j] < src.len() && keep(src[idx[j]])
        && out[j] == f(src[idx[j]]) by {
        if j < ia.len() {
            assert(idx[j] == ia[j]);
            assert(src[ia[j]] == a[ia[j]]);
        } else {
            let jb = j - ia.len();
            assert(idx[j] == ib[jb] + a.len());
            assert(src[ib[jb] + a.len()] == b[ib[jb]]);
            assert(out[j] == y[jb]);
        }
    }
    assert forall|j: int, k: int| 0 <= j < k < idx.len() implies #[trigger] idx[j] < #[trigger] idx[k] by {
        if k < ia.len() {
            assert(idx[j] == ia[j] && idx[k] == ia[k]);
        } else if j < ia.len() {
            assert(idx[j] == ia[j]);
            assert(idx[k] == ib[k - ia.len()] + a.len());
        } else {
            assert(idx[j] == ib[j - ia.len()] + a.len());
            assert(idx[k] == ib[k - ia.len()] + a.len());
        }
    }
    assert forall|i: int| 0 <= i < src.len() && #[trigger] keep(src[i]) implies exists|j: int| 0 <= j < idx.len() && idx[j] == i by {
        if i < a.len() {
            assert(src[i] == a[i]);
            let j = choose|j: int| 0 <= j < ia.len() && ia[j] == i;
            assert(idx[j] == i);
        } else {
            assert(src[i] == b[i - a.len()]);
            let j = choose|j: int| 0 <= j < ib.len() && ib[j] == i - a.len();
            assert(idx[j + ia.len()] == ib[j] + a.len());
        }
    }
    assert(picked_by(src, out, keep, f, idx));
}

} // verus!
