//! Small general lemmas about sequences that the rest of the crate shares.

use vstd::prelude::*;

verus! {

/// Filtering a sequence extended by one element keeps the filtered prefix and
/// appends the element exactly when it passes the predicate.
pub proof fn lemma_filter_push<A>(s: Seq<A>, x: A, p: spec_fn(A) -> bool)
    ensures
        s.push(x).filter(p) == (if p(x) {
            s.filter(p).push(x)
        } else {
            s.filter(p)
        }),
{
    reveal(Seq::filter);
    assert(s.push(x).drop_last() =~= s);
    assert(s.push(x).last() == x);
}

/// Filtering keeps any pairwise freedom the sequence had: if no two elements
/// were related by `r`, no two kept elements are.
pub proof fn lemma_filter_pairwise<A>(s: Seq<A>, p: spec_fn(A) -> bool, r: spec_fn(A, A) -> bool)
    requires
        forall|i: int, j: int| #![trigger s[i], s[j]] 0 <= i < j < s.len() ==> !r(s[i], s[j]),
    ensures
        forall|i: int, j: int|
            #![trigger s.filter(p)[i], s.filter(p)[j]]
            0 <= i < j < s.filter(p).len() ==> !r(s.filter(p)[i], s.filter(p)[j]),
    decreases s.len(),
{
    reveal(Seq::filter);
    if s.len() == 0 {
    } else {
        let t = s.drop_last();
        assert forall|i: int, j: int| #![trigger t[i], t[j]] 0 <= i < j < t.len() implies !r(
            t[i],
            t[j],
        ) by {
            assert(t[i] == s[i] && t[j] == s[j]);
        }
        lemma_filter_pairwise(t, p, r);
        let ft = t.filter(p);
        if p(s.last()) {
            assert(s.filter(p) == ft.push(s.last()));
            assert forall|i: int, j: int|
                #![trigger s.filter(p)[i], s.filter(p)[j]]
                0 <= i < j < s.filter(p).len() implies !r(s.filter(p)[i], s.filter(p)[j]) by {
                if j == s.filter(p).len() - 1 {
                    assert(ft.contains(ft[i]));
                    t.lemma_filter_contains_rev(p, ft[i]);
                    let w = choose|w: int| 0 <= w < t.len() && t[w] == ft[i];
                    assert(s[w] == ft[i]);
                    assert(!r(s[w], s.last()));
                } else {
                    assert(s.filter(p)[i] == ft[i] && s.filter(p)[j] == ft[j]);
                }
            }
        }
    }
}

/// Filtering keeps any property every element had.
pub proof fn lemma_filter_all<A>(s: Seq<A>, p: spec_fn(A) -> bool, q: spec_fn(A) -> bool)
    requires
        forall|i: int| 0 <= i < s.len() ==> q(#[trigger] s[i]),
    ensures
        forall|i: int| 0 <= i < s.filter(p).len() ==> q(#[trigger] s.filter(p)[i]),
{
    let fs = s.filter(p);
    assert forall|i: int| 0 <= i < fs.len() implies q(#[trigger] fs[i]) by {
        assert(fs.contains(fs[i]));
        s.lemma_filter_contains_rev(p, fs[i]);
        let w = choose|w: int| 0 <= w < s.len() && s[w] == fs[i];
        assert(q(s[w]));
    }
}

/// The set of elements of a sequence extended by one element.
pub proof fn lemma_to_set_push<A>(s: Seq<A>, x: A)
    ensures
        s.push(x).to_set() == s.to_set().insert(x),
{
    assert forall|a: A| s.push(x).to_set().contains(a) implies s.to_set().insert(x).contains(
        a,
    ) by {
        let i = choose|i: int| 0 <= i < s.push(x).len() && s.push(x)[i] == a;
        if i < s.len() {
            assert(s[i] == a);
        }
    }
    assert forall|a: A| s.to_set().insert(x).contains(a) implies s.push(x).to_set().contains(
        a,
    ) by {
        if s.to_set().contains(a) {
            let i = choose|i: int| 0 <= i < s.len() && s[i] == a;
            assert(s.push(x)[i] == a);
        } else {
            assert(s.push(x)[s.len() as int] == x);
        }
    }
    assert(s.push(x).to_set() =~= s.to_set().insert(x));
}

/// A sequence is its length-long prefix.
pub proof fn lemma_take_full<A>(s: Seq<A>)
    ensures
        s.take(s.len() as int) == s,
{
    assert(s.take(s.len() as int) =~= s);
}

/// Extending a prefix by one element.
pub proof fn lemma_take_push<A>(s: Seq<A>, i: int)
    requires
        0 <= i < s.len(),
    ensures
        s.take(i + 1) == s.take(i).push(s[i]),
{
    assert(s.take(i + 1) =~= s.take(i).push(s[i]));
}

} // verus!
