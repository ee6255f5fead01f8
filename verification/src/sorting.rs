//! A stable sort for search candidates. Every candidate carries its sort key
//! and its position in the candidate list; ties on the key keep list order,
//! which makes the sort a function, not merely a relation.

use vstd::prelude::*;

use crate::store::EntityOutV;
use crate::types::Entity;

verus! {

/// One search candidate: the entity, the sort key its usage row gave it, and
/// its position in the candidate list.
pub struct Cand {
    pub key: i64,
    pub idx: usize,
    pub ent: Entity,
}

/// Model of a candidate.
#[verifier::ext_equal]
pub struct CandV {
    pub key: int,
    pub idx: int,
    pub ent: EntityOutV,
}

impl View for Cand {
    type V = CandV;

    open spec fn view(&self) -> CandV {
        CandV { key: self.key as int, idx: self.idx as int, ent: self.ent@ }
    }
}

/// The strict order the sort uses: by key — ascending or descending — and by
/// list position among equal keys. On candidates with distinct positions it
/// is total.
pub open spec fn cand_lt(asc: bool, a: CandV, b: CandV) -> bool {
    if a.key != b.key {
        if asc {
            a.key < b.key
        } else {
            a.key > b.key
        }
    } else {
        a.idx < b.idx
    }
}

/// Strictly sorted under `cand_lt`.
pub open spec fn sorted_cands(asc: bool, s: Seq<CandV>) -> bool {
    forall|i: int, j: int| 0 <= i < j < s.len() ==> cand_lt(asc, s[i], s[j])
}

/// All positions distinct.
pub open spec fn distinct_idx(s: Seq<CandV>) -> bool {
    forall|i: int, j: int| 0 <= i < j < s.len() ==> (#[trigger] s[i]).idx != (#[trigger] s[j]).idx
}

/// Insert one candidate into a sorted run, before the first element it
/// precedes.
pub open spec fn insert_sorted(asc: bool, x: CandV, s: Seq<CandV>) -> Seq<CandV>
    decreases s.len(),
{
    if s.len() == 0 {
        seq![x]
    } else if cand_lt(asc, x, s[0]) {
        seq![x] + s
    } else {
        seq![s[0]] + insert_sorted(asc, x, s.drop_first())
    }
}

/// Insertion sort, processing the input left to right.
pub open spec fn sort_cands(asc: bool, s: Seq<CandV>) -> Seq<CandV>
    decreases s.len(),
{
    if s.len() == 0 {
        s
    } else {
        insert_sorted(asc, s.last(), sort_cands(asc, s.drop_last()))
    }
}

/// Inserting adds exactly the new element.
pub proof fn lemma_insert_sorted_multiset(asc: bool, x: CandV, s: Seq<CandV>)
    ensures
        insert_sorted(asc, x, s).to_multiset() == s.to_multiset().insert(x),
        insert_sorted(asc, x, s).len() == s.len() + 1,
    decreases s.len(),
{
    broadcast use vstd::seq_lib::group_to_multiset_ensures;

    if s.len() == 0 {
        assert(seq![x] =~= Seq::<CandV>::empty().push(x));
        assert(seq![x].to_multiset() =~= s.to_multiset().insert(x));
    } else if cand_lt(asc, x, s[0]) {
        assert(seq![x] + s =~= (seq![x] + s.drop_last()).push(s.last()));
        lemma_concat_multiset(seq![x], s);
    } else {
        lemma_insert_sorted_multiset(asc, x, s.drop_first());
        lemma_concat_multiset(seq![s[0]], insert_sorted(asc, x, s.drop_first()));
        lemma_concat_multiset(seq![s[0]], s.drop_first());
        assert(seq![s[0]] + s.drop_first() =~= s);
        assert((seq![s[0]] + insert_sorted(asc, x, s.drop_first())).to_multiset() =~= s.to_multiset().insert(x));
    }
}

/// The elements of a concatenation, as a multiset.
pub proof fn lemma_concat_multiset<A>(a: Seq<A>, b: Seq<A>)
    ensures
        (a + b).to_multiset() == a.to_multiset().add(b.to_multiset()),
    decreases b.len(),
{
    broadcast use vstd::seq_lib::group_to_multiset_ensures;

    if b.len() == 0 {
        assert(a + b =~= a);
        assert(a.to_multiset().add(b.to_multiset()) =~= a.to_multiset());
    } else {
        lemma_concat_multiset(a, b.drop_last());
        assert(a + b =~= (a + b.drop_last()).push(b.last()));
        assert(b =~= b.drop_last().push(b.last()));
        assert(b.drop_last().push(b.last()).to_multiset() =~= b.drop_last().to_multiset().insert(
            b.last(),
        ));
        assert((a + b.drop_last()).push(b.last()).to_multiset() =~= (a
            + b.drop_last()).to_multiset().insert(b.last()));
        assert((a + b).to_multiset() =~= a.to_multiset().add(b.to_multiset()));
    }
}

/// Sorting keeps exactly the input's elements.
pub proof fn lemma_sort_cands_multiset(asc: bool, s: Seq<CandV>)
    ensures
        sort_cands(asc, s).to_multiset() == s.to_multiset(),
        sort_cands(asc, s).len() == s.len(),
    decreases s.len(),
{
    broadcast use vstd::seq_lib::group_to_multiset_ensures;

    if s.len() > 0 {
        lemma_sort_cands_multiset(asc, s.drop_last());
        lemma_insert_sorted_multiset(asc, s.last(), sort_cands(asc, s.drop_last()));
        assert(s =~= s.drop_last().push(s.last()));
        assert(s.drop_last().push(s.last()).to_multiset() =~= s.drop_last().to_multiset().insert(
            s.last(),
        ));
        assert(sort_cands(asc, s).to_multiset() =~= s.to_multiset());
    }
}

/// Inserting into a sorted run of other positions keeps it sorted.
pub proof fn lemma_insert_sorted_sorted(asc: bool, x: CandV, s: Seq<CandV>)
    requires
        sorted_cands(asc, s),
        forall|i: int| 0 <= i < s.len() ==> (#[trigger] s[i]).idx != x.idx,
    ensures
        sorted_cands(asc, insert_sorted(asc, x, s)),
    decreases s.len(),
{
    let out = insert_sorted(asc, x, s);
    if s.len() == 0 {
    } else if cand_lt(asc, x, s[0]) {
        assert forall|i: int, j: int| 0 <= i < j < out.len() implies cand_lt(
            asc,
            out[i],
            out[j],
        ) by {
            if i == 0 {
                assert(out[j] == s[j - 1]);
                if j > 1 {
                    assert(cand_lt(asc, s[0], s[j - 1]));
                }
            } else {
                assert(out[i] == s[i - 1] && out[j] == s[j - 1]);
            }
        }
    } else {
        assert(forall|i: int, j: int|
            0 <= i < j < s.drop_first().len() ==> cand_lt(
                asc,
                #[trigger] s.drop_first()[i],
                #[trigger] s.drop_first()[j],
            ));
        lemma_insert_sorted_sorted(asc, x, s.drop_first());
        let inner = insert_sorted(asc, x, s.drop_first());
        // the head precedes everything that follows it
        assert(cand_lt(asc, s[0], x)) by {
            assert(s[0].idx != x.idx);
        }
        assert forall|j: int| 0 <= j < inner.len() implies cand_lt(asc, s[0], inner[j]) by {
            broadcast use vstd::seq_lib::group_to_multiset_ensures;

            lemma_insert_sorted_multiset(asc, x, s.drop_first());
            assert(inner.to_multiset().count(inner[j]) > 0);
            if inner[j] == x {
            } else {
                assert(s.drop_first().to_multiset().count(inner[j]) > 0);
                assert(s.drop_first().contains(inner[j]));
                let w = choose|w: int|
                    0 <= w < s.drop_first().len() && s.drop_first()[w] == inner[j];
                assert(cand_lt(asc, s[0], s[w + 1]));
            }
        }
        assert forall|i: int, j: int| 0 <= i < j < out.len() implies cand_lt(
            asc,
            out[i],
            out[j],
        ) by {
            if i > 0 {
                assert(out[i] == inner[i - 1] && out[j] == inner[j - 1]);
            } else {
                assert(out[j] == inner[j - 1]);
            }
        }
    }
}

/// Sorting a list of distinct positions yields a sorted list.
pub proof fn lemma_sort_cands_sorted(asc: bool, s: Seq<CandV>)
    requires
        distinct_idx(s),
    ensures
        sorted_cands(asc, sort_cands(asc, s)),
    decreases s.len(),
{
    broadcast use vstd::seq_lib::group_to_multiset_ensures;

    if s.len() > 0 {
        let t = s.drop_last();
        assert(distinct_idx(t)) by {
            assert(forall|i: int, j: int|
                0 <= i < j < t.len() ==> (#[trigger] t[i]).idx != (#[trigger] t[j]).idx) by {
                assert(forall|i: int| 0 <= i < t.len() ==> t[i] == s[i]);
            }
        }
        lemma_sort_cands_sorted(asc, t);
        lemma_sort_cands_multiset(asc, t);
        let st = sort_cands(asc, t);
        assert forall|i: int| 0 <= i < st.len() implies (#[trigger] st[i]).idx != s.last().idx by {
            assert(st.to_multiset().count(st[i]) > 0);
            assert(t.to_multiset().count(st[i]) > 0);
            assert(t.contains(st[i]));
            let w = choose|w: int| 0 <= w < t.len() && t[w] == st[i];
            assert(s[w].idx != s.last().idx);
        }
        lemma_insert_sorted_sorted(asc, s.last(), st);
    }
}

/// Sorting keeps membership.
pub proof fn lemma_sort_cands_contains(asc: bool, s: Seq<CandV>, x: CandV)
    ensures
        sort_cands(asc, s).contains(x) <==> s.contains(x),
{
    broadcast use vstd::seq_lib::group_to_multiset_ensures;

    lemma_sort_cands_multiset(asc, s);
    if s.contains(x) {
        assert(s.to_multiset().count(x) > 0);
        assert(sort_cands(asc, s).to_multiset().count(x) > 0);
    }
    if sort_cands(asc, s).contains(x) {
        assert(sort_cands(asc, s).to_multiset().count(x) > 0);
        assert(s.to_multiset().count(x) > 0);
    }
}

/// Where a scan found the insertion point, inserting is splicing in place.
proof fn lemma_insert_sorted_at(asc: bool, x: CandV, s: Seq<CandV>, j: int)
    requires
        0 <= j <= s.len(),
        forall|k: int| 0 <= k < j ==> !cand_lt(asc, x, #[trigger] s[k]),
        j == s.len() || cand_lt(asc, x, s[j]),
    ensures
        insert_sorted(asc, x, s) == s.subrange(0, j) + seq![x] + s.subrange(j, s.len() as int),
    decreases s.len(),
{
    if s.len() == 0 {
        assert(insert_sorted(asc, x, s) =~= s.subrange(0, j) + seq![x] + s.subrange(
            j,
            s.len() as int,
        ));
    } else if cand_lt(asc, x, s[0]) {
        assert(j == 0);
        assert(insert_sorted(asc, x, s) =~= s.subrange(0, j) + seq![x] + s.subrange(
            j,
            s.len() as int,
        ));
    } else {
        assert(j > 0);
        let t = s.drop_first();
        assert forall|k: int| 0 <= k < j - 1 implies !cand_lt(asc, x, #[trigger] t[k]) by {
            assert(t[k] == s[k + 1]);
        }
        if j - 1 < t.len() {
            assert(t[j - 1] == s[j]);
        }
        lemma_insert_sorted_at(asc, x, t, j - 1);
        assert(seq![s[0]] + (t.subrange(0, j - 1) + seq![x] + t.subrange(j - 1, t.len() as int))
            =~= s.subrange(0, j) + seq![x] + s.subrange(j, s.len() as int));
    }
}

/// Sort the candidates: by key, ascending or descending, stable on the
/// original order.
#[verifier::loop_isolation(false)]
pub fn sort_cands_exec(v: Vec<Cand>, asc: bool) -> (r: Vec<Cand>)
    ensures
        r@.map_values(|c: Cand| c@) == sort_cands(asc, v@.map_values(|c: Cand| c@)),
{
    let ghost vv = v@.map_values(|c: Cand| c@);
    let mut out: Vec<Cand> = Vec::new();
    let n = v.len();
    for i in 0..n
        invariant
            n == v@.len(),
            vv == v@.map_values(|c: Cand| c@),
            out@.map_values(|c: Cand| c@) == sort_cands(asc, vv.take(i as int)),
    {
        proof {
            crate::seq_util::lemma_take_push(vv, i as int);
            assert(vv.take(i + 1).drop_last() =~= vv.take(i as int));
        }
        let ghost sorted_prefix = out@.map_values(|c: Cand| c@);
        let x = Cand {
            key: v[i].key,
            idx: v[i].idx,
            ent: Entity {
                entity_id: v[i].ent.entity_id.clone(),
                file_id: v[i].ent.file_id.clone(),
                user_id: v[i].ent.user_id.clone(),
                entity_type: v[i].ent.entity_type,
            },
        };
        proof {
            assert(x@ =~~= vv[i as int]);
        }
        let mut j: usize = 0;
        let olen = out.len();
        while j < olen && !cand_lt_exec(&x, &out[j], asc)
            invariant
                0 <= j <= olen,
                olen == out@.len(),
                forall|k: int|
                    0 <= k < j ==> !cand_lt(asc, x@, #[trigger] sorted_prefix[k]),
            decreases olen - j,
        {
            proof {
                assert(sorted_prefix[j as int] == out@[j as int]@);
            }
            j = j + 1;
        }
        proof {
            if j < olen {
                assert(sorted_prefix[j as int] == out@[j as int]@);
                assert(cand_lt(asc, x@, sorted_prefix[j as int]));
            }
            lemma_insert_sorted_at(asc, x@, sorted_prefix, j as int);
        }
        out.insert(j, x);
        proof {
            assert(out@.map_values(|c: Cand| c@) =~~= sorted_prefix.subrange(0, j as int)
                + seq![vv[i as int]] + sorted_prefix.subrange(
                j as int,
                sorted_prefix.len() as int,
            ));
            assert(out@.map_values(|c: Cand| c@) =~~= sort_cands(asc, vv.take(i + 1)));
        }
    }
    proof {
        crate::seq_util::lemma_take_full(vv);
    }
    out
}

/// Does `a` come strictly before `b`?
fn cand_lt_exec(a: &Cand, b: &Cand, asc: bool) -> (r: bool)
    ensures
        r == cand_lt(asc, a@, b@),
{
    if a.key != b.key {
        if asc {
            a.key < b.key
        } else {
            a.key > b.key
        }
    } else {
        a.idx < b.idx
    }
}

} // verus!
