//! Operations on the association table: removing tags from entities, wiping
//! an entity's tags, and reading the tags of a user/entity pair.

use vstd::prelude::*;

use crate::seq_util::{lemma_filter_all, lemma_filter_pairwise, lemma_filter_push, lemma_take_full,
    lemma_take_push};
use crate::store::{assoc_same, AssocRow, AssocV, Store, StoreModel};

verus! {

/// Does a row fall under a `remove_tags` call?
pub open spec fn removes(
    a: AssocV,
    u: Seq<char>,
    ids: Seq<Seq<char>>,
    names: Seq<Seq<char>>,
) -> bool {
    a.user_id == u && ids.contains(a.entity_id) && names.contains(a.tag_name)
}

/// What removing tags does to the store: on an empty entity or tag list,
/// nothing (a no-op, not an error); otherwise exactly the matching
/// associations disappear. Tags and entities referenced nowhere else are left
/// intact.
pub open spec fn remove_tags_m(
    m: StoreModel,
    u: Seq<char>,
    ids: Seq<Seq<char>>,
    names: Seq<Seq<char>>,
) -> StoreModel {
    if ids.len() == 0 || names.len() == 0 {
        m
    } else {
        StoreModel { assocs: m.assocs.filter(|a: AssocV| !removes(a, u, ids, names)), ..m }
    }
}

/// What wiping one entity's tags does: every association of the pair
/// disappears; the usage row stays.
pub open spec fn wipe_tags_m(m: StoreModel, u: Seq<char>, e: Seq<char>) -> StoreModel {
    StoreModel {
        assocs: m.assocs.filter(|a: AssocV| !(a.user_id == u && a.entity_id == e)),
        ..m
    }
}

/// The tag names of one user/entity pair, in the order their associations
/// were recorded.
pub open spec fn user_entity_tags(m: StoreModel, u: Seq<char>, e: Seq<char>) -> Seq<Seq<char>> {
    m.assocs.filter(|a: AssocV| a.user_id == u && a.entity_id == e).map_values(
        |a: AssocV| a.tag_name,
    )
}

/// Is `s` one of the strings in `v`?
pub(crate) fn contains_string(v: &Vec<String>, s: &String) -> (r: bool)
    ensures
        r == v@.map_values(|t: String| t@).contains(s@),
{
    let ghost vv = v@.map_values(|t: String| t@);
    let n = v.len();
    for i in 0..n
        invariant
            n == v@.len(),
            vv == v@.map_values(|t: String| t@),
            forall|j: int| 0 <= j < i ==> #[trigger] vv[j] != s@,
    {
        if v[i] == *s {
            proof {
                assert(vv[i as int] == s@);
            }
            return true;
        }
    }
    false
}

/// Removing associations leaves the store well-formed: the kept rows are a
/// selection of the old ones, and nothing they refer to went away.
pub(crate) proof fn lemma_assoc_filter_wf(m: StoreModel, p: spec_fn(AssocV) -> bool)
    requires
        m.wf(),
    ensures
        (StoreModel { assocs: m.assocs.filter(p), ..m }).wf(),
{
    let m2 = StoreModel { assocs: m.assocs.filter(p), ..m };
    lemma_filter_pairwise(m.assocs, p, |a: AssocV, b: AssocV| assoc_same(a, b));
    lemma_filter_all(
        m.assocs,
        p,
        |a: AssocV| m.tags.contains(a.tag_name) && crate::store::has_entity(m.entities, a.entity_id)
            && crate::store::has_stat(m.stats, a.user_id, a.entity_id),
    );
    assert forall|i: int, j: int|
        0 <= i < j < m2.assocs.len() implies !assoc_same(
        #[trigger] m2.assocs[i],
        #[trigger] m2.assocs[j],
    ) by {
        assert(m.assocs.filter(p)[i] == m2.assocs[i]);
        assert(m.assocs.filter(p)[j] == m2.assocs[j]);
    }
}

/// Delete the matching associations for one user: each listed entity loses
/// each listed tag. Empty input is a successful no-op.
#[verifier::loop_isolation(false)]
pub fn remove_tags(store: &mut Store, user_id: String, entity_ids: Vec<String>, tag_names: Vec<
    String,
>)
    requires
        old(store)@.wf(),
    ensures
        final(store)@.wf(),
        final(store)@ == remove_tags_m(
            old(store)@,
            user_id@,
            entity_ids@.map_values(|s: String| s@),
            tag_names@.map_values(|s: String| s@),
        ),
{
    let ghost u = user_id@;
    let ghost ids_v = entity_ids@.map_values(|s: String| s@);
    let ghost names_v = tag_names@.map_values(|s: String| s@);
    let ghost m0 = store@;
    if entity_ids.len() == 0 || tag_names.len() == 0 {
        return ;
    }
    let ghost p = |a: AssocV| !removes(a, u, ids_v, names_v);
    let mut keep: Vec<AssocRow> = Vec::new();
    let n = store.assocs.len();
    for i in 0..n
        invariant
            n == store.assocs@.len(),
            keep@.map_values(|a: AssocRow| a@) == m0.assocs.take(i as int).filter(p),
    {
        proof {
            lemma_take_push(m0.assocs, i as int);
            lemma_filter_push(m0.assocs.take(i as int), m0.assocs[i as int], p);
        }
        let a = &store.assocs[i];
        let ghost av = m0.assocs[i as int];
        let matches_user = a.user_id == user_id;
        let matches_entity = contains_string(&entity_ids, &a.entity_id);
        let matches_tag = contains_string(&tag_names, &a.tag_name);
        if !(matches_user && matches_entity && matches_tag) {
            proof {
                assert(p(av));
            }
            keep.push(
                AssocRow {
                    user_id: a.user_id.clone(),
                    entity_id: a.entity_id.clone(),
                    tag_name: a.tag_name.clone(),
                },
            );
            proof {
                assert(keep@.map_values(|x: AssocRow| x@) =~~= m0.assocs.take(i as int).filter(
                    p,
                ).push(av));
            }
        } else {
            proof {
                assert(!p(av));
            }
        }
    }
    store.assocs = keep;
    proof {
        lemma_take_full(m0.assocs);
        lemma_assoc_filter_wf(m0, p);
        assert(final(store)@ =~~= (StoreModel { assocs: m0.assocs.filter(p), ..m0 }));
    }
}

/// Delete every association of one user/entity pair. The entity, its tags,
/// and the pair's usage row all stay.
#[verifier::loop_isolation(false)]
pub fn wipe_tags(store: &mut Store, user_id: String, entity_id: String)
    requires
        old(store)@.wf(),
    ensures
        final(store)@.wf(),
        final(store)@ == wipe_tags_m(old(store)@, user_id@, entity_id@),
{
    let ghost u = user_id@;
    let ghost e = entity_id@;
    let ghost m0 = store@;
    let ghost p = |a: AssocV| !(a.user_id == u && a.entity_id == e);
    let mut keep: Vec<AssocRow> = Vec::new();
    let n = store.assocs.len();
    for i in 0..n
        invariant
            n == store.assocs@.len(),
            keep@.map_values(|a: AssocRow| a@) == m0.assocs.take(i as int).filter(p),
    {
        proof {
            lemma_take_push(m0.assocs, i as int);
            lemma_filter_push(m0.assocs.take(i as int), m0.assocs[i as int], p);
        }
        let a = &store.assocs[i];
        let ghost av = m0.assocs[i as int];
        if !(a.user_id == user_id && a.entity_id == entity_id) {
            proof {
                assert(p(av));
            }
            keep.push(
                AssocRow {
                    user_id: a.user_id.clone(),
                    entity_id: a.entity_id.clone(),
                    tag_name: a.tag_name.clone(),
                },
            );
            proof {
                assert(keep@.map_values(|x: AssocRow| x@) =~~= m0.assocs.take(i as int).filter(
                    p,
                ).push(av));
            }
        } else {
            proof {
                assert(!p(av));
            }
        }
    }
    store.assocs = keep;
    proof {
        lemma_take_full(m0.assocs);
        lemma_assoc_filter_wf(m0, p);
        assert(final(store)@ =~~= (StoreModel { assocs: m0.assocs.filter(p), ..m0 }));
    }
}

/// The tag names of one user/entity pair. The store reports them in
/// recording order; any sort policy belongs to the caller.
#[verifier::loop_isolation(false)]
pub fn get_tags(store: &Store, user_id: String, entity_id: String) -> (r: Vec<String>)
    requires
        store@.wf(),
    ensures
        r@.map_values(|s: String| s@) == user_entity_tags(store@, user_id@, entity_id@),
{
    let ghost u = user_id@;
    let ghost e = entity_id@;
    let ghost m0 = store@;
    let ghost p = |a: AssocV| a.user_id == u && a.entity_id == e;
    let mut out: Vec<String> = Vec::new();
    let n = store.assocs.len();
    for i in 0..n
        invariant
            n == store.assocs@.len(),
            out@.map_values(|s: String| s@) == m0.assocs.take(i as int).filter(p).map_values(
                |a: AssocV| a.tag_name,
            ),
    {
        proof {
            lemma_take_push(m0.assocs, i as int);
            lemma_filter_push(m0.assocs.take(i as int), m0.assocs[i as int], p);
        }
        let a = &store.assocs[i];
        let ghost av = m0.assocs[i as int];
        if a.user_id == user_id && a.entity_id == entity_id {
            proof {
                assert(p(av));
            }
            out.push(a.tag_name.clone());
            proof {
                assert(out@.map_values(|s: String| s@) =~~= m0.assocs.take(i as int).filter(
                    p,
                ).map_values(|x: AssocV| x.tag_name).push(av.tag_name));
                assert(m0.assocs.take(i + 1).filter(p).map_values(|x: AssocV| x.tag_name)
                    =~~= m0.assocs.take(i as int).filter(p).map_values(
                    |x: AssocV| x.tag_name,
                ).push(av.tag_name));
            }
        } else {
            proof {
                assert(!p(av));
            }
        }
    }
    proof {
        lemma_take_full(m0.assocs);
    }
    out
}

} // verus!
