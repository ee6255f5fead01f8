//! Operations on the entity table: refreshing a rotated file reference, and
//! discarding every trace of entities whose file reference went stale.

use vstd::prelude::*;

use crate::seq_util::{lemma_filter_all, lemma_filter_pairwise, lemma_filter_push, lemma_take_full,
    lemma_take_push};
use crate::store::{assoc_same, entity_idx, find_entity_idx, has_entity, AssocRow, AssocV, EntityRow,
    EntityV, StatV, Store, StoreModel};
use crate::types::EntityStat;

verus! {

/// What refreshing a file reference does: the entity's row, if any, gets the
/// new reference; everything else is untouched. An unknown entity is a no-op.
pub open spec fn update_file_id_m(m: StoreModel, e: Seq<char>, f: Seq<char>) -> StoreModel {
    if has_entity(m.entities, e) {
        let i = entity_idx(m.entities, e);
        StoreModel { entities: m.entities.update(i, EntityV { file_id: f, ..m.entities[i] }), ..m }
    } else {
        m
    }
}

/// Does the entity with this identifier currently carry this file reference?
pub open spec fn id_has_file(entities: Seq<EntityV>, id: Seq<char>, f: Seq<char>) -> bool {
    exists|i: int|
        0 <= i < entities.len() && (#[trigger] entities[i]).entity_id == id
            && entities[i].file_id == f
}

/// What discarding a stale file reference does: every entity row carrying it
/// disappears, along with every user's associations and usage rows for those
/// entities.
pub open spec fn remove_file_id_m(m: StoreModel, f: Seq<char>) -> StoreModel {
    StoreModel {
        entities: m.entities.filter(|e: EntityV| e.file_id != f),
        assocs: m.assocs.filter(|a: AssocV| !id_has_file(m.entities, a.entity_id, f)),
        stats: m.stats.filter(|s: StatV| !id_has_file(m.entities, s.entity_id, f)),
        ..m
    }
}

/// Overwrite the file reference of one entity in place. The reference is
/// volatile: the platform reissues it, and the newest one wins.
pub fn update_file_id(store: &mut Store, entity_id: String, file_id: String)
    requires
        old(store)@.wf(),
    ensures
        final(store)@.wf(),
        final(store)@ == update_file_id_m(old(store)@, entity_id@, file_id@),
{
    let ghost e = entity_id@;
    let ghost m0 = store@;
    match find_entity_idx(&store.entities, &entity_id) {
        Some(k) => {
            proof {
                assert(m0.entities[k as int] == store.entities@[k as int]@);
                assert(m0.entities[k as int].entity_id == e);
                assert(has_entity(m0.entities, e));
                let ki = entity_idx(m0.entities, e);
                assert(0 <= ki < m0.entities.len() && m0.entities[ki].entity_id == e);
                if ki != k as int {
                    if ki < k as int {
                        assert(m0.entities[ki].entity_id != m0.entities[k as int].entity_id);
                    } else {
                        assert(m0.entities[k as int].entity_id != m0.entities[ki].entity_id);
                    }
                }
                assert(ki == k as int);
            }
            store.entities[k].file_id = file_id;
            proof {
                assert(store@.entities =~~= m0.entities.update(
                    k as int,
                    EntityV { file_id: file_id@, ..m0.entities[k as int] },
                ));
                assert(store@ =~~= update_file_id_m(m0, e, file_id@));
                assert forall|x: Seq<char>| has_entity(m0.entities, x) implies has_entity(
                    store@.entities,
                    x,
                ) by {
                    let w = choose|w: int|
                        0 <= w < m0.entities.len() && #[trigger] m0.entities[w].entity_id == x;
                    assert(store@.entities[w].entity_id == x);
                }
            }
        },
        None => {
            proof {
                assert forall|i: int|
                    0 <= i < m0.entities.len() implies (#[trigger] m0.entities[i]).entity_id
                    != e by {
                    assert(m0.entities[i] == store.entities@[i]@);
                }
                assert(!has_entity(m0.entities, e));
                assert(store@ == update_file_id_m(m0, e, file_id@));
            }
        },
    }
}

/// Does some entity row carry both this identifier and this file reference?
fn id_has_file_exec(entities: &Vec<EntityRow>, id: &String, f: &String) -> (r: bool)
    ensures
        r == id_has_file(entities@.map_values(|x: EntityRow| x@), id@, f@),
{
    let ghost ev = entities@.map_values(|x: EntityRow| x@);
    let n = entities.len();
    for i in 0..n
        invariant
            n == entities@.len(),
            ev == entities@.map_values(|x: EntityRow| x@),
            forall|j: int|
                0 <= j < i ==> !((#[trigger] ev[j]).entity_id == id@ && ev[j].file_id == f@),
    {
        if entities[i].entity_id == *id && entities[i].file_id == *f {
            proof {
                assert(ev[i as int].entity_id == id@ && ev[i as int].file_id == f@);
            }
            return true;
        }
    }
    false
}

/// Discard every entity that carries a stale file reference: its rows, every
/// user's associations to it, and every user's usage rows for it, in one
/// atomic unit.
#[verifier::loop_isolation(false)]
pub fn remove_file_id(store: &mut Store, file_id: String)
    requires
        old(store)@.wf(),
    ensures
        final(store)@.wf(),
        final(store)@ == remove_file_id_m(old(store)@, file_id@),
{
    let ghost f = file_id@;
    let ghost m0 = store@;
    let ghost pe = |e: EntityV| e.file_id != f;
    let ghost pa = |a: AssocV| !id_has_file(m0.entities, a.entity_id, f);
    let ghost ps = |s: StatV| !id_has_file(m0.entities, s.entity_id, f);
    let mut keep_e: Vec<EntityRow> = Vec::new();
    let n_e = store.entities.len();
    for i in 0..n_e
        invariant
            n_e == store.entities@.len(),
            store@ == m0,
            keep_e@.map_values(|x: EntityRow| x@) == m0.entities.take(i as int).filter(pe),
    {
        proof {
            lemma_take_push(m0.entities, i as int);
            lemma_filter_push(m0.entities.take(i as int), m0.entities[i as int], pe);
        }
        let row = &store.entities[i];
        let ghost rv = m0.entities[i as int];
        if !(row.file_id == file_id) {
            proof {
                assert(pe(rv));
            }
            keep_e.push(
                EntityRow {
                    entity_id: row.entity_id.clone(),
                    file_id: row.file_id.clone(),
                    entity_type: row.entity_type,
                },
            );
            proof {
                assert(keep_e@.map_values(|x: EntityRow| x@) =~~= m0.entities.take(
                    i as int,
                ).filter(pe).push(rv));
            }
        } else {
            proof {
                assert(!pe(rv));
            }
        }
    }
    let mut keep_a: Vec<AssocRow> = Vec::new();
    let n_a = store.assocs.len();
    for i in 0..n_a
        invariant
            n_a == store.assocs@.len(),
            store@ == m0,
            keep_a@.map_values(|x: AssocRow| x@) == m0.assocs.take(i as int).filter(pa),
    {
        proof {
            lemma_take_push(m0.assocs, i as int);
            lemma_filter_push(m0.assocs.take(i as int), m0.assocs[i as int], pa);
        }
        let gone = id_has_file_exec(&store.entities, &store.assocs[i].entity_id, &file_id);
        let a = &store.assocs[i];
        let ghost av = m0.assocs[i as int];
        if !gone {
            proof {
                assert(pa(av));
            }
            keep_a.push(
                AssocRow {
                    user_id: a.user_id.clone(),
                    entity_id: a.entity_id.clone(),
                    tag_name: a.tag_name.clone(),
                },
            );
            proof {
                assert(keep_a@.map_values(|x: AssocRow| x@) =~~= m0.assocs.take(i as int).filter(
                    pa,
                ).push(av));
            }
        } else {
            proof {
                assert(!pa(av));
            }
        }
    }
    let mut keep_s: Vec<EntityStat> = Vec::new();
    let n_s = store.stats.len();
    for i in 0..n_s
        invariant
            n_s == store.stats@.len(),
            store@ == m0,
            keep_s@.map_values(|x: EntityStat| x@) == m0.stats.take(i as int).filter(ps),
    {
        proof {
            lemma_take_push(m0.stats, i as int);
            lemma_filter_push(m0.stats.take(i as int), m0.stats[i as int], ps);
        }
        let gone = id_has_file_exec(&store.entities, &store.stats[i].entity_id, &file_id);
        let s = &store.stats[i];
        let ghost sv = m0.stats[i as int];
        if !gone {
            proof {
                assert(ps(sv));
            }
            keep_s.push(
                EntityStat {
                    user_id: s.user_id.clone(),
                    entity_id: s.entity_id.clone(),
                    count: s.count,
                    last_used: s.last_used,
                    created_at: s.created_at,
                },
            );
            proof {
                assert(keep_s@.map_values(|x: EntityStat| x@) =~~= m0.stats.take(i as int).filter(
                    ps,
                ).push(sv));
            }
        } else {
            proof {
                assert(!ps(sv));
            }
        }
    }
    store.entities = keep_e;
    store.assocs = keep_a;
    store.stats = keep_s;
    proof {
        lemma_take_full(m0.entities);
        lemma_take_full(m0.assocs);
        lemma_take_full(m0.stats);
        let m2 = remove_file_id_m(m0, f);
        assert(final(store)@ =~~= m2);
        lemma_filter_pairwise(
            m0.entities,
            pe,
            |a: EntityV, b: EntityV| a.entity_id == b.entity_id,
        );
        lemma_filter_pairwise(m0.assocs, pa, |a: AssocV, b: AssocV| assoc_same(a, b));
        lemma_filter_pairwise(
            m0.stats,
            ps,
            |a: StatV, b: StatV| a.user_id == b.user_id && a.entity_id == b.entity_id,
        );
        lemma_filter_all(
            m0.stats,
            ps,
            |s: StatV| 0 <= s.count && 0 <= s.last_used && 0 <= s.created_at,
        );
        assert forall|i: int, j: int|
            0 <= i < j < m2.entities.len() implies (#[trigger] m2.entities[i]).entity_id
            != (#[trigger] m2.entities[j]).entity_id by {
            assert(m0.entities.filter(pe)[i] == m2.entities[i]);
            assert(m0.entities.filter(pe)[j] == m2.entities[j]);
        }
        assert forall|i: int, j: int|
            0 <= i < j < m2.assocs.len() implies !assoc_same(
            #[trigger] m2.assocs[i],
            #[trigger] m2.assocs[j],
        ) by {
            assert(m0.assocs.filter(pa)[i] == m2.assocs[i]);
            assert(m0.assocs.filter(pa)[j] == m2.assocs[j]);
        }
        assert forall|k: int| 0 <= k < m2.assocs.len() implies m2.tags.contains(
            (#[trigger] m2.assocs[k]).tag_name,
        ) && has_entity(m2.entities, m2.assocs[k].entity_id) && crate::store::has_stat(
            m2.stats,
            m2.assocs[k].user_id,
            m2.assocs[k].entity_id,
        ) by {
            let fa = m0.assocs.filter(pa);
            assert(fa.contains(fa[k]));
            m0.assocs.lemma_filter_contains_rev(pa, fa[k]);
            let w = choose|w: int| 0 <= w < m0.assocs.len() && m0.assocs[w] == fa[k];
            assert(m0.tags.contains(m0.assocs[w].tag_name));
            // the entity the kept association names survives the sweep: the
            // row matching its identifier cannot carry the stale reference
            let we = choose|we: int|
                0 <= we < m0.entities.len() && #[trigger] m0.entities[we].entity_id == m0.assocs[
                    w].entity_id;
            assert(pe(m0.entities[we])) by {
                if m0.entities[we].file_id == f {
                    assert(id_has_file(m0.entities, m0.assocs[w].entity_id, f));
                }
            }
            m0.entities.lemma_filter_contains(pe, we);
            let wke = choose|wke: int|
                0 <= wke < m2.entities.len() && #[trigger] m2.entities[wke] == m0.entities[we];
            assert(m2.entities[wke].entity_id == m2.assocs[k].entity_id);
            // its usage row survives for the same reason
            let ws = choose|ws: int|
                0 <= ws < m0.stats.len() && #[trigger] m0.stats[ws].user_id == m0.assocs[w].user_id
                    && m0.stats[ws].entity_id == m0.assocs[w].entity_id;
            assert(ps(m0.stats[ws]));
            m0.stats.lemma_filter_contains(ps, ws);
            let wks = choose|wks: int|
                0 <= wks < m2.stats.len() && #[trigger] m2.stats[wks] == m0.stats[ws];
            assert(m2.stats[wks].user_id == m2.assocs[k].user_id && m2.stats[wks].entity_id
                == m2.assocs[k].entity_id);
        }
    }
}

} // verus!
