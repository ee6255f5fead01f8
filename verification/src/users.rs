//! Per-user operations: wiping a user's data and the repair-cooldown
//! bookkeeping.

use vstd::prelude::*;

use crate::seq_util::{lemma_filter_pairwise, lemma_take_full, lemma_take_push, lemma_filter_push};
use crate::store::{assoc_same, has_user, user_idx, AssocRow, AssocV, StatV, Store, StoreModel,
    UserRow, UserV};
use crate::types::EntityStat;

verus! {

/// What wiping a user does to the store: all of that user's associations,
/// usage rows and bookkeeping disappear; tags and entities themselves stay —
/// other users may refer to them.
pub open spec fn wipe_user_m(m: StoreModel, u: Seq<char>) -> StoreModel {
    StoreModel {
        assocs: m.assocs.filter(|a: AssocV| a.user_id != u),
        stats: m.stats.filter(|s: StatV| s.user_id != u),
        users: m.users.filter(|r: UserV| r.user_id != u),
        ..m
    }
}

/// The last time this user ran a repair, or zero if never recorded.
pub open spec fn last_fix_time_of(m: StoreModel, u: Seq<char>) -> int {
    if has_user(m.users, u) {
        m.users[user_idx(m.users, u)].last_fixed_time
    } else {
        0
    }
}

/// What recording a repair time does: the user's bookkeeping row is created
/// or overwritten.
pub open spec fn set_fix_time_m(m: StoreModel, u: Seq<char>, t: int) -> StoreModel {
    if has_user(m.users, u) {
        StoreModel {
            users: m.users.update(
                user_idx(m.users, u),
                UserV { user_id: u, last_fixed_time: t },
            ),
            ..m
        }
    } else {
        StoreModel { users: m.users.push(UserV { user_id: u, last_fixed_time: t }), ..m }
    }
}

/// After a user is wiped, every read for that user comes back empty: no
/// entity carries tags, no search returns anything on any page, every usage
/// read is the zero-valued record, and no repair time is on file.
pub proof fn lemma_wipe_user_clears(
    m: StoreModel,
    u: Seq<char>,
    e: Seq<char>,
    q: crate::search::QueryV,
    page: int,
)
    requires
        m.wf(),
        page >= 0,
    ensures
        crate::assoc::user_entity_tags(wipe_user_m(m, u), u, e) == Seq::<Seq<char>>::empty(),
        crate::usage::usage_of(wipe_user_m(m, u), u, e) == (StatV {
            user_id: u,
            entity_id: e,
            count: 0,
            last_used: 0,
            created_at: 0,
        }),
        crate::search::candidates(wipe_user_m(m, u), u, q) == Seq::<crate::store::EntityV>::empty(),
        crate::search::find_result(wipe_user_m(m, u), u, q, page) == Seq::<
            crate::store::EntityOutV,
        >::empty(),
        last_fix_time_of(wipe_user_m(m, u), u) == 0,
{
    let m2 = wipe_user_m(m, u);
    let pa = |a: AssocV| a.user_id != u;
    let ps = |s: StatV| s.user_id != u;
    let pu = |r: UserV| r.user_id != u;
    assert forall|i: int| 0 <= i < m2.assocs.len() implies pa(#[trigger] m2.assocs[i]) by {
        m.assocs.lemma_filter_pred(pa, i);
    }
    assert forall|i: int| 0 <= i < m2.stats.len() implies ps(#[trigger] m2.stats[i]) by {
        m.stats.lemma_filter_pred(ps, i);
    }
    assert forall|i: int| 0 <= i < m2.users.len() implies pu(#[trigger] m2.users[i]) by {
        m.users.lemma_filter_pred(pu, i);
    }
    // no association of the user survives, so the pair reads no tags
    let pt = |a: AssocV| a.user_id == u && a.entity_id == e;
    assert(forall|i: int| 0 <= i < m2.assocs.len() ==> !pt(#[trigger] m2.assocs[i]));
    m2.assocs.lemma_all_neg_filter_empty(pt);
    assert(m2.assocs.filter(pt).map_values(|a: AssocV| a.tag_name) =~= Seq::<Seq<char>>::empty());
    // no usage row of the user survives, so the read is the zero record
    assert(!crate::store::has_stat(m2.stats, u, e)) by {
        if crate::store::has_stat(m2.stats, u, e) {
            let w = choose|w: int|
                0 <= w < m2.stats.len() && #[trigger] m2.stats[w].user_id == u
                    && m2.stats[w].entity_id == e;
            assert(!ps(m2.stats[w]));
        }
    }
    // no entity is a candidate: the user has no associations left
    let pred = |x: crate::store::EntityV| crate::search::entity_selected(m2, u, q, x);
    assert forall|i: int| 0 <= i < m2.entities.len() implies !pred(#[trigger] m2.entities[i]) by {
        if crate::search::user_has_entity(m2.assocs, u, m2.entities[i].entity_id) {
            let w = choose|w: int|
                0 <= w < m2.assocs.len() && (#[trigger] m2.assocs[w]).user_id == u
                    && m2.assocs[w].entity_id == m2.entities[i].entity_id;
            assert(!pa(m2.assocs[w]));
        }
    }
    m2.entities.lemma_all_neg_filter_empty(pred);
    // so every page of every search is empty
    crate::sorting::lemma_sort_cands_multiset(
        crate::search::sort_asc(q.sort),
        crate::search::cand_seq(m2, u, q),
    );
    assert(crate::search::search_order(m2, u, q).len() == 0);
    assert(crate::search::find_result(m2, u, q, page) =~= Seq::<crate::store::EntityOutV>::empty());
    // no bookkeeping row of the user survives
    assert(!has_user(m2.users, u)) by {
        if has_user(m2.users, u) {
            let w = choose|w: int| 0 <= w < m2.users.len() && (#[trigger] m2.users[w]).user_id == u;
            assert(!pu(m2.users[w]));
        }
    }
}

/// Find the bookkeeping row of a user.
pub(crate) fn find_user_idx(users: &Vec<UserRow>, u: &String) -> (r: Option<usize>)
    ensures
        match r {
            Some(i) => i < users@.len() && users@[i as int].user_id@ == u@,
            None => forall|j: int|
                0 <= j < users@.len() ==> (#[trigger] users@[j]).user_id@ != u@,
        },
{
    let n = users.len();
    for i in 0..n
        invariant
            n == users@.len(),
            forall|j: int| 0 <= j < i ==> (#[trigger] users@[j]).user_id@ != u@,
    {
        if users[i].user_id == *u {
            return Some(i);
        }
    }
    None
}

/// Delete every association, usage row and bookkeeping row of one user,
/// atomically. Tags and entities are never deleted here.
#[verifier::loop_isolation(false)]
pub fn wipe_user(store: &mut Store, user_id: String)
    requires
        old(store)@.wf(),
    ensures
        final(store)@.wf(),
        final(store)@ == wipe_user_m(old(store)@, user_id@),
{
    let ghost u = user_id@;
    let ghost m0 = store@;
    let ghost pa = |a: AssocV| a.user_id != u;
    let ghost ps = |s: StatV| s.user_id != u;
    let ghost pu = |r: UserV| r.user_id != u;
    // associations
    let mut keep_a: Vec<AssocRow> = Vec::new();
    let n_a = store.assocs.len();
    for i in 0..n_a
        invariant
            n_a == store.assocs@.len(),
            store@ == m0,
            keep_a@.map_values(|a: AssocRow| a@) == m0.assocs.take(i as int).filter(pa),
    {
        proof {
            lemma_take_push(m0.assocs, i as int);
            lemma_filter_push(m0.assocs.take(i as int), m0.assocs[i as int], pa);
        }
        let a = &store.assocs[i];
        let ghost av = m0.assocs[i as int];
        if !(a.user_id == user_id) {
            proof {
                assert(pa(av));
            }
            keep_a.push(
                AssocRow {
                    user_id: a.user_id.clone(),
                    entity_id: a.entity_id.clone(),
                    tag_name: a.tag_name.clone(),
                },
            );
            proof {
                assert(keep_a@.map_values(|x: AssocRow| x@) =~~= m0.assocs.take(i as int).filter(
                    pa,
                ).push(av));
            }
        } else {
            proof {
                assert(!pa(av));
            }
        }
    }
    // usage rows
    let mut keep_s: Vec<EntityStat> = Vec::new();
    let n_s = store.stats.len();
    for i in 0..n_s
        invariant
            n_s == store.stats@.len(),
            store@ == m0,
            keep_s@.map_values(|s: EntityStat| s@) == m0.stats.take(i as int).filter(ps),
    {
        proof {
            lemma_take_push(m0.stats, i as int);
            lemma_filter_push(m0.stats.take(i as int), m0.stats[i as int], ps);
        }
        let s = &store.stats[i];
        let ghost sv = m0.stats[i as int];
        if !(s.user_id == user_id) {
            proof {
                assert(ps(sv));
            }
            keep_s.push(
                EntityStat {
                    user_id: s.user_id.clone(),
                    entity_id: s.entity_id.clone(),
                    count: s.count,
                    last_used: s.last_used,
                    created_at: s.created_at,
                },
            );
            proof {
                assert(keep_s@.map_values(|x: EntityStat| x@) =~~= m0.stats.take(i as int).filter(
                    ps,
                ).push(sv));
            }
        } else {
            proof {
                assert(!ps(sv));
            }
        }
    }
    // bookkeeping rows
    let mut keep_u: Vec<UserRow> = Vec::new();
    let n_u = store.users.len();
    for i in 0..n_u
        invariant
            n_u == store.users@.len(),
            store@ == m0,
            keep_u@.map_values(|r: UserRow| r@) == m0.users.take(i as int).filter(pu),
    {
        proof {
            lemma_take_push(m0.users, i as int);
            lemma_filter_push(m0.users.take(i as int), m0.users[i as int], pu);
        }
        let r = &store.users[i];
        let ghost rv = m0.users[i as int];
        if !(r.user_id == user_id) {
            proof {
                assert(pu(rv));
            }
            keep_u.push(UserRow { user_id: r.user_id.clone(), last_fixed_time: r.last_fixed_time });
            proof {
                assert(keep_u@.map_values(|x: UserRow| x@) =~~= m0.users.take(i as int).filter(
                    pu,
                ).push(rv));
            }
        } else {
            proof {
                assert(!pu(rv));
            }
        }
    }
    store.assocs = keep_a;
    store.stats = keep_s;
    store.users = keep_u;
    proof {
        lemma_take_full(m0.assocs);
        lemma_take_full(m0.stats);
        lemma_take_full(m0.users);
        let m2 = wipe_user_m(m0, u);
        assert(final(store)@ =~~= m2);
        lemma_filter_pairwise(m0.assocs, pa, |a: AssocV, b: AssocV| assoc_same(a, b));
        lemma_filter_pairwise(
            m0.stats,
            ps,
            |a: StatV, b: StatV| a.user_id == b.user_id && a.entity_id == b.entity_id,
        );
        lemma_filter_pairwise(m0.users, pu, |a: UserV, b: UserV| a.user_id == b.user_id);
        crate::seq_util::lemma_filter_all(
            m0.stats,
            ps,
            |s: StatV| 0 <= s.count && 0 <= s.last_used && 0 <= s.created_at,
        );
        crate::seq_util::lemma_filter_all(m0.users, pu, |r: UserV| 0 <= r.last_fixed_time);
        assert forall|i: int, j: int|
            0 <= i < j < m2.assocs.len() implies !assoc_same(
            #[trigger] m2.assocs[i],
            #[trigger] m2.assocs[j],
        ) by {
            assert(m0.assocs.filter(pa)[i] == m2.assocs[i]);
            assert(m0.assocs.filter(pa)[j] == m2.assocs[j]);
        }
        assert forall|k: int| 0 <= k < m2.assocs.len() implies m2.tags.contains(
            (#[trigger] m2.assocs[k]).tag_name,
        ) && crate::store::has_entity(m2.entities, m2.assocs[k].entity_id) && crate::store::has_stat(
            m2.stats,
            m2.assocs[k].user_id,
            m2.assocs[k].entity_id,
        ) by {
            let fa = m0.assocs.filter(pa);
            assert(fa.contains(fa[k]));
            m0.assocs.lemma_filter_contains_rev(pa, fa[k]);
            let w = choose|w: int| 0 <= w < m0.assocs.len() && m0.assocs[w] == fa[k];
            assert(m0.tags.contains(m0.assocs[w].tag_name));
            assert(crate::store::has_entity(m0.entities, m0.assocs[w].entity_id));
            assert(crate::store::has_stat(m0.stats, m0.assocs[w].user_id, m0.assocs[w].entity_id));
            let ws = choose|ws: int|
                0 <= ws < m0.stats.len() && #[trigger] m0.stats[ws].user_id == m0.assocs[w].user_id
                    && m0.stats[ws].entity_id == m0.assocs[w].entity_id;
            assert(ps(m0.stats[ws]));
            m0.stats.lemma_filter_contains(ps, ws);
            let wk = choose|wk: int|
                0 <= wk < m2.stats.len() && #[trigger] m2.stats[wk] == m0.stats[ws];
            assert(m2.stats[wk].user_id == m2.assocs[k].user_id && m2.stats[wk].entity_id
                == m2.assocs[k].entity_id);
        }
    }
}

/// Read the last repair time recorded for a user; zero when none was.
pub fn get_last_fix_time(store: &Store, user_id: String) -> (r: i64)
    requires
        store@.wf(),
    ensures
        r as int == last_fix_time_of(store@, user_id@),
{
    let ghost u = user_id@;
    let ghost m0 = store@;
    match find_user_idx(&store.users, &user_id) {
        Some(k) => {
            proof {
                assert(m0.users[k as int] == store.users@[k as int]@);
                assert(m0.users[k as int].user_id == u);
                assert(has_user(m0.users, u));
                let ki = user_idx(m0.users, u);
                assert(0 <= ki < m0.users.len() && m0.users[ki].user_id == u);
                if ki != k as int {
                    if ki < k as int {
                        assert(m0.users[ki].user_id != m0.users[k as int].user_id);
                    } else {
                        assert(m0.users[k as int].user_id != m0.users[ki].user_id);
                    }
                }
            }
            store.users[k].last_fixed_time
        },
        None => {
            proof {
                assert forall|i: int|
                    0 <= i < m0.users.len() implies (#[trigger] m0.users[i]).user_id != u by {
                    assert(m0.users[i] == store.users@[i]@);
                }
                assert(!has_user(m0.users, u));
            }
            0
        },
    }
}

/// Record the time of a user's repair run, creating or overwriting the
/// bookkeeping row.
pub fn set_last_fix_time(store: &mut Store, user_id: String, time: i64)
    requires
        old(store)@.wf(),
        time >= 0,
    ensures
        final(store)@.wf(),
        final(store)@ == set_fix_time_m(old(store)@, user_id@, time as int),
{
    let ghost u = user_id@;
    let ghost m0 = store@;
    match find_user_idx(&store.users, &user_id) {
        Some(k) => {
            proof {
                assert(m0.users[k as int] == store.users@[k as int]@);
                assert(m0.users[k as int].user_id == u);
                assert(has_user(m0.users, u));
                let ki = user_idx(m0.users, u);
                assert(0 <= ki < m0.users.len() && m0.users[ki].user_id == u);
                if ki != k as int {
                    if ki < k as int {
                        assert(m0.users[ki].user_id != m0.users[k as int].user_id);
                    } else {
                        assert(m0.users[k as int].user_id != m0.users[ki].user_id);
                    }
                }
                assert(ki == k as int);
            }
            store.users[k].last_fixed_time = time;
            proof {
                assert(store@.users =~~= m0.users.update(
                    k as int,
                    UserV { user_id: u, last_fixed_time: time as int },
                ));
                assert(store@ =~~= set_fix_time_m(m0, u, time as int));
            }
        },
        None => {
            proof {
                assert forall|i: int|
                    0 <= i < m0.users.len() implies (#[trigger] m0.users[i]).user_id != u by {
                    assert(m0.users[i] == store.users@[i]@);
                }
                assert(!has_user(m0.users, u));
            }
            store.users.push(UserRow { user_id: user_id.clone(), last_fixed_time: time });
            proof {
                assert(store@.users =~~= m0.users.push(
                    UserV { user_id: u, last_fixed_time: time as int },
                ));
                assert(store@ =~~= set_fix_time_m(m0, u, time as int));
            }
        },
    }
}

} // verus!
