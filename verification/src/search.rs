//! The query engine: multi-tag prefix search over a user's associations,
//! with inclusion, exclusion, a media-kind filter, a closed set of sort
//! modes, and fixed-size pagination.
//!
//! The matching rule counts, per candidate entity, the distinct filter tags
//! satisfied: a positive filter admits an entity only when every supplied
//! tag has at least one case-insensitive prefix match among the entity's
//! tags; a negative filter excludes an entity only when every supplied tag
//! has such a match — a partial negative match does not exclude.

use vstd::prelude::*;

use crate::sorting::{sort_cands, sort_cands_exec, Cand, CandV, distinct_idx};
use crate::store::{find_stat_idx, has_stat, stat_idx, AssocRow, AssocV, EntityOutV, EntityRow,
    EntityV, Store, StoreModel};
use crate::text::tag_matches;
use crate::types::{Entity, EntitySort, EntityType, InlineSearchQuery};
use crate::usage::usage_of;

verus! {

/// Model of a search request.
#[verifier::ext_equal]
pub struct QueryV {
    pub tags: Seq<Seq<char>>,
    pub negative_tags: Seq<Seq<char>>,
    pub sort: EntitySort,
    pub entity_type: Option<EntityType>,
    pub get_all: bool,
}

impl View for InlineSearchQuery {
    type V = QueryV;

    open spec fn view(&self) -> QueryV {
        QueryV {
            tags: self.tags@.map_values(|s: String| s@),
            negative_tags: self.negative_tags@.map_values(|s: String| s@),
            sort: self.sort,
            entity_type: self.entity_type,
            get_all: self.get_all,
        }
    }
}

/// The user has tagged this entity at least once.
pub open spec fn user_has_entity(assocs: Seq<AssocV>, u: Seq<char>, e: Seq<char>) -> bool {
    exists|i: int|
        0 <= i < assocs.len() && (#[trigger] assocs[i]).user_id == u && assocs[i].entity_id == e
}

/// Some tag of the pair matches the filter by case-insensitive prefix.
pub open spec fn entity_tag_match(
    assocs: Seq<AssocV>,
    u: Seq<char>,
    e: Seq<char>,
    filter: Seq<char>,
) -> bool {
    exists|i: int|
        0 <= i < assocs.len() && (#[trigger] assocs[i]).user_id == u && assocs[i].entity_id == e
            && tag_matches(filter, assocs[i].tag_name)
}

/// Every distinct filter tag is satisfied: the AND-of-ORs the search builds.
pub open spec fn matches_set(
    assocs: Seq<AssocV>,
    u: Seq<char>,
    e: Seq<char>,
    filters: Seq<Seq<char>>,
) -> bool {
    forall|k: int| 0 <= k < filters.len() ==> entity_tag_match(assocs, u, e, #[trigger] filters[k])
}

/// A negative set excludes only when it is fully satisfied.
pub open spec fn excluded_negative(
    assocs: Seq<AssocV>,
    u: Seq<char>,
    e: Seq<char>,
    negs: Seq<Seq<char>>,
) -> bool {
    negs.len() > 0 && matches_set(assocs, u, e, negs)
}

/// The optional media-kind filter.
pub open spec fn passes_type(e: EntityV, t: Option<EntityType>) -> bool {
    match t {
        Option::None => true,
        Option::Some(tt) => e.entity_type == tt,
    }
}

/// Does the query select this entity for this user?
pub open spec fn entity_selected(m: StoreModel, u: Seq<char>, q: QueryV, e: EntityV) -> bool {
    &&& user_has_entity(m.assocs, u, e.entity_id)
    &&& passes_type(e, q.entity_type)
    &&& (q.get_all || (matches_set(m.assocs, u, e.entity_id, q.tags) && !excluded_negative(
        m.assocs,
        u,
        e.entity_id,
        q.negative_tags,
    )))
}

/// The selected entities, in store order.
pub open spec fn candidates(m: StoreModel, u: Seq<char>, q: QueryV) -> Seq<EntityV> {
    m.entities.filter(|e: EntityV| entity_selected(m, u, q, e))
}

/// The sort key an entity's usage row yields under each mode. The random
/// mode has no meaningful key: its order is not specified.
pub open spec fn sort_key_of(m: StoreModel, u: Seq<char>, sort: EntitySort, e: Seq<char>) -> int {
    let st = usage_of(m, u, e);
    match sort {
        EntitySort::MostUsed => st.count,
        EntitySort::LeastUsed => st.count,
        EntitySort::LastAdded => st.created_at,
        EntitySort::FirstAdded => st.created_at,
        EntitySort::LastUsed => st.last_used,
        EntitySort::FirstUsed => st.last_used,
        EntitySort::Random => 0,
    }
}

/// Whether a mode sorts its key ascending.
pub open spec fn sort_asc(sort: EntitySort) -> bool {
    match sort {
        EntitySort::FirstAdded => true,
        EntitySort::FirstUsed => true,
        EntitySort::LeastUsed => true,
        _ => false,
    }
}

/// A result row: the entity, decorated with the user the query ran for.
pub open spec fn decorate(e: EntityV, u: Seq<char>) -> EntityOutV {
    EntityOutV {
        entity_id: e.entity_id,
        file_id: e.file_id,
        user_id: u,
        entity_type: e.entity_type,
    }
}

/// The candidate list with keys and positions attached.
pub open spec fn cand_seq(m: StoreModel, u: Seq<char>, q: QueryV) -> Seq<CandV> {
    Seq::new(
        candidates(m, u, q).len(),
        |i: int|
            CandV {
                key: sort_key_of(m, u, q.sort, candidates(m, u, q)[i].entity_id),
                idx: i,
                ent: decorate(candidates(m, u, q)[i], u),
            },
    )
}

/// The full ordered result list, before pagination.
pub open spec fn search_order(m: StoreModel, u: Seq<char>, q: QueryV) -> Seq<EntityOutV> {
    sort_cands(sort_asc(q.sort), cand_seq(m, u, q)).map_values(|c: CandV| c.ent)
}

/// How many rows a page holds: fifty, or what is left, or none at all.
pub open spec fn page_len(total: int, page: int) -> int {
    if 50 * page >= total {
        0
    } else if 50 * page + 50 <= total {
        50
    } else {
        total - 50 * page
    }
}

/// One page of a result list.
pub open spec fn page_of(s: Seq<EntityOutV>, page: int) -> Seq<EntityOutV> {
    let start = if 50 * page <= s.len() {
        50 * page
    } else {
        s.len() as int
    };
    let end = if 50 * page + 50 <= s.len() {
        50 * page + 50
    } else {
        s.len() as int
    };
    s.subrange(start, end)
}

/// What a search returns: nothing for an empty positive set outside the
/// list-all mode — a deliberate no-match policy, not an error — and one page
/// of the ordered result list otherwise.
pub open spec fn find_result(m: StoreModel, u: Seq<char>, q: QueryV, page: int) -> Seq<
    EntityOutV,
> {
    if !q.get_all && q.tags.len() == 0 {
        Seq::empty()
    } else {
        page_of(search_order(m, u, q), page)
    }
}

/// The user has tagged this entity at least once — executable.
pub(crate) fn user_has_entity_exec(assocs: &Vec<AssocRow>, u: &String, e: &String) -> (r: bool)
    ensures
        r == user_has_entity(assocs@.map_values(|a: AssocRow| a@), u@, e@),
{
    let ghost av = assocs@.map_values(|a: AssocRow| a@);
    let n = assocs.len();
    for i in 0..n
        invariant
            n == assocs@.len(),
            av == assocs@.map_values(|a: AssocRow| a@),
            forall|j: int|
                0 <= j < i ==> !((#[trigger] av[j]).user_id == u@ && av[j].entity_id == e@),
    {
        if assocs[i].user_id == *u && assocs[i].entity_id == *e {
            proof {
                assert(av[i as int].user_id == u@ && av[i as int].entity_id == e@);
            }
            return true;
        }
    }
    false
}

/// Some tag of the pair matches the filter — executable.
fn entity_tag_match_exec(assocs: &Vec<AssocRow>, u: &String, e: &String, filter: &String) -> (r:
    bool)
    ensures
        r == entity_tag_match(assocs@.map_values(|a: AssocRow| a@), u@, e@, filter@),
{
    let ghost av = assocs@.map_values(|a: AssocRow| a@);
    let n = assocs.len();
    for i in 0..n
        invariant
            n == assocs@.len(),
            av == assocs@.map_values(|a: AssocRow| a@),
            forall|j: int|
                0 <= j < i ==> !((#[trigger] av[j]).user_id == u@ && av[j].entity_id == e@
                    && tag_matches(filter@, av[j].tag_name)),
    {
        if assocs[i].user_id == *u && assocs[i].entity_id == *e {
            if crate::text::tag_matches_exec(filter.as_str(), assocs[i].tag_name.as_str()) {
                proof {
                    assert(av[i as int].user_id == u@ && av[i as int].entity_id == e@
                        && tag_matches(filter@, av[i as int].tag_name));
                }
                return true;
            }
        }
        proof {
            assert(av[i as int] == assocs@[i as int]@);
        }
    }
    false
}

/// Every filter tag is satisfied — executable.
fn matches_set_exec(assocs: &Vec<AssocRow>, u: &String, e: &String, filters: &Vec<String>) -> (r:
    bool)
    ensures
        r == matches_set(
            assocs@.map_values(|a: AssocRow| a@),
            u@,
            e@,
            filters@.map_values(|s: String| s@),
        ),
{
    let ghost av = assocs@.map_values(|a: AssocRow| a@);
    let ghost fv = filters@.map_values(|s: String| s@);
    let n = filters.len();
    for k in 0..n
        invariant
            n == filters@.len(),
            av == assocs@.map_values(|a: AssocRow| a@),
            fv == filters@.map_values(|s: String| s@),
            forall|l: int| 0 <= l < k ==> entity_tag_match(av, u@, e@, #[trigger] fv[l]),
    {
        if !entity_tag_match_exec(assocs, u, e, &filters[k]) {
            proof {
                assert(!entity_tag_match(av, u@, e@, fv[k as int]));
            }
            return false;
        }
    }
    true
}

/// Does the query select this entity — executable.
fn selected_exec(store: &Store, user_id: &String, query: &InlineSearchQuery, row: &EntityRow) -> (r:
    bool)
    ensures
        r == entity_selected(store@, user_id@, query@, row@),
{
    let has = user_has_entity_exec(&store.assocs, user_id, &row.entity_id);
    let type_ok = match query.entity_type {
        Option::None => true,
        Option::Some(t) => row.entity_type == t,
    };
    if !(has && type_ok) {
        return false;
    }
    if query.get_all {
        return true;
    }
    let pos_ok = matches_set_exec(&store.assocs, user_id, &row.entity_id, &query.tags);
    if !pos_ok {
        return false;
    }
    let neg_hit = query.negative_tags.len() > 0 && matches_set_exec(
        &store.assocs,
        user_id,
        &row.entity_id,
        &query.negative_tags,
    );
    !neg_hit
}

/// Run a search for one user: scope to the user, apply the tag filters and
/// the media-kind filter, order by the requested mode, and return the
/// requested fifty-row page. A page past the end of the results is an empty
/// list, never an error. Under the random mode only the order is left
/// unspecified: the page is still full-sized where enough results exist,
/// and its rows come from pairwise distinct matching entities — no
/// candidate is repeated and none is invented.
#[verifier::loop_isolation(false)]
#[verifier::rlimit(100)]
pub fn find_entities(store: &Store, user_id: String, query: InlineSearchQuery, page: i32) -> (r:
    Vec<Entity>)
    requires
        store@.wf(),
        page >= 0,
    ensures
        query@.sort != EntitySort::Random ==> r@.map_values(|e: Entity| e@) == find_result(
            store@,
            user_id@,
            query@,
            page as int,
        ),
        r@.len() == (if !query@.get_all && query@.tags.len() == 0 {
            0int
        } else {
            page_len(candidates(store@, user_id@, query@).len() as int, page as int)
        }),
        exists|ws: Seq<int>|
            ws.len() == r@.len() && ws.no_duplicates() && (forall|l: int|
                0 <= l < ws.len() ==> 0 <= #[trigger] ws[l] < candidates(
                    store@,
                    user_id@,
                    query@,
                ).len() && r@[l]@ == decorate(
                    candidates(store@, user_id@, query@)[ws[l]],
                    user_id@,
                )),
{
    let ghost m = store@;
    let ghost u = user_id@;
    let ghost qv = query@;
    if !query.get_all && query.tags.len() == 0 {
        let r: Vec<Entity> = Vec::new();
        proof {
            let ws = Seq::<int>::empty();
            assert(ws.len() == r@.len() && ws.no_duplicates());
        }
        return r;
    }
    let ghost pred = |e: EntityV| entity_selected(m, u, qv, e);
    let is_random = query.sort == EntitySort::Random;
    let seed: u64 = if is_random {
        crate::util::get_unix() as u64
    } else {
        0
    };
    let mut cands: Vec<Cand> = Vec::new();
    let n = store.entities.len();
    for i in 0..n
        invariant
            cands@.len() == m.entities.take(i as int).filter(pred).len(),
            forall|k: int| 0 <= k < cands@.len() ==> (#[trigger] cands@[k])@.idx == k,
            forall|k: int|
                0 <= k < cands@.len() ==> (#[trigger] cands@[k])@.ent == decorate(
                    m.entities.take(i as int).filter(pred)[k],
                    u,
                ),
            !is_random ==> forall|k: int|
                0 <= k < cands@.len() ==> (#[trigger] cands@[k])@.key == sort_key_of(
                    m,
                    u,
                    qv.sort,
                    m.entities.take(i as int).filter(pred)[k].entity_id,
                ),
    {
        proof {
            crate::seq_util::lemma_take_push(m.entities, i as int);
            crate::seq_util::lemma_filter_push(
                m.entities.take(i as int),
                m.entities[i as int],
                pred,
            );
            assert(m.entities[i as int] == store.entities@[i as int]@);
        }
        let row = &store.entities[i];
        let ghost rv = m.entities[i as int];
        let selected = selected_exec(store, &user_id, &query, row);
        if selected {
            let key: i64 = if is_random {
                let mixed = ((cands.len() as u64 % 65536) * 2654435761) ^ seed;
                (mixed & 0x7fffffff) as i64
            } else {
                match find_stat_idx(&store.stats, &user_id, &row.entity_id) {
                    Option::Some(k) => {
                        proof {
                            assert(m.stats[k as int] == store.stats@[k as int]@);
                            assert(m.stats[k as int].user_id == u && m.stats[k as int].entity_id
                                == rv.entity_id);
                            assert(has_stat(m.stats, u, rv.entity_id));
                            let ki = stat_idx(m.stats, u, rv.entity_id);
                            assert(0 <= ki < m.stats.len() && m.stats[ki].user_id == u
                                && m.stats[ki].entity_id == rv.entity_id);
                            if ki != k as int {
                                if ki < k as int {
                                    assert(!(m.stats[ki].user_id == m.stats[k as int].user_id
                                        && m.stats[ki].entity_id == m.stats[k as int].entity_id));
                                } else {
                                    assert(!(m.stats[k as int].user_id == m.stats[ki].user_id
                                        && m.stats[k as int].entity_id == m.stats[ki].entity_id));
                                }
                            }
                            assert(ki == k as int);
                        }
                        let strow = &store.stats[k];
                        match query.sort {
                            EntitySort::MostUsed => strow.count,
                            EntitySort::LeastUsed => strow.count,
                            EntitySort::LastAdded => strow.created_at,
                            EntitySort::FirstAdded => strow.created_at,
                            EntitySort::LastUsed => strow.last_used,
                            EntitySort::FirstUsed => strow.last_used,
                            EntitySort::Random => 0,
                        }
                    },
                    Option::None => {
                        proof {
                            // unreachable: a selected entity has an
                            // association, and every association has a
                            // usage row
                            assert(user_has_entity(m.assocs, u, rv.entity_id));
                            let w = choose|w: int|
                                0 <= w < m.assocs.len() && (#[trigger] m.assocs[w]).user_id == u
                                    && m.assocs[w].entity_id == rv.entity_id;
                            assert(has_stat(m.stats, u, rv.entity_id));
                            let ws = choose|ws: int|
                                0 <= ws < m.stats.len() && #[trigger] m.stats[ws].user_id == u
                                    && m.stats[ws].entity_id == rv.entity_id;
                            assert(store.stats@[ws]@ == m.stats[ws]);
                            assert(false);
                        }
                        0
                    },
                }
            };
            let idx = cands.len();
            cands.push(
                Cand {
                    key,
                    idx,
                    ent: Entity {
                        entity_id: row.entity_id.clone(),
                        file_id: row.file_id.clone(),
                        user_id: user_id.clone(),
                        entity_type: row.entity_type,
                    },
                },
            );
            proof {
                assert(m.entities.take(i + 1).filter(pred) =~~= m.entities.take(i as int).filter(
                    pred,
                ).push(rv));
                assert(cands@[idx as int]@.ent =~~= decorate(rv, u));
            }
        } else {
            proof {
                assert(m.entities.take(i + 1).filter(pred) =~~= m.entities.take(i as int).filter(
                    pred,
                ));
            }
        }
    }
    proof {
        crate::seq_util::lemma_take_full(m.entities);
    }
    let ghost built = cands@.map_values(|c: Cand| c@);
    proof {
        assert(distinct_idx(built));
        if !is_random {
            assert(built =~~= cand_seq(m, u, qv));
        }
        assert forall|k: int| 0 <= k < built.len() implies (#[trigger] built[k]).ent == decorate(
            candidates(m, u, qv)[k],
            u,
        ) by {}
    }
    let asc = match query.sort {
        EntitySort::FirstAdded => true,
        EntitySort::FirstUsed => true,
        EntitySort::LeastUsed => true,
        _ => false,
    };
    let sorted = sort_cands_exec(cands, asc);
    let ghost sorted_v = sorted@.map_values(|c: Cand| c@);
    proof {
        crate::sorting::lemma_sort_cands_multiset(asc, built);
        assert(sorted_v.len() == candidates(m, u, qv).len());
    }
    let total = sorted.len();
    let skip64: u64 = (page as u64) * 50;
    let start = if skip64 < total as u64 {
        skip64 as usize
    } else {
        total
    };
    let end = if skip64 + 50 < total as u64 {
        (skip64 + 50) as usize
    } else {
        total
    };
    let mut out: Vec<Entity> = Vec::new();
    for k in start..end
        invariant
            start <= k <= end <= total,
            total == sorted@.len(),
            sorted_v == sorted@.map_values(|c: Cand| c@),
            out@.len() == k - start,
            forall|l: int|
                0 <= l < out@.len() ==> (#[trigger] out@[l])@ == sorted_v[start + l].ent,
    {
        let c = &sorted[k];
        out.push(
            Entity {
                entity_id: c.ent.entity_id.clone(),
                file_id: c.ent.file_id.clone(),
                user_id: c.ent.user_id.clone(),
                entity_type: c.ent.entity_type,
            },
        );
        proof {
            assert(out@[out@.len() - 1]@ =~~= sorted_v[k as int].ent);
        }
    }
    proof {
        // the page the caller sees
        if !is_random {
            assert(out@.map_values(|e: Entity| e@) =~~= find_result(m, u, qv, page as int));
        }
        // every sorted candidate is the unique built one with its position
        crate::sorting::lemma_sort_cands_sorted(asc, built);
        assert forall|p: int| 0 <= p < sorted_v.len() implies 0 <= (#[trigger] sorted_v[p]).idx
            < built.len() && sorted_v[p] == built[sorted_v[p].idx] by {
            assert(sorted_v.contains(sorted_v[p]));
            crate::sorting::lemma_sort_cands_contains(asc, built, sorted_v[p]);
            let w = choose|w: int| 0 <= w < built.len() && built[w] == sorted_v[p];
            assert(built[w].idx == w);
        }
        // the page's rows come from pairwise distinct candidates
        let ws = Seq::new(out@.len() as nat, |l: int| sorted_v[start + l].idx);
        assert forall|l: int| 0 <= l < ws.len() implies 0 <= #[trigger] ws[l] < candidates(
            m,
            u,
            qv,
        ).len() && out@[l]@ == decorate(candidates(m, u, qv)[ws[l]], u) by {
            assert(out@[l]@ == sorted_v[start + l].ent);
            assert(sorted_v[start + l] == built[ws[l]]);
            assert(built[ws[l]].ent == decorate(candidates(m, u, qv)[ws[l]], u));
        }
        assert(ws.no_duplicates()) by {
            assert forall|l1: int, l2: int|
                0 <= l1 < ws.len() && 0 <= l2 < ws.len() && l1 != l2 implies ws[l1] != ws[l2] by {
                if ws[l1] == ws[l2] {
                    assert(sorted_v[start + l1] == built[ws[l1]]);
                    assert(sorted_v[start + l2] == built[ws[l2]]);
                    if l1 < l2 {
                        assert(crate::sorting::cand_lt(
                            asc,
                            sorted_v[start + l1],
                            sorted_v[start + l2],
                        ));
                    } else {
                        assert(crate::sorting::cand_lt(
                            asc,
                            sorted_v[start + l2],
                            sorted_v[start + l1],
                        ));
                    }
                }
            }
        }
    }
    out
}

/// The list-all read: scope by user, apply only the media-kind filter, sort
/// and paginate.
pub fn list_entities(
    store: &Store,
    user_id: String,
    entity_type: Option<EntityType>,
    sort: EntitySort,
    page: i32,
) -> (r: Vec<Entity>)
    requires
        store@.wf(),
        page >= 0,
    ensures
        ({
            let q = QueryV {
                tags: Seq::empty(),
                negative_tags: Seq::empty(),
                sort,
                entity_type,
                get_all: true,
            };
            &&& (sort != EntitySort::Random ==> r@.map_values(|e: Entity| e@) == find_result(
                store@,
                user_id@,
                q,
                page as int,
            ))
            &&& r@.len() == page_len(candidates(store@, user_id@, q).len() as int, page as int)
            &&& exists|ws: Seq<int>|
                ws.len() == r@.len() && ws.no_duplicates() && (forall|l: int|
                    0 <= l < ws.len() ==> 0 <= #[trigger] ws[l] < candidates(
                        store@,
                        user_id@,
                        q,
                    ).len() && r@[l]@ == decorate(candidates(store@, user_id@, q)[ws[l]], user_id@))
        }),
{
    let query = InlineSearchQuery {
        tags: Vec::new(),
        negative_tags: Vec::new(),
        sort,
        entity_type,
        get_all: true,
    };
    proof {
        assert(query@ =~~= (QueryV {
            tags: Seq::empty(),
            negative_tags: Seq::empty(),
            sort,
            entity_type,
            get_all: true,
        }));
    }
    find_entities(store, user_id, query, page)
}

/// The cursor handed back with a result page: the next page's index for
/// every sort mode but the random one, whose order is not stable across
/// calls, so a cursor would be meaningless.
pub fn next_page_token(sort: EntitySort, page: i32) -> (r: Option<i32>)
    requires
        page < i32::MAX,
    ensures
        sort != EntitySort::Random ==> r == Some::<i32>((page + 1) as i32),
        sort == EntitySort::Random ==> r is None,
{
    if sort == EntitySort::Random {
        None
    } else {
        Some(page + 1)
    }
}

/// Membership in the full ordered result list is exactly the matching rule:
/// an entity of the store appears there if and only if the user has tagged
/// it, it passes the media-kind filter, every positive tag has a prefix
/// match among its tags — and, unless the whole negative set is satisfied,
/// it is not excluded.
pub proof fn lemma_search_membership(m: StoreModel, u: Seq<char>, q: QueryV, e: EntityV)
    ensures
        search_order(m, u, q).contains(decorate(e, u)) <==> (m.entities.contains(e)
            && entity_selected(m, u, q, e)),
{
    broadcast use vstd::seq_lib::group_to_multiset_ensures;

    let pred = |x: EntityV| entity_selected(m, u, q, x);
    let cs = candidates(m, u, q);
    let cseq = cand_seq(m, u, q);
    let asc = sort_asc(q.sort);
    let sorted = sort_cands(asc, cseq);
    let so = search_order(m, u, q);
    if so.contains(decorate(e, u)) {
        let k = choose|k: int| 0 <= k < so.len() && so[k] == decorate(e, u);
        assert(sorted[k].ent == decorate(e, u));
        assert(sorted.contains(sorted[k]));
        crate::sorting::lemma_sort_cands_contains(asc, cseq, sorted[k]);
        let w = choose|w: int| 0 <= w < cseq.len() && cseq[w] == sorted[k];
        assert(cseq[w].ent == decorate(cs[w], u));
        assert(cs[w] =~~= e);
        assert(cs.contains(cs[w]));
        m.entities.lemma_filter_contains_rev(pred, cs[w]);
        m.entities.lemma_filter_pred(pred, w);
    }
    if m.entities.contains(e) && entity_selected(m, u, q, e) {
        let w = choose|w: int| 0 <= w < m.entities.len() && m.entities[w] == e;
        assert(pred(m.entities[w]));
        m.entities.lemma_filter_contains(pred, w);
        let i = choose|i: int| 0 <= i < cs.len() && cs[i] == e;
        assert(cseq[i].ent == decorate(e, u));
        assert(cseq.contains(cseq[i]));
        crate::sorting::lemma_sort_cands_contains(asc, cseq, cseq[i]);
        let k = choose|k: int| 0 <= k < sorted.len() && sorted[k] == cseq[i];
        assert(so[k] == decorate(e, u));
        assert(so.contains(so[k]));
    }
}

/// A page past the available results is empty, never an error.
pub proof fn lemma_page_beyond_results(m: StoreModel, u: Seq<char>, q: QueryV, page: int)
    requires
        page >= 0,
        50 * page >= candidates(m, u, q).len(),
    ensures
        find_result(m, u, q, page) == Seq::<EntityOutV>::empty(),
{
    crate::sorting::lemma_sort_cands_multiset(sort_asc(q.sort), cand_seq(m, u, q));
    assert(search_order(m, u, q).len() == candidates(m, u, q).len());
    if !(!q.get_all && q.tags.len() == 0) {
        assert(find_result(m, u, q, page) =~= Seq::<EntityOutV>::empty());
    }
}

} // verus!
