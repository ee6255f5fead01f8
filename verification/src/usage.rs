//! Per-user usage statistics: the selection counter and its timestamps.

use vstd::prelude::*;

use crate::store::{find_stat_idx, has_stat, stat_idx, StatV, Store, StoreModel};
use crate::types::EntityStat;

verus! {

/// What one selection event does to the store: a missing row is created with
/// a count of one and both times set to now; an existing row has its count
/// increased (saturating at the counter's ceiling) and its last-used time set
/// to now, while its creation time is never touched again.
pub open spec fn increase_m(m: StoreModel, u: Seq<char>, e: Seq<char>, now: int) -> StoreModel {
    if has_stat(m.stats, u, e) {
        let i = stat_idx(m.stats, u, e);
        let s = m.stats[i];
        let c2 = if s.count == i64::MAX as int {
            s.count
        } else {
            s.count + 1
        };
        StoreModel { stats: m.stats.update(i, StatV { count: c2, last_used: now, ..s }), ..m }
    } else {
        StoreModel {
            stats: m.stats.push(
                StatV { user_id: u, entity_id: e, count: 1, last_used: now, created_at: now },
            ),
            ..m
        }
    }
}

/// The usage record read for a pair: the stored row, or a zero-valued record
/// when none exists — absence is not an error.
pub open spec fn usage_of(m: StoreModel, u: Seq<char>, e: Seq<char>) -> StatV {
    if has_stat(m.stats, u, e) {
        m.stats[stat_idx(m.stats, u, e)]
    } else {
        StatV { user_id: u, entity_id: e, count: 0, last_used: 0, created_at: 0 }
    }
}

/// No two usage rows share a user/entity pair.
pub open spec fn stats_unique(stats: Seq<StatV>) -> bool {
    forall|i: int, j: int|
        0 <= i < j < stats.len() ==> !((#[trigger] stats[i]).user_id == (#[trigger] stats[j]).user_id
            && stats[i].entity_id == stats[j].entity_id)
}

/// The store after a sequence of selection events for one pair, one at each
/// listed time.
pub open spec fn apply_increases(
    m: StoreModel,
    u: Seq<char>,
    e: Seq<char>,
    times: Seq<int>,
) -> StoreModel
    decreases times.len(),
{
    if times.len() == 0 {
        m
    } else {
        increase_m(apply_increases(m, u, e, times.drop_last()), u, e, times.last())
    }
}

/// What one selection event leaves for the pair it touches.
proof fn lemma_increase_step(m: StoreModel, u: Seq<char>, e: Seq<char>, now: int)
    requires
        stats_unique(m.stats),
    ensures
        stats_unique(increase_m(m, u, e, now).stats),
        has_stat(increase_m(m, u, e, now).stats, u, e),
        usage_of(increase_m(m, u, e, now), u, e).last_used == now,
        usage_of(increase_m(m, u, e, now), u, e).count == (if has_stat(m.stats, u, e) {
            if usage_of(m, u, e).count == i64::MAX as int {
                usage_of(m, u, e).count
            } else {
                usage_of(m, u, e).count + 1
            }
        } else {
            1
        }),
        usage_of(increase_m(m, u, e, now), u, e).created_at == (if has_stat(m.stats, u, e) {
            usage_of(m, u, e).created_at
        } else {
            now
        }),
{
    let m2 = increase_m(m, u, e, now);
    if has_stat(m.stats, u, e) {
        let i = stat_idx(m.stats, u, e);
        assert(0 <= i < m.stats.len() && m.stats[i].user_id == u && m.stats[i].entity_id == e);
        assert(m2.stats[i].user_id == u && m2.stats[i].entity_id == e);
        assert(has_stat(m2.stats, u, e));
        let i2 = stat_idx(m2.stats, u, e);
        assert(0 <= i2 < m2.stats.len() && m2.stats[i2].user_id == u && m2.stats[i2].entity_id
            == e);
        if i2 != i {
            if i2 < i {
                assert(!(m.stats[i2].user_id == m.stats[i].user_id && m.stats[i2].entity_id
                    == m.stats[i].entity_id));
            } else {
                assert(!(m.stats[i].user_id == m.stats[i2].user_id && m.stats[i].entity_id
                    == m.stats[i2].entity_id));
            }
            assert(m2.stats[i2] == m.stats[i2]);
            assert(false);
        }
    } else {
        let n = m.stats.len() as int;
        assert(m2.stats[n].user_id == u && m2.stats[n].entity_id == e);
        assert(has_stat(m2.stats, u, e));
        let i2 = stat_idx(m2.stats, u, e);
        assert(0 <= i2 < m2.stats.len() && m2.stats[i2].user_id == u && m2.stats[i2].entity_id
            == e);
        if i2 != n {
            assert(m2.stats[i2] == m.stats[i2]);
            assert(has_stat(m.stats, u, e));
            assert(false);
        }
    }
}

/// Selecting an entity exactly N times, starting from no usage row, leaves a
/// count of N, a last-used time equal to the time of the Nth selection, and
/// a creation time equal to the time of the first.
pub proof fn lemma_increase_n_times(m: StoreModel, u: Seq<char>, e: Seq<char>, times: Seq<int>)
    requires
        stats_unique(m.stats),
        !has_stat(m.stats, u, e),
        times.len() > 0,
        times.len() <= i64::MAX,
    ensures
        usage_of(apply_increases(m, u, e, times), u, e).count == times.len(),
        usage_of(apply_increases(m, u, e, times), u, e).last_used == times.last(),
        usage_of(apply_increases(m, u, e, times), u, e).created_at == times.first(),
        stats_unique(apply_increases(m, u, e, times).stats),
        has_stat(apply_increases(m, u, e, times).stats, u, e),
    decreases times.len(),
{
    if times.len() == 1 {
        assert(apply_increases(m, u, e, times.drop_last()) == m);
        assert(apply_increases(m, u, e, times) == increase_m(m, u, e, times.last()));
        lemma_increase_step(m, u, e, times.last());
    } else {
        lemma_increase_n_times(m, u, e, times.drop_last());
        let prev = apply_increases(m, u, e, times.drop_last());
        lemma_increase_step(prev, u, e, times.last());
        assert(usage_of(prev, u, e).count == times.len() - 1);
        assert(times.drop_last().first() == times.first());
    }
}

/// Record one selection of an entity by a user, atomically.
#[verifier::loop_isolation(false)]
pub fn increase_entity_stat(store: &mut Store, user_id: String, entity_id: String, now: i64)
    requires
        old(store)@.wf(),
        now >= 0,
    ensures
        final(store)@.wf(),
        final(store)@ == increase_m(old(store)@, user_id@, entity_id@, now as int),
{
    let ghost u = user_id@;
    let ghost e = entity_id@;
    let ghost m0 = store@;
    match find_stat_idx(&store.stats, &user_id, &entity_id) {
        Some(k) => {
            proof {
                assert(m0.stats[k as int] == store.stats@[k as int]@);
                assert(m0.stats[k as int].user_id == u && m0.stats[k as int].entity_id == e);
                assert(has_stat(m0.stats, u, e));
                let ki = stat_idx(m0.stats, u, e);
                assert(0 <= ki < m0.stats.len() && m0.stats[ki].user_id == u
                    && m0.stats[ki].entity_id == e);
                if ki != k as int {
                    if ki < k as int {
                        assert(!(m0.stats[ki].user_id == m0.stats[k as int].user_id
                            && m0.stats[ki].entity_id == m0.stats[k as int].entity_id));
                    } else {
                        assert(!(m0.stats[k as int].user_id == m0.stats[ki].user_id
                            && m0.stats[k as int].entity_id == m0.stats[ki].entity_id));
                    }
                }
                assert(ki == k as int);
            }
            let c = store.stats[k].count;
            let c2 = if c == i64::MAX {
                c
            } else {
                c + 1
            };
            store.stats[k].count = c2;
            store.stats[k].last_used = now;
            proof {
                assert(store@.stats =~~= m0.stats.update(
                    k as int,
                    StatV { count: c2 as int, last_used: now as int, ..m0.stats[k as int] },
                ));
                assert(store@ =~~= increase_m(m0, u, e, now as int));
                assert forall|uu: Seq<char>, x: Seq<char>| has_stat(m0.stats, uu, x) implies
                    has_stat(store@.stats, uu, x) by {
                    let w = choose|w: int|
                        0 <= w < m0.stats.len() && #[trigger] m0.stats[w].user_id == uu
                            && m0.stats[w].entity_id == x;
                    assert(store@.stats[w].user_id == uu && store@.stats[w].entity_id == x);
                }
            }
        },
        None => {
            proof {
                assert forall|i: int|
                    0 <= i < m0.stats.len() implies !((#[trigger] m0.stats[i]).user_id == u
                    && m0.stats[i].entity_id == e) by {
                    assert(m0.stats[i] == store.stats@[i]@);
                }
                assert(!has_stat(m0.stats, u, e));
            }
            store.stats.push(
                EntityStat {
                    user_id: user_id.clone(),
                    entity_id: entity_id.clone(),
                    count: 1,
                    last_used: now,
                    created_at: now,
                },
            );
            proof {
                assert(store@.stats =~~= m0.stats.push(
                    StatV {
                        user_id: u,
                        entity_id: e,
                        count: 1,
                        last_used: now as int,
                        created_at: now as int,
                    },
                ));
                assert(store@ =~~= increase_m(m0, u, e, now as int));
                assert forall|uu: Seq<char>, x: Seq<char>| has_stat(m0.stats, uu, x) implies
                    has_stat(store@.stats, uu, x) by {
                    let w = choose|w: int|
                        0 <= w < m0.stats.len() && #[trigger] m0.stats[w].user_id == uu
                            && m0.stats[w].entity_id == x;
                    assert(store@.stats[w].user_id == uu && store@.stats[w].entity_id == x);
                }
            }
        },
    }
}

/// Read the usage record of a pair. A missing row reads as the zero-valued
/// record, never as an error.
pub fn get_entity_usage(store: &Store, user_id: String, entity_id: String) -> (r: EntityStat)
    requires
        store@.wf(),
    ensures
        r@ == usage_of(store@, user_id@, entity_id@),
{
    let ghost u = user_id@;
    let ghost e = entity_id@;
    let ghost m0 = store@;
    match find_stat_idx(&store.stats, &user_id, &entity_id) {
        Some(k) => {
            proof {
                assert(m0.stats[k as int] == store.stats@[k as int]@);
                assert(m0.stats[k as int].user_id == u && m0.stats[k as int].entity_id == e);
                assert(has_stat(m0.stats, u, e));
                let ki = stat_idx(m0.stats, u, e);
                assert(0 <= ki < m0.stats.len() && m0.stats[ki].user_id == u
                    && m0.stats[ki].entity_id == e);
                if ki != k as int {
                    if ki < k as int {
                        assert(!(m0.stats[ki].user_id == m0.stats[k as int].user_id
                            && m0.stats[ki].entity_id == m0.stats[k as int].entity_id));
                    } else {
                        assert(!(m0.stats[k as int].user_id == m0.stats[ki].user_id
                            && m0.stats[k as int].entity_id == m0.stats[ki].entity_id));
                    }
                }
                assert(ki == k as int);
            }
            let row = &store.stats[k];
            EntityStat {
                user_id: row.user_id.clone(),
                entity_id: row.entity_id.clone(),
                count: row.count,
                last_used: row.last_used,
                created_at: row.created_at,
            }
        },
        None => {
            proof {
                assert forall|i: int|
                    0 <= i < m0.stats.len() implies !((#[trigger] m0.stats[i]).user_id == u
                    && m0.stats[i].entity_id == e) by {
                    assert(m0.stats[i] == store.stats@[i]@);
                }
                assert(!has_stat(m0.stats, u, e));
            }
            EntityStat { user_id, entity_id, count: 0, last_used: 0, created_at: 0 }
        },
    }
}

} // verus!
