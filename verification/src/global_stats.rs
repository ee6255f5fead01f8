//! Read-only global counters over the whole store.

use vstd::prelude::*;

use crate::seq_util::{lemma_filter_push, lemma_take_full, lemma_take_push, lemma_to_set_push};
use crate::store::{StatV, EntityV, Store, StoreModel};
use crate::types::{EntityType, GlobalStats};

verus! {

/// How many different users have a usage row.
pub open spec fn distinct_users(m: StoreModel) -> int {
    m.stats.map_values(|s: StatV| s.user_id).to_set().len() as int
}

/// How many entities currently carry this media kind.
pub open spec fn entities_of_type(m: StoreModel, t: EntityType) -> int {
    m.entities.filter(|e: EntityV| e.entity_type == t).len() as int
}

/// The total number of selection events ever recorded.
pub open spec fn sum_counts(stats: Seq<StatV>) -> int
    decreases stats.len(),
{
    if stats.len() == 0 {
        0
    } else {
        sum_counts(stats.drop_last()) + stats.last().count
    }
}

/// Every partial sum of non-negative counters is non-negative.
proof fn lemma_sum_counts_nonneg(stats: Seq<StatV>)
    requires
        forall|i: int| 0 <= i < stats.len() ==> 0 <= (#[trigger] stats[i]).count,
    ensures
        0 <= sum_counts(stats),
    decreases stats.len(),
{
    if stats.len() > 0 {
        lemma_sum_counts_nonneg(stats.drop_last());
    }
}

/// Read the global counters: how many users keep data here, how many tags the
/// dictionary holds, how many entities of each kind are known, and how many
/// selection events were ever recorded (clamped to the counter's ceiling).
#[verifier::loop_isolation(false)]
pub fn get_global_stats(store: &Store) -> (r: GlobalStats)
    requires
        store@.wf(),
        store@.tags.len() <= i64::MAX,
        store@.entities.len() <= i64::MAX,
        store@.stats.len() <= i64::MAX,
    ensures
        r.total_users as int == distinct_users(store@),
        r.total_tags as int == store@.tags.len(),
        r.total_stickers as int == entities_of_type(store@, EntityType::Sticker),
        r.total_animations as int == entities_of_type(store@, EntityType::Animation),
        r.total_videos as int == entities_of_type(store@, EntityType::Video),
        r.total_photos as int == entities_of_type(store@, EntityType::Photo),
        r.total_entities_sent as int == (if sum_counts(store@.stats) <= i64::MAX {
            sum_counts(store@.stats)
        } else {
            i64::MAX as int
        }),
{
    let ghost m0 = store@;
    broadcast use vstd::seq_lib::seq_to_set_is_finite;

    let ghost users_of = |s: StatV| s.user_id;
    let mut total_users: i64 = 0;
    let n_s = store.stats.len();
    proof {
        assert(m0.stats.take(0).map_values(users_of) =~= Seq::<Seq<char>>::empty());
        assert(Seq::<Seq<char>>::empty().to_set() =~= Set::<Seq<char>>::empty());
        assert(Set::<Seq<char>>::empty().len() == 0);
    }
    for i in 0..n_s
        invariant
            n_s == store.stats@.len(),
            0 <= total_users <= i,
            total_users as int == m0.stats.take(i as int).map_values(users_of).to_set().len(),
    {
        proof {
            lemma_take_push(m0.stats, i as int);
            assert(m0.stats.take(i + 1).map_values(users_of) =~= m0.stats.take(
                i as int,
            ).map_values(users_of).push(users_of(m0.stats[i as int])));
            lemma_to_set_push(
                m0.stats.take(i as int).map_values(users_of),
                users_of(m0.stats[i as int]),
            );
        }
        let mut seen = false;
        for j in 0..i
            invariant
                i < n_s,
                n_s == store.stats@.len(),
                seen <==> exists|l: int|
                    0 <= l < j && (#[trigger] m0.stats[l]).user_id == m0.stats[i as int].user_id,
        {
            if store.stats[j].user_id == store.stats[i].user_id {
                proof {
                    assert(m0.stats[j as int].user_id == m0.stats[i as int].user_id);
                }
                seen = true;
            }
        }
        proof {
            let prefix = m0.stats.take(i as int).map_values(users_of);
            if seen {
                let l = choose|l: int|
                    0 <= l < i && (#[trigger] m0.stats[l]).user_id == m0.stats[i as int].user_id;
                assert(prefix[l] == m0.stats[i as int].user_id);
                assert(prefix.contains(m0.stats[i as int].user_id));
            } else {
                assert(!prefix.contains(m0.stats[i as int].user_id)) by {
                    if prefix.contains(m0.stats[i as int].user_id) {
                        let l = choose|l: int|
                            0 <= l < prefix.len() && prefix[l] == m0.stats[i as int].user_id;
                        assert(m0.stats[l].user_id == m0.stats[i as int].user_id);
                    }
                }
                assert(prefix.to_set().len() <= prefix.len()) by {
                    prefix.lemma_cardinality_of_set();
                }
            }
        }
        if !seen {
            total_users = total_users + 1;
        }
    }
    let mut total_stickers: i64 = 0;
    let mut total_animations: i64 = 0;
    let mut total_videos: i64 = 0;
    let mut total_photos: i64 = 0;
    let ghost p_st = |e: EntityV| e.entity_type == EntityType::Sticker;
    let ghost p_an = |e: EntityV| e.entity_type == EntityType::Animation;
    let ghost p_vi = |e: EntityV| e.entity_type == EntityType::Video;
    let ghost p_ph = |e: EntityV| e.entity_type == EntityType::Photo;
    let n_e = store.entities.len();
    for i in 0..n_e
        invariant
            n_e == store.entities@.len(),
            0 <= total_stickers <= i,
            0 <= total_animations <= i,
            0 <= total_videos <= i,
            0 <= total_photos <= i,
            total_stickers as int == m0.entities.take(i as int).filter(p_st).len(),
            total_animations as int == m0.entities.take(i as int).filter(p_an).len(),
            total_videos as int == m0.entities.take(i as int).filter(p_vi).len(),
            total_photos as int == m0.entities.take(i as int).filter(p_ph).len(),
    {
        proof {
            lemma_take_push(m0.entities, i as int);
            lemma_filter_push(m0.entities.take(i as int), m0.entities[i as int], p_st);
            lemma_filter_push(m0.entities.take(i as int), m0.entities[i as int], p_an);
            lemma_filter_push(m0.entities.take(i as int), m0.entities[i as int], p_vi);
            lemma_filter_push(m0.entities.take(i as int), m0.entities[i as int], p_ph);
        }
        match store.entities[i].entity_type {
            EntityType::Sticker => {
                total_stickers = total_stickers + 1;
            },
            EntityType::Animation => {
                total_animations = total_animations + 1;
            },
            EntityType::Video => {
                total_videos = total_videos + 1;
            },
            EntityType::Photo => {
                total_photos = total_photos + 1;
            },
        }
        proof {
            assert(m0.entities[i as int].entity_type == store.entities@[i as int].entity_type);
        }
    }
    let mut total_entities_sent: i64 = 0;
    for i in 0..n_s
        invariant
            n_s == store.stats@.len(),
            0 <= total_entities_sent,
            total_entities_sent as int == (if sum_counts(m0.stats.take(i as int)) <= i64::MAX {
                sum_counts(m0.stats.take(i as int))
            } else {
                i64::MAX as int
            }),
    {
        proof {
            lemma_take_push(m0.stats, i as int);
            assert(m0.stats.take(i + 1).drop_last() =~= m0.stats.take(i as int));
            assert forall|l: int| 0 <= l < m0.stats.take(i as int).len() implies 0 <= (
            #[trigger] m0.stats.take(i as int)[l]).count by {
                assert(m0.stats.take(i as int)[l] == m0.stats[l]);
            }
            lemma_sum_counts_nonneg(m0.stats.take(i as int));
            assert(0 <= m0.stats[i as int].count);
        }
        let c = store.stats[i].count;
        proof {
            assert(c as int == m0.stats[i as int].count);
        }
        if c > i64::MAX - total_entities_sent {
            total_entities_sent = i64::MAX;
        } else {
            total_entities_sent = total_entities_sent + c;
        }
    }
    let total_tags: i64 = store.tags.len() as i64;
    proof {
        lemma_take_full(m0.stats);
        lemma_take_full(m0.entities);
        assert(total_tags as int == m0.tags.len());
    }
    GlobalStats {
        total_users,
        total_tags,
        total_stickers,
        total_animations,
        total_videos,
        total_photos,
        total_entities_sent,
    }
}

} // verus!
