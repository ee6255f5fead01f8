//! Bulk transfer: exporting a user's data as a compressed JSON snapshot and
//! importing it — or a third-party exporter's file — back, atomically.

use vstd::prelude::*;

use crate::json::{enc_items, parse_export, parse_qs_export, ItemV, QsItemV};
use crate::search::{user_has_entity, user_has_entity_exec};
use crate::assoc::user_entity_tags;
use crate::store::{add_assocs_one, assoc_same, ensure_tags, ensure_tags_m, has_assoc, has_entity,
    has_stat, entity_idx, find_entity_idx, find_stat_idx, type_conflict, AssocRow, AssocV,
    EntityRow, EntityV, StatV, Store, StoreModel};
use crate::text::{normal_tag, normalize_tag};
use crate::types::{EntityStat, EntityType, ImportItem, QSBotImportItem, StoreError};
use crate::usage::usage_of;

verus! {

/// What the gzip decoder makes of a byte stream: the text it decompresses
/// to, when it is a well-formed stream of well-formed UTF-8, and nothing
/// otherwise. Decompression is a function of the bytes alone.
pub uninterp spec fn gunzip_text_of(b: Seq<u8>) -> Option<Seq<char>>;

/// Relies on flate2's GzEncoder: the gzip container is lossless, so the
/// stream it writes decompresses to exactly the text it was given. Writing
/// into a growable buffer cannot fail.
#[verifier::external_body]
fn compress_text(s: &str) -> (r: Vec<u8>)
    ensures
        gunzip_text_of(r@) == Some(s@),
{
    let mut enc = flate2::write::GzEncoder::new(Vec::new(), flate2::Compression::best());
    std::io::Write::write_all(&mut enc, s.as_bytes()).unwrap();
    enc.finish().unwrap()
}

/// Relies on flate2's GzDecoder: decompression is a function of the bytes
/// alone; a malformed stream, or one that does not hold UTF-8, decodes to
/// nothing.
#[verifier::external_body]
fn decompress_text(b: &Vec<u8>) -> (r: Option<String>)
    ensures
        ({
            match r {
                Some(s) => gunzip_text_of(b@) == Some(s@),
                None => gunzip_text_of(b@) is None,
            }
        }),
{
    let mut d = flate2::read::GzDecoder::new(b.as_slice());
    let mut out = Vec::new();
    match std::io::Read::read_to_end(&mut d, &mut out) {
        Ok(_) => String::from_utf8(out).ok(),
        Err(_) => None,
    }
}

/// The record the export writes for one entity of a user.
pub open spec fn item_for(m: StoreModel, u: Seq<char>, e: EntityV) -> ItemV {
    ItemV {
        entity_id: e.entity_id,
        file_id: e.file_id,
        entity_type: e.entity_type,
        tags: user_entity_tags(m, u, e.entity_id),
        count: usage_of(m, u, e.entity_id).count,
        last_used: usage_of(m, u, e.entity_id).last_used,
        created_at: usage_of(m, u, e.entity_id).created_at,
    }
}

/// Everything the export writes for a user: one record per entity the user
/// has tagged, in store order.
pub open spec fn export_records_m(m: StoreModel, u: Seq<char>) -> Seq<ItemV> {
    m.entities.filter(|e: EntityV| user_has_entity(m.assocs, u, e.entity_id)).map_values(
        |e: EntityV| item_for(m, u, e),
    )
}

/// Collect the export records for a user.
#[verifier::loop_isolation(false)]
pub fn export_records(store: &Store, user_id: &String) -> (r: Vec<ImportItem>)
    requires
        store@.wf(),
    ensures
        r@.map_values(|x: ImportItem| x@) == export_records_m(store@, user_id@),
{
    let ghost m = store@;
    let ghost u = user_id@;
    let ghost pred = |e: EntityV| user_has_entity(m.assocs, u, e.entity_id);
    let ghost f = |e: EntityV| item_for(m, u, e);
    let mut out: Vec<ImportItem> = Vec::new();
    let n = store.entities.len();
    for i in 0..n
        invariant
            out@.map_values(|x: ImportItem| x@) == m.entities.take(i as int).filter(
                pred,
            ).map_values(f),
    {
        proof {
            crate::seq_util::lemma_take_push(m.entities, i as int);
            crate::seq_util::lemma_filter_push(m.entities.take(i as int), m.entities[i as int], pred);
            assert(m.entities[i as int] == store.entities@[i as int]@);
        }
        let row = &store.entities[i];
        let ghost rv = m.entities[i as int];
        if user_has_entity_exec(&store.assocs, user_id, &row.entity_id) {
            let tags = crate::assoc::get_tags(store, user_id.clone(), row.entity_id.clone());
            let stat = crate::usage::get_entity_usage(
                store,
                user_id.clone(),
                row.entity_id.clone(),
            );
            let it = ImportItem {
                entity_id: row.entity_id.clone(),
                file_id: row.file_id.clone(),
                entity_type: row.entity_type,
                tags,
                count: stat.count,
                last_used: stat.last_used,
                created_at: stat.created_at,
            };
            proof {
                assert(it@ =~~= item_for(m, u, rv));
                assert(pred(rv));
            }
            let ghost out_pre = out@;
            out.push(it);
            proof {
                let s1 = m.entities.take(i as int).filter(pred);
                let s2 = m.entities.take(i + 1).filter(pred);
                assert(s2 == s1.push(rv));
                let lhs = out@.map_values(|x: ImportItem| x@);
                let rhs = s2.map_values(f);
                assert forall|k: int| 0 <= k < lhs.len() implies lhs[k] == rhs[k] by {
                    if k < s1.len() {
                        assert(out@[k] == out_pre[k]);
                        assert(lhs[k] == out_pre.map_values(|x: ImportItem| x@)[k]);
                        assert(s2[k] == s1[k]);
                        assert(rhs[k] == s1.map_values(f)[k]);
                    } else {
                        assert(out@[k] == it);
                        assert(s2[k] == rv);
                    }
                }
                assert(lhs =~~= rhs);
            }
        } else {
            proof {
                assert(!pred(rv));
                assert(m.entities.take(i + 1).filter(pred) == m.entities.take(i as int).filter(
                    pred,
                ));
                assert(out@.map_values(|x: ImportItem| x@) =~~= m.entities.take(i + 1).filter(
                    pred,
                ).map_values(f));
            }
        }
    }
    proof {
        crate::seq_util::lemma_take_full(m.entities);
        assert(out@.map_values(|x: ImportItem| x@) =~~= export_records_m(m, u));
    }
    out
}

/// Export a user's data: every entity the user has tagged, with its file
/// reference, kind, tag names, and usage counters, as one compressed JSON
/// snapshot. The produced stream decompresses to exactly the canonical
/// encoding of those records.
pub fn export(store: &Store, user_id: String) -> (r: Vec<u8>)
    requires
        store@.wf(),
    ensures
        gunzip_text_of(r@) == Some(enc_items(export_records_m(store@, user_id@))),
{
    let records = export_records(store, &user_id);
    let chars = crate::json_enc::encode_items(&records);
    let text = crate::text::chars_to_string(&chars);
    compress_text(text.as_str())
}

/// Some record carries a negative counter or time: the payload is malformed.
pub open spec fn items_invalid(items: Seq<ItemV>) -> bool {
    exists|k: int|
        0 <= k < items.len() && ((#[trigger] items[k]).count < 0 || items[k].last_used < 0
            || items[k].created_at < 0)
}

/// Some record would change an existing entity's media kind.
pub open spec fn items_conflict(entities: Seq<EntityV>, items: Seq<ItemV>) -> bool {
    exists|k: int|
        0 <= k < items.len() && type_conflict(
            entities,
            (#[trigger] items[k]).entity_id,
            items[k].entity_type,
        )
}

/// Two records of the batch name one entity under two different media
/// kinds: the batch disagrees with itself about the entity's kind.
pub open spec fn items_self_conflict(items: Seq<ItemV>) -> bool {
    exists|i: int, j: int|
        0 <= i < j < items.len() && (#[trigger] items[i]).entity_id == (#[trigger] items[j]).entity_id
            && items[i].entity_type != items[j].entity_type
}

/// Every tag name of the batch, normalized, in batch order.
pub open spec fn all_normal_tags(items: Seq<ItemV>) -> Seq<Seq<char>>
    decreases items.len(),
{
    if items.len() == 0 {
        Seq::empty()
    } else {
        all_normal_tags(items.drop_last()) + items.last().tags.map_values(
            |t: Seq<char>| normal_tag(t),
        )
    }
}

/// The entity table after upserting each record: an existing row keeps its
/// kind and takes the record's file reference, a missing one is appended
/// with the record's kind.
pub open spec fn apply_item_upserts(entities: Seq<EntityV>, items: Seq<ItemV>) -> Seq<EntityV>
    decreases items.len(),
{
    if items.len() == 0 {
        entities
    } else {
        let prev = apply_item_upserts(entities, items.drop_last());
        let it = items.last();
        if has_entity(prev, it.entity_id) {
            let i = entity_idx(prev, it.entity_id);
            prev.update(
                i,
                EntityV {
                    entity_id: it.entity_id,
                    file_id: it.file_id,
                    entity_type: prev[i].entity_type,
                },
            )
        } else {
            prev.push(
                EntityV {
                    entity_id: it.entity_id,
                    file_id: it.file_id,
                    entity_type: it.entity_type,
                },
            )
        }
    }
}

/// The usage table after the batch: a missing pair takes the record's
/// counters as they stand in the file; an existing row is left untouched, so
/// importing never regresses statistics.
pub open spec fn insert_item_stats(stats: Seq<StatV>, u: Seq<char>, items: Seq<ItemV>) -> Seq<
    StatV,
>
    decreases items.len(),
{
    if items.len() == 0 {
        stats
    } else {
        let prev = insert_item_stats(stats, u, items.drop_last());
        let it = items.last();
        if has_stat(prev, u, it.entity_id) {
            prev
        } else {
            prev.push(
                StatV {
                    user_id: u,
                    entity_id: it.entity_id,
                    count: it.count,
                    last_used: it.last_used,
                    created_at: it.created_at,
                },
            )
        }
    }
}

/// The association table after linking every record to its normalized tags,
/// skipping links that already exist.
pub open spec fn add_item_assocs(assocs: Seq<AssocV>, u: Seq<char>, items: Seq<ItemV>) -> Seq<
    AssocV,
>
    decreases items.len(),
{
    if items.len() == 0 {
        assocs
    } else {
        let prev = add_item_assocs(assocs, u, items.drop_last());
        let it = items.last();
        add_assocs_one(prev, u, it.entity_id, it.tags.map_values(|t: Seq<char>| normal_tag(t)))
    }
}

/// What importing a batch of records does, as one atomic transaction: a
/// malformed batch (a negative counter) is rejected before anything happens;
/// a batch that would change an entity's kind — against the store or
/// against another record of the same batch — likewise; otherwise the tag
/// names are normalized, deduplicated and created lazily, the entities
/// upserted, the missing usage rows created with the file's counters, and
/// every record linked to its tags.
pub open spec fn import_records_m(m: StoreModel, u: Seq<char>, items: Seq<ItemV>) -> Result<
    StoreModel,
    StoreError,
> {
    if items_invalid(items) {
        Err(StoreError::Serialization)
    } else if items_conflict(m.entities, items) || items_self_conflict(items) {
        Err(StoreError::Consistency)
    } else {
        Ok(
            StoreModel {
                tags: ensure_tags_m(m.tags, all_normal_tags(items)),
                entities: apply_item_upserts(m.entities, items),
                stats: insert_item_stats(m.stats, u, items),
                assocs: add_item_assocs(m.assocs, u, items),
                users: m.users,
            },
        )
    }
}

/// Every normalized tag of every record is among the batch's normalized tag
/// names.
proof fn lemma_all_normal_contains(items: Seq<ItemV>, j: int, l: int)
    requires
        0 <= j < items.len(),
        0 <= l < items[j].tags.len(),
    ensures
        all_normal_tags(items).contains(normal_tag(items[j].tags[l])),
    decreases items.len(),
{
    let tail = items.last().tags.map_values(|t: Seq<char>| normal_tag(t));
    if j == items.len() - 1 {
        assert(tail[l] == normal_tag(items[j].tags[l]));
        assert(all_normal_tags(items)[all_normal_tags(items.drop_last()).len() + l] == tail[l]);
    } else {
        assert(items.drop_last()[j] == items[j]);
        lemma_all_normal_contains(items.drop_last(), j, l);
        let prev = all_normal_tags(items.drop_last());
        let w = choose|w: int| 0 <= w < prev.len() && prev[w] == normal_tag(items[j].tags[l]);
        assert(all_normal_tags(items)[w] == prev[w]);
    }
}

/// Upsert every entity of the batch, each with its record's kind.
#[verifier::loop_isolation(false)]
fn import_upserts(store: &mut Store, items: &Vec<ImportItem>)
    requires
        old(store)@.wf(),
    ensures
        final(store)@.wf(),
        final(store)@ == (StoreModel {
            entities: apply_item_upserts(
                old(store)@.entities,
                items@.map_values(|x: ImportItem| x@),
            ),
            ..old(store)@
        }),
        forall|jj: int|
            0 <= jj < items@.len() ==> has_entity(
                final(store)@.entities,
                (#[trigger] items@[jj])@.entity_id,
            ),
{
    let ghost items_v = items@.map_values(|x: ImportItem| x@);
    let ghost m1 = store@;
    let n = items.len();
    for j in 0..n
        invariant
            store@.entities == apply_item_upserts(m1.entities, items_v.take(j as int)),
            store@ == (StoreModel { entities: store@.entities, ..m1 }),
            forall|i: int, j2: int|
                0 <= i < j2 < store@.entities.len() ==> (#[trigger] store@.entities[i]).entity_id
                    != (#[trigger] store@.entities[j2]).entity_id,
            forall|x: Seq<char>| has_entity(m1.entities, x) ==> has_entity(store@.entities, x),
            forall|jj: int|
                0 <= jj < j ==> has_entity(store@.entities, (#[trigger] items_v[jj]).entity_id),
    {
        proof {
            crate::seq_util::lemma_take_push(items_v, j as int);
            assert(items_v.take(j + 1).drop_last() =~= items_v.take(j as int));
        }
        let ghost cur = store@.entities;
        match find_entity_idx(&store.entities, &items[j].entity_id) {
            Some(k) => {
                proof {
                    assert(cur[k as int] == store.entities@[k as int]@);
                    assert(cur[k as int].entity_id == items_v[j as int].entity_id);
                    assert(has_entity(cur, items_v[j as int].entity_id));
                    let ki = entity_idx(cur, items_v[j as int].entity_id);
                    assert(0 <= ki < cur.len() && cur[ki].entity_id == items_v[j as int].entity_id);
                    if ki != k as int {
                        if ki < k as int {
                            assert(cur[ki].entity_id != cur[k as int].entity_id);
                        } else {
                            assert(cur[k as int].entity_id != cur[ki].entity_id);
                        }
                    }
                    assert(ki == k as int);
                }
                store.entities[k].file_id = items[j].file_id.clone();
                proof {
                    assert(store@.entities =~~= cur.update(
                        k as int,
                        EntityV {
                            entity_id: items_v[j as int].entity_id,
                            file_id: items_v[j as int].file_id,
                            entity_type: cur[k as int].entity_type,
                        },
                    ));
                    assert(store@.entities =~~= apply_item_upserts(
                        m1.entities,
                        items_v.take(j + 1),
                    ));
                    assert forall|x: Seq<char>| has_entity(cur, x) implies has_entity(
                        store@.entities,
                        x,
                    ) by {
                        let w = choose|w: int| 0 <= w < cur.len() && #[trigger] cur[w].entity_id == x;
                        assert(store@.entities[w].entity_id == x);
                    }
                }
            },
            None => {
                proof {
                    assert forall|i: int|
                        0 <= i < cur.len() implies (#[trigger] cur[i]).entity_id != items_v[
                        j as int].entity_id by {
                        assert(cur[i] == store.entities@[i]@);
                    }
                    assert(!has_entity(cur, items_v[j as int].entity_id));
                }
                store.entities.push(
                    EntityRow {
                        entity_id: items[j].entity_id.clone(),
                        file_id: items[j].file_id.clone(),
                        entity_type: items[j].entity_type,
                    },
                );
                proof {
                    assert(store@.entities =~~= cur.push(
                        EntityV {
                            entity_id: items_v[j as int].entity_id,
                            file_id: items_v[j as int].file_id,
                            entity_type: items_v[j as int].entity_type,
                        },
                    ));
                    assert(store@.entities =~~= apply_item_upserts(
                        m1.entities,
                        items_v.take(j + 1),
                    ));
                    assert forall|x: Seq<char>| has_entity(cur, x) implies has_entity(
                        store@.entities,
                        x,
                    ) by {
                        let w = choose|w: int| 0 <= w < cur.len() && #[trigger] cur[w].entity_id == x;
                        assert(store@.entities[w].entity_id == x);
                    }
                    assert(store@.entities[cur.len() as int].entity_id == items_v[
                        j as int].entity_id);
                }
            },
        }
        proof {
            assert(store@ =~~= (StoreModel { entities: store@.entities, ..m1 }));
        }
    }
    proof {
        crate::seq_util::lemma_take_full(items_v);
        assert forall|jj: int| 0 <= jj < items@.len() implies has_entity(
            store@.entities,
            (#[trigger] items@[jj])@.entity_id,
        ) by {
            assert(items_v[jj] == items@[jj]@);
        }
    }
}

/// Create the missing usage rows with the file's counters; existing rows are
/// left untouched.
#[verifier::loop_isolation(false)]
fn import_stats(store: &mut Store, user_id: &String, items: &Vec<ImportItem>)
    requires
        old(store)@.wf(),
        forall|k: int|
            0 <= k < items@.len() ==> (#[trigger] items@[k])@.count >= 0 && items@[k]@.last_used
                >= 0 && items@[k]@.created_at >= 0,
    ensures
        final(store)@.wf(),
        final(store)@ == (StoreModel {
            stats: insert_item_stats(
                old(store)@.stats,
                user_id@,
                items@.map_values(|x: ImportItem| x@),
            ),
            ..old(store)@
        }),
        forall|jj: int|
            0 <= jj < items@.len() ==> has_stat(
                final(store)@.stats,
                user_id@,
                (#[trigger] items@[jj])@.entity_id,
            ),
{
    let ghost items_v = items@.map_values(|x: ImportItem| x@);
    let ghost u = user_id@;
    let ghost m2 = store@;
    proof {
        assert forall|k: int| 0 <= k < items_v.len() implies (#[trigger] items_v[k]).count >= 0
            && items_v[k].last_used >= 0 && items_v[k].created_at >= 0 by {
            assert(items_v[k] == items@[k]@);
        }
    }
    let n = items.len();
    for j in 0..n
        invariant
            store@.stats == insert_item_stats(m2.stats, u, items_v.take(j as int)),
            store@ == (StoreModel { stats: store@.stats, ..m2 }),
            forall|i: int, j2: int|
                0 <= i < j2 < store@.stats.len() ==> !((#[trigger] store@.stats[i]).user_id
                    == (#[trigger] store@.stats[j2]).user_id && store@.stats[i].entity_id
                    == store@.stats[j2].entity_id),
            forall|i: int|
                0 <= i < store@.stats.len() ==> 0 <= (#[trigger] store@.stats[i]).count && 0
                    <= store@.stats[i].last_used && 0 <= store@.stats[i].created_at,
            forall|uu: Seq<char>, x: Seq<char>|
                has_stat(m2.stats, uu, x) ==> has_stat(store@.stats, uu, x),
            forall|jj: int|
                0 <= jj < j ==> has_stat(store@.stats, u, (#[trigger] items_v[jj]).entity_id),
    {
        proof {
            crate::seq_util::lemma_take_push(items_v, j as int);
            assert(items_v.take(j + 1).drop_last() =~= items_v.take(j as int));
        }
        let ghost cur = store@.stats;
        match find_stat_idx(&store.stats, user_id, &items[j].entity_id) {
            Some(k) => {
                proof {
                    assert(cur[k as int] == store.stats@[k as int]@);
                    assert(cur[k as int].user_id == u && cur[k as int].entity_id == items_v[
                        j as int].entity_id);
                    assert(has_stat(cur, u, items_v[j as int].entity_id));
                    assert(store@.stats =~~= insert_item_stats(m2.stats, u, items_v.take(j + 1)));
                }
            },
            None => {
                proof {
                    assert forall|i: int|
                        0 <= i < cur.len() implies !((#[trigger] cur[i]).user_id == u
                        && cur[i].entity_id == items_v[j as int].entity_id) by {
                        assert(cur[i] == store.stats@[i]@);
                    }
                    assert(!has_stat(cur, u, items_v[j as int].entity_id));
                }
                store.stats.push(
                    EntityStat {
                        user_id: user_id.clone(),
                        entity_id: items[j].entity_id.clone(),
                        count: items[j].count,
                        last_used: items[j].last_used,
                        created_at: items[j].created_at,
                    },
                );
                proof {
                    assert(store@.stats =~~= cur.push(
                        StatV {
                            user_id: u,
                            entity_id: items_v[j as int].entity_id,
                            count: items_v[j as int].count,
                            last_used: items_v[j as int].last_used,
                            created_at: items_v[j as int].created_at,
                        },
                    ));
                    assert(store@.stats =~~= insert_item_stats(m2.stats, u, items_v.take(j + 1)));
                    assert forall|uu: Seq<char>, x: Seq<char>| has_stat(cur, uu, x) implies has_stat(
                        store@.stats,
                        uu,
                        x,
                    ) by {
                        let w = choose|w: int|
                            0 <= w < cur.len() && #[trigger] cur[w].user_id == uu
                                && cur[w].entity_id == x;
                        assert(store@.stats[w].user_id == uu && store@.stats[w].entity_id == x);
                    }
                    assert(store@.stats[cur.len() as int].user_id == u && store@.stats[
                        cur.len() as int].entity_id == items_v[j as int].entity_id);
                }
            },
        }
        proof {
            assert(store@ =~~= (StoreModel { stats: store@.stats, ..m2 }));
        }
    }
    proof {
        crate::seq_util::lemma_take_full(items_v);
        assert forall|jj: int| 0 <= jj < items@.len() implies has_stat(
            store@.stats,
            user_id@,
            (#[trigger] items@[jj])@.entity_id,
        ) by {
            assert(items_v[jj] == items@[jj]@);
        }
    }
}

/// Link every record to its normalized tag names.
#[verifier::loop_isolation(false)]
fn import_assocs(store: &mut Store, user_id: &String, items: &Vec<ImportItem>)
    requires
        old(store)@.wf(),
        forall|j: int, l: int|
            0 <= j < items@.len() && 0 <= l < (#[trigger] items@[j])@.tags.len()
                ==> old(store)@.tags.contains(normal_tag(#[trigger] items@[j]@.tags[l])),
        forall|jj: int|
            0 <= jj < items@.len() ==> has_entity(
                old(store)@.entities,
                (#[trigger] items@[jj])@.entity_id,
            ),
        forall|jj: int|
            0 <= jj < items@.len() ==> has_stat(
                old(store)@.stats,
                user_id@,
                (#[trigger] items@[jj])@.entity_id,
            ),
    ensures
        final(store)@.wf(),
        final(store)@ == (StoreModel {
            assocs: add_item_assocs(
                old(store)@.assocs,
                user_id@,
                items@.map_values(|x: ImportItem| x@),
            ),
            ..old(store)@
        }),
{
    let ghost items_v = items@.map_values(|x: ImportItem| x@);
    let ghost u = user_id@;
    let ghost m3 = store@;
    proof {
        assert forall|j: int, l: int|
            0 <= j < items_v.len() && 0 <= l < (#[trigger] items_v[j]).tags.len() implies
            m3.tags.contains(normal_tag(#[trigger] items_v[j].tags[l])) by {
            assert(items_v[j] == items@[j]@);
        }
        assert forall|jj: int| 0 <= jj < items_v.len() implies has_entity(
            m3.entities,
            (#[trigger] items_v[jj]).entity_id,
        ) && has_stat(m3.stats, u, items_v[jj].entity_id) by {
            assert(items_v[jj] == items@[jj]@);
        }
    }
    let n_items = items.len();
    for j in 0..n_items
        invariant
            store@.assocs == add_item_assocs(m3.assocs, u, items_v.take(j as int)),
            store@ == (StoreModel { assocs: store@.assocs, ..m3 }),
            forall|i: int, j2: int|
                0 <= i < j2 < store@.assocs.len() ==> !assoc_same(
                    #[trigger] store@.assocs[i],
                    #[trigger] store@.assocs[j2],
                ),
            forall|k: int|
                0 <= k < store@.assocs.len() ==> m3.tags.contains(
                    (#[trigger] store@.assocs[k]).tag_name,
                ),
            forall|k: int|
                0 <= k < store@.assocs.len() ==> has_entity(
                    m3.entities,
                    (#[trigger] store@.assocs[k]).entity_id,
                ),
            forall|k: int|
                0 <= k < store@.assocs.len() ==> has_stat(
                    m3.stats,
                    (#[trigger] store@.assocs[k]).user_id,
                    store@.assocs[k].entity_id,
                ),
    {
        proof {
            crate::seq_util::lemma_take_push(items_v, j as int);
            assert(items_v.take(j + 1).drop_last() =~= items_v.take(j as int));
        }
        let ghost outer_base = store@.assocs;
        let ghost tags_v = items_v[j as int].tags;
        let n_tags = items[j].tags.len();
        for l in 0..n_tags
            invariant
                0 <= j < n_items,
                n_tags == items[j as int].tags@.len(),
                tags_v == items_v[j as int].tags,
                store@.assocs == add_assocs_one(
                    outer_base,
                    u,
                    items_v[j as int].entity_id,
                    tags_v.map_values(|t: Seq<char>| normal_tag(t)).take(l as int),
                ),
                store@ == (StoreModel { assocs: store@.assocs, ..m3 }),
                forall|i: int, j2: int|
                    0 <= i < j2 < store@.assocs.len() ==> !assoc_same(
                        #[trigger] store@.assocs[i],
                        #[trigger] store@.assocs[j2],
                    ),
                forall|k: int|
                    0 <= k < store@.assocs.len() ==> m3.tags.contains(
                        (#[trigger] store@.assocs[k]).tag_name,
                    ),
                forall|k: int|
                    0 <= k < store@.assocs.len() ==> has_entity(
                        m3.entities,
                        (#[trigger] store@.assocs[k]).entity_id,
                    ),
                forall|k: int|
                    0 <= k < store@.assocs.len() ==> has_stat(
                        m3.stats,
                        (#[trigger] store@.assocs[k]).user_id,
                        store@.assocs[k].entity_id,
                    ),
        {
            let ghost nts = tags_v.map_values(|t: Seq<char>| normal_tag(t));
            proof {
                crate::seq_util::lemma_take_push(nts, l as int);
                assert(nts.take(l + 1).drop_last() =~= nts.take(l as int));
                assert(tags_v[l as int] == items[j as int].tags@[l as int]@);
            }
            let name = normalize_tag(items[j].tags[l].as_str());
            proof {
                assert(name@ == nts[l as int]);
            }
            let ghost cur = store@.assocs;
            if !crate::store::has_assoc_exec(&store.assocs, user_id, &items[j].entity_id, &name) {
                store.assocs.push(
                    AssocRow {
                        user_id: user_id.clone(),
                        entity_id: items[j].entity_id.clone(),
                        tag_name: name,
                    },
                );
                proof {
                    assert(store@.assocs =~~= cur.push(
                        AssocV {
                            user_id: u,
                            entity_id: items_v[j as int].entity_id,
                            tag_name: nts[l as int],
                        },
                    ));
                    assert(store@.assocs =~~= add_assocs_one(
                        outer_base,
                        u,
                        items_v[j as int].entity_id,
                        nts.take(l + 1),
                    ));
                    assert forall|i: int, j2: int|
                        0 <= i < j2 < store@.assocs.len() implies !assoc_same(
                        #[trigger] store@.assocs[i],
                        #[trigger] store@.assocs[j2],
                    ) by {
                        if j2 == store@.assocs.len() - 1 {
                            assert(!has_assoc(
                                cur,
                                u,
                                items_v[j as int].entity_id,
                                nts[l as int],
                            ));
                            if assoc_same(store@.assocs[i], store@.assocs[j2]) {
                                assert(cur[i].user_id == u && cur[i].entity_id == items_v[
                                    j as int].entity_id && cur[i].tag_name == nts[l as int]);
                            }
                        }
                    }
                }
            } else {
                proof {
                    assert(store@.assocs =~~= add_assocs_one(
                        outer_base,
                        u,
                        items_v[j as int].entity_id,
                        nts.take(l + 1),
                    ));
                }
            }
            proof {
                assert(store@ =~~= (StoreModel { assocs: store@.assocs, ..m3 }));
            }
        }
        proof {
            crate::seq_util::lemma_take_full(tags_v.map_values(|t: Seq<char>| normal_tag(t)));
            assert(store@.assocs =~~= add_item_assocs(m3.assocs, u, items_v.take(j + 1)));
        }
    }
    proof {
        crate::seq_util::lemma_take_full(items_v);
    }
}

/// Do two records of the batch name one entity under two kinds?
#[verifier::loop_isolation(false)]
fn has_self_conflict(items: &Vec<ImportItem>) -> (r: bool)
    ensures
        r == items_self_conflict(items@.map_values(|x: ImportItem| x@)),
{
    let ghost items_v = items@.map_values(|x: ImportItem| x@);
    let n = items.len();
    for j in 0..n
        invariant
            forall|a: int, b: int|
                0 <= a < b < j ==> ((#[trigger] items_v[a]).entity_id
                    == (#[trigger] items_v[b]).entity_id ==> items_v[a].entity_type == items_v[
                    b].entity_type),
    {
        for i in 0..j
            invariant
                0 <= j < n,
                forall|a: int|
                    0 <= a < i ==> ((#[trigger] items_v[a]).entity_id == items_v[
                        j as int].entity_id ==> items_v[a].entity_type == items_v[
                        j as int].entity_type),
        {
            proof {
                assert(items_v[i as int] == items@[i as int]@);
                assert(items_v[j as int] == items@[j as int]@);
            }
            if items[i].entity_id == items[j].entity_id && !(items[i].entity_type == items[
            j].entity_type) {
                proof {
                    assert(items_self_conflict(items_v));
                }
                return true;
            }
        }
    }
    false
}

/// Import a batch of records for one user, as one atomic transaction:
/// either every row the batch implies becomes visible, or nothing does and
/// the call reports why.
#[verifier::loop_isolation(false)]
pub fn import_records(store: &mut Store, user_id: &String, items: &Vec<ImportItem>) -> (r: Result<
    (),
    StoreError,
>)
    requires
        old(store)@.wf(),
    ensures
        final(store)@.wf(),
        ({
            let out = import_records_m(
                old(store)@,
                user_id@,
                items@.map_values(|x: ImportItem| x@),
            );
            match out {
                Ok(m2) => r == Ok::<(), StoreError>(()) && final(store)@ == m2,
                Err(e) => r == Err::<(), StoreError>(e) && final(store)@ == old(store)@,
            }
        }),
{
    let ghost items_v = items@.map_values(|x: ImportItem| x@);
    let ghost u = user_id@;
    let ghost m0 = store@;
    let n = items.len();
    // a malformed batch is rejected before anything happens
    for k in 0..n
        invariant
            store@ == m0,
            forall|kk: int|
                0 <= kk < k ==> (#[trigger] items_v[kk]).count >= 0 && items_v[kk].last_used >= 0
                    && items_v[kk].created_at >= 0,
    {
        if items[k].count < 0 || items[k].last_used < 0 || items[k].created_at < 0 {
            proof {
                assert(items_v[k as int].count < 0 || items_v[k as int].last_used < 0 || items_v[
                    k as int].created_at < 0);
                assert(items_invalid(items_v));
            }
            return Err(StoreError::Serialization);
        }
        proof {
            assert(items_v[k as int] == items@[k as int]@);
        }
    }
    proof {
        assert(!items_invalid(items_v));
    }
    // so is one that would change an entity's kind
    for k in 0..n
        invariant
            store@ == m0,
            forall|kk: int|
                0 <= kk < k ==> !type_conflict(
                    m0.entities,
                    (#[trigger] items_v[kk]).entity_id,
                    items_v[kk].entity_type,
                ),
    {
        match find_entity_idx(&store.entities, &items[k].entity_id) {
            Some(w) => {
                proof {
                    assert(m0.entities[w as int] == store.entities@[w as int]@);
                }
                if !(store.entities[w].entity_type == items[k].entity_type) {
                    proof {
                        assert(m0.entities[w as int].entity_id == items_v[k as int].entity_id);
                        assert(type_conflict(
                            m0.entities,
                            items_v[k as int].entity_id,
                            items_v[k as int].entity_type,
                        ));
                        assert(items_conflict(m0.entities, items_v));
                    }
                    return Err(StoreError::Consistency);
                }
                proof {
                    assert forall|i: int|
                        0 <= i < m0.entities.len() && (#[trigger] m0.entities[i]).entity_id
                            == items_v[k as int].entity_id implies m0.entities[i].entity_type
                        == items_v[k as int].entity_type by {
                        if i < w as int {
                            assert(m0.entities[i].entity_id != m0.entities[w as int].entity_id);
                        } else if i > w as int {
                            assert(m0.entities[w as int].entity_id != m0.entities[i].entity_id);
                        }
                    }
                }
            },
            None => {
                proof {
                    assert forall|i: int|
                        0 <= i < m0.entities.len() implies (#[trigger] m0.entities[i]).entity_id
                        != items_v[k as int].entity_id by {
                        assert(m0.entities[i] == store.entities@[i]@);
                    }
                }
            },
        }
    }
    proof {
        assert(!items_conflict(m0.entities, items_v));
    }
    // and one whose records disagree among themselves about a kind
    if has_self_conflict(items) {
        return Err(StoreError::Consistency);
    }
    // normalize and create the tags
    let mut names: Vec<String> = Vec::new();
    for j in 0..n
        invariant
            store@ == m0,
            names@.map_values(|s: String| s@) == all_normal_tags(items_v.take(j as int)),
    {
        proof {
            crate::seq_util::lemma_take_push(items_v, j as int);
            assert(items_v.take(j + 1).drop_last() =~= items_v.take(j as int));
        }
        let ghost tags_v = items_v[j as int].tags;
        let ghost base = names@.map_values(|s: String| s@);
        let n_tags = items[j].tags.len();
        for l in 0..n_tags
            invariant
                0 <= j < n,
                n_tags == items[j as int].tags@.len(),
                tags_v == items_v[j as int].tags,
                names@.map_values(|s: String| s@) == base + tags_v.map_values(
                    |t: Seq<char>| normal_tag(t),
                ).take(l as int),
        {
            proof {
                assert(tags_v[l as int] == items[j as int].tags@[l as int]@);
                crate::seq_util::lemma_take_push(
                    tags_v.map_values(|t: Seq<char>| normal_tag(t)),
                    l as int,
                );
            }
            let ghost names_pre = names@;
            let name = normalize_tag(items[j].tags[l].as_str());
            proof {
                assert(name@ == tags_v.map_values(|t: Seq<char>| normal_tag(t))[l as int]);
            }
            names.push(name);
            proof {
                let nts = tags_v.map_values(|t: Seq<char>| normal_tag(t));
                let lhs = names@.map_values(|s: String| s@);
                let rhs = base + nts.take(l + 1);
                assert forall|w: int| 0 <= w < lhs.len() implies lhs[w] == rhs[w] by {
                    if w < names_pre.len() {
                        assert(names@[w] == names_pre[w]);
                        assert(lhs[w] == names_pre.map_values(|s: String| s@)[w]);
                    } else {
                        assert(names@[w] == name);
                    }
                }
                assert(lhs =~= rhs);
            }
        }
        proof {
            let nts = tags_v.map_values(|t: Seq<char>| normal_tag(t));
            assert(nts.take(nts.len() as int) =~= nts);
            assert(names@.map_values(|s: String| s@) =~= all_normal_tags(items_v.take(j + 1)));
        }
    }
    proof {
        crate::seq_util::lemma_take_full(items_v);
    }
    ensure_tags(store, &names);
    proof {
        crate::store::lemma_ensure_tags_m_props(m0.tags, all_normal_tags(items_v));
        assert forall|j: int, l: int|
            0 <= j < items@.len() && 0 <= l < (#[trigger] items@[j])@.tags.len() implies
            store@.tags.contains(normal_tag(#[trigger] items@[j]@.tags[l])) by {
            assert(items_v[j] == items@[j]@);
            lemma_all_normal_contains(items_v, j, l);
        }
    }
    proof {
        assert forall|k: int|
            0 <= k < items@.len() implies (#[trigger] items@[k])@.count >= 0
            && items@[k]@.last_used >= 0 && items@[k]@.created_at >= 0 by {
            assert(items_v[k] == items@[k]@);
        }
    }
    import_upserts(store, items);
    import_stats(store, user_id, items);
    import_assocs(store, user_id, items);
    proof {
        assert(Some(final(store)@) =~~= Some(import_records_m(m0, u, items_v)->Ok_0));
    }
    Ok(())
}

/// What importing a byte payload does: an undecodable or unparsable payload
/// is rejected with no side effects; a well-formed one runs as one atomic
/// record import.
pub open spec fn import_bytes_m(m: StoreModel, u: Seq<char>, b: Seq<u8>) -> Result<
    StoreModel,
    StoreError,
> {
    match gunzip_text_of(b) {
        Some(text) => match parse_export(text) {
            Some(items) => import_records_m(m, u, items),
            None => Err(StoreError::Serialization),
        },
        None => Err(StoreError::Serialization),
    }
}

/// Import a compressed snapshot for one user: decompress, parse, and apply
/// the records as one atomic transaction. A malformed payload aborts before
/// any transaction begins.
pub fn import(store: &mut Store, user_id: String, file: Vec<u8>) -> (r: Result<(), StoreError>)
    requires
        old(store)@.wf(),
    ensures
        final(store)@.wf(),
        ({
            let out = import_bytes_m(old(store)@, user_id@, file@);
            match out {
                Ok(m2) => r == Ok::<(), StoreError>(()) && final(store)@ == m2,
                Err(e) => r == Err::<(), StoreError>(e) && final(store)@ == old(store)@,
            }
        }),
{
    match decompress_text(&file) {
        Some(text) => {
            let chars = crate::text::string_to_chars(text.as_str());
            match crate::json_exec::parse_export_exec(&chars) {
                Some(items) => import_records(store, &user_id, &items),
                None => Err(StoreError::Serialization),
            }
        },
        None => Err(StoreError::Serialization),
    }
}

/// What the platform's UTF-8 decoder makes of a byte string; the result
/// depends on the bytes alone.
pub uninterp spec fn utf8_text_of(b: Seq<u8>) -> Option<Seq<char>>;

/// Relies on String::from_utf8: valid UTF-8 decodes to its text, anything
/// else to nothing.
#[verifier::external_body]
fn bytes_to_text(b: &Vec<u8>) -> (r: Option<String>)
    ensures
        ({
            match r {
                Some(s) => utf8_text_of(b@) == Some(s@),
                None => utf8_text_of(b@) is None,
            }
        }),
{
    String::from_utf8(b.clone()).ok()
}

/// The media kind a third-party record's file reference names.
pub open spec fn qs_item_type(q: QsItemV) -> Result<EntityType, StoreError> {
    crate::media::spec_file_id_type(q.file_id)
}

/// The record a third-party record maps to: same identifier, reference and
/// tags, the kind derived from the reference, and zeroed usage counters.
pub open spec fn qs_to_item(q: QsItemV) -> ItemV {
    ItemV {
        entity_id: q.id,
        file_id: q.file_id,
        entity_type: (match qs_item_type(q) {
            Ok(t) => t,
            Err(_) => EntityType::Sticker,
        }),
        tags: q.tags,
        count: 0,
        last_used: 0,
        created_at: 0,
    }
}

/// Some record's file reference names no media kind.
pub open spec fn qs_items_untyped(qs: Seq<QsItemV>) -> bool {
    exists|k: int| 0 <= k < qs.len() && qs_item_type(#[trigger] qs[k]) is Err
}

/// What importing a third-party exporter's file does: the bytes must be
/// UTF-8 and the text must parse as a third-party export, or nothing
/// happens; a record whose file reference names no media kind aborts the
/// whole import; otherwise the mapped batch runs through the same atomic
/// record import.
pub open spec fn qs_import_m(m: StoreModel, u: Seq<char>, b: Seq<u8>) -> Result<
    StoreModel,
    StoreError,
> {
    match utf8_text_of(b) {
        Some(text) => match parse_qs_export(text) {
            Some(qs) => if qs_items_untyped(qs) {
                Err(StoreError::UnknownFileType)
            } else {
                import_records_m(m, u, qs.map_values(|q: QsItemV| qs_to_item(q)))
            },
            None => Err(StoreError::Serialization),
        },
        None => Err(StoreError::Serialization),
    }
}

/// Import a third-party exporter's file: parse its JSON, derive each
/// record's media kind from its encoded file reference, and run the same
/// atomic record import with zeroed usage counters. A file that cannot be
/// parsed, or a reference whose kind cannot be derived, aborts with no side
/// effects.
#[verifier::loop_isolation(false)]
#[verifier::rlimit(100)]
pub fn quickstickbot_import(store: &mut Store, user_id: String, file: Vec<u8>) -> (r: Result<
    (),
    StoreError,
>)
    requires
        old(store)@.wf(),
    ensures
        final(store)@.wf(),
        ({
            let out = qs_import_m(old(store)@, user_id@, file@);
            match out {
                Ok(m2) => r == Ok::<(), StoreError>(()) && final(store)@ == m2,
                Err(e) => r == Err::<(), StoreError>(e) && final(store)@ == old(store)@,
            }
        }),
{
    let text = match bytes_to_text(&file) {
        Some(t) => t,
        None => {
            return Err(StoreError::Serialization);
        },
    };
    let chars = crate::text::string_to_chars(text.as_str());
    let qs = match crate::json_exec::parse_qs_export_exec(&chars) {
        Some(q) => q,
        None => {
            return Err(StoreError::Serialization);
        },
    };
    let ghost qs_v = qs@.map_values(|x: QSBotImportItem| x@);
    let mut items: Vec<ImportItem> = Vec::new();
    let n = qs.len();
    for k in 0..n
        invariant
            store@ == old(store)@,
            n == qs@.len(),
            qs_v == qs@.map_values(|x: QSBotImportItem| x@),
            forall|kk: int| 0 <= kk < k ==> qs_item_type(#[trigger] qs_v[kk]) is Ok,
            items@.map_values(|x: ImportItem| x@) == qs_v.take(k as int).map_values(
                |q: QsItemV| qs_to_item(q),
            ),
    {
        let ty = match crate::types::Entity::file_id_to_type(qs[k].file_id.as_str()) {
            Ok(t) => t,
            Err(e) => {
                proof {
                    assert(qs_v[k as int] == qs@[k as int]@);
                    assert(qs_item_type(qs_v[k as int]) is Err);
                    assert(qs_items_untyped(qs_v));
                    assert(e == StoreError::UnknownFileType);
                }
                return Err(e);
            },
        };
        let it = ImportItem {
            entity_id: qs[k].id.clone(),
            file_id: qs[k].file_id.clone(),
            entity_type: ty,
            tags: clone_strings(&qs[k].tags),
            count: 0,
            last_used: 0,
            created_at: 0,
        };
        proof {
            assert(qs_v[k as int] == qs@[k as int]@);
            assert(it@ =~~= qs_to_item(qs_v[k as int]));
        }
        let ghost items_pre = items@;
        items.push(it);
        proof {
            crate::seq_util::lemma_take_push(qs_v, k as int);
            let lhs = items@.map_values(|x: ImportItem| x@);
            let rhs = qs_v.take(k + 1).map_values(|q: QsItemV| qs_to_item(q));
            assert forall|w: int| 0 <= w < lhs.len() implies lhs[w] == rhs[w] by {
                if w < items_pre.len() {
                    assert(items@[w] == items_pre[w]);
                    assert(lhs[w] == items_pre.map_values(|x: ImportItem| x@)[w]);
                    assert(qs_v.take(k + 1)[w] == qs_v.take(k as int)[w]);
                    assert(rhs[w] == qs_v.take(k as int).map_values(|q: QsItemV| qs_to_item(q))[w]);
                } else {
                    assert(items@[w] == it);
                    assert(qs_v.take(k + 1)[w] == qs_v[k as int]);
                }
            }
            assert(lhs =~~= rhs);
        }
    }
    proof {
        crate::seq_util::lemma_take_full(qs_v);
        assert(!qs_items_untyped(qs_v));
    }
    import_records(store, &user_id, &items)
}

/// Every tag name the user's associations carry is already in its normal
/// form — as it is whenever they were written by a front end that
/// normalizes, or by an import.
pub open spec fn user_tags_normal(m: StoreModel, u: Seq<char>) -> bool {
    forall|i: int|
        0 <= i < m.assocs.len() && (#[trigger] m.assocs[i]).user_id == u ==> normal_tag(
            m.assocs[i].tag_name,
        ) == m.assocs[i].tag_name
}

/// Every usage counter and time fits the machine word it is stored in.
pub open spec fn stats_bounded(m: StoreModel) -> bool {
    forall|i: int|
        0 <= i < m.stats.len() ==> (#[trigger] m.stats[i]).count <= i64::MAX
            && m.stats[i].last_used <= i64::MAX && m.stats[i].created_at <= i64::MAX
}

/// Creating tag names that all already exist in the dictionary changes
/// nothing — applied to a whole batch of normalized names.
proof fn lemma_all_normal_in_tags(m: StoreModel, u: Seq<char>, items: Seq<ItemV>)
    requires
        forall|k: int, l: int|
            0 <= k < items.len() && 0 <= l < (#[trigger] items[k]).tags.len() ==> m.tags.contains(
                normal_tag(#[trigger] items[k].tags[l]),
            ),
    ensures
        forall|w: int|
            0 <= w < all_normal_tags(items).len() ==> m.tags.contains(
                #[trigger] all_normal_tags(items)[w],
            ),
    decreases items.len(),
{
    if items.len() > 0 {
        let prev = items.drop_last();
        assert forall|k: int, l: int|
            0 <= k < prev.len() && 0 <= l < (#[trigger] prev[k]).tags.len() implies m.tags.contains(
            normal_tag(#[trigger] prev[k].tags[l]),
        ) by {
            assert(prev[k] == items[k]);
        }
        lemma_all_normal_in_tags(m, u, prev);
        let tail = items.last().tags.map_values(|t: Seq<char>| normal_tag(t));
        assert forall|w: int|
            0 <= w < all_normal_tags(items).len() implies m.tags.contains(
            #[trigger] all_normal_tags(items)[w],
        ) by {
            if w < all_normal_tags(prev).len() {
                assert(all_normal_tags(items)[w] == all_normal_tags(prev)[w]);
            } else {
                let l = w - all_normal_tags(prev).len();
                assert(all_normal_tags(items)[w] == tail[l]);
                assert(tail[l] == normal_tag(items[items.len() - 1].tags[l]));
            }
        }
    }
}

/// A record already reflected by an entity row: same identifier, same file
/// reference, same kind.
pub open spec fn item_reflected(entities: Seq<EntityV>, it: ItemV) -> bool {
    exists|i: int|
        0 <= i < entities.len() && (#[trigger] entities[i]).entity_id == it.entity_id
            && entities[i].file_id == it.file_id && entities[i].entity_type == it.entity_type
}

/// Upserting records the table already reflects changes nothing.
proof fn lemma_upserts_noop(entities: Seq<EntityV>, items: Seq<ItemV>)
    requires
        forall|i: int, j: int|
            0 <= i < j < entities.len() ==> (#[trigger] entities[i]).entity_id
                != (#[trigger] entities[j]).entity_id,
        forall|k: int| 0 <= k < items.len() ==> item_reflected(entities, #[trigger] items[k]),
    ensures
        apply_item_upserts(entities, items) == entities,
    decreases items.len(),
{
    if items.len() > 0 {
        assert forall|k: int| 0 <= k < items.drop_last().len() implies item_reflected(
            entities,
            #[trigger] items.drop_last()[k],
        ) by {
            assert(items.drop_last()[k] == items[k]);
        }
        lemma_upserts_noop(entities, items.drop_last());
        let it = items.last();
        assert(item_reflected(entities, it));
        let w = choose|w: int|
            0 <= w < entities.len() && (#[trigger] entities[w]).entity_id == it.entity_id
                && entities[w].file_id == it.file_id && entities[w].entity_type == it.entity_type;
        assert(has_entity(entities, it.entity_id));
        let i = entity_idx(entities, it.entity_id);
        assert(0 <= i < entities.len() && entities[i].entity_id == it.entity_id);
        if i != w {
            if i < w {
                assert(entities[i].entity_id != entities[w].entity_id);
            } else {
                assert(entities[w].entity_id != entities[i].entity_id);
            }
        }
        assert(entities.update(
            i,
            EntityV {
                entity_id: it.entity_id,
                file_id: it.file_id,
                entity_type: entities[i].entity_type,
            },
        ) =~~= entities);
    }
}

/// Inserting usage rows for pairs that already have one changes nothing.
proof fn lemma_stats_noop(stats: Seq<StatV>, u: Seq<char>, items: Seq<ItemV>)
    requires
        forall|k: int| 0 <= k < items.len() ==> has_stat(stats, u, (#[trigger] items[k]).entity_id),
    ensures
        insert_item_stats(stats, u, items) == stats,
    decreases items.len(),
{
    if items.len() > 0 {
        assert forall|k: int| 0 <= k < items.drop_last().len() implies has_stat(
            stats,
            u,
            (#[trigger] items.drop_last()[k]).entity_id,
        ) by {
            assert(items.drop_last()[k] == items[k]);
        }
        lemma_stats_noop(stats, u, items.drop_last());
        assert(has_stat(stats, u, items.last().entity_id));
    }
}

/// Linking facts that are already recorded changes nothing.
proof fn lemma_assocs_one_noop(assocs: Seq<AssocV>, u: Seq<char>, e: Seq<char>, names: Seq<
    Seq<char>,
>)
    requires
        forall|l: int| 0 <= l < names.len() ==> has_assoc(assocs, u, e, #[trigger] names[l]),
    ensures
        add_assocs_one(assocs, u, e, names) == assocs,
    decreases names.len(),
{
    if names.len() > 0 {
        assert forall|l: int| 0 <= l < names.drop_last().len() implies has_assoc(
            assocs,
            u,
            e,
            #[trigger] names.drop_last()[l],
        ) by {
            assert(names.drop_last()[l] == names[l]);
        }
        lemma_assocs_one_noop(assocs, u, e, names.drop_last());
        assert(has_assoc(assocs, u, e, names.last()));
    }
}

/// Linking records whose facts are all recorded changes nothing.
proof fn lemma_item_assocs_noop(assocs: Seq<AssocV>, u: Seq<char>, items: Seq<ItemV>)
    requires
        forall|k: int, l: int|
            0 <= k < items.len() && 0 <= l < (#[trigger] items[k]).tags.len() ==> has_assoc(
                assocs,
                u,
                items[k].entity_id,
                normal_tag(#[trigger] items[k].tags[l]),
            ),
    ensures
        add_item_assocs(assocs, u, items) == assocs,
    decreases items.len(),
{
    if items.len() > 0 {
        assert forall|k: int, l: int|
            0 <= k < items.drop_last().len() && 0 <= l < (#[trigger] items.drop_last()[
            k]).tags.len() implies has_assoc(
            assocs,
            u,
            items.drop_last()[k].entity_id,
            normal_tag(#[trigger] items.drop_last()[k].tags[l]),
        ) by {
            assert(items.drop_last()[k] == items[k]);
        }
        lemma_item_assocs_noop(assocs, u, items.drop_last());
        let it = items.last();
        let nts = it.tags.map_values(|t: Seq<char>| normal_tag(t));
        assert forall|l: int| 0 <= l < nts.len() implies has_assoc(
            assocs,
            u,
            it.entity_id,
            #[trigger] nts[l],
        ) by {
            assert(nts[l] == normal_tag(it.tags[l]));
            assert(has_assoc(assocs, u, it.entity_id, normal_tag(it.tags[l])));
        }
        lemma_assocs_one_noop(assocs, u, it.entity_id, nts);
    }
}

/// Importing right back what an export produced leaves the store observably
/// unchanged: no duplicate associations appear, statistics are untouched,
/// and the tag dictionary gains nothing — import is idempotent over an
/// export. This holds whenever the user's tag names are in normal form, as
/// every name written by import itself is; a name that normalization would
/// still change (say, one with an upper-case letter) would come back in
/// normal form instead.
pub proof fn lemma_export_import_identity(m: StoreModel, u: Seq<char>)
    requires
        m.wf(),
        user_tags_normal(m, u),
        stats_bounded(m),
    ensures
        import_records_m(m, u, export_records_m(m, u)) == Ok::<StoreModel, StoreError>(m),
{
    let pred = |e: EntityV| user_has_entity(m.assocs, u, e.entity_id);
    let f = |e: EntityV| item_for(m, u, e);
    let cs = m.entities.filter(pred);
    let items = export_records_m(m, u);
    assert(items == cs.map_values(f));
    // every record reflects the unique entity row it came from
    assert forall|k: int| 0 <= k < items.len() implies item_reflected(
        m.entities,
        #[trigger] items[k],
    ) && pred(cs[k]) by {
        assert(items[k] == f(cs[k]));
        assert(cs.contains(cs[k]));
        m.entities.lemma_filter_contains_rev(pred, cs[k]);
        m.entities.lemma_filter_pred(pred, k);
        let w = choose|w: int| 0 <= w < m.entities.len() && m.entities[w] == cs[k];
        assert(m.entities[w].entity_id == items[k].entity_id && m.entities[w].file_id == items[
            k].file_id && m.entities[w].entity_type == items[k].entity_type);
    }
    // its tags are the user's recorded tags, already normal and recorded
    assert forall|k: int, l: int|
        0 <= k < items.len() && 0 <= l < (#[trigger] items[k]).tags.len() implies has_assoc(
        m.assocs,
        u,
        items[k].entity_id,
        normal_tag(#[trigger] items[k].tags[l]),
    ) && m.tags.contains(normal_tag(items[k].tags[l])) by {
        assert(items[k] == f(cs[k]));
        let pt = |a: AssocV| a.user_id == u && a.entity_id == cs[k].entity_id;
        let fa = m.assocs.filter(pt);
        assert(items[k].tags == fa.map_values(|a: AssocV| a.tag_name));
        assert(items[k].tags[l] == fa[l].tag_name);
        m.assocs.lemma_filter_pred(pt, l);
        assert(fa.contains(fa[l]));
        m.assocs.lemma_filter_contains_rev(pt, fa[l]);
        let w = choose|w: int| 0 <= w < m.assocs.len() && m.assocs[w] == fa[l];
        assert(normal_tag(m.assocs[w].tag_name) == m.assocs[w].tag_name);
        assert(m.assocs[w].user_id == u && m.assocs[w].entity_id == items[k].entity_id
            && m.assocs[w].tag_name == items[k].tags[l]);
        assert(m.tags.contains(m.assocs[w].tag_name));
    }
    // its counters come from a stored or zero usage row: never negative
    assert forall|k: int| 0 <= k < items.len() implies !((#[trigger] items[k]).count < 0 || items[
        k].last_used < 0 || items[k].created_at < 0) && has_stat(
        m.stats,
        u,
        items[k].entity_id,
    ) by {
        assert(items[k] == f(cs[k]));
        assert(pred(cs[k]));
        let w = choose|w: int|
            0 <= w < m.assocs.len() && (#[trigger] m.assocs[w]).user_id == u
                && m.assocs[w].entity_id == cs[k].entity_id;
        assert(has_stat(m.stats, u, cs[k].entity_id));
        let si = crate::store::stat_idx(m.stats, u, cs[k].entity_id);
        assert(0 <= si < m.stats.len() && m.stats[si].user_id == u && m.stats[si].entity_id == cs[
            k].entity_id);
        assert(usage_of(m, u, cs[k].entity_id) == m.stats[si]);
        assert(m.stats[si].count >= 0);
    }
    assert(!items_invalid(items));
    assert(!items_conflict(m.entities, items)) by {
        if items_conflict(m.entities, items) {
            let k = choose|k: int|
                0 <= k < items.len() && type_conflict(
                    m.entities,
                    (#[trigger] items[k]).entity_id,
                    items[k].entity_type,
                );
            let i = choose|i: int|
                0 <= i < m.entities.len() && (#[trigger] m.entities[i]).entity_id == items[
                    k].entity_id && m.entities[i].entity_type != items[k].entity_type;
            let w = choose|w: int|
                0 <= w < m.entities.len() && (#[trigger] m.entities[w]).entity_id == items[
                    k].entity_id && m.entities[w].file_id == items[k].file_id && m.entities[
                    w].entity_type == items[k].entity_type;
            if i < w {
                assert(m.entities[i].entity_id != m.entities[w].entity_id);
            } else if w < i {
                assert(m.entities[w].entity_id != m.entities[i].entity_id);
            }
        }
    }
    lemma_all_normal_in_tags(m, u, items);
    crate::store::lemma_ensure_tags_m_noop(m.tags, all_normal_tags(items));
    lemma_upserts_noop(m.entities, items);
    lemma_stats_noop(m.stats, u, items);
    lemma_item_assocs_noop(m.assocs, u, items);
    assert(import_records_m(m, u, items)->Ok_0 =~~= m);
}

/// The whole transfer pipeline round-trips: the snapshot text an export
/// produces parses back to exactly the records it wrote — and importing
/// those records leaves the store observably unchanged. Together with the
/// compressor's contract — its stream decompresses to exactly the text it
/// was given — an export followed immediately by an import of its result is
/// a no-op.
pub proof fn lemma_export_import_round_trip(m: StoreModel, u: Seq<char>)
    requires
        m.wf(),
        user_tags_normal(m, u),
        stats_bounded(m),
    ensures
        parse_export(enc_items(export_records_m(m, u))) == Some(export_records_m(m, u)),
        import_records_m(m, u, export_records_m(m, u)) == Ok::<StoreModel, StoreError>(m),
{
    lemma_export_import_identity(m, u);
    let items = export_records_m(m, u);
    let pred = |e: EntityV| user_has_entity(m.assocs, u, e.entity_id);
    let f = |e: EntityV| item_for(m, u, e);
    let cs = m.entities.filter(pred);
    assert(crate::json_rt::items_bounded(items)) by {
        assert forall|k: int|
            0 <= k < items.len() implies i64::MIN <= (#[trigger] items[k]).count <= i64::MAX
            && i64::MIN <= items[k].last_used <= i64::MAX && i64::MIN <= items[k].created_at
            <= i64::MAX by {
            assert(items[k] == f(cs[k]));
            let e = cs[k].entity_id;
            if has_stat(m.stats, u, e) {
                let si = crate::store::stat_idx(m.stats, u, e);
                assert(0 <= si < m.stats.len() && m.stats[si].user_id == u && m.stats[si].entity_id
                    == e);
                assert(usage_of(m, u, e) == m.stats[si]);
                assert(0 <= m.stats[si].count && m.stats[si].count <= i64::MAX);
                assert(0 <= m.stats[si].last_used && m.stats[si].last_used <= i64::MAX);
                assert(0 <= m.stats[si].created_at && m.stats[si].created_at <= i64::MAX);
            }
        }
    }
    crate::json_rt::lemma_rt_export(items);
}

/// Importing the very bytes an export produced is a no-op: what `export`
/// promises of its output, `import` turns back into the unchanged store.
pub proof fn lemma_import_of_export_bytes(m: StoreModel, u: Seq<char>, b: Seq<u8>)
    requires
        m.wf(),
        user_tags_normal(m, u),
        stats_bounded(m),
        gunzip_text_of(b) == Some(enc_items(export_records_m(m, u))),
    ensures
        import_bytes_m(m, u, b) == Ok::<StoreModel, StoreError>(m),
{
    lemma_export_import_round_trip(m, u);
}

/// Some record of the batch names this entity.
pub open spec fn items_name(items: Seq<ItemV>, x: Seq<char>) -> bool {
    exists|k: int| 0 <= k < items.len() && (#[trigger] items[k]).entity_id == x
}

/// Record `k` is the batch's last record naming its entity.
pub open spec fn last_naming(items: Seq<ItemV>, k: int) -> bool {
    forall|k2: int| k < k2 < items.len() ==> (#[trigger] items[k2]).entity_id != items[k].entity_id
}

/// Every named entity is named last by some record.
proof fn lemma_last_occurrence(items: Seq<ItemV>, x: Seq<char>)
    requires
        items_name(items, x),
    ensures
        exists|k: int|
            0 <= k < items.len() && (#[trigger] items[k]).entity_id == x && last_naming(items, k),
    decreases items.len(),
{
    if items.last().entity_id == x {
        let k = items.len() - 1;
        assert(items[k].entity_id == x && last_naming(items, k));
    } else {
        let w = choose|w: int| 0 <= w < items.len() && (#[trigger] items[w]).entity_id == x;
        assert(items.drop_last()[w] == items[w]);
        assert(items_name(items.drop_last(), x));
        lemma_last_occurrence(items.drop_last(), x);
        let k = choose|k: int|
            0 <= k < items.drop_last().len() && (#[trigger] items.drop_last()[k]).entity_id == x
                && last_naming(items.drop_last(), k);
        assert(items[k] == items.drop_last()[k]);
        assert(last_naming(items, k)) by {
            assert forall|k2: int| k < k2 < items.len() implies (#[trigger] items[k2]).entity_id
                != items[k].entity_id by {
                if k2 < items.len() - 1 {
                    assert(items.drop_last()[k2] == items[k2]);
                }
            }
        }
    }
}

/// Shape of the entity table after a conflict-free batch of upserts: ids
/// stay unique; the old rows keep their place, identifier and kind; a row
/// no record names is untouched; a row some record names carries that
/// record's kind and the file reference of the last record naming it; and
/// every named entity has a row.
#[verifier::rlimit(100)]
proof fn lemma_upserts_shape(entities: Seq<EntityV>, items: Seq<ItemV>)
    requires
        forall|i: int, j: int|
            0 <= i < j < entities.len() ==> (#[trigger] entities[i]).entity_id
                != (#[trigger] entities[j]).entity_id,
        !items_conflict(entities, items),
        !items_self_conflict(items),
    ensures
        ({
            let out = apply_item_upserts(entities, items);
            &&& (forall|i: int, j: int|
                0 <= i < j < out.len() ==> (#[trigger] out[i]).entity_id
                    != (#[trigger] out[j]).entity_id)
            &&& out.len() >= entities.len()
            &&& (forall|i: int|
                0 <= i < entities.len() ==> (#[trigger] out[i]).entity_id == entities[i].entity_id
                    && out[i].entity_type == entities[i].entity_type)
            &&& (forall|i: int|
                0 <= i < out.len() && !items_name(items, (#[trigger] out[i]).entity_id) ==> i
                    < entities.len() && out[i] == entities[i])
            &&& (forall|i: int, k: int|
                0 <= i < out.len() && 0 <= k < items.len() && (#[trigger] out[i]).entity_id
                    == (#[trigger] items[k]).entity_id ==> out[i].entity_type
                    == items[k].entity_type)
            &&& (forall|i: int, k: int|
                0 <= i < out.len() && 0 <= k < items.len() && (#[trigger] out[i]).entity_id
                    == (#[trigger] items[k]).entity_id && last_naming(items, k) ==> out[i].file_id
                    == items[k].file_id)
            &&& (forall|k: int|
                0 <= k < items.len() ==> has_entity(out, (#[trigger] items[k]).entity_id))
        }),
    decreases items.len(),
{
    let out = apply_item_upserts(entities, items);
    if items.len() == 0 {
        assert(out == entities);
    } else {
        let init = items.drop_last();
        let it = items.last();
        assert(!items_conflict(entities, init) && !items_self_conflict(init)) by {
            if items_conflict(entities, init) {
                let k = choose|k: int|
                    0 <= k < init.len() && type_conflict(
                        entities,
                        (#[trigger] init[k]).entity_id,
                        init[k].entity_type,
                    );
                assert(init[k] == items[k]);
                assert(items_conflict(entities, items));
            }
            if items_self_conflict(init) {
                let (a, b) = choose|a: int, b: int|
                    0 <= a < b < init.len() && (#[trigger] init[a]).entity_id
                        == (#[trigger] init[b]).entity_id && init[a].entity_type
                        != init[b].entity_type;
                assert(init[a] == items[a] && init[b] == items[b]);
                assert(items_self_conflict(items));
            }
        }
        lemma_upserts_shape(entities, init);
        let prev = apply_item_upserts(entities, init);
        // a record of the batch never disagrees with `it` about its entity
        assert forall|k: int|
            0 <= k < items.len() && (#[trigger] items[k]).entity_id == it.entity_id implies items[
            k].entity_type == it.entity_type by {
            if k < items.len() - 1 && items[k].entity_type != it.entity_type {
                assert(items_self_conflict(items));
            }
        }
        if has_entity(prev, it.entity_id) {
            let i0 = entity_idx(prev, it.entity_id);
            assert(0 <= i0 < prev.len() && prev[i0].entity_id == it.entity_id);
            assert(out == prev.update(
                i0,
                EntityV {
                    entity_id: it.entity_id,
                    file_id: it.file_id,
                    entity_type: prev[i0].entity_type,
                },
            ));
            // the updated row keeps the kind every naming record agrees on
            assert(prev[i0].entity_type == it.entity_type) by {
                if items_name(init, it.entity_id) {
                    let k0 = choose|k0: int|
                        0 <= k0 < init.len() && (#[trigger] init[k0]).entity_id == it.entity_id;
                    assert(init[k0] == items[k0]);
                    assert(prev[i0].entity_type == init[k0].entity_type);
                } else {
                    assert(prev[i0] == entities[i0]);
                    assert(!type_conflict(entities, it.entity_id, it.entity_type));
                    assert(entities[i0].entity_id == it.entity_id);
                }
            }
            assert forall|i: int|
                0 <= i < out.len() && !items_name(items, (#[trigger] out[i]).entity_id) implies i
                < entities.len() && out[i] == entities[i] by {
                assert(items[items.len() - 1] == it);
                if i == i0 {
                    assert(out[i].entity_id == it.entity_id);
                    assert(items_name(items, out[i].entity_id));
                } else {
                    assert(out[i] == prev[i]);
                    assert(!items_name(init, out[i].entity_id)) by {
                        if items_name(init, out[i].entity_id) {
                            let k0 = choose|k0: int|
                                0 <= k0 < init.len() && (#[trigger] init[k0]).entity_id == out[
                                    i].entity_id;
                            assert(init[k0] == items[k0]);
                        }
                    }
                }
            }
            assert forall|i: int, k: int|
                0 <= i < out.len() && 0 <= k < items.len() && (#[trigger] out[i]).entity_id
                    == (#[trigger] items[k]).entity_id implies out[i].entity_type == items[
                k].entity_type by {
                if i == i0 {
                    assert(out[i].entity_type == prev[i0].entity_type);
                    assert(prev[i0].entity_type == it.entity_type);
                    assert(items[k].entity_type == it.entity_type);
                } else {
                    assert(out[i] == prev[i]);
                    if k == items.len() - 1 {
                        // two rows with `it`'s entity: impossible
                        assert(out[i].entity_id == it.entity_id && prev[i0].entity_id
                            == it.entity_id);
                        if i < i0 {
                            assert(prev[i].entity_id != prev[i0].entity_id);
                        } else {
                            assert(prev[i0].entity_id != prev[i].entity_id);
                        }
                    } else {
                        assert(init[k] == items[k]);
                    }
                }
            }
            assert forall|i: int, k: int|
                0 <= i < out.len() && 0 <= k < items.len() && (#[trigger] out[i]).entity_id
                    == (#[trigger] items[k]).entity_id && last_naming(items, k) implies out[
                i].file_id == items[k].file_id by {
                if i == i0 {
                    // the last record naming this entity is the batch's last
                    assert(out[i].entity_id == it.entity_id);
                    if k < items.len() - 1 {
                        assert(items[items.len() - 1].entity_id != items[k].entity_id);
                    }
                    assert(k == items.len() - 1);
                    assert(out[i].file_id == it.file_id);
                } else {
                    assert(out[i] == prev[i]);
                    if k == items.len() - 1 {
                        if i < i0 {
                            assert(prev[i].entity_id != prev[i0].entity_id);
                        } else {
                            assert(prev[i0].entity_id != prev[i].entity_id);
                        }
                    } else {
                        assert(init[k] == items[k]);
                        assert(last_naming(init, k)) by {
                            assert forall|k2: int| k < k2 < init.len() implies (#[trigger] init[
                                k2]).entity_id != init[k].entity_id by {
                                assert(init[k2] == items[k2]);
                            }
                        }
                    }
                }
            }
            assert forall|k: int| 0 <= k < items.len() implies has_entity(
                out,
                (#[trigger] items[k]).entity_id,
            ) by {
                if k == items.len() - 1 {
                    assert(out[i0].entity_id == it.entity_id);
                } else {
                    assert(init[k] == items[k]);
                    assert(has_entity(prev, items[k].entity_id));
                    let w = choose|w: int|
                        0 <= w < prev.len() && #[trigger] prev[w].entity_id == items[k].entity_id;
                    assert(out[w].entity_id == items[k].entity_id || w == i0);
                    if w == i0 {
                        assert(out[i0].entity_id == it.entity_id);
                        assert(it.entity_id == prev[i0].entity_id);
                    }
                }
            }
        } else {
            assert(out == prev.push(
                EntityV {
                    entity_id: it.entity_id,
                    file_id: it.file_id,
                    entity_type: it.entity_type,
                },
            ));
            let np = prev.len() as int;
            assert(forall|i: int| 0 <= i < np ==> (#[trigger] prev[i]).entity_id != it.entity_id);
            assert forall|i: int|
                0 <= i < out.len() && !items_name(items, (#[trigger] out[i]).entity_id) implies i
                < entities.len() && out[i] == entities[i] by {
                assert(items[items.len() - 1] == it);
                if i == np {
                    assert(out[i].entity_id == it.entity_id);
                    assert(items_name(items, out[i].entity_id));
                } else {
                    assert(out[i] == prev[i]);
                    assert(!items_name(init, out[i].entity_id)) by {
                        if items_name(init, out[i].entity_id) {
                            let k0 = choose|k0: int|
                                0 <= k0 < init.len() && (#[trigger] init[k0]).entity_id == out[
                                    i].entity_id;
                            assert(init[k0] == items[k0]);
                        }
                    }
                }
            }
            assert forall|i: int, k: int|
                0 <= i < out.len() && 0 <= k < items.len() && (#[trigger] out[i]).entity_id
                    == (#[trigger] items[k]).entity_id implies out[i].entity_type == items[
                k].entity_type by {
                if i == np {
                    assert(out[i].entity_type == it.entity_type);
                } else {
                    assert(out[i] == prev[i]);
                    if k == items.len() - 1 {
                        assert(prev[i].entity_id != it.entity_id);
                        assert(false);
                    } else {
                        assert(init[k] == items[k]);
                    }
                }
            }
            assert forall|i: int, k: int|
                0 <= i < out.len() && 0 <= k < items.len() && (#[trigger] out[i]).entity_id
                    == (#[trigger] items[k]).entity_id && last_naming(items, k) implies out[
                i].file_id == items[k].file_id by {
                if i == np {
                    if k < items.len() - 1 {
                        assert(items[items.len() - 1].entity_id != items[k].entity_id);
                    }
                    assert(k == items.len() - 1);
                    assert(out[i].file_id == it.file_id);
                } else {
                    assert(out[i] == prev[i]);
                    if k == items.len() - 1 {
                        assert(prev[i].entity_id != it.entity_id);
                        assert(false);
                    } else {
                        assert(init[k] == items[k]);
                        assert(last_naming(init, k)) by {
                            assert forall|k2: int| k < k2 < init.len() implies (#[trigger] init[
                                k2]).entity_id != init[k].entity_id by {
                                assert(init[k2] == items[k2]);
                            }
                        }
                    }
                }
            }
            assert forall|k: int| 0 <= k < items.len() implies has_entity(
                out,
                (#[trigger] items[k]).entity_id,
            ) by {
                if k == items.len() - 1 {
                    assert(out[np].entity_id == it.entity_id);
                } else {
                    assert(init[k] == items[k]);
                    assert(has_entity(prev, items[k].entity_id));
                    let w = choose|w: int|
                        0 <= w < prev.len() && #[trigger] prev[w].entity_id == items[k].entity_id;
                    assert(out[w].entity_id == items[k].entity_id);
                }
            }
        }
    }
}

/// Upserting a batch the table already absorbed changes nothing further.
proof fn lemma_upserts_idempotent(entities: Seq<EntityV>, items: Seq<ItemV>)
    requires
        forall|i: int, j: int|
            0 <= i < j < entities.len() ==> (#[trigger] entities[i]).entity_id
                != (#[trigger] entities[j]).entity_id,
        !items_conflict(entities, items),
        !items_self_conflict(items),
    ensures
        apply_item_upserts(apply_item_upserts(entities, items), items) == apply_item_upserts(
            entities,
            items,
        ),
        !items_conflict(apply_item_upserts(entities, items), items),
{
    let out = apply_item_upserts(entities, items);
    lemma_upserts_shape(entities, items);
    assert(!items_conflict(out, items)) by {
        if items_conflict(out, items) {
            let k = choose|k: int|
                0 <= k < items.len() && type_conflict(
                    out,
                    (#[trigger] items[k]).entity_id,
                    items[k].entity_type,
                );
            let i = choose|i: int|
                0 <= i < out.len() && (#[trigger] out[i]).entity_id == items[k].entity_id && out[
                    i].entity_type != items[k].entity_type;
        }
    }
    lemma_upserts_shape(out, items);
    let out2 = apply_item_upserts(out, items);
    // nothing new is appended: every named entity already has a row
    assert(out2.len() == out.len()) by {
        if out2.len() > out.len() {
            let i = out.len() as int;
            assert(items_name(items, out2[i].entity_id)) by {
                if !items_name(items, out2[i].entity_id) {
                    assert(i < out.len());
                }
            }
            let k = choose|k: int|
                0 <= k < items.len() && (#[trigger] items[k]).entity_id == out2[i].entity_id;
            assert(has_entity(out, items[k].entity_id));
            let w = choose|w: int|
                0 <= w < out.len() && #[trigger] out[w].entity_id == items[k].entity_id;
            assert(out2[w].entity_id == out[w].entity_id);
            assert(out2[w].entity_id == out2[i].entity_id && w < i);
        }
    }
    assert forall|i: int| 0 <= i < out.len() implies out2[i] == out[i] by {
        assert(out2[i].entity_id == out[i].entity_id && out2[i].entity_type == out[i].entity_type);
        if items_name(items, out[i].entity_id) {
            lemma_last_occurrence(items, out[i].entity_id);
            let k = choose|k: int|
                0 <= k < items.len() && (#[trigger] items[k]).entity_id == out[i].entity_id
                    && last_naming(items, k);
            assert(out[i].file_id == items[k].file_id);
            assert(out2[i].file_id == items[k].file_id);
        } else {
            assert(out2[i] == out[i]);
        }
        assert(out2[i] =~~= out[i]);
    }
    assert(out2 =~~= out);
}

/// Inserting the batch's usage rows keeps every existing pair present and
/// leaves every record's pair present.
proof fn lemma_insert_stats_has(stats: Seq<StatV>, u: Seq<char>, items: Seq<ItemV>)
    ensures
        forall|uu: Seq<char>, x: Seq<char>|
            has_stat(stats, uu, x) ==> has_stat(insert_item_stats(stats, u, items), uu, x),
        forall|k: int|
            0 <= k < items.len() ==> has_stat(
                insert_item_stats(stats, u, items),
                u,
                (#[trigger] items[k]).entity_id,
            ),
    decreases items.len(),
{
    if items.len() > 0 {
        lemma_insert_stats_has(stats, u, items.drop_last());
        let prev = insert_item_stats(stats, u, items.drop_last());
        let it = items.last();
        let out = insert_item_stats(stats, u, items);
        assert forall|uu: Seq<char>, x: Seq<char>| has_stat(prev, uu, x) implies has_stat(
            out,
            uu,
            x,
        ) by {
            let w = choose|w: int|
                0 <= w < prev.len() && #[trigger] prev[w].user_id == uu && prev[w].entity_id == x;
            assert(out[w].user_id == uu && out[w].entity_id == x);
        }
        if !has_stat(prev, u, it.entity_id) {
            assert(out[prev.len() as int].user_id == u && out[prev.len() as int].entity_id
                == it.entity_id);
        }
        assert forall|k: int| 0 <= k < items.len() implies has_stat(
            out,
            u,
            (#[trigger] items[k]).entity_id,
        ) by {
            if k < items.len() - 1 {
                assert(items.drop_last()[k] == items[k]);
                assert(has_stat(prev, u, items[k].entity_id));
            }
        }
    }
}

/// Linking one record's tags keeps every recorded fact and records each of
/// the given names.
proof fn lemma_add_assocs_one_has(
    assocs: Seq<AssocV>,
    u: Seq<char>,
    e: Seq<char>,
    names: Seq<Seq<char>>,
)
    ensures
        forall|uu: Seq<char>, ee: Seq<char>, t: Seq<char>|
            has_assoc(assocs, uu, ee, t) ==> has_assoc(add_assocs_one(assocs, u, e, names), uu, ee, t),
        forall|l: int|
            0 <= l < names.len() ==> has_assoc(
                add_assocs_one(assocs, u, e, names),
                u,
                e,
                #[trigger] names[l],
            ),
    decreases names.len(),
{
    if names.len() > 0 {
        lemma_add_assocs_one_has(assocs, u, e, names.drop_last());
        let prev = add_assocs_one(assocs, u, e, names.drop_last());
        let out = add_assocs_one(assocs, u, e, names);
        assert forall|uu: Seq<char>, ee: Seq<char>, t: Seq<char>|
            has_assoc(prev, uu, ee, t) implies has_assoc(out, uu, ee, t) by {
            let w = choose|w: int|
                0 <= w < prev.len() && #[trigger] prev[w].user_id == uu && prev[w].entity_id == ee
                    && prev[w].tag_name == t;
            assert(out[w].user_id == uu && out[w].entity_id == ee && out[w].tag_name == t);
        }
        if !has_assoc(prev, u, e, names.last()) {
            assert(out[prev.len() as int].user_id == u && out[prev.len() as int].entity_id == e
                && out[prev.len() as int].tag_name == names.last());
        }
        assert forall|l: int| 0 <= l < names.len() implies has_assoc(
            out,
            u,
            e,
            #[trigger] names[l],
        ) by {
            if l < names.len() - 1 {
                assert(names.drop_last()[l] == names[l]);
                assert(has_assoc(prev, u, e, names[l]));
            }
        }
    }
}

/// Linking the whole batch keeps every recorded fact and records every
/// record's normalized tags.
proof fn lemma_add_item_assocs_has(assocs: Seq<AssocV>, u: Seq<char>, items: Seq<ItemV>)
    ensures
        forall|uu: Seq<char>, ee: Seq<char>, t: Seq<char>|
            has_assoc(assocs, uu, ee, t) ==> has_assoc(add_item_assocs(assocs, u, items), uu, ee, t),
        forall|k: int, l: int|
            0 <= k < items.len() && 0 <= l < (#[trigger] items[k]).tags.len() ==> has_assoc(
                add_item_assocs(assocs, u, items),
                u,
                items[k].entity_id,
                normal_tag(#[trigger] items[k].tags[l]),
            ),
    decreases items.len(),
{
    if items.len() > 0 {
        lemma_add_item_assocs_has(assocs, u, items.drop_last());
        let prev = add_item_assocs(assocs, u, items.drop_last());
        let it = items.last();
        let nts = it.tags.map_values(|t: Seq<char>| normal_tag(t));
        let out = add_item_assocs(assocs, u, items);
        lemma_add_assocs_one_has(prev, u, it.entity_id, nts);
        assert forall|k: int, l: int|
            0 <= k < items.len() && 0 <= l < (#[trigger] items[k]).tags.len() implies has_assoc(
            out,
            u,
            items[k].entity_id,
            normal_tag(#[trigger] items[k].tags[l]),
        ) by {
            if k < items.len() - 1 {
                assert(items.drop_last()[k] == items[k]);
                assert(has_assoc(prev, u, items[k].entity_id, normal_tag(items[k].tags[l])));
            } else {
                assert(nts[l] == normal_tag(it.tags[l]));
                assert(has_assoc(out, u, it.entity_id, nts[l]));
            }
        }
    }
}

/// A batch that imports cleanly imports again as a no-op: running the very
/// same records a second time succeeds and returns the same store — the
/// record import is idempotent.
pub proof fn lemma_import_idempotent(m: StoreModel, u: Seq<char>, items: Seq<ItemV>)
    requires
        m.wf(),
        import_records_m(m, u, items) is Ok,
    ensures
        import_records_m(import_records_m(m, u, items)->Ok_0, u, items) == import_records_m(
            m,
            u,
            items,
        ),
{
    let m2 = import_records_m(m, u, items)->Ok_0;
    crate::store::lemma_ensure_tags_idempotent(m.tags, all_normal_tags(items));
    lemma_upserts_idempotent(m.entities, items);
    lemma_insert_stats_has(m.stats, u, items);
    lemma_stats_noop(m2.stats, u, items);
    lemma_add_item_assocs_has(m.assocs, u, items);
    lemma_item_assocs_noop(m2.assocs, u, items);
    assert(import_records_m(m2, u, items)->Ok_0 =~~= m2);
}

/// Importing the same snapshot twice: a payload that imported cleanly
/// imports again as a no-op on the store it produced.
pub proof fn lemma_import_bytes_idempotent(m: StoreModel, u: Seq<char>, b: Seq<u8>)
    requires
        m.wf(),
        import_bytes_m(m, u, b) is Ok,
    ensures
        import_bytes_m(import_bytes_m(m, u, b)->Ok_0, u, b) == import_bytes_m(m, u, b),
{
    let text = gunzip_text_of(b)->0;
    let items = parse_export(text)->0;
    lemma_import_idempotent(m, u, items);
}

/// A third-party file that imported cleanly imports again as a no-op: its
/// records run through the same idempotent record import.
pub proof fn lemma_qs_import_idempotent(m: StoreModel, u: Seq<char>, b: Seq<u8>)
    requires
        m.wf(),
        qs_import_m(m, u, b) is Ok,
    ensures
        qs_import_m(qs_import_m(m, u, b)->Ok_0, u, b) == qs_import_m(m, u, b),
{
    let text = utf8_text_of(b)->0;
    let qs = parse_qs_export(text)->0;
    lemma_import_idempotent(m, u, qs.map_values(|q: QsItemV| qs_to_item(q)));
}

/// Clone a list of strings.
fn clone_strings(v: &Vec<String>) -> (r: Vec<String>)
    ensures
        r@.map_values(|s: String| s@) == v@.map_values(|s: String| s@),
{
    let mut r: Vec<String> = Vec::new();
    let n = v.len();
    for i in 0..n
        invariant
            n == v@.len(),
            r@.map_values(|s: String| s@) == v@.map_values(|s: String| s@).take(i as int),
    {
        r.push(v[i].clone());
        proof {
            crate::seq_util::lemma_take_push(v@.map_values(|s: String| s@), i as int);
            assert(r@.map_values(|s: String| s@) =~= v@.map_values(|s: String| s@).take(i + 1));
        }
    }
    proof {
        assert(v@.map_values(|s: String| s@).take(n as int) =~= v@.map_values(|s: String| s@));
    }
    r
}

} // verus!
