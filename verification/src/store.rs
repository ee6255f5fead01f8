//! The tag store: an in-memory image of the four tables the service keeps —
//! the tag dictionary, the entity records, the per-user entity/tag
//! associations, and the per-user usage statistics — together with the
//! per-user bookkeeping row for the repair cooldown.
//!
//! Every operation is specified against a mathematical model of the store
//! ([`StoreModel`]) and is atomic: it either applies completely or, when it
//! reports an error, leaves the store untouched.

use vstd::prelude::*;

use crate::types::{EntityStat, EntityType, InsertEntity, StoreError};

verus! {

/// One row of the entity table: a stable identifier, the current (volatile)
/// file reference, and the immutable media kind.
#[derive(Debug, Clone, PartialEq)]
pub struct EntityRow {
    pub entity_id: String,
    pub file_id: String,
    pub entity_type: EntityType,
}

/// One row of the association table: "for this user, this entity carries this
/// tag".
#[derive(Debug, Clone, PartialEq)]
pub struct AssocRow {
    pub user_id: String,
    pub entity_id: String,
    pub tag_name: String,
}

/// One row of the per-user bookkeeping table.
#[derive(Debug, Clone, PartialEq)]
pub struct UserRow {
    pub user_id: String,
    pub last_fixed_time: i64,
}

/// Model of an entity row.
#[verifier::ext_equal]
pub struct EntityV {
    pub entity_id: Seq<char>,
    pub file_id: Seq<char>,
    pub entity_type: EntityType,
}

/// Model of an association row.
#[verifier::ext_equal]
pub struct AssocV {
    pub user_id: Seq<char>,
    pub entity_id: Seq<char>,
    pub tag_name: Seq<char>,
}

/// Model of a usage-statistics row.
#[verifier::ext_equal]
pub struct StatV {
    pub user_id: Seq<char>,
    pub entity_id: Seq<char>,
    pub count: int,
    pub last_used: int,
    pub created_at: int,
}

/// Model of a bookkeeping row.
#[verifier::ext_equal]
pub struct UserV {
    pub user_id: Seq<char>,
    pub last_fixed_time: int,
}

/// Model of an entity handed in for tagging.
#[verifier::ext_equal]
pub struct InsV {
    pub entity_id: Seq<char>,
    pub file_id: Seq<char>,
}

/// Model of a search result row: an entity decorated with the user the
/// query ran for.
#[verifier::ext_equal]
pub struct EntityOutV {
    pub entity_id: Seq<char>,
    pub file_id: Seq<char>,
    pub user_id: Seq<char>,
    pub entity_type: EntityType,
}

impl View for crate::types::Entity {
    type V = EntityOutV;

    open spec fn view(&self) -> EntityOutV {
        EntityOutV {
            entity_id: self.entity_id@,
            file_id: self.file_id@,
            user_id: self.user_id@,
            entity_type: self.entity_type,
        }
    }
}

impl View for EntityRow {
    type V = EntityV;

    open spec fn view(&self) -> EntityV {
        EntityV {
            entity_id: self.entity_id@,
            file_id: self.file_id@,
            entity_type: self.entity_type,
        }
    }
}

impl View for AssocRow {
    type V = AssocV;

    open spec fn view(&self) -> AssocV {
        AssocV {
            user_id: self.user_id@,
            entity_id: self.entity_id@,
            tag_name: self.tag_name@,
        }
    }
}

impl View for EntityStat {
    type V = StatV;

    open spec fn view(&self) -> StatV {
        StatV {
            user_id: self.user_id@,
            entity_id: self.entity_id@,
            count: self.count as int,
            last_used: self.last_used as int,
            created_at: self.created_at as int,
        }
    }
}

impl View for UserRow {
    type V = UserV;

    open spec fn view(&self) -> UserV {
        UserV { user_id: self.user_id@, last_fixed_time: self.last_fixed_time as int }
    }
}

impl View for InsertEntity {
    type V = InsV;

    open spec fn view(&self) -> InsV {
        InsV { entity_id: self.entity_id@, file_id: self.file_id@ }
    }
}

/// The mathematical model of the whole store.
#[verifier::ext_equal]
pub struct StoreModel {
    pub tags: Seq<Seq<char>>,
    pub entities: Seq<EntityV>,
    pub assocs: Seq<AssocV>,
    pub stats: Seq<StatV>,
    pub users: Seq<UserV>,
}

/// The store itself. The handle every operation takes the place of a shared
/// database connection; the caller owns it for the life of the process.
#[derive(Debug, Clone, PartialEq)]
pub struct Store {
    pub tags: Vec<String>,
    pub entities: Vec<EntityRow>,
    pub assocs: Vec<AssocRow>,
    pub stats: Vec<EntityStat>,
    pub users: Vec<UserRow>,
}

impl View for Store {
    type V = StoreModel;

    open spec fn view(&self) -> StoreModel {
        StoreModel {
            tags: self.tags@.map_values(|t: String| t@),
            entities: self.entities@.map_values(|r: EntityRow| r@),
            assocs: self.assocs@.map_values(|r: AssocRow| r@),
            stats: self.stats@.map_values(|r: EntityStat| r@),
            users: self.users@.map_values(|r: UserRow| r@),
        }
    }
}

/// Two association rows state the same fact.
pub open spec fn assoc_same(a: AssocV, b: AssocV) -> bool {
    a.user_id == b.user_id && a.entity_id == b.entity_id && a.tag_name == b.tag_name
}

/// An entity with this identifier exists.
pub open spec fn has_entity(entities: Seq<EntityV>, id: Seq<char>) -> bool {
    exists|i: int| 0 <= i < entities.len() && #[trigger] entities[i].entity_id == id
}

/// The index of the entity with this identifier (meaningful only when
/// `has_entity` holds; unique under `wf`).
pub open spec fn entity_idx(entities: Seq<EntityV>, id: Seq<char>) -> int {
    choose|i: int| 0 <= i < entities.len() && #[trigger] entities[i].entity_id == id
}

/// A usage row for this user/entity pair exists.
pub open spec fn has_stat(stats: Seq<StatV>, u: Seq<char>, e: Seq<char>) -> bool {
    exists|i: int|
        0 <= i < stats.len() && #[trigger] stats[i].user_id == u && stats[i].entity_id == e
}

/// The index of the usage row for this pair (meaningful only when `has_stat`
/// holds; unique under `wf`).
pub open spec fn stat_idx(stats: Seq<StatV>, u: Seq<char>, e: Seq<char>) -> int {
    choose|i: int|
        0 <= i < stats.len() && #[trigger] stats[i].user_id == u && stats[i].entity_id == e
}

/// This association fact is recorded.
pub open spec fn has_assoc(assocs: Seq<AssocV>, u: Seq<char>, e: Seq<char>, t: Seq<char>) -> bool {
    exists|i: int|
        0 <= i < assocs.len() && #[trigger] assocs[i].user_id == u && assocs[i].entity_id == e
            && assocs[i].tag_name == t
}

/// A bookkeeping row for this user exists.
pub open spec fn has_user(users: Seq<UserV>, u: Seq<char>) -> bool {
    exists|i: int| 0 <= i < users.len() && #[trigger] users[i].user_id == u
}

/// The index of the bookkeeping row for this user.
pub open spec fn user_idx(users: Seq<UserV>, u: Seq<char>) -> int {
    choose|i: int| 0 <= i < users.len() && #[trigger] users[i].user_id == u
}

impl StoreModel {
    /// Well-formedness: each table is keyed (no duplicate key), every
    /// association refers to an existing tag, entity and usage row, and all
    /// counters and times are non-negative.
    pub open spec fn wf(self) -> bool {
        &&& self.tags.no_duplicates()
        &&& (forall|i: int, j: int|
            0 <= i < j < self.entities.len() ==> #[trigger] self.entities[i].entity_id
                != #[trigger] self.entities[j].entity_id)
        &&& (forall|i: int, j: int|
            0 <= i < j < self.assocs.len() ==> !assoc_same(
                #[trigger] self.assocs[i],
                #[trigger] self.assocs[j],
            ))
        &&& (forall|k: int|
            0 <= k < self.assocs.len() ==> self.tags.contains(#[trigger] self.assocs[k].tag_name))
        &&& (forall|k: int|
            0 <= k < self.assocs.len() ==> has_entity(
                self.entities,
                #[trigger] self.assocs[k].entity_id,
            ))
        &&& (forall|k: int|
            0 <= k < self.assocs.len() ==> has_stat(
                self.stats,
                (#[trigger] self.assocs[k]).user_id,
                self.assocs[k].entity_id,
            ))
        &&& (forall|i: int, j: int|
            0 <= i < j < self.stats.len() ==> !(#[trigger] self.stats[i].user_id
                == #[trigger] self.stats[j].user_id && self.stats[i].entity_id
                == self.stats[j].entity_id))
        &&& (forall|i: int|
            0 <= i < self.stats.len() ==> 0 <= #[trigger] self.stats[i].count && 0
                <= self.stats[i].last_used && 0 <= self.stats[i].created_at)
        &&& (forall|i: int, j: int|
            0 <= i < j < self.users.len() ==> #[trigger] self.users[i].user_id
                != #[trigger] self.users[j].user_id)
        &&& (forall|i: int| 0 <= i < self.users.len() ==> 0 <= #[trigger] self.users[i].last_fixed_time)
    }
}

impl Store {
    /// An empty store.
    pub fn new() -> (r: Store)
        ensures
            r@.wf(),
            r@.tags == Seq::<Seq<char>>::empty(),
            r@.entities == Seq::<EntityV>::empty(),
            r@.assocs == Seq::<AssocV>::empty(),
            r@.stats == Seq::<StatV>::empty(),
            r@.users == Seq::<UserV>::empty(),
    {
        let r = Store {
            tags: Vec::new(),
            entities: Vec::new(),
            assocs: Vec::new(),
            stats: Vec::new(),
            users: Vec::new(),
        };
        proof {
            assert(r@.tags =~= Seq::<Seq<char>>::empty());
            assert(r@.entities =~= Seq::<EntityV>::empty());
            assert(r@.assocs =~= Seq::<AssocV>::empty());
            assert(r@.stats =~= Seq::<StatV>::empty());
            assert(r@.users =~= Seq::<UserV>::empty());
        }
        r
    }
}

/// The dictionary after lazily creating each of `names` in turn: a name
/// already present is left alone, a new one is appended.
pub open spec fn ensure_tags_m(tags: Seq<Seq<char>>, names: Seq<Seq<char>>) -> Seq<Seq<char>>
    decreases names.len(),
{
    if names.len() == 0 {
        tags
    } else {
        let prev = ensure_tags_m(tags, names.drop_last());
        if prev.contains(names.last()) {
            prev
        } else {
            prev.push(names.last())
        }
    }
}

/// Creating tags only appends: whatever the dictionary contained it still
/// contains, it stays duplicate-free, and afterwards every requested name is
/// present.
pub proof fn lemma_ensure_tags_m_props(tags: Seq<Seq<char>>, names: Seq<Seq<char>>)
    ensures
        forall|x: Seq<char>|
            ensure_tags_m(tags, names).contains(x) <==> tags.contains(x) || names.contains(x),
        tags.no_duplicates() ==> ensure_tags_m(tags, names).no_duplicates(),
        tags.is_prefix_of(ensure_tags_m(tags, names)),
    decreases names.len(),
{
    if names.len() == 0 {
    } else {
        lemma_ensure_tags_m_props(tags, names.drop_last());
        let prev = ensure_tags_m(tags, names.drop_last());
        let out = ensure_tags_m(tags, names);
        assert forall|x: Seq<char>| out.contains(x) implies tags.contains(x) || names.contains(
            x,
        ) by {
            if prev.contains(x) {
                if names.drop_last().contains(x) {
                    let j = choose|j: int|
                        0 <= j < names.drop_last().len() && names.drop_last()[j] == x;
                    assert(names[j] == x);
                }
            } else {
                assert(x == names.last());
            }
        }
        assert forall|x: Seq<char>| tags.contains(x) || names.contains(x) implies out.contains(
            x,
        ) by {
            if tags.contains(x) {
                assert(prev.contains(x));
                if !prev.contains(names.last()) {
                    let j = choose|j: int| 0 <= j < prev.len() && prev[j] == x;
                    assert(out[j] == x);
                }
            } else {
                let j = choose|j: int| 0 <= j < names.len() && names[j] == x;
                if j < names.len() - 1 {
                    assert(names.drop_last()[j] == x);
                    assert(prev.contains(x));
                    if !prev.contains(names.last()) {
                        let k = choose|k: int| 0 <= k < prev.len() && prev[k] == x;
                        assert(out[k] == x);
                    }
                } else {
                    assert(x == names.last());
                    if prev.contains(x) {
                    } else {
                        assert(out.last() == x);
                    }
                }
            }
        }
        if tags.no_duplicates() {
            if !prev.contains(names.last()) {
                assert(out.no_duplicates()) by {
                    assert forall|i: int, j: int| 0 <= i < j < out.len() implies out[i]
                        != out[j] by {
                        if j == out.len() - 1 {
                            assert(out[i] == prev[i]);
                            assert(prev.contains(prev[i]));
                        }
                    }
                }
            }
        }
    }
}

/// Creating tags that all exist already changes nothing.
pub proof fn lemma_ensure_tags_m_noop(tags: Seq<Seq<char>>, names: Seq<Seq<char>>)
    requires
        forall|k: int| 0 <= k < names.len() ==> tags.contains(#[trigger] names[k]),
    ensures
        ensure_tags_m(tags, names) == tags,
    decreases names.len(),
{
    if names.len() > 0 {
        assert forall|k: int| 0 <= k < names.drop_last().len() implies tags.contains(
            #[trigger] names.drop_last()[k],
        ) by {
            assert(names.drop_last()[k] == names[k]);
        }
        lemma_ensure_tags_m_noop(tags, names.drop_last());
        assert(tags.contains(names[names.len() - 1]));
    }
}

/// Lazy tag creation is idempotent: running the same names through the
/// dictionary twice leaves exactly what one run left — in particular, no
/// duplicate dictionary rows.
pub proof fn lemma_ensure_tags_idempotent(tags: Seq<Seq<char>>, names: Seq<Seq<char>>)
    ensures
        ensure_tags_m(ensure_tags_m(tags, names), names) == ensure_tags_m(tags, names),
{
    lemma_ensure_tags_m_props(tags, names);
    let once = ensure_tags_m(tags, names);
    assert forall|k: int| 0 <= k < names.len() implies once.contains(#[trigger] names[k]) by {
        assert(names.contains(names[k]));
    }
    lemma_ensure_tags_m_noop(once, names);
}

/// Some existing entity already carries this identifier with another media
/// kind.
pub open spec fn type_conflict(entities: Seq<EntityV>, id: Seq<char>, ty: EntityType) -> bool {
    exists|i: int|
        0 <= i < entities.len() && (#[trigger] entities[i]).entity_id == id
            && entities[i].entity_type != ty
}

/// Some entity of the batch collides with an existing entity of another kind.
pub open spec fn any_conflict(entities: Seq<EntityV>, items: Seq<InsV>, ty: EntityType) -> bool {
    exists|j: int| 0 <= j < items.len() && type_conflict(entities, (#[trigger] items[j]).entity_id, ty)
}

/// The entity table after upserting each item in turn: an existing row keeps
/// its kind and has its file reference overwritten, a missing one is appended
/// with the given kind.
pub open spec fn apply_upserts(entities: Seq<EntityV>, items: Seq<InsV>, ty: EntityType) -> Seq<
    EntityV,
>
    decreases items.len(),
{
    if items.len() == 0 {
        entities
    } else {
        let prev = apply_upserts(entities, items.drop_last(), ty);
        let it = items.last();
        if has_entity(prev, it.entity_id) {
            let i = entity_idx(prev, it.entity_id);
            prev.update(
                i,
                EntityV {
                    entity_id: it.entity_id,
                    file_id: it.file_id,
                    entity_type: prev[i].entity_type,
                },
            )
        } else {
            prev.push(EntityV { entity_id: it.entity_id, file_id: it.file_id, entity_type: ty })
        }
    }
}

/// The usage table after making sure each item's pair has a row: a missing
/// pair gets a fresh zero row created now, an existing one is left alone.
pub open spec fn ensure_stats_m(
    stats: Seq<StatV>,
    u: Seq<char>,
    items: Seq<InsV>,
    now: int,
) -> Seq<StatV>
    decreases items.len(),
{
    if items.len() == 0 {
        stats
    } else {
        let prev = ensure_stats_m(stats, u, items.drop_last(), now);
        let it = items.last();
        if has_stat(prev, u, it.entity_id) {
            prev
        } else {
            prev.push(
                StatV {
                    user_id: u,
                    entity_id: it.entity_id,
                    count: 0,
                    last_used: 0,
                    created_at: now,
                },
            )
        }
    }
}

/// The association table after linking one entity to each tag name in turn,
/// skipping links that already exist.
pub open spec fn add_assocs_one(
    assocs: Seq<AssocV>,
    u: Seq<char>,
    e: Seq<char>,
    names: Seq<Seq<char>>,
) -> Seq<AssocV>
    decreases names.len(),
{
    if names.len() == 0 {
        assocs
    } else {
        let prev = add_assocs_one(assocs, u, e, names.drop_last());
        if has_assoc(prev, u, e, names.last()) {
            prev
        } else {
            prev.push(AssocV { user_id: u, entity_id: e, tag_name: names.last() })
        }
    }
}

/// The association table after linking every item to every tag name.
pub open spec fn add_assocs_m(
    assocs: Seq<AssocV>,
    u: Seq<char>,
    items: Seq<InsV>,
    names: Seq<Seq<char>>,
) -> Seq<AssocV>
    decreases items.len(),
{
    if items.len() == 0 {
        assocs
    } else {
        let prev = add_assocs_m(assocs, u, items.drop_last(), names);
        add_assocs_one(prev, u, items.last().entity_id, names)
    }
}

/// What tagging a batch of entities does to the store, as one atomic unit: on
/// an empty batch or empty tag list, nothing (a no-op, not an error); when
/// some entity of the batch would change its media kind, nothing and the call
/// fails; otherwise tags are created lazily, entities upserted, missing usage
/// rows created, and the new association facts recorded.
pub open spec fn insert_tags_m(
    m: StoreModel,
    u: Seq<char>,
    items: Seq<InsV>,
    ty: EntityType,
    names: Seq<Seq<char>>,
    now: int,
) -> Option<StoreModel> {
    if items.len() == 0 || names.len() == 0 {
        Some(m)
    } else if any_conflict(m.entities, items, ty) {
        None
    } else {
        Some(
            StoreModel {
                tags: ensure_tags_m(m.tags, names),
                entities: apply_upserts(m.entities, items, ty),
                assocs: add_assocs_m(m.assocs, u, items, names),
                stats: ensure_stats_m(m.stats, u, items, now),
                users: m.users,
            },
        )
    }
}

/// Find the entity row holding `id`.
pub(crate) fn find_entity_idx(entities: &Vec<EntityRow>, id: &String) -> (r: Option<usize>)
    ensures
        match r {
            Some(i) => i < entities@.len() && entities@[i as int].entity_id@ == id@,
            None => forall|j: int|
                0 <= j < entities@.len() ==> (#[trigger] entities@[j]).entity_id@ != id@,
        },
{
    let n = entities.len();
    for i in 0..n
        invariant
            n == entities@.len(),
            forall|j: int| 0 <= j < i ==> (#[trigger] entities@[j]).entity_id@ != id@,
    {
        if entities[i].entity_id == *id {
            return Some(i);
        }
    }
    None
}

/// Find the usage row for a user/entity pair.
pub(crate) fn find_stat_idx(stats: &Vec<EntityStat>, u: &String, e: &String) -> (r: Option<usize>)
    ensures
        match r {
            Some(i) => i < stats@.len() && stats@[i as int].user_id@ == u@
                && stats@[i as int].entity_id@ == e@,
            None => forall|j: int|
                0 <= j < stats@.len() ==> !((#[trigger] stats@[j]).user_id@ == u@
                    && stats@[j].entity_id@ == e@),
        },
{
    let n = stats.len();
    for i in 0..n
        invariant
            n == stats@.len(),
            forall|j: int|
                0 <= j < i ==> !((#[trigger] stats@[j]).user_id@ == u@ && stats@[j].entity_id@
                    == e@),
    {
        if stats[i].user_id == *u && stats[i].entity_id == *e {
            return Some(i);
        }
    }
    None
}

/// Is this association fact already recorded?
pub(crate) fn has_assoc_exec(assocs: &Vec<AssocRow>, u: &String, e: &String, t: &String) -> (r:
    bool)
    ensures
        r == has_assoc(assocs@.map_values(|a: AssocRow| a@), u@, e@, t@),
{
    let ghost av = assocs@.map_values(|a: AssocRow| a@);
    let n = assocs.len();
    for i in 0..n
        invariant
            n == assocs@.len(),
            av == assocs@.map_values(|a: AssocRow| a@),
            forall|j: int|
                0 <= j < i ==> !((#[trigger] av[j]).user_id == u@ && av[j].entity_id == e@
                    && av[j].tag_name == t@),
    {
        if assocs[i].user_id == *u && assocs[i].entity_id == *e && assocs[i].tag_name == *t {
            proof {
                assert(av[i as int].user_id == u@ && av[i as int].entity_id == e@
                    && av[i as int].tag_name == t@);
            }
            return true;
        }
    }
    false
}

/// Find the dictionary row holding `name`.
fn find_tag_idx(tags: &Vec<String>, name: &String) -> (r: Option<usize>)
    ensures
        match r {
            Some(i) => i < tags@.len() && tags@[i as int]@ == name@,
            None => forall|j: int| 0 <= j < tags@.len() ==> #[trigger] tags@[j]@ != name@,
        },
{
    let n = tags.len();
    for i in 0..n
        invariant
            n == tags@.len(),
            forall|j: int| 0 <= j < i ==> #[trigger] tags@[j]@ != name@,
    {
        if tags[i] == *name {
            return Some(i);
        }
    }
    None
}

/// Lazily create every name in `names` in the tag dictionary. Inserting a
/// name that is already present is a no-op, never an error.
pub fn ensure_tags(store: &mut Store, names: &Vec<String>)
    requires
        old(store)@.wf(),
    ensures
        final(store)@.wf(),
        final(store)@ == (StoreModel {
            tags: ensure_tags_m(old(store)@.tags, names@.map_values(|s: String| s@)),
            ..old(store)@
        }),
{
    let ghost orig = store@.tags;
    let ghost names_v = names@.map_values(|s: String| s@);
    let n = names.len();
    for i in 0..n
        invariant
            n == names@.len(),
            names_v == names@.map_values(|s: String| s@),
            store@.tags == ensure_tags_m(orig, names_v.take(i as int)),
            store@ == (StoreModel { tags: store@.tags, ..old(store)@ }),
            old(store)@.wf(),
            store@.tags.no_duplicates(),
            forall|x: Seq<char>| orig.contains(x) ==> store@.tags.contains(x),
    {
        proof {
            crate::seq_util::lemma_take_push(names_v, i as int);
            assert(names_v.take(i + 1).drop_last() =~= names_v.take(i as int));
            lemma_ensure_tags_m_props(orig, names_v.take(i as int));
        }
        let ghost before = store@.tags;
        match find_tag_idx(&store.tags, &names[i]) {
            Some(k) => {
                proof {
                    assert(before[k as int] == names_v[i as int]);
                    assert(before.contains(names_v[i as int]));
                }
            },
            None => {
                proof {
                    assert forall|j: int|
                        0 <= j < before.len() implies #[trigger] before[j]
                        != names_v[i as int] by {
                        assert(before[j] == store.tags@[j]@);
                    }
                    assert(!before.contains(names_v[i as int]));
                }
                store.tags.push(names[i].clone());
                proof {
                    assert(store@.tags =~= before.push(names_v[i as int]));
                    assert(store@.tags.no_duplicates());
                    assert forall|x: Seq<char>| orig.contains(x) implies store@.tags.contains(
                        x,
                    ) by {
                        let j = choose|j: int| 0 <= j < before.len() && before[j] == x;
                        assert(store@.tags[j] == x);
                    }
                }
            },
        }
        proof {
            assert(store@ =~= (StoreModel { tags: store@.tags, ..old(store)@ }));
        }
    }
    proof {
        crate::seq_util::lemma_take_full(names_v);
        lemma_ensure_tags_m_props(orig, names_v);
        // the association references stay valid: the dictionary only grew
        assert(final(store)@.wf());
        assert(final(store)@ =~= (StoreModel {
            tags: ensure_tags_m(old(store)@.tags, names_v),
            ..old(store)@
        }));
    }
}

/// Does some entity of the batch collide with an existing entity of another
/// media kind?
#[verifier::loop_isolation(false)]
fn check_conflicts(store: &Store, items: &Vec<InsertEntity>, ty: EntityType) -> (r: bool)
    requires
        store@.wf(),
    ensures
        r == any_conflict(store@.entities, items@.map_values(|x: InsertEntity| x@), ty),
{
    let ghost items_v = items@.map_values(|x: InsertEntity| x@);
    let ghost ents = store@.entities;
    let n = items.len();
    for j in 0..n
        invariant
            forall|jj: int|
                0 <= jj < j ==> !type_conflict(ents, (#[trigger] items_v[jj]).entity_id, ty),
    {
        match find_entity_idx(&store.entities, &items[j].entity_id) {
            Some(k) => {
                proof {
                    assert(ents[k as int] == store.entities@[k as int]@);
                }
                if !(store.entities[k].entity_type == ty) {
                    proof {
                        assert(type_conflict(ents, items_v[j as int].entity_id, ty));
                    }
                    return true;
                }
                proof {
                    assert forall|i: int|
                        0 <= i < ents.len() && (#[trigger] ents[i]).entity_id == items_v[
                        j as int].entity_id implies ents[i].entity_type == ty by {
                        if i < k as int {
                            assert(ents[i].entity_id != ents[k as int].entity_id);
                        } else if i > k as int {
                            assert(ents[k as int].entity_id != ents[i].entity_id);
                        }
                    }
                }
            },
            None => {
                proof {
                    assert forall|i: int|
                        0 <= i < ents.len() implies (#[trigger] ents[i]).entity_id != items_v[
                        j as int].entity_id by {
                        assert(ents[i] == store.entities@[i]@);
                    }
                }
            },
        }
    }
    false
}

/// Upsert every entity of the batch: overwrite the file reference of an
/// existing row, append a missing one with the given kind.
#[verifier::loop_isolation(false)]
fn upsert_entities(store: &mut Store, items: &Vec<InsertEntity>, ty: EntityType)
    requires
        old(store)@.wf(),
    ensures
        final(store)@.wf(),
        final(store)@ == (StoreModel {
            entities: apply_upserts(
                old(store)@.entities,
                items@.map_values(|x: InsertEntity| x@),
                ty,
            ),
            ..old(store)@
        }),
        forall|jj: int|
            0 <= jj < items@.len() ==> has_entity(
                final(store)@.entities,
                (#[trigger] items@[jj])@.entity_id,
            ),
{
    let ghost items_v = items@.map_values(|x: InsertEntity| x@);
    let ghost m1 = store@;
    let n = items.len();
    for j in 0..n
        invariant
            store@.entities == apply_upserts(m1.entities, items_v.take(j as int), ty),
            store@ == (StoreModel { entities: store@.entities, ..m1 }),
            forall|i: int, j2: int|
                0 <= i < j2 < store@.entities.len() ==> (#[trigger] store@.entities[i]).entity_id
                    != (#[trigger] store@.entities[j2]).entity_id,
            forall|x: Seq<char>| has_entity(m1.entities, x) ==> has_entity(store@.entities, x),
            forall|jj: int|
                0 <= jj < j ==> has_entity(store@.entities, (#[trigger] items_v[jj]).entity_id),
    {
        proof {
            crate::seq_util::lemma_take_push(items_v, j as int);
            assert(items_v.take(j + 1).drop_last() =~= items_v.take(j as int));
        }
        let ghost cur = store@.entities;
        match find_entity_idx(&store.entities, &items[j].entity_id) {
            Some(k) => {
                proof {
                    assert(cur[k as int] == store.entities@[k as int]@);
                    assert(cur[k as int].entity_id == items_v[j as int].entity_id);
                    assert(has_entity(cur, items_v[j as int].entity_id));
                    let ki = entity_idx(cur, items_v[j as int].entity_id);
                    assert(0 <= ki < cur.len() && cur[ki].entity_id == items_v[j as int].entity_id);
                    if ki != k as int {
                        if ki < k as int {
                            assert(cur[ki].entity_id != cur[k as int].entity_id);
                        } else {
                            assert(cur[k as int].entity_id != cur[ki].entity_id);
                        }
                    }
                    assert(ki == k as int);
                }
                store.entities[k].file_id = items[j].file_id.clone();
                proof {
                    assert(store@.entities =~~= cur.update(
                        k as int,
                        EntityV {
                            entity_id: items_v[j as int].entity_id,
                            file_id: items_v[j as int].file_id,
                            entity_type: cur[k as int].entity_type,
                        },
                    ));
                    assert(store@.entities =~~= apply_upserts(
                        m1.entities,
                        items_v.take(j + 1),
                        ty,
                    ));
                    assert forall|x: Seq<char>| has_entity(cur, x) implies has_entity(
                        store@.entities,
                        x,
                    ) by {
                        let w = choose|w: int| 0 <= w < cur.len() && #[trigger] cur[w].entity_id == x;
                        assert(store@.entities[w].entity_id == x);
                    }
                }
            },
            None => {
                proof {
                    assert forall|i: int|
                        0 <= i < cur.len() implies (#[trigger] cur[i]).entity_id != items_v[
                        j as int].entity_id by {
                        assert(cur[i] == store.entities@[i]@);
                    }
                    assert(!has_entity(cur, items_v[j as int].entity_id));
                }
                store.entities.push(
                    EntityRow {
                        entity_id: items[j].entity_id.clone(),
                        file_id: items[j].file_id.clone(),
                        entity_type: ty,
                    },
                );
                proof {
                    assert(store@.entities =~~= cur.push(
                        EntityV {
                            entity_id: items_v[j as int].entity_id,
                            file_id: items_v[j as int].file_id,
                            entity_type: ty,
                        },
                    ));
                    assert(store@.entities =~~= apply_upserts(
                        m1.entities,
                        items_v.take(j + 1),
                        ty,
                    ));
                    assert forall|x: Seq<char>| has_entity(cur, x) implies has_entity(
                        store@.entities,
                        x,
                    ) by {
                        let w = choose|w: int| 0 <= w < cur.len() && #[trigger] cur[w].entity_id == x;
                        assert(store@.entities[w].entity_id == x);
                    }
                    assert(store@.entities[cur.len() as int].entity_id == items_v[
                        j as int].entity_id);
                }
            },
        }
        proof {
            assert(store@ =~~= (StoreModel { entities: store@.entities, ..m1 }));
        }
    }
    proof {
        crate::seq_util::lemma_take_full(items_v);
        assert forall|jj: int| 0 <= jj < items@.len() implies has_entity(
            store@.entities,
            (#[trigger] items@[jj])@.entity_id,
        ) by {
            assert(items_v[jj] == items@[jj]@);
        }
    }
}

/// Make sure each pair (user, entity of the batch) has a usage row; a missing
/// one starts at zero with its creation time set to now.
#[verifier::loop_isolation(false)]
fn ensure_stats(store: &mut Store, user_id: &String, items: &Vec<InsertEntity>, now: i64)
    requires
        old(store)@.wf(),
        now >= 0,
    ensures
        final(store)@.wf(),
        final(store)@ == (StoreModel {
            stats: ensure_stats_m(
                old(store)@.stats,
                user_id@,
                items@.map_values(|x: InsertEntity| x@),
                now as int,
            ),
            ..old(store)@
        }),
        forall|jj: int|
            0 <= jj < items@.len() ==> has_stat(
                final(store)@.stats,
                user_id@,
                (#[trigger] items@[jj])@.entity_id,
            ),
{
    let ghost items_v = items@.map_values(|x: InsertEntity| x@);
    let ghost u = user_id@;
    let ghost m2 = store@;
    let n = items.len();
    for j in 0..n
        invariant
            store@.stats == ensure_stats_m(m2.stats, u, items_v.take(j as int), now as int),
            store@ == (StoreModel { stats: store@.stats, ..m2 }),
            forall|i: int, j2: int|
                0 <= i < j2 < store@.stats.len() ==> !((#[trigger] store@.stats[i]).user_id
                    == (#[trigger] store@.stats[j2]).user_id && store@.stats[i].entity_id
                    == store@.stats[j2].entity_id),
            forall|i: int|
                0 <= i < store@.stats.len() ==> 0 <= (#[trigger] store@.stats[i]).count && 0
                    <= store@.stats[i].last_used && 0 <= store@.stats[i].created_at,
            forall|uu: Seq<char>, x: Seq<char>|
                has_stat(m2.stats, uu, x) ==> has_stat(store@.stats, uu, x),
            forall|jj: int|
                0 <= jj < j ==> has_stat(store@.stats, u, (#[trigger] items_v[jj]).entity_id),
    {
        proof {
            crate::seq_util::lemma_take_push(items_v, j as int);
            assert(items_v.take(j + 1).drop_last() =~= items_v.take(j as int));
        }
        let ghost cur = store@.stats;
        match find_stat_idx(&store.stats, user_id, &items[j].entity_id) {
            Some(k) => {
                proof {
                    assert(cur[k as int] == store.stats@[k as int]@);
                    assert(cur[k as int].user_id == u && cur[k as int].entity_id == items_v[
                        j as int].entity_id);
                    assert(has_stat(cur, u, items_v[j as int].entity_id));
                    assert(store@.stats =~~= ensure_stats_m(
                        m2.stats,
                        u,
                        items_v.take(j + 1),
                        now as int,
                    ));
                }
            },
            None => {
                proof {
                    assert forall|i: int|
                        0 <= i < cur.len() implies !((#[trigger] cur[i]).user_id == u
                        && cur[i].entity_id == items_v[j as int].entity_id) by {
                        assert(cur[i] == store.stats@[i]@);
                    }
                    assert(!has_stat(cur, u, items_v[j as int].entity_id));
                }
                store.stats.push(
                    EntityStat {
                        user_id: user_id.clone(),
                        entity_id: items[j].entity_id.clone(),
                        count: 0,
                        last_used: 0,
                        created_at: now,
                    },
                );
                proof {
                    assert(store@.stats =~~= cur.push(
                        StatV {
                            user_id: u,
                            entity_id: items_v[j as int].entity_id,
                            count: 0,
                            last_used: 0,
                            created_at: now as int,
                        },
                    ));
                    assert(store@.stats =~~= ensure_stats_m(
                        m2.stats,
                        u,
                        items_v.take(j + 1),
                        now as int,
                    ));
                    assert forall|uu: Seq<char>, x: Seq<char>| has_stat(cur, uu, x) implies has_stat(
                        store@.stats,
                        uu,
                        x,
                    ) by {
                        let w = choose|w: int|
                            0 <= w < cur.len() && #[trigger] cur[w].user_id == uu
                                && cur[w].entity_id == x;
                        assert(store@.stats[w].user_id == uu && store@.stats[w].entity_id == x);
                    }
                    assert(store@.stats[cur.len() as int].user_id == u && store@.stats[
                        cur.len() as int].entity_id == items_v[j as int].entity_id);
                }
            },
        }
        proof {
            assert(store@ =~~= (StoreModel { stats: store@.stats, ..m2 }));
        }
    }
    proof {
        crate::seq_util::lemma_take_full(items_v);
        assert forall|jj: int| 0 <= jj < items@.len() implies has_stat(
            store@.stats,
            user_id@,
            (#[trigger] items@[jj])@.entity_id,
        ) by {
            assert(items_v[jj] == items@[jj]@);
        }
    }
}

/// Record the association facts for every entity of the batch and every tag
/// name, skipping facts that are already recorded.
#[verifier::loop_isolation(false)]
fn add_assocs(store: &mut Store, user_id: &String, items: &Vec<InsertEntity>, names: &Vec<String>)
    requires
        old(store)@.wf(),
        forall|l: int|
            0 <= l < names@.len() ==> old(store)@.tags.contains((#[trigger] names@[l])@),
        forall|jj: int|
            0 <= jj < items@.len() ==> has_entity(
                old(store)@.entities,
                (#[trigger] items@[jj])@.entity_id,
            ),
        forall|jj: int|
            0 <= jj < items@.len() ==> has_stat(
                old(store)@.stats,
                user_id@,
                (#[trigger] items@[jj])@.entity_id,
            ),
    ensures
        final(store)@.wf(),
        final(store)@ == (StoreModel {
            assocs: add_assocs_m(
                old(store)@.assocs,
                user_id@,
                items@.map_values(|x: InsertEntity| x@),
                names@.map_values(|s: String| s@),
            ),
            ..old(store)@
        }),
{
    let ghost items_v = items@.map_values(|x: InsertEntity| x@);
    let ghost names_v = names@.map_values(|s: String| s@);
    let ghost u = user_id@;
    let ghost m3 = store@;
    let n_items = items.len();
    let n_names = names.len();
    for j in 0..n_items
        invariant
            store@.assocs == add_assocs_m(m3.assocs, u, items_v.take(j as int), names_v),
            store@ == (StoreModel { assocs: store@.assocs, ..m3 }),
            forall|i: int, j2: int|
                0 <= i < j2 < store@.assocs.len() ==> !assoc_same(
                    #[trigger] store@.assocs[i],
                    #[trigger] store@.assocs[j2],
                ),
            forall|k: int|
                0 <= k < store@.assocs.len() ==> m3.tags.contains(
                    (#[trigger] store@.assocs[k]).tag_name,
                ),
            forall|k: int|
                0 <= k < store@.assocs.len() ==> has_entity(
                    m3.entities,
                    (#[trigger] store@.assocs[k]).entity_id,
                ),
            forall|k: int|
                0 <= k < store@.assocs.len() ==> has_stat(
                    m3.stats,
                    (#[trigger] store@.assocs[k]).user_id,
                    store@.assocs[k].entity_id,
                ),
    {
        proof {
            crate::seq_util::lemma_take_push(items_v, j as int);
            assert(items_v.take(j + 1).drop_last() =~= items_v.take(j as int));
        }
        let ghost outer_base = store@.assocs;
        for l in 0..n_names
            invariant
                0 <= j < n_items,
                store@.assocs == add_assocs_one(
                    outer_base,
                    u,
                    items_v[j as int].entity_id,
                    names_v.take(l as int),
                ),
                store@ == (StoreModel { assocs: store@.assocs, ..m3 }),
                forall|i: int, j2: int|
                    0 <= i < j2 < store@.assocs.len() ==> !assoc_same(
                        #[trigger] store@.assocs[i],
                        #[trigger] store@.assocs[j2],
                    ),
                forall|k: int|
                    0 <= k < store@.assocs.len() ==> m3.tags.contains(
                        (#[trigger] store@.assocs[k]).tag_name,
                    ),
                forall|k: int|
                    0 <= k < store@.assocs.len() ==> has_entity(
                        m3.entities,
                        (#[trigger] store@.assocs[k]).entity_id,
                    ),
                forall|k: int|
                    0 <= k < store@.assocs.len() ==> has_stat(
                        m3.stats,
                        (#[trigger] store@.assocs[k]).user_id,
                        store@.assocs[k].entity_id,
                    ),
        {
            proof {
                crate::seq_util::lemma_take_push(names_v, l as int);
                assert(names_v.take(l + 1).drop_last() =~= names_v.take(l as int));
            }
            let ghost cur = store@.assocs;
            if !has_assoc_exec(&store.assocs, user_id, &items[j].entity_id, &names[l]) {
                store.assocs.push(
                    AssocRow {
                        user_id: user_id.clone(),
                        entity_id: items[j].entity_id.clone(),
                        tag_name: names[l].clone(),
                    },
                );
                proof {
                    assert(store@.assocs =~~= cur.push(
                        AssocV {
                            user_id: u,
                            entity_id: items_v[j as int].entity_id,
                            tag_name: names_v[l as int],
                        },
                    ));
                    assert(store@.assocs =~~= add_assocs_one(
                        outer_base,
                        u,
                        items_v[j as int].entity_id,
                        names_v.take(l + 1),
                    ));
                    assert forall|i: int, j2: int|
                        0 <= i < j2 < store@.assocs.len() implies !assoc_same(
                        #[trigger] store@.assocs[i],
                        #[trigger] store@.assocs[j2],
                    ) by {
                        if j2 == store@.assocs.len() - 1 {
                            assert(!has_assoc(
                                cur,
                                u,
                                items_v[j as int].entity_id,
                                names_v[l as int],
                            ));
                            if assoc_same(store@.assocs[i], store@.assocs[j2]) {
                                assert(cur[i].user_id == u && cur[i].entity_id == items_v[
                                    j as int].entity_id && cur[i].tag_name == names_v[l as int]);
                            }
                        }
                    }
                    assert(names_v.contains(names_v[l as int]));
                }
            } else {
                proof {
                    assert(store@.assocs =~~= add_assocs_one(
                        outer_base,
                        u,
                        items_v[j as int].entity_id,
                        names_v.take(l + 1),
                    ));
                }
            }
            proof {
                assert(store@ =~~= (StoreModel { assocs: store@.assocs, ..m3 }));
            }
        }
        proof {
            crate::seq_util::lemma_take_full(names_v);
        }
    }
    proof {
        crate::seq_util::lemma_take_full(items_v);
    }
}

/// Tag a batch of entities for one user. The whole call is one atomic unit:
/// either every row it implies becomes visible, or — when an entity of the
/// batch would change its media kind — nothing does and the call fails.
/// An empty batch or an empty tag list is a successful no-op.
pub fn insert_tags(
    store: &mut Store,
    user_id: String,
    entities: Vec<InsertEntity>,
    entity_type: EntityType,
    tag_names: Vec<String>,
    now: i64,
) -> (r: Result<(), StoreError>)
    requires
        old(store)@.wf(),
        now >= 0,
    ensures
        final(store)@.wf(),
        ({
            let out = insert_tags_m(
                old(store)@,
                user_id@,
                entities@.map_values(|x: InsertEntity| x@),
                entity_type,
                tag_names@.map_values(|s: String| s@),
                now as int,
            );
            &&& (r is Ok <==> out is Some)
            &&& (r is Ok ==> Some(final(store)@) == out)
            &&& (r is Err ==> final(store)@ == old(store)@ && r == Err::<(), StoreError>(
                StoreError::Consistency,
            ))
        }),
{
    let ghost items_v = entities@.map_values(|x: InsertEntity| x@);
    let ghost names_v = tag_names@.map_values(|s: String| s@);
    let ghost m0 = store@;
    if tag_names.len() == 0 || entities.len() == 0 {
        return Ok(());
    }
    if check_conflicts(store, &entities, entity_type) {
        return Err(StoreError::Consistency);
    }
    ensure_tags(store, &tag_names);
    proof {
        lemma_ensure_tags_m_props(m0.tags, names_v);
        assert forall|l: int| 0 <= l < tag_names@.len() implies store@.tags.contains(
            (#[trigger] tag_names@[l])@,
        ) by {
            assert(names_v[l] == tag_names@[l]@);
            assert(names_v.contains(names_v[l]));
        }
    }
    upsert_entities(store, &entities, entity_type);
    ensure_stats(store, &user_id, &entities, now);
    add_assocs(store, &user_id, &entities, &tag_names);
    proof {
        assert(Some(final(store)@) =~~= insert_tags_m(
            m0,
            user_id@,
            items_v,
            entity_type,
            names_v,
            now as int,
        ));
    }
    Ok(())
}

} // verus!
