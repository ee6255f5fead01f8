use stimkerbot::assoc::{get_tags, remove_tags, wipe_tags};
use stimkerbot::store::{ensure_tags, insert_tags, Store};
use stimkerbot::types::{EntityType, InsertEntity, StoreError};
use stimkerbot::usage::{get_entity_usage, increase_entity_stat};
use stimkerbot::users::{get_last_fix_time, set_last_fix_time, wipe_user};

fn ins(id: &str, file: &str) -> InsertEntity {
    InsertEntity { entity_id: id.to_string(), file_id: file.to_string() }
}

fn tag_both(store: &mut Store, user: &str, id: &str, file: &str, ty: EntityType, tags: &[&str]) {
    let names: Vec<String> = tags.iter().map(|t| t.to_string()).collect();
    insert_tags(store, user.to_string(), vec![ins(id, file)], ty, names, 1000).unwrap();
}

#[test]
fn ensure_tags_is_idempotent() {
    let mut store = Store::new();
    let names = vec!["cat".to_string(), "dog".to_string(), "cat".to_string()];
    ensure_tags(&mut store, &names);
    assert_eq!(store.tags, vec!["cat".to_string(), "dog".to_string()]);
    ensure_tags(&mut store, &names);
    assert_eq!(store.tags, vec!["cat".to_string(), "dog".to_string()]);
}

#[test]
fn insert_and_read_tags() {
    let mut store = Store::new();
    tag_both(&mut store, "u1", "e1", "f1", EntityType::Sticker, &["cat", "dog"]);
    let tags = get_tags(&store, "u1".to_string(), "e1".to_string());
    assert_eq!(tags, vec!["cat".to_string(), "dog".to_string()]);
    // another user sees nothing
    let other = get_tags(&store, "u2".to_string(), "e1".to_string());
    assert!(other.is_empty());
}

#[test]
fn insert_empty_input_is_noop() {
    let mut store = Store::new();
    let before = store.clone();
    insert_tags(
        &mut store,
        "u1".to_string(),
        vec![],
        EntityType::Sticker,
        vec!["cat".to_string()],
        5,
    )
    .unwrap();
    assert_eq!(store, before);
    insert_tags(&mut store, "u1".to_string(), vec![ins("e1", "f1")], EntityType::Sticker, vec![], 5)
        .unwrap();
    assert_eq!(store, before);
}

#[test]
fn media_kind_cannot_change() {
    let mut store = Store::new();
    tag_both(&mut store, "u1", "e1", "f1", EntityType::Sticker, &["cat"]);
    let before = store.clone();
    let r = insert_tags(
        &mut store,
        "u1".to_string(),
        vec![ins("e1", "f9")],
        EntityType::Photo,
        vec!["dog".to_string()],
        2000,
    );
    assert_eq!(r, Err(StoreError::Consistency));
    assert_eq!(store, before);
}

#[test]
fn file_reference_is_overwritten_on_reencounter() {
    let mut store = Store::new();
    tag_both(&mut store, "u1", "e1", "f-old", EntityType::Sticker, &["cat"]);
    tag_both(&mut store, "u1", "e1", "f-new", EntityType::Sticker, &["dog"]);
    assert_eq!(store.entities.len(), 1);
    assert_eq!(store.entities[0].file_id, "f-new");
}

#[test]
fn duplicate_associations_are_ignored() {
    let mut store = Store::new();
    tag_both(&mut store, "u1", "e1", "f1", EntityType::Sticker, &["cat"]);
    tag_both(&mut store, "u1", "e1", "f1", EntityType::Sticker, &["cat"]);
    assert_eq!(store.assocs.len(), 1);
}

#[test]
fn remove_tags_deletes_only_matches() {
    let mut store = Store::new();
    tag_both(&mut store, "u1", "e1", "f1", EntityType::Sticker, &["cat", "dog"]);
    tag_both(&mut store, "u1", "e2", "f2", EntityType::Sticker, &["cat"]);
    remove_tags(
        &mut store,
        "u1".to_string(),
        vec!["e1".to_string()],
        vec!["cat".to_string()],
    );
    assert_eq!(get_tags(&store, "u1".to_string(), "e1".to_string()), vec!["dog".to_string()]);
    assert_eq!(get_tags(&store, "u1".to_string(), "e2".to_string()), vec!["cat".to_string()]);
    // tags and entities are never deleted by tag removal
    assert_eq!(store.tags.len(), 2);
    assert_eq!(store.entities.len(), 2);
}

#[test]
fn remove_tags_empty_input_is_noop() {
    let mut store = Store::new();
    tag_both(&mut store, "u1", "e1", "f1", EntityType::Sticker, &["cat"]);
    let before = store.clone();
    remove_tags(&mut store, "u1".to_string(), vec![], vec!["cat".to_string()]);
    assert_eq!(store, before);
    remove_tags(&mut store, "u1".to_string(), vec!["e1".to_string()], vec![]);
    assert_eq!(store, before);
}

#[test]
fn wipe_tags_clears_one_pair() {
    let mut store = Store::new();
    tag_both(&mut store, "u1", "e1", "f1", EntityType::Sticker, &["cat", "dog"]);
    tag_both(&mut store, "u2", "e1", "f1", EntityType::Sticker, &["cat"]);
    wipe_tags(&mut store, "u1".to_string(), "e1".to_string());
    assert!(get_tags(&store, "u1".to_string(), "e1".to_string()).is_empty());
    assert_eq!(get_tags(&store, "u2".to_string(), "e1".to_string()), vec!["cat".to_string()]);
    // the usage row of the wiped pair stays
    assert_eq!(store.stats.len(), 2);
}

#[test]
fn increase_n_times_counts_to_n() {
    let mut store = Store::new();
    tag_both(&mut store, "u1", "e1", "f1", EntityType::Sticker, &["cat"]);
    for k in 1..=5i64 {
        increase_entity_stat(&mut store, "u1".to_string(), "e1".to_string(), 7000 + k);
    }
    let stat = get_entity_usage(&store, "u1".to_string(), "e1".to_string());
    assert_eq!(stat.count, 5);
    assert_eq!(stat.last_used, 7005);
    // created on first tagging, never touched again
    assert_eq!(stat.created_at, 1000);
}

#[test]
fn increase_creates_missing_row() {
    let mut store = Store::new();
    increase_entity_stat(&mut store, "u1".to_string(), "e9".to_string(), 42);
    let stat = get_entity_usage(&store, "u1".to_string(), "e9".to_string());
    assert_eq!(stat.count, 1);
    assert_eq!(stat.last_used, 42);
    assert_eq!(stat.created_at, 42);
}

#[test]
fn absent_usage_reads_as_zero_record() {
    let store = Store::new();
    let stat = get_entity_usage(&store, "u1".to_string(), "nothing".to_string());
    assert_eq!(stat.count, 0);
    assert_eq!(stat.last_used, 0);
    assert_eq!(stat.created_at, 0);
    assert_eq!(stat.user_id, "u1");
    assert_eq!(stat.entity_id, "nothing");
}

#[test]
fn wipe_user_clears_every_read_for_that_user() {
    let mut store = Store::new();
    tag_both(&mut store, "u1", "e1", "f1", EntityType::Sticker, &["cat"]);
    tag_both(&mut store, "u2", "e1", "f1", EntityType::Sticker, &["dog"]);
    increase_entity_stat(&mut store, "u1".to_string(), "e1".to_string(), 99);
    set_last_fix_time(&mut store, "u1".to_string(), 123);
    wipe_user(&mut store, "u1".to_string());
    assert!(get_tags(&store, "u1".to_string(), "e1".to_string()).is_empty());
    let stat = get_entity_usage(&store, "u1".to_string(), "e1".to_string());
    assert_eq!(stat.count, 0);
    assert_eq!(stat.last_used, 0);
    assert_eq!(get_last_fix_time(&store, "u1".to_string()), 0);
    // tags, entities, and the other user's data stay
    assert_eq!(store.tags.len(), 2);
    assert_eq!(store.entities.len(), 1);
    assert_eq!(get_tags(&store, "u2".to_string(), "e1".to_string()), vec!["dog".to_string()]);
}

#[test]
fn last_fix_time_round_trips() {
    let mut store = Store::new();
    assert_eq!(get_last_fix_time(&store, "u1".to_string()), 0);
    set_last_fix_time(&mut store, "u1".to_string(), 5000);
    assert_eq!(get_last_fix_time(&store, "u1".to_string()), 5000);
    set_last_fix_time(&mut store, "u1".to_string(), 6000);
    assert_eq!(get_last_fix_time(&store, "u1".to_string()), 6000);
}
