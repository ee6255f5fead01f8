use stimkerbot::assoc::get_tags;
use stimkerbot::fix::{fix_cooldown_active, is_invalid_reference_error, FixRun, FIX_COOLDOWN_MS};
use stimkerbot::search::list_entities;
use stimkerbot::store::{insert_tags, Store};
use stimkerbot::types::{EntitySort, EntityType, InsertEntity};
use stimkerbot::usage::get_entity_usage;

fn tag(store: &mut Store, user: &str, id: &str, file: &str, now: i64) {
    insert_tags(
        store,
        user.to_string(),
        vec![InsertEntity { entity_id: id.to_string(), file_id: file.to_string() }],
        EntityType::Sticker,
        vec!["cat".to_string()],
        now,
    )
    .unwrap();
}

#[test]
fn cooldown_blocks_within_ten_minutes() {
    assert!(fix_cooldown_active(1000, 1000 + FIX_COOLDOWN_MS - 1));
    assert!(!fix_cooldown_active(1000, 1000 + FIX_COOLDOWN_MS));
    assert!(!fix_cooldown_active(0, FIX_COOLDOWN_MS));
}

#[test]
fn only_wrong_file_id_errors_count_as_invalid_references() {
    assert!(is_invalid_reference_error("Bad Request: wrong file_id or the file is gone"));
    assert!(!is_invalid_reference_error("Too Many Requests: retry later"));
    assert!(!is_invalid_reference_error(""));
}

#[test]
fn a_repair_run_discards_broken_entities_for_every_user() {
    let mut store = Store::new();
    tag(&mut store, "u", "e1", "f-broken", 10);
    tag(&mut store, "v", "e1", "f-broken", 20);
    tag(&mut store, "u", "e2", "f-fine", 30);
    let mut run = FixRun::new();
    // the caller walks list_entities and validates each reference
    let page = list_entities(&store, "u".to_string(), None, EntitySort::LastAdded, 0);
    for e in &page {
        if e.file_id == "f-broken" {
            run.record_invalid(e.file_id.clone());
        }
    }
    assert_eq!(run.collected(), 1);
    let fixed = run.finish(&mut store);
    assert_eq!(fixed, 1);
    // the broken entity is gone for everyone, the sound one stays
    assert_eq!(store.entities.len(), 1);
    assert_eq!(store.entities[0].entity_id, "e2");
    assert!(get_tags(&store, "u".to_string(), "e1".to_string()).is_empty());
    assert!(get_tags(&store, "v".to_string(), "e1".to_string()).is_empty());
    assert_eq!(get_entity_usage(&store, "u".to_string(), "e1".to_string()).count, 0);
    assert_eq!(get_tags(&store, "u".to_string(), "e2".to_string()), vec!["cat".to_string()]);
    // the dictionary keeps its tags
    assert_eq!(store.tags, vec!["cat".to_string()]);
}

#[test]
fn a_clean_run_repairs_nothing() {
    let mut store = Store::new();
    tag(&mut store, "u", "e1", "f1", 10);
    let before = store.clone();
    let run = FixRun::new();
    let fixed = run.finish(&mut store);
    assert_eq!(fixed, 0);
    assert_eq!(store, before);
}
