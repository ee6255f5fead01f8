use stimkerbot::entities::update_file_id;
use stimkerbot::global_stats::get_global_stats;
use stimkerbot::search::{find_entities, list_entities, next_page_token};
use stimkerbot::store::{insert_tags, Store};
use stimkerbot::types::{EntitySort, EntityType, InlineSearchQuery, InsertEntity};
use stimkerbot::usage::increase_entity_stat;

fn ins(id: &str, file: &str) -> InsertEntity {
    InsertEntity { entity_id: id.to_string(), file_id: file.to_string() }
}

fn tag(store: &mut Store, user: &str, id: &str, ty: EntityType, tags: &[&str], now: i64) {
    let names: Vec<String> = tags.iter().map(|t| t.to_string()).collect();
    let file = format!("file-{}", id);
    insert_tags(store, user.to_string(), vec![ins(id, &file)], ty, names, now).unwrap();
}

fn query(tags: &[&str], negative: &[&str]) -> InlineSearchQuery {
    InlineSearchQuery {
        tags: tags.iter().map(|t| t.to_string()).collect(),
        negative_tags: negative.iter().map(|t| t.to_string()).collect(),
        sort: EntitySort::MostUsed,
        entity_type: None,
        get_all: false,
    }
}

fn ids(results: &[stimkerbot::types::Entity]) -> Vec<String> {
    results.iter().map(|e| e.entity_id.clone()).collect()
}

#[test]
fn positive_negative_and_prefix_matching() {
    let mut store = Store::new();
    tag(&mut store, "u", "e1", EntityType::Sticker, &["cat", "dog"], 1);
    tag(&mut store, "u", "e2", EntityType::Sticker, &["cat"], 2);
    // both positive tags must be satisfied
    let r = find_entities(&store, "u".to_string(), query(&["cat", "dog"], &[]), 0);
    assert_eq!(ids(&r), vec!["e1".to_string()]);
    // a prefix matches
    let r = find_entities(&store, "u".to_string(), query(&["ca"], &[]), 0);
    let mut got = ids(&r);
    got.sort();
    assert_eq!(got, vec!["e1".to_string(), "e2".to_string()]);
    // a fully-satisfied negative set excludes
    let r = find_entities(&store, "u".to_string(), query(&["cat"], &["dog"]), 0);
    assert_eq!(ids(&r), vec!["e2".to_string()]);
}

#[test]
fn partial_negative_match_does_not_exclude() {
    let mut store = Store::new();
    tag(&mut store, "u", "e1", EntityType::Sticker, &["cat", "dog"], 1);
    // negative set {dog, bird}: e1 matches dog but not bird, so it stays
    let r = find_entities(&store, "u".to_string(), query(&["cat"], &["dog", "bird"]), 0);
    assert_eq!(ids(&r), vec!["e1".to_string()]);
}

#[test]
fn matching_is_case_insensitive() {
    let mut store = Store::new();
    tag(&mut store, "u", "e1", EntityType::Sticker, &["Dog"], 1);
    let r = find_entities(&store, "u".to_string(), query(&["do"], &[]), 0);
    assert_eq!(ids(&r), vec!["e1".to_string()]);
    let r = find_entities(&store, "u".to_string(), query(&["DOG"], &[]), 0);
    assert_eq!(ids(&r), vec!["e1".to_string()]);
}

#[test]
fn wildcard_characters_match_literally() {
    let mut store = Store::new();
    tag(&mut store, "u", "e1", EntityType::Sticker, &["100%_sure"], 1);
    tag(&mut store, "u", "e2", EntityType::Sticker, &["100x_sure"], 2);
    // a percent or underscore in the filter is plain text, not a pattern
    let r = find_entities(&store, "u".to_string(), query(&["100%"], &[]), 0);
    assert_eq!(ids(&r), vec!["e1".to_string()]);
    let r = find_entities(&store, "u".to_string(), query(&["100%_s"], &[]), 0);
    assert_eq!(ids(&r), vec!["e1".to_string()]);
}

#[test]
fn empty_positive_set_returns_nothing() {
    let mut store = Store::new();
    tag(&mut store, "u", "e1", EntityType::Sticker, &["cat"], 1);
    let r = find_entities(&store, "u".to_string(), query(&[], &[]), 0);
    assert!(r.is_empty());
}

#[test]
fn results_are_scoped_by_user() {
    let mut store = Store::new();
    tag(&mut store, "u", "e1", EntityType::Sticker, &["cat"], 1);
    tag(&mut store, "v", "e2", EntityType::Sticker, &["cat"], 2);
    let r = find_entities(&store, "u".to_string(), query(&["cat"], &[]), 0);
    assert_eq!(ids(&r), vec!["e1".to_string()]);
    assert_eq!(r[0].user_id, "u");
    assert_eq!(r[0].file_id, "file-e1");
}

#[test]
fn media_kind_filter_applies() {
    let mut store = Store::new();
    tag(&mut store, "u", "e1", EntityType::Sticker, &["cat"], 1);
    tag(&mut store, "u", "e2", EntityType::Photo, &["cat"], 2);
    let mut q = query(&["cat"], &[]);
    q.entity_type = Some(EntityType::Photo);
    let r = find_entities(&store, "u".to_string(), q, 0);
    assert_eq!(ids(&r), vec!["e2".to_string()]);
    // and on the list-all path too
    let r = list_entities(&store, "u".to_string(), Some(EntityType::Photo), EntitySort::LastAdded, 0);
    assert_eq!(ids(&r), vec!["e2".to_string()]);
}

#[test]
fn sort_most_used_and_least_used() {
    let mut store = Store::new();
    tag(&mut store, "u", "e1", EntityType::Sticker, &["cat"], 1);
    tag(&mut store, "u", "e2", EntityType::Sticker, &["cat"], 2);
    for _ in 0..3 {
        increase_entity_stat(&mut store, "u".to_string(), "e2".to_string(), 50);
    }
    increase_entity_stat(&mut store, "u".to_string(), "e1".to_string(), 60);
    let mut q = query(&["cat"], &[]);
    q.sort = EntitySort::MostUsed;
    let r = find_entities(&store, "u".to_string(), q.clone(), 0);
    assert_eq!(ids(&r), vec!["e2".to_string(), "e1".to_string()]);
    q.sort = EntitySort::LeastUsed;
    let r = find_entities(&store, "u".to_string(), q, 0);
    assert_eq!(ids(&r), vec!["e1".to_string(), "e2".to_string()]);
}

#[test]
fn sort_by_added_and_used_times() {
    let mut store = Store::new();
    tag(&mut store, "u", "old", EntityType::Sticker, &["cat"], 10);
    tag(&mut store, "u", "new", EntityType::Sticker, &["cat"], 20);
    increase_entity_stat(&mut store, "u".to_string(), "old".to_string(), 500);
    increase_entity_stat(&mut store, "u".to_string(), "new".to_string(), 400);
    let mut q = query(&["cat"], &[]);
    q.sort = EntitySort::LastAdded;
    assert_eq!(ids(&find_entities(&store, "u".to_string(), q.clone(), 0)), vec![
        "new".to_string(),
        "old".to_string(),
    ]);
    q.sort = EntitySort::FirstAdded;
    assert_eq!(ids(&find_entities(&store, "u".to_string(), q.clone(), 0)), vec![
        "old".to_string(),
        "new".to_string(),
    ]);
    q.sort = EntitySort::LastUsed;
    assert_eq!(ids(&find_entities(&store, "u".to_string(), q.clone(), 0)), vec![
        "old".to_string(),
        "new".to_string(),
    ]);
    q.sort = EntitySort::FirstUsed;
    assert_eq!(ids(&find_entities(&store, "u".to_string(), q, 0)), vec![
        "new".to_string(),
        "old".to_string(),
    ]);
}

#[test]
fn page_beyond_results_is_empty_not_an_error() {
    let mut store = Store::new();
    tag(&mut store, "u", "e1", EntityType::Sticker, &["cat"], 1);
    let r = find_entities(&store, "u".to_string(), query(&["cat"], &[]), 7);
    assert!(r.is_empty());
    let r = list_entities(&store, "u".to_string(), None, EntitySort::MostUsed, 1000);
    assert!(r.is_empty());
}

#[test]
fn pagination_is_fifty_per_page() {
    let mut store = Store::new();
    for k in 0..60 {
        let id = format!("e{:03}", k);
        tag(&mut store, "u", &id, EntityType::Sticker, &["cat"], k);
    }
    let mut q = query(&["cat"], &[]);
    q.sort = EntitySort::FirstAdded;
    let first = find_entities(&store, "u".to_string(), q.clone(), 0);
    assert_eq!(first.len(), 50);
    assert_eq!(first[0].entity_id, "e000");
    let second = find_entities(&store, "u".to_string(), q, 1);
    assert_eq!(second.len(), 10);
    assert_eq!(second[0].entity_id, "e050");
}

#[test]
fn random_returns_full_pages_of_matches() {
    let mut store = Store::new();
    for k in 0..60 {
        let id = format!("e{:03}", k);
        tag(&mut store, "u", &id, EntityType::Sticker, &["cat"], k);
    }
    let mut q = query(&["cat"], &[]);
    q.sort = EntitySort::Random;
    let first = find_entities(&store, "u".to_string(), q.clone(), 0);
    assert_eq!(first.len(), 50);
    let second = find_entities(&store, "u".to_string(), q, 1);
    assert_eq!(second.len(), 10);
    for e in first.iter().chain(second.iter()) {
        assert!(e.entity_id.starts_with("e"));
        assert_eq!(e.user_id, "u");
    }
}

#[test]
fn list_all_ignores_tag_filters() {
    let mut store = Store::new();
    tag(&mut store, "u", "e1", EntityType::Sticker, &["cat"], 1);
    tag(&mut store, "u", "e2", EntityType::Sticker, &["bird"], 2);
    let r = list_entities(&store, "u".to_string(), None, EntitySort::FirstAdded, 0);
    assert_eq!(ids(&r), vec!["e1".to_string(), "e2".to_string()]);
}

#[test]
fn next_page_token_is_issued_except_for_random() {
    assert_eq!(next_page_token(EntitySort::MostUsed, 3), Some(4));
    assert_eq!(next_page_token(EntitySort::LastAdded, 0), Some(1));
    assert_eq!(next_page_token(EntitySort::Random, 3), None);
}

#[test]
fn updated_file_reference_shows_in_results() {
    let mut store = Store::new();
    tag(&mut store, "u", "e1", EntityType::Sticker, &["cat"], 1);
    update_file_id(&mut store, "e1".to_string(), "fresh".to_string());
    let r = find_entities(&store, "u".to_string(), query(&["cat"], &[]), 0);
    assert_eq!(r[0].file_id, "fresh");
}

#[test]
fn global_stats_count_everything() {
    let mut store = Store::new();
    tag(&mut store, "u", "e1", EntityType::Sticker, &["cat", "dog"], 1);
    tag(&mut store, "u", "e2", EntityType::Photo, &["cat"], 2);
    tag(&mut store, "v", "e3", EntityType::Video, &["bird"], 3);
    increase_entity_stat(&mut store, "u".to_string(), "e1".to_string(), 50);
    increase_entity_stat(&mut store, "u".to_string(), "e1".to_string(), 51);
    increase_entity_stat(&mut store, "v".to_string(), "e3".to_string(), 52);
    let g = get_global_stats(&store);
    assert_eq!(g.total_users, 2);
    assert_eq!(g.total_tags, 3);
    assert_eq!(g.total_stickers, 1);
    assert_eq!(g.total_photos, 1);
    assert_eq!(g.total_videos, 1);
    assert_eq!(g.total_animations, 0);
    assert_eq!(g.total_entities_sent, 3);
}

#[test]
fn sort_sql_names_each_mode() {
    assert_eq!(EntitySort::LastAdded.to_sql(), "entity_data.created_at DESC");
    assert_eq!(EntitySort::FirstAdded.to_sql(), "entity_data.created_at ASC");
    assert_eq!(EntitySort::LastUsed.to_sql(), "entity_data.last_used DESC");
    assert_eq!(EntitySort::FirstUsed.to_sql(), "entity_data.last_used ASC");
    assert_eq!(EntitySort::MostUsed.to_sql(), "entity_data.count DESC");
    assert_eq!(EntitySort::LeastUsed.to_sql(), "entity_data.count ASC");
    assert_eq!(EntitySort::Random.to_sql(), "RANDOM()");
}
