use std::io::{Read, Write};

use stimkerbot::assoc::get_tags;
use stimkerbot::bulk::{export, import, quickstickbot_import};
use stimkerbot::search::find_entities;
use stimkerbot::store::{insert_tags, Store};
use stimkerbot::types::{Entity, EntitySort, EntityType, InlineSearchQuery, InsertEntity,
    StoreError};
use stimkerbot::usage::{get_entity_usage, increase_entity_stat};

fn ins(id: &str, file: &str) -> InsertEntity {
    InsertEntity { entity_id: id.to_string(), file_id: file.to_string() }
}

fn tag(store: &mut Store, user: &str, id: &str, ty: EntityType, tags: &[&str], now: i64) {
    let names: Vec<String> = tags.iter().map(|t| t.to_string()).collect();
    let file = format!("file-{}", id);
    insert_tags(store, user.to_string(), vec![ins(id, &file)], ty, names, now).unwrap();
}

fn gzip(text: &str) -> Vec<u8> {
    let mut enc = flate2::write::GzEncoder::new(Vec::new(), flate2::Compression::best());
    enc.write_all(text.as_bytes()).unwrap();
    enc.finish().unwrap()
}

fn gunzip(bytes: &[u8]) -> Vec<u8> {
    let mut dec = flate2::read::GzDecoder::new(bytes);
    let mut out = Vec::new();
    dec.read_to_end(&mut out).unwrap();
    out
}

#[test]
fn export_then_import_leaves_the_store_unchanged() {
    let mut store = Store::new();
    tag(&mut store, "u", "e1", EntityType::Sticker, &["cat", "dog"], 10);
    tag(&mut store, "u", "e2", EntityType::Photo, &["bird"], 20);
    tag(&mut store, "v", "e1", EntityType::Sticker, &["feline"], 30);
    increase_entity_stat(&mut store, "u".to_string(), "e1".to_string(), 40);
    increase_entity_stat(&mut store, "u".to_string(), "e1".to_string(), 41);
    let snapshot = export(&store, "u".to_string());
    let before = store.clone();
    import(&mut store, "u".to_string(), snapshot).unwrap();
    assert_eq!(store, before);
}

#[test]
fn export_is_json_other_tools_can_read() {
    let mut store = Store::new();
    tag(&mut store, "u", "e1", EntityType::Animation, &["cat", "dog"], 10);
    increase_entity_stat(&mut store, "u".to_string(), "e1".to_string(), 99);
    let snapshot = export(&store, "u".to_string());
    let json = gunzip(&snapshot);
    let value: serde_json::Value = serde_json::from_slice(&json).unwrap();
    let arr = value.as_array().unwrap();
    assert_eq!(arr.len(), 1);
    let rec = &arr[0];
    assert_eq!(rec["id"], "e1");
    assert_eq!(rec["fi"], "file-e1");
    assert_eq!(rec["tp"], "Animation");
    assert_eq!(rec["t"], serde_json::Value::from(vec!["cat", "dog"]));
    assert_eq!(rec["c"], 1);
    assert_eq!(rec["lu"], 99);
    assert_eq!(rec["ca"], 10);
}

#[test]
fn import_restores_an_export_into_an_empty_store() {
    let mut store = Store::new();
    tag(&mut store, "u", "e1", EntityType::Sticker, &["cat", "dog"], 10);
    increase_entity_stat(&mut store, "u".to_string(), "e1".to_string(), 55);
    let snapshot = export(&store, "u".to_string());
    let mut fresh = Store::new();
    import(&mut fresh, "u".to_string(), snapshot).unwrap();
    let mut tags = get_tags(&fresh, "u".to_string(), "e1".to_string());
    tags.sort();
    assert_eq!(tags, vec!["cat".to_string(), "dog".to_string()]);
    let stat = get_entity_usage(&fresh, "u".to_string(), "e1".to_string());
    assert_eq!(stat.count, 1);
    assert_eq!(stat.last_used, 55);
    assert_eq!(fresh.entities[0].entity_type, EntityType::Sticker);
}

#[test]
fn import_tolerates_whitespace_unknown_fields_and_escapes() {
    let json = "[ { \"id\" : \"e9\", \"extra\": [1.5, true, null, {\"x\": \"y\"}],\n    \"fi\": \"f9\", \"tp\": \"Photo\", \"t\": [\"new\\u0074ag\"],\n    \"c\": 2, \"lu\": 5, \"ca\": 1 } ]";
    let mut store = Store::new();
    import(&mut store, "u".to_string(), gzip(json)).unwrap();
    assert_eq!(get_tags(&store, "u".to_string(), "e9".to_string()), vec!["newtag".to_string()]);
    let stat = get_entity_usage(&store, "u".to_string(), "e9".to_string());
    assert_eq!(stat.count, 2);
    assert_eq!(stat.last_used, 5);
    assert_eq!(stat.created_at, 1);
    assert_eq!(store.entities[0].entity_type, EntityType::Photo);
    assert_eq!(store.entities[0].file_id, "f9");
}

#[test]
fn import_normalizes_tag_names() {
    let json = "[{\"id\":\"e1\",\"fi\":\"f1\",\"tp\":\"Sticker\",\"t\":[\" Cat Dog, \"],\"c\":0,\"lu\":0,\"ca\":0}]";
    let mut store = Store::new();
    import(&mut store, "u".to_string(), gzip(json)).unwrap();
    assert_eq!(get_tags(&store, "u".to_string(), "e1".to_string()), vec!["catdog".to_string()]);
}

#[test]
fn import_does_not_regress_existing_stats() {
    let mut store = Store::new();
    tag(&mut store, "u", "e1", EntityType::Sticker, &["cat"], 10);
    for _ in 0..4 {
        increase_entity_stat(&mut store, "u".to_string(), "e1".to_string(), 20);
    }
    let json = "[{\"id\":\"e1\",\"fi\":\"f1\",\"tp\":\"Sticker\",\"t\":[\"cat\"],\"c\":1,\"lu\":1,\"ca\":1}]";
    import(&mut store, "u".to_string(), gzip(json)).unwrap();
    let stat = get_entity_usage(&store, "u".to_string(), "e1".to_string());
    assert_eq!(stat.count, 4);
}

#[test]
fn malformed_payloads_abort_with_no_side_effects() {
    let mut store = Store::new();
    tag(&mut store, "u", "e1", EntityType::Sticker, &["cat"], 10);
    let before = store.clone();
    // not a gzip stream at all
    let r = import(&mut store, "u".to_string(), vec![1, 2, 3]);
    assert_eq!(r, Err(StoreError::Serialization));
    assert_eq!(store, before);
    // gzip of text that is not a record array
    let r = import(&mut store, "u".to_string(), gzip("{\"nope\":1}"));
    assert_eq!(r, Err(StoreError::Serialization));
    assert_eq!(store, before);
    // a record with a missing required field
    let r = import(
        &mut store,
        "u".to_string(),
        gzip("[{\"id\":\"x\",\"fi\":\"f\",\"tp\":\"Photo\",\"t\":[],\"c\":0,\"lu\":0}]"),
    );
    assert_eq!(r, Err(StoreError::Serialization));
    assert_eq!(store, before);
    // a negative counter is malformed
    let r = import(
        &mut store,
        "u".to_string(),
        gzip("[{\"id\":\"x\",\"fi\":\"f\",\"tp\":\"Photo\",\"t\":[],\"c\":-1,\"lu\":0,\"ca\":0}]"),
    );
    assert_eq!(r, Err(StoreError::Serialization));
    assert_eq!(store, before);
}

#[test]
fn import_rejects_a_changed_media_kind() {
    let mut store = Store::new();
    tag(&mut store, "u", "e1", EntityType::Sticker, &["cat"], 10);
    let before = store.clone();
    let json = "[{\"id\":\"e1\",\"fi\":\"f1\",\"tp\":\"Photo\",\"t\":[\"cat\"],\"c\":0,\"lu\":0,\"ca\":0}]";
    let r = import(&mut store, "u".to_string(), gzip(json));
    assert_eq!(r, Err(StoreError::Consistency));
    assert_eq!(store, before);
}

#[test]
fn import_decodes_surrogate_pair_escapes() {
    // a four-byte character written the JSON way, as a surrogate pair
    let json = "[{\"id\":\"e1\",\"fi\":\"f1\",\"tp\":\"Sticker\",\"t\":[\"\\uD83D\\uDE00\"],\"c\":0,\"lu\":0,\"ca\":0}]";
    let mut store = Store::new();
    import(&mut store, "u".to_string(), gzip(json)).unwrap();
    assert_eq!(
        get_tags(&store, "u".to_string(), "e1".to_string()),
        vec!["\u{1F600}".to_string()]
    );
}

#[test]
fn import_rejects_a_duplicate_field() {
    let json = "[{\"id\":\"e1\",\"id\":\"e2\",\"fi\":\"f\",\"tp\":\"Photo\",\"t\":[],\"c\":0,\"lu\":0,\"ca\":0}]";
    let mut store = Store::new();
    let r = import(&mut store, "u".to_string(), gzip(json));
    assert_eq!(r, Err(StoreError::Serialization));
    assert_eq!(store, Store::new());
}

fn qs_file_id(raw: &[u8]) -> String {
    base64::Engine::encode(&base64::engine::general_purpose::URL_SAFE_NO_PAD, raw)
}

#[test]
fn file_id_to_type_reads_the_kind_from_the_reference() {
    assert_eq!(
        Entity::file_id_to_type(&qs_file_id(&[8, 0, 3])),
        Ok(EntityType::Sticker)
    );
    assert_eq!(
        Entity::file_id_to_type(&qs_file_id(&[10, 0, 3])),
        Ok(EntityType::Animation)
    );
    assert_eq!(Entity::file_id_to_type(&qs_file_id(&[2, 0, 3])), Ok(EntityType::Photo));
    assert_eq!(Entity::file_id_to_type(&qs_file_id(&[4, 0, 3])), Ok(EntityType::Video));
    // the two flag bits are cleared before the kind is read
    assert_eq!(
        Entity::file_id_to_type(&qs_file_id(&[8, 0, 2, 1])),
        Ok(EntityType::Sticker)
    );
    // an unknown kind word
    assert_eq!(
        Entity::file_id_to_type(&qs_file_id(&[7, 0, 3])),
        Err(StoreError::UnknownFileType)
    );
    // too short after expansion
    assert_eq!(
        Entity::file_id_to_type(&qs_file_id(&[8])),
        Err(StoreError::UnknownFileType)
    );
    // not base64 at all
    assert_eq!(Entity::file_id_to_type("!!!"), Err(StoreError::UnknownFileType));
}

#[test]
fn third_party_import_derives_kinds_and_lands_in_search() {
    let fid = qs_file_id(&[8, 0, 3]);
    let json = format!(
        "[{{\"id\":\"q1\",\"fileId\":\"{}\",\"tags\":[\"cat\"],\"set\":\"pack\",\"isAnimated\":false}}]",
        fid
    );
    let mut store = Store::new();
    quickstickbot_import(&mut store, "u".to_string(), json.into_bytes()).unwrap();
    assert_eq!(store.entities[0].entity_type, EntityType::Sticker);
    assert_eq!(store.entities[0].file_id, fid);
    let q = InlineSearchQuery {
        tags: vec!["cat".to_string()],
        negative_tags: vec![],
        sort: EntitySort::MostUsed,
        entity_type: None,
        get_all: false,
    };
    let r = find_entities(&store, "u".to_string(), q, 0);
    assert_eq!(r.len(), 1);
    assert_eq!(r[0].entity_id, "q1");
    // imported usage starts at zero
    let stat = get_entity_usage(&store, "u".to_string(), "q1".to_string());
    assert_eq!(stat.count, 0);
}

#[test]
fn import_rejects_a_kind_conflict_within_the_batch() {
    // two records of one batch name the same entity under two kinds
    let json = "[{\"id\":\"e1\",\"fi\":\"f1\",\"tp\":\"Sticker\",\"t\":[\"cat\"],\"c\":0,\"lu\":0,\"ca\":0},\
                 {\"id\":\"e1\",\"fi\":\"f2\",\"tp\":\"Photo\",\"t\":[\"dog\"],\"c\":0,\"lu\":0,\"ca\":0}]";
    let mut store = Store::new();
    let r = import(&mut store, "u".to_string(), gzip(json));
    assert_eq!(r, Err(StoreError::Consistency));
    assert_eq!(store, Store::new());
}

#[test]
fn import_of_the_same_payload_twice_is_a_no_op() {
    let json = "[{\"id\":\"e1\",\"fi\":\"f1\",\"tp\":\"Sticker\",\"t\":[\"cat\",\"dog\"],\"c\":3,\"lu\":7,\"ca\":1},\
                 {\"id\":\"e1\",\"fi\":\"f2\",\"tp\":\"Sticker\",\"t\":[\"cat\"],\"c\":0,\"lu\":0,\"ca\":0},\
                 {\"id\":\"e2\",\"fi\":\"g1\",\"tp\":\"Photo\",\"t\":[\"bird\"],\"c\":0,\"lu\":0,\"ca\":0}]";
    let mut store = Store::new();
    tag(&mut store, "u", "e3", EntityType::Video, &["old"], 5);
    import(&mut store, "u".to_string(), gzip(json)).unwrap();
    let after_first = store.clone();
    import(&mut store, "u".to_string(), gzip(json)).unwrap();
    assert_eq!(store, after_first);
    // the duplicate record agreed on the kind, so it was accepted, and the
    // later file reference won
    assert_eq!(get_tags(&store, "u".to_string(), "e1".to_string()).len(), 2);
    let e1 = store.entities.iter().find(|e| e.entity_id == "e1").unwrap();
    assert_eq!(e1.file_id, "f2");
}

#[test]
fn third_party_import_aborts_on_an_unreadable_reference() {
    let json = "[{\"id\":\"q1\",\"fileId\":\"!!!\",\"tags\":[\"cat\"]}]";
    let mut store = Store::new();
    let before = store.clone();
    let r = quickstickbot_import(&mut store, "u".to_string(), json.as_bytes().to_vec());
    assert_eq!(r, Err(StoreError::UnknownFileType));
    assert_eq!(store, before);
}

#[test]
fn third_party_import_aborts_on_unparsable_bytes() {
    let mut store = Store::new();
    // not UTF-8 at all
    let r = quickstickbot_import(&mut store, "u".to_string(), vec![0xff, 0xfe, 0x01]);
    assert_eq!(r, Err(StoreError::Serialization));
    // UTF-8 that is not a record array
    let r = quickstickbot_import(&mut store, "u".to_string(), b"{\"nope\":1}".to_vec());
    assert_eq!(r, Err(StoreError::Serialization));
    assert_eq!(store, Store::new());
}
