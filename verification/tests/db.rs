use taggenator::db::{
    Database, Sqlizable, DELETE_GRABBAG_SQL, DELETE_RECORD_SQL, INSERT_RECORD_SQL, SET_TIMES_OPENED_SQL,
    SET_TOUCHED_SQL, UPDATE_LOCATION_SQL, UPDATE_RECORD_BY_LOCATION_SQL, UPSERT_GRABBAG_BY_LOCATION_SQL,
    UPSERT_GRABBAG_SQL,
};
use taggenator::models::{Record, Timestamp};

fn strings(v: &[&str]) -> Vec<String> {
    v.iter().map(|s| s.to_string()).collect()
}

fn params(q: &taggenator::db::Query) -> Vec<String> {
    q.params
        .iter()
        .map(|p| match p {
            Sqlizable::Text(t) => format!("text:{}", t),
            Sqlizable::Number(n) => format!("number:{}", n),
            Sqlizable::Date(Some(d)) => format!("date:{}.{:09}", d.secs, d.nanos),
            Sqlizable::Date(None) => "date:null".to_string(),
            Sqlizable::Boolean(b) => format!("bool:{}", b),
        })
        .collect()
}

#[test]
fn unbatched_writes_are_sent_at_once() {
    let mut db = Database::new(100);
    db.delete_record(3);
    db.set_touched(3, true);
    let out = db.take_outbox();
    assert_eq!(out.len(), 2);
    assert_eq!(out[0][0].sql, DELETE_RECORD_SQL);
    assert_eq!(params(&out[0][0]), strings(&["number:3"]));
    assert_eq!(out[1][0].sql, SET_TOUCHED_SQL);
    assert_eq!(params(&out[1][0]), strings(&["bool:true", "number:3"]));
    assert!(db.take_outbox().is_empty());
}

#[test]
fn batches_wait_for_their_end() {
    let mut db = Database::new(100);
    db.start_batch();
    db.start_batch();
    db.set_times_opened(1, 4);
    db.grabbag_upsert(1, "k".to_string(), "v".to_string());
    db.end_batch();
    assert!(db.take_outbox().is_empty());
    db.end_batch();
    let out = db.take_outbox();
    assert_eq!(out.len(), 1);
    assert_eq!(out[0].len(), 2);
    assert_eq!(out[0][0].sql, SET_TIMES_OPENED_SQL);
    assert_eq!(params(&out[0][0]), strings(&["number:4", "number:1"]));
    assert_eq!(out[0][1].sql, UPSERT_GRABBAG_SQL);
    assert_eq!(db.batch_depth(), 0);
}

#[test]
fn full_batch_is_sent_early() {
    let mut db = Database::new(2);
    db.start_batch();
    db.delete_record(1);
    db.delete_record(2);
    db.delete_record(3);
    let out = db.take_outbox();
    assert_eq!(out.len(), 1);
    assert_eq!(out[0].len(), 2);
    db.end_batch();
    let out = db.take_outbox();
    assert_eq!(out.len(), 1);
    assert_eq!(params(&out[0][0]), strings(&["number:3"]));
}

#[test]
fn empty_batch_is_still_sent() {
    let mut db = Database::new(10);
    db.start_batch();
    db.end_batch();
    let out = db.take_outbox();
    assert_eq!(out.len(), 1);
    assert!(out[0].is_empty());
}

#[test]
fn record_queries() {
    let mut db = Database::new(100);
    db.add_record_core(
        "a.mp4".to_string(),
        "./a.mp4".to_string(),
        5,
        -1,
        0,
        Some(Timestamp { secs: 11, nanos: 5 }),
        None,
        None,
        false,
        false,
    );
    db.update_location(-12, "./b/a.mp4");
    let out = db.take_outbox();
    assert_eq!(out[0][0].sql, INSERT_RECORD_SQL);
    assert_eq!(
        params(&out[0][0]),
        strings(&[
            "text:a.mp4",
            "text:./a.mp4",
            "number:5",
            "number:-1",
            "number:0",
            "date:11.000000005",
            "date:null",
            "date:null",
            "bool:false",
            "bool:false"
        ])
    );
    assert_eq!(out[1][0].sql, UPDATE_LOCATION_SQL);
    assert_eq!(params(&out[1][0]), strings(&["text:./b/a.mp4", "text:-12"]));
}

#[test]
fn by_location_keeps_dotted_locations() {
    let mut db = Database::new(100);
    assert!(db.grabbag_upsert_by_location("./x.png".to_string(), "k".to_string(), "v".to_string(), "/home"));
    assert!(db.add_record_by_location(
        "x.png".to_string(),
        "./x.png".to_string(),
        1,
        2,
        3,
        None,
        Some(Timestamp { secs: 5, nanos: 0 }),
        None,
        true,
        true,
        "/home"
    ));
    let out = db.take_outbox();
    assert_eq!(out[0][0].sql, UPSERT_GRABBAG_BY_LOCATION_SQL);
    assert_eq!(params(&out[0][0]), strings(&["text:k", "text:v", "text:./x.png"]));
    assert_eq!(out[1][0].sql, UPDATE_RECORD_BY_LOCATION_SQL);
    let p = params(&out[1][0]);
    assert_eq!(p.len(), 11);
    assert!(p[5].starts_with("date:") && p[5] != "date:null");
    assert_eq!(p[10], "text:./x.png");
}

#[test]
fn by_location_makes_absolute_locations_relative() {
    let mut db = Database::new(100);
    assert!(db.grabbag_delete_by_location("/home/me/pics/x.png".to_string(), "k".to_string(), "/home/me"));
    let out = db.take_outbox();
    assert_eq!(params(&out[0][0]), strings(&["text:./pics/x.png", "text:k"]));
}

#[test]
fn by_location_without_relative_path_writes_nothing() {
    let mut db = Database::new(100);
    assert!(!db.add_tag_by_location("pics/x.png".to_string(), "t".to_string(), "/home/me"));
    assert!(db.take_outbox().is_empty());
}

#[test]
fn grabbag_delete_query() {
    let mut db = Database::new(100);
    db.grabbag_delete(9, "key".to_string());
    let out = db.take_outbox();
    assert_eq!(out[0][0].sql, DELETE_GRABBAG_SQL);
    assert_eq!(params(&out[0][0]), strings(&["number:9", "text:key"]));
}

#[test]
fn tags_lowercased_and_trimmed_and_learned() {
    let mut db = Database::new(100);
    let tags = db.get_all_tags(strings(&["beach"]));
    assert_eq!(tags, strings(&["beach"]));
    db.add_tags(2, &strings(&["  Sunset ", "Dawn"]));
    let out = db.take_outbox();
    assert_eq!(out.len(), 1);
    assert_eq!(params(&out[0][0])[1], "text:sunset");
    assert_eq!(params(&out[0][1])[1], "text:dawn");
    let r = Record {
        RecordID: 2,
        Name: "x.png".to_string(),
        Location: "./dawn at the beach.png".to_string(),
        Tags: strings(&["beach"]),
        Size: 0,
        Length: 0,
        TimesOpened: 0,
        DateAdded: None,
        DateCreated: None,
        DateLastAccessed: None,
        HaveManuallyTouched: false,
        Imported: false,
    };
    assert_eq!(db.get_recommended_tags(&r), Some(strings(&["dawn"])));
}

#[test]
fn no_recommendations_before_tags_are_loaded() {
    let db = Database::new(100);
    let r = Record {
        RecordID: 2,
        Name: "x.png".to_string(),
        Location: "./x.png".to_string(),
        Tags: vec![],
        Size: 0,
        Length: 0,
        TimesOpened: 0,
        DateAdded: None,
        DateCreated: None,
        DateLastAccessed: None,
        HaveManuallyTouched: false,
        Imported: false,
    };
    assert_eq!(db.get_recommended_tags(&r), None);
}

#[test]
fn remove_tags_in_one_batch() {
    let mut db = Database::new(100);
    db.remove_tags(4, &strings(&["a", "B"]));
    let out = db.take_outbox();
    assert_eq!(out.len(), 1);
    assert_eq!(params(&out[0][1]), strings(&["number:4", "text:B"]));
}

#[test]
fn scanned_record_defaults() {
    let mut db = Database::new(100);
    db.add_record("a.mp4", "./a.mp4", 42, Some(Timestamp { secs: 9, nanos: 120 }));
    let out = db.take_outbox();
    assert_eq!(out[0][0].sql, INSERT_RECORD_SQL);
    let p = params(&out[0][0]);
    assert_eq!(p[0..5].to_vec(), strings(&["text:a.mp4", "text:./a.mp4", "number:42", "number:-1", "number:0"]));
    assert!(p[5] != "date:null");
    assert_eq!(p[6..].to_vec(), strings(&["date:9.000000120", "date:null", "bool:false", "bool:false"]));
}
