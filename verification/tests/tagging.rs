use taggenator::db::{Database, Sqlizable, DELETE_TAG_SQL, INSERT_TAG_SQL};
use taggenator::models::Record;
use taggenator::tagging::{classify_tags, split_tag_line, Settings};
use taggenator::taggenator::Taggenator;

fn strings(v: &[&str]) -> Vec<String> {
    v.iter().map(|s| s.to_string()).collect()
}

fn record(tags: &[&str]) -> Record {
    Record {
        RecordID: 7,
        Name: "clip.mp4".to_string(),
        Location: "./videos/clip.mp4".to_string(),
        Tags: strings(tags),
        Size: 10,
        Length: -1,
        TimesOpened: 0,
        DateAdded: None,
        DateCreated: None,
        DateLastAccessed: None,
        HaveManuallyTouched: false,
        Imported: false,
    }
}

fn settings() -> Settings {
    Settings {
        extensions: strings(&["mp4", "png"]),
        derived: vec![("cat".to_string(), strings(&["animal", "pet"]))],
        tagger: vec![("auto".to_string(), "describe %s".to_string())],
        synonyms: vec![("kitty".to_string(), "cat".to_string())],
    }
}

fn flushed(db: &mut Database) -> Vec<(String, Vec<String>)> {
    let mut out = vec![];
    for batch in db.take_outbox() {
        for q in batch {
            let params = q
                .params
                .iter()
                .map(|p| match p {
                    Sqlizable::Text(t) => t.clone(),
                    Sqlizable::Number(n) => format!("{}", n),
                    Sqlizable::Date(Some(_)) => "date".to_string(),
                    Sqlizable::Date(None) => "null".to_string(),
                    Sqlizable::Boolean(b) => format!("{}", b),
                })
                .collect();
            out.push((q.sql.clone(), params));
        }
    }
    out
}

#[test]
fn split_line_trims_pieces() {
    assert_eq!(split_tag_line(" a, b ,,c "), strings(&["a", "b", "", "c"]));
    assert_eq!(split_tag_line(""), strings(&[""]));
}

#[test]
fn classify_additions_and_removals() {
    let tags = strings(&["new", "-old", "gone-", "", "-missing", "old", "kept"]);
    let existing = strings(&["old", "gone", "kept"]);
    let c = classify_tags(&tags, &existing);
    assert_eq!(c.to_add, strings(&["new"]));
    assert_eq!(c.to_remove, strings(&["old", "gone"]));
}

#[test]
fn valid_extensions() {
    let s = settings();
    assert!(Settings::valid_extension(&s.extensions, "./a/b.mp4"));
    assert!(!Settings::valid_extension(&s.extensions, "./a/b.txt"));
    assert!(!Settings::valid_extension(&s.extensions, "./a/mp4"));
}

#[test]
fn tagger_commands_and_outputs() {
    let s = settings();
    let tags = strings(&["x", "auto", "y"]);
    let cmds = s.tagger_commands(&tags, "./videos/clip.mp4").unwrap();
    assert_eq!(cmds, strings(&["describe ./videos/clip.mp4"]));
    let existing = strings(&["y2"]);
    let after = s.apply_tagger_outputs(&tags, &strings(&["y2\nz\n"]), &existing);
    assert_eq!(after, strings(&["x", "y", "z", ""]));
}

#[test]
fn derived_and_synonyms() {
    let s = settings();
    let existing = strings(&["pet"]);
    let mut tags = strings(&["cat", "dog"]);
    s.add_derived(&existing, &mut tags);
    assert_eq!(tags, strings(&["cat", "dog", "animal"]));
    let mut tags = strings(&["kitty", "dog"]);
    s.handle_synonyms(&existing, &mut tags);
    assert_eq!(tags, strings(&["cat", "dog"]));
}

#[test]
fn tag_line_changes_record_and_database() {
    let mut t = Taggenator::new(settings(), Database::new(100));
    let mut r = record(&["old", "keep"]);
    let applied = t.insert_tag_line(&mut r, "Kitty, cat, -old, new tag, keep".to_string(), &vec![]);
    assert!(applied);
    assert_eq!(r.Tags, strings(&["keep", "Kitty", "cat", "new tag", "animal", "pet"]));
    let written = flushed(&mut t.database);
    assert_eq!(written.len(), 6);
    assert_eq!(written[0].0, INSERT_TAG_SQL);
    assert_eq!(written[0].1, strings(&["7", "kitty", "date"]));
    assert_eq!(written[2].1, strings(&["7", "new tag", "date"]));
    assert_eq!(written[5].0, DELETE_TAG_SQL);
    assert_eq!(written[5].1, strings(&["7", "old"]));
}

#[test]
fn synonym_replaces_tag() {
    let mut t = Taggenator::new(settings(), Database::new(100));
    let mut r = record(&[]);
    assert!(t.insert_tag_line(&mut r, "kitty".to_string(), &vec![]));
    assert_eq!(r.Tags, strings(&["cat"]));
}

#[test]
fn tagger_output_adds_tags() {
    let mut t = Taggenator::new(settings(), Database::new(100));
    let mut r = record(&["a"]);
    assert!(t.insert_tag_line(&mut r, "auto, b".to_string(), &strings(&["a\nc"])));
    assert_eq!(r.Tags, strings(&["a", "b", "c"]));
}

#[test]
fn trailing_dash_cut_inside_character_changes_nothing() {
    let mut t = Taggenator::new(settings(), Database::new(100));
    let mut r = record(&["é"]);
    assert!(!t.insert_tag_line(&mut r, "é-".to_string(), &vec![]));
    assert_eq!(r.Tags, strings(&["é"]));
    assert!(flushed(&mut t.database).is_empty());
}

#[test]
fn trailing_dash_removes_ascii_tag() {
    let mut t = Taggenator::new(settings(), Database::new(100));
    let mut r = record(&["blue", "red"]);
    assert!(t.insert_tag_line(&mut r, "blue-".to_string(), &vec![]));
    assert_eq!(r.Tags, strings(&["red"]));
}

#[test]
fn default_settings_text() {
    let text = Settings::get_default();
    assert!(text.contains("[derived]"));
    assert!(text.contains("[tagger]"));
    assert!(text.contains("[synonyms]"));
}

#[test]
fn settings_text_must_be_toml() {
    assert!(Settings::parse(Settings::get_default()).is_ok());
    assert!(matches!(Settings::parse_checked(Settings::get_default()), Some(Ok(()))));
    assert!(Settings::parse("extensions = [\"mp4\"]\n[synonyms]\nkitty = \"cat\"\n").is_ok());
    assert!(Settings::parse_checked("= broken").is_none());
}

#[test]
fn tags_stay_distinct_after_a_line() {
    let mut t = Taggenator::new(settings(), Database::new(100));
    let mut r = record(&["pet"]);
    assert!(t.insert_tag_line(&mut r, "cat, cat, dog, dog, -pet, pet".to_string(), &vec![]));
    assert_eq!(r.Tags, strings(&["cat", "dog", "animal"]));
}
