use taggenator::cmd::{startup_folders, Cache, CommandError};

fn strings(v: &[&str]) -> Vec<String> {
    v.iter().map(|s| s.to_string()).collect()
}

#[test]
fn command_error_message() {
    let e = CommandError::new("no database");
    assert_eq!(e.message, "no database");
}

#[test]
fn startup_folders_merge_without_repeats() {
    let cache = Cache { opened: strings(&["/a", "/b", "/a", "/c"]) };
    let folders = startup_folders(Some("/b".to_string()), &cache);
    let locations: Vec<String> = folders.into_iter().map(|f| f.location).collect();
    assert_eq!(locations, strings(&["/b", "/a", "/c"]));
    let folders = startup_folders(None, &Cache { opened: vec![] });
    assert!(folders.is_empty());
}

#[test]
fn cache_add_is_idempotent() {
    let mut cache = Cache::with_location("/a".to_string());
    cache.add("/b".to_string());
    cache.add("/a".to_string());
    assert_eq!(cache.opened, strings(&["/a", "/b"]));
}

#[test]
fn cache_remove_undoes_add() {
    let mut cache = Cache { opened: strings(&["/a", "/b"]) };
    cache.add("/c".to_string());
    assert!(cache.remove("/c"));
    assert_eq!(cache.opened, strings(&["/a", "/b"]));
    assert!(!cache.remove("/z"));
    assert_eq!(cache.opened, strings(&["/a", "/b"]));
}
