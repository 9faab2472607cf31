use taggenator::models::MiniRecord;
use taggenator::update::{count_actions, plan_update, FoundFile, KnownFile, UpdateAction};

fn known(name: &str, id: i64, loc: &str) -> KnownFile {
    KnownFile { name: name.to_string(), record: MiniRecord { RecordID: id, Location: loc.to_string() } }
}

fn found(name: &str, loc: &str) -> FoundFile {
    FoundFile { name: name.to_string(), location: loc.to_string() }
}

#[test]
fn adds_moves_and_deletes() {
    let fm = vec![known("a.mp4", 1, "./a.mp4"), known("b.mp4", 2, "./b.mp4"), known("d.mp4", 4, "./d.mp4")];
    let scan = vec![found("a.mp4", "./a.mp4"), found("b.mp4", "./x/b.mp4"), found("c.mp4", "./c.mp4")];
    let p = plan_update(&fm, &scan);
    assert!(p.duplicate.is_none());
    assert_eq!((p.num_added, p.num_renamed, p.num_deleted), (1, 1, 1));
    assert_eq!(count_actions(&p.actions), (1, 1, 1));
    assert!(p.actions.iter().any(|a| matches!(a, UpdateAction::Add { name, location } if name == "c.mp4" && location == "./c.mp4")));
    assert!(p.actions.iter().any(|a| matches!(a, UpdateAction::Move { id: 2, location } if location == "./x/b.mp4")));
    assert!(p.actions.iter().any(|a| matches!(a, UpdateAction::Delete { id: 4 })));
}

#[test]
fn nothing_changed() {
    let fm = vec![known("a.mp4", 1, "./a.mp4")];
    let scan = vec![found("a.mp4", "./a.mp4")];
    let p = plan_update(&fm, &scan);
    assert!(p.actions.is_empty());
    assert!(p.duplicate.is_none());
}

#[test]
fn two_new_places_for_one_name_are_duplicates() {
    let fm = vec![known("a.mp4", 1, "./a.mp4")];
    let scan = vec![found("a.mp4", "./x/a.mp4"), found("a.mp4", "./y/a.mp4")];
    let p = plan_update(&fm, &scan);
    match p.duplicate {
        Some(files) => assert_eq!(files, vec!["./x/a.mp4".to_string(), "./y/a.mp4".to_string()]),
        None => panic!("expected duplicates"),
    }
}

#[test]
fn copy_of_known_file_is_added() {
    let fm = vec![known("a.mp4", 1, "./a.mp4")];
    let scan = vec![found("a.mp4", "./a.mp4"), found("a.mp4", "./copy/a.mp4")];
    let p = plan_update(&fm, &scan);
    assert!(p.duplicate.is_none());
    assert_eq!((p.num_added, p.num_renamed, p.num_deleted), (1, 0, 0));
}
