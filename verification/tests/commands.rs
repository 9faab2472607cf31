use taggenator::commands::{
    apply_tags, exe_command, exe_output_entries, move_record, playlist, playlist_path, run_grab_bag, run_grabbag,
    run_import, Command, ExeOutput, GrabBagAction, ImportAction, ImportStop, RunCommand,
};
use taggenator::errors::MyCustomError;
use taggenator::models::Timestamp;
use taggenator::taggenator::Taggenator;

fn strings(v: &[&str]) -> Vec<String> {
    v.iter().map(|s| s.to_string()).collect()
}

#[test]
fn command_names() {
    assert!(matches!(RunCommand("dump".to_string()), Ok(Command::Dump)));
    assert!(matches!(RunCommand("grab_bag".to_string()), Ok(Command::GrabBag)));
    assert!(matches!(RunCommand("grabbag".to_string()), Ok(Command::GrabBag)));
    assert!(matches!(RunCommand("move".to_string()), Ok(Command::Move)));
    assert!(matches!(RunCommand("run_grabbag".to_string()), Ok(Command::RunGrabbag)));
    assert!(matches!(RunCommand("open_all".to_string()), Ok(Command::OpenAll)));
    match RunCommand("frobnicate".to_string()) {
        Err(MyCustomError::InvalidCommand { name }) => assert_eq!(name, "frobnicate"),
        _ => panic!("expected an invalid command"),
    }
}

#[test]
fn parse_args_reads_update_flag_and_command() {
    let plan = Taggenator::parse_args(strings(&["dump", "--ignore-update", "tags", "a"]));
    assert!(!plan.update_files);
    let (name, args) = plan.command.unwrap();
    assert_eq!(name, "dump");
    assert_eq!(args, strings(&["tags", "a"]));
    let plan = Taggenator::parse_args(vec![]);
    assert!(plan.update_files);
    assert!(plan.command.is_none());
}

#[test]
fn grab_bag_actions() {
    let actions = run_grab_bag(strings(&["add", "./a.png", "k1", "v1", "./b.png", "k2", "v2"])).ok().unwrap();
    assert_eq!(actions.len(), 2);
    match &actions[1] {
        GrabBagAction::Add { location, key, value } => {
            assert_eq!(location, "./b.png");
            assert_eq!(key, "k2");
            assert_eq!(value, "v2");
        },
        _ => panic!("expected an addition"),
    }
    let actions = run_grab_bag(strings(&["get_all", "./a.png", "./b.png"])).ok().unwrap();
    assert_eq!(actions.len(), 2);
    assert!(matches!(&actions[0], GrabBagAction::GetAll { location } if location == "./a.png"));
    let actions = run_grab_bag(strings(&["remove", "./a.png"])).ok().unwrap();
    assert!(actions.is_empty());
}

#[test]
fn grab_bag_unknown_command() {
    assert!(matches!(run_grab_bag(strings(&["put", "x"])), Err(MyCustomError::UnknownError)));
    assert!(run_grab_bag(vec![]).ok().unwrap().is_empty());
}

#[test]
fn import_tags_and_records() {
    let plan = run_import(strings(&[
        "add_tag",
        "./a.png",
        "red",
        "noise",
        "add_record",
        "/pics/b.png",
        "10",
        "-1",
        "3",
        "true",
        "2020-01-02 03:04:05 +0000 UTC",
        "2020-01-02 03:04:05.000500000 +0000 UTC",
        "2020-01-02 03:04:06 +0100 CET",
    ]));
    assert!(plan.stop.is_none());
    assert_eq!(plan.actions.len(), 2);
    match &plan.actions[0] {
        ImportAction::AddTag { location, tag } => {
            assert_eq!(location, "./a.png");
            assert_eq!(tag, "red");
        },
        _ => panic!("expected a tag"),
    }
    match &plan.actions[1] {
        ImportAction::AddRecord {
            filename,
            location,
            size,
            length,
            times_opened,
            have_manually_touched,
            date_created,
            date_last_touched,
        } => {
            assert_eq!(filename, "b.png");
            assert_eq!(location, "/pics/b.png");
            assert_eq!(*size, 10);
            assert_eq!(*length, -1);
            assert_eq!(*times_opened, 3);
            assert!(*have_manually_touched);
            assert_eq!(*date_created, Some(Timestamp { secs: 1577934245, nanos: 500000 }));
            assert_eq!(*date_last_touched, Some(Timestamp { secs: 1577934246 - 3600, nanos: 0 }));
        },
        _ => panic!("expected a record"),
    }
}

#[test]
fn import_keeps_nanoseconds() {
    let plan = run_import(strings(&[
        "add_record",
        "/pics/c.png",
        "1",
        "2",
        "3",
        "false",
        "2020-01-02 03:04:05 +0000 UTC",
        "2020-01-02 03:04:05.000000007 +0000 UTC",
        "1970-01-01 00:00:01.250000000 +0000 UTC",
    ]));
    assert!(plan.stop.is_none());
    match &plan.actions[0] {
        ImportAction::AddRecord { date_created, date_last_touched, .. } => {
            assert_eq!(*date_created, Some(Timestamp { secs: 1577934245, nanos: 7 }));
            assert_eq!(*date_last_touched, Some(Timestamp { secs: 1, nanos: 250000000 }));
        },
        _ => panic!("expected a record"),
    }
}

#[test]
fn import_stops() {
    let plan = run_import(strings(&["add_tag", "./a.png"]));
    assert!(plan.stop == Some(ImportStop::MissingArgument));
    assert!(plan.actions.is_empty());
    let plan = run_import(strings(&["add_tag", "a", "b", "add_record", "./x.png", "ten"]));
    assert!(plan.stop == Some(ImportStop::Invalid));
    assert_eq!(plan.actions.len(), 1);
    let plan = run_import(strings(&["add_record", "..", "1"]));
    assert!(plan.stop == Some(ImportStop::NoFileName));
    let plan = run_import(strings(&["add_record", "./x.png", "1", "2", "3", "yes"]));
    assert!(plan.stop == Some(ImportStop::Invalid));
    let plan = run_import(strings(&["add_record", "./x.png", "1", "2", "3", "false", "not a date", "", ""]));
    assert!(plan.stop == Some(ImportStop::Invalid));
}

#[test]
fn apply_tags_arguments() {
    let plan = apply_tags(strings(&["--tag", "a, b", "search", "x", "--threads", "3", "-tag", "c"])).unwrap();
    assert_eq!(plan.threads, 3);
    assert_eq!(plan.tags, strings(&["a, b", "c"]));
    assert_eq!(plan.search, strings(&["search", "x"]));
    let plan = apply_tags(strings(&["tags", "x"])).unwrap();
    assert_eq!(plan.threads, 1);
    assert!(plan.tags.is_empty());
    assert!(apply_tags(strings(&["--threads", "many"])).is_none());
}

#[test]
fn run_grabbag_arguments() {
    let plan = run_grabbag(strings(&["-exe", "./probe", "--threads", "8", "--exe", "./other"])).unwrap();
    assert_eq!(plan.threads, 8);
    assert_eq!(plan.exes, strings(&["./other", "./probe"]));
    assert!(plan.search.is_empty());
    assert_eq!(plan.workers(3), 3);
    assert_eq!(plan.workers(20), 8);
}

#[test]
fn move_arguments() {
    let (dest, rest) = move_record(strings(&["tags", "a", "--destination", "/tmp/out"])).unwrap();
    assert_eq!(dest, "/tmp/out");
    assert_eq!(rest, strings(&["tags", "a"]));
    let (dest, _) = move_record(strings(&["-destination", "one", "--destination", "two"])).unwrap();
    assert_eq!(dest, "one");
    assert!(move_record(strings(&["tags", "a"])).is_none());
}

#[test]
fn move_target_skips_same_place() {
    assert_eq!(taggenator::commands::move_target("./out", "a.png", "./out/a.png"), None);
    assert_eq!(taggenator::commands::move_target("./out", "a.png", "./out//a.png"), None);
    assert!(taggenator::commands::move_target("./out", "a.png", "out/a.png").is_some());
    assert_eq!(
        taggenator::commands::move_target("./out", "a.png", "./in/a.png"),
        Some("./out/a.png".to_string())
    );
}

#[test]
fn exe_commands_quote_the_location() {
    assert_eq!(exe_command("./probe --json", "/data/a b.mp4"), "./probe --json \"/data/a b.mp4\"");
}

#[test]
fn exe_outputs() {
    assert!(matches!(exe_output_entries("  \n"), ExeOutput::Nothing));
    assert!(matches!(exe_output_entries("not json"), ExeOutput::Invalid));
    assert!(matches!(exe_output_entries("[1, 2]"), ExeOutput::NotAnObject));
    match exe_output_entries(" {\"b\": \"2\", \"a\": \"1\", \"n\": 3} ") {
        ExeOutput::Entries(e) => {
            assert_eq!(e, vec![("a".to_string(), "1".to_string()), ("b".to_string(), "2".to_string())]);
        },
        _ => panic!("expected entries"),
    }
}

#[test]
fn playlists() {
    assert_eq!(playlist(&strings(&["/a.mp4", "/b c.mp4"])), "#EXTM3U\n/a.mp4\n/b c.mp4\n");
    assert_eq!(playlist(&vec![]), "#EXTM3U\n");
    assert_eq!(playlist_path("abc123XYZ0"), "/tmp/gt_abc123XYZ0.m3u");
}

#[test]
fn shell_words_lines() {
    let words = taggenator::commands::split_command_line("add './my file.png' \"key\" v").ok().unwrap();
    assert_eq!(words, strings(&["add", "./my file.png", "key", "v"]));
    assert!(matches!(taggenator::commands::split_command_line("'open"), Err(MyCustomError::ParseError)));
}

#[test]
fn command_invocations() {
    match taggenator::commands::command_invocation("describe './a b.mp4' --fast") {
        Ok(Some((program, args))) => {
            assert_eq!(program, "describe");
            assert_eq!(args, strings(&["./a b.mp4", "--fast"]));
        },
        _ => panic!("expected a program"),
    }
    assert!(matches!(taggenator::commands::command_invocation("   "), Ok(None)));
    assert!(matches!(taggenator::commands::command_invocation("\"x"), Err(MyCustomError::ParseError)));
}
