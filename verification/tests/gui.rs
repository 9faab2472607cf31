use taggenator::gui::{startup_flags, Cmd, GuiAction, GuiState};
use taggenator::models::Record;

fn strings(v: &[&str]) -> Vec<String> {
    v.iter().map(|s| s.to_string()).collect()
}

fn record(times: i32) -> Record {
    Record {
        RecordID: 5,
        Name: "a.png".to_string(),
        Location: "./a.png".to_string(),
        Tags: vec![],
        Size: 1,
        Length: -1,
        TimesOpened: times,
        DateAdded: None,
        DateCreated: None,
        DateLastAccessed: None,
        HaveManuallyTouched: false,
        Imported: false,
    }
}

#[test]
fn startup_flags_take_only_the_first() {
    let (ignore, rest) = startup_flags(strings(&["--ignore-update", "x", "--stale"]));
    assert!(ignore);
    assert_eq!(rest, strings(&["x", "--stale"]));
    let (ignore, rest) = startup_flags(strings(&["--stale", "y"]));
    assert!(ignore);
    assert_eq!(rest, strings(&["y"]));
    let (ignore, rest) = startup_flags(strings(&["y"]));
    assert!(!ignore);
    assert_eq!(rest, strings(&["y"]));
}

#[test]
fn start_with_arguments_opens_working_directory() {
    let (mut state, action) = GuiState::new(8080, strings(&["tags", "a"]), true);
    assert!(matches!(action, GuiAction::InitializeHere { ignore_updates: true }));
    assert!(matches!(state.handle(Cmd::GetStartupOptions), GuiAction::StartupOptions { skip: true }));
    assert!(matches!(state.handle(Cmd::GetStartupOptions), GuiAction::StartupOptions { skip: false }));
}

#[test]
fn choice_skipped_only_on_the_first_request() {
    let (mut state, _) = GuiState::new(8080, strings(&["tags"]), false);
    assert!(matches!(state.handle(Cmd::GetPort), GuiAction::Port { port: 8080 }));
    state.initialized();
    assert!(matches!(state.handle(Cmd::GetStartupOptions), GuiAction::StartupOptions { skip: true }));
    assert!(matches!(state.handle(Cmd::GetPort), GuiAction::Port { port: 8080 }));
    for _ in 0..3 {
        assert!(matches!(state.handle(Cmd::GetStartupOptions), GuiAction::StartupOptions { skip: false }));
    }
}

#[test]
fn start_without_arguments() {
    let (mut state, action) = GuiState::new(1, vec![], false);
    assert!(matches!(action, GuiAction::Nothing));
    assert!(matches!(state.handle(Cmd::GetStartupOptions), GuiAction::StartupOptions { skip: false }));
    assert!(matches!(state.handle(Cmd::GetPort), GuiAction::Port { port: 1 }));
}

#[test]
fn record_requests_need_a_database() {
    let (mut state, _) = GuiState::new(1, vec![], false);
    assert!(matches!(state.handle(Cmd::GetTags), GuiAction::Fail));
    assert!(matches!(state.handle(Cmd::OpenRecord { record: record(0) }), GuiAction::Fail));
    state.initialized();
    assert!(matches!(state.handle(Cmd::GetTags), GuiAction::AllTags));
    match state.handle(Cmd::OpenRecord { record: record(2) }) {
        GuiAction::Opened { record } => assert_eq!(record.TimesOpened, 3),
        _ => panic!("expected an opened record"),
    }
    assert!(matches!(state.handle(Cmd::OpenRecord { record: record(i32::MAX) }), GuiAction::Fail));
    assert!(matches!(
        state.handle(Cmd::GetGrabBag { record: record(0) }),
        GuiAction::GrabBag { record_id: 5 }
    ));
}

#[test]
fn spawn_requests() {
    let (mut state, _) = GuiState::new(1, strings(&["q"]), false);
    match state.handle(Cmd::OpenNatively { location: "./a.png".to_string() }) {
        GuiAction::Spawn { program, path } => {
            assert_eq!(program, "xdg-open");
            assert_eq!(path, "./a.png");
        },
        _ => panic!("expected a spawn"),
    }
    match state.handle(Cmd::EditSettings) {
        GuiAction::SpawnInWorkingDir { program, file } => {
            assert_eq!(program, "code");
            assert_eq!(file, "tsettings.yaml");
        },
        _ => panic!("expected a spawn"),
    }
    match state.handle(Cmd::GetInitialArguments) {
        GuiAction::InitialArguments { args } => assert_eq!(args, strings(&["q"])),
        _ => panic!("expected the arguments"),
    }
    assert!(matches!(state.handle(Cmd::Reload), GuiAction::InitializeHere { ignore_updates: false }));
}

#[test]
fn removing_a_folder_forgets_it() {
    let (mut state, _) = GuiState::new(1, vec![], false);
    match state.handle(Cmd::RemoveFolder { path: "/pics".to_string() }) {
        GuiAction::ForgetFolder { path } => assert_eq!(path, "/pics"),
        _ => panic!("expected the folder to be forgotten"),
    }
}
