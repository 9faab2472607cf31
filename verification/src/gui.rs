//! The window's side of the library: what each request of the window asks
//! the library to do, and the little state kept between requests.
#![allow(non_snake_case)]
use vstd::prelude::*;
use crate::flags::take_flag;
use crate::models::Record;
use crate::text::str_views;

verus! {

/// The requests of the window.
pub enum Cmd {
    DoSomethingSync { argument: String },
    GetStartupOptions,
    OpenNewFolder,
    RemoveFolder { path: String },
    Initialize { location: String },
    AddTags { record: Record, tag_line: String },
    GetTags,
    GetRecords { args: Vec<String> },
    OpenRecord { record: Record },
    GetGrabBag { record: Record },
    SetGrabBagKey { record: Record, key: String, value: String },
    GetInitialArguments,
    GetPort,
    OpenContainingFolder { location: String },
    OpenNatively { location: String },
    EditSettings,
    Reload,
    GetRecommendedTags { record: Record },
    GetCache { key: String },
    SetCache { key: String, value: String },
}

/// What the library is asked to do for a request.
pub enum GuiAction {
    /// Nothing but to acknowledge.
    Nothing,
    /// Print the argument.
    Print { text: String },
    /// Offer the startup folders, saying whether to skip the choice.
    StartupOptions { skip: bool },
    /// Open the database of a folder, bringing it in step with the file
    /// system unless told not to.
    Initialize { location: String, ignore_updates: bool },
    /// Open the database of the working directory again.
    InitializeHere { ignore_updates: bool },
    /// Let the user pick a folder, then open its database.
    PickFolder { ignore_updates: bool },
    /// Apply a tag line to a record and give the record back.
    AddTags { record: Record, tag_line: String },
    /// Forget a folder opened before.
    ForgetFolder { path: String },
    /// Give all tags.
    AllTags,
    /// Search with the arguments.
    Search { args: Vec<String> },
    /// Record one more opening of the record and give it back.
    Opened { record: Record },
    /// Give the grab bag of a record.
    GrabBag { record_id: i64 },
    /// Set a key of a record's grab bag.
    SetGrabBag { record_id: i64, key: String, value: String },
    /// Recommend tags for a record.
    Recommend { record: Record },
    /// Give the arguments the program was started with.
    InitialArguments { args: Vec<String> },
    /// Give the port of the file server.
    Port { port: u16 },
    /// Start a program on a path.
    Spawn { program: String, path: String },
    /// Start a program on a file of the working directory.
    SpawnInWorkingDir { program: String, file: String },
    /// Give a value of the cache table.
    GetCache { key: String },
    /// Set a value of the cache table.
    SetCache { key: String, value: String },
    /// The request needs an open database and there is none, or the record
    /// cannot be opened once more: the request fails.
    Fail,
}

/// The file of the settings that the editor opens.
pub const SETTINGS_FILENAME: &'static str = "tsettings.yaml";

/// The state kept between requests.
pub struct GuiState {
    /// Whether the next request for the startup options skips the choice.
    pub skip_initialization: bool,
    /// Whether a database is open.
    pub ready: bool,
    pub ignore_updates: bool,
    pub port: u16,
    pub initial_arguments: Vec<String>,
}

/// Reads the flags of the window's command line: `--ignore-update`, or else
/// `--stale`, asks not to bring the database in step with the file system.
/// Only the first flag is taken where it is given.
pub fn startup_flags(args: Vec<String>) -> (r: (bool, Vec<String>))
    ensures
        ({
            let a = str_views(args@);
            if a.contains("--ignore-update"@) {
                r.0 && str_views(r.1@) == a.filter(|x: Seq<char>| x != "--ignore-update"@)
            } else {
                r.0 == a.contains("--stale"@) && str_views(r.1@) == a.filter(|x: Seq<char>| x != "--stale"@)
            }
        }),
{
    let ghost original = str_views(args@);
    let mut args = args;
    if take_flag(&mut args, "--ignore-update") {
        return (true, args);
    }
    let ghost before = str_views(args@);
    let stale = take_flag(&mut args, "--stale");

    (stale, args)
}

/// Whether the folder choice is still skipped after a request: the first
/// request for the startup options ends the skipping.
pub open spec fn skip_step(skip: bool, asks_startup_options: bool) -> bool {
    skip && !asks_startup_options
}

/// Whether the folder choice is skipped after a run of requests, from the
/// start with or without initial arguments; each request is given by whether
/// it asks for the startup options.
pub open spec fn skip_after(has_arguments: bool, requests: Seq<bool>) -> bool
    decreases requests.len(),
{
    if requests.len() == 0 {
        has_arguments
    } else {
        skip_step(skip_after(has_arguments, requests.drop_last()), requests.last())
    }
}

/// Over any run of requests the folder choice is skipped only until the first
/// request for the startup options, and only where the window started with
/// initial arguments: the answer to a request for the startup options skips
/// the choice only when it is the first such request, and no later answer
/// skips it.
pub proof fn lemma_skip_only_on_first_request(has_arguments: bool, requests: Seq<bool>)
    ensures
        skip_after(has_arguments, requests) == (has_arguments && forall|j: int|
            0 <= j < requests.len() ==> !#[trigger] requests[j]),
        forall|i: int, k: int|
            0 <= i < k <= requests.len() && #[trigger] requests[i] ==> !skip_after(
                has_arguments,
                #[trigger] requests.take(k),
            ),
    decreases requests.len(),
{
    lemma_skip_first_part(has_arguments, requests);
    if requests.len() > 0 {
        assert forall|i: int, k: int|
            0 <= i < k <= requests.len() && #[trigger] requests[i] implies !skip_after(
                has_arguments,
                #[trigger] requests.take(k),
            ) by {
            let prefix = requests.take(k);
            if k < requests.len() {
                lemma_skip_only_on_first_request(has_arguments, prefix);
                assert(prefix[i] == requests[i]);
            } else {
                assert(prefix =~= requests);
            }
        }
    }
}

/// The flag after a run of requests is the flag at the start, while no
/// request asked for the startup options.
proof fn lemma_skip_first_part(has_arguments: bool, requests: Seq<bool>)
    ensures
        skip_after(has_arguments, requests) == (has_arguments && forall|j: int|
            0 <= j < requests.len() ==> !#[trigger] requests[j]),
    decreases requests.len(),
{
    if requests.len() > 0 {
        let rest = requests.drop_last();
        lemma_skip_first_part(has_arguments, rest);
        if skip_after(has_arguments, requests) {
            assert forall|j: int| 0 <= j < requests.len() implies !#[trigger] requests[j] by {
                if j < rest.len() {
                    assert(rest[j] == requests[j]);
                }
            }
        }
        if has_arguments && forall|j: int| 0 <= j < requests.len() ==> !#[trigger] requests[j] {
            assert forall|j: int| 0 <= j < rest.len() implies !#[trigger] rest[j] by {
                assert(rest[j] == requests[j]);
            }
        }
    }
}

impl GuiState {
    /// The state when the window starts, and what to do at once: with
    /// arguments, the working directory's database is opened and the folder
    /// choice is skipped.
    pub fn new(port: u16, initial_arguments: Vec<String>, ignore_updates: bool) -> (r: (GuiState, GuiAction))
        ensures
            r.0.port == port,
            r.0.initial_arguments@ == initial_arguments@,
            r.0.ignore_updates == ignore_updates,
            r.0.ready == false,
            r.0.skip_initialization == (initial_arguments@.len() > 0),
            if initial_arguments@.len() > 0 {
                r.1 == GuiAction::InitializeHere { ignore_updates }
            } else {
                r.1 is Nothing
            },
    {
        let start = initial_arguments.len() > 0;
        let state = GuiState {
            skip_initialization: start,
            ready: false,
            ignore_updates,
            port,
            initial_arguments,
        };
        if start {
            (state, GuiAction::InitializeHere { ignore_updates })
        } else {
            (state, GuiAction::Nothing)
        }
    }

    /// A database was opened.
    pub fn initialized(&mut self)
        ensures
            final(self).ready,
            final(self).skip_initialization == old(self).skip_initialization,
            final(self).ignore_updates == old(self).ignore_updates,
            final(self).port == old(self).port,
            final(self).initial_arguments@ == old(self).initial_arguments@,
    {
        self.ready = true;
    }

    /// What a request asks for. Asking for the startup options ends the
    /// skipping of the folder choice; requests on records need an open
    /// database.
    pub fn handle(&mut self, cmd: Cmd) -> (action: GuiAction)
        ensures
            final(self).ready == old(self).ready,
            final(self).ignore_updates == old(self).ignore_updates,
            final(self).port == old(self).port,
            final(self).initial_arguments@ == old(self).initial_arguments@,
            final(self).skip_initialization == skip_step(old(self).skip_initialization, cmd is GetStartupOptions),
            match cmd {
                Cmd::DoSomethingSync { argument } => action == GuiAction::Print { text: argument },
                Cmd::GetStartupOptions => action == GuiAction::StartupOptions {
                    skip: old(self).skip_initialization,
                },
                Cmd::OpenNewFolder => action == GuiAction::PickFolder {
                    ignore_updates: old(self).ignore_updates,
                },
                Cmd::RemoveFolder { path } => action == GuiAction::ForgetFolder { path },
                Cmd::Initialize { location } => action == GuiAction::Initialize {
                    location,
                    ignore_updates: old(self).ignore_updates,
                },
                Cmd::Reload => action == GuiAction::InitializeHere { ignore_updates: false },
                Cmd::AddTags { record, tag_line } => if old(self).ready {
                    action == GuiAction::AddTags { record, tag_line }
                } else {
                    action is Fail
                },
                Cmd::GetTags => if old(self).ready {
                    action is AllTags
                } else {
                    action is Fail
                },
                Cmd::GetRecords { args } => if old(self).ready {
                    action == GuiAction::Search { args }
                } else {
                    action is Fail
                },
                Cmd::OpenRecord { record } => if old(self).ready && record.TimesOpened < i32::MAX {
                    action matches GuiAction::Opened { record: r } && r@ == (crate::models::RecordView {
                        times_opened: (record.TimesOpened + 1) as i32,
                        ..record@
                    })
                } else {
                    action is Fail
                },
                Cmd::GetGrabBag { record } => if old(self).ready {
                    action == GuiAction::GrabBag { record_id: record.RecordID }
                } else {
                    action is Fail
                },
                Cmd::SetGrabBagKey { record, key, value } => if old(self).ready {
                    action == GuiAction::SetGrabBag { record_id: record.RecordID, key, value }
                } else {
                    action is Fail
                },
                Cmd::GetRecommendedTags { record } => if old(self).ready {
                    action == GuiAction::Recommend { record }
                } else {
                    action is Fail
                },
                Cmd::GetInitialArguments => action matches GuiAction::InitialArguments { args } && args@
                    == old(self).initial_arguments@,
                Cmd::GetPort => action == GuiAction::Port { port: old(self).port },
                Cmd::OpenContainingFolder { location } => action matches GuiAction::Spawn {
                    program,
                    path,
                } && program@ == "nemo"@ && path == location,
                Cmd::OpenNatively { location } => action matches GuiAction::Spawn { program, path }
                    && program@ == "xdg-open"@ && path == location,
                Cmd::EditSettings => action matches GuiAction::SpawnInWorkingDir { program, file }
                    && program@ == "code"@ && file@ == SETTINGS_FILENAME@,
                Cmd::GetCache { key } => if old(self).ready {
                    action == GuiAction::GetCache { key }
                } else {
                    action is Fail
                },
                Cmd::SetCache { key, value } => if old(self).ready {
                    action == GuiAction::SetCache { key, value }
                } else {
                    action is Fail
                },
            },
    {
        match cmd {
            Cmd::DoSomethingSync { argument } => GuiAction::Print { text: argument },
            Cmd::GetStartupOptions => {
                let skip = self.skip_initialization;
                self.skip_initialization = false;
                GuiAction::StartupOptions { skip }
            },
            Cmd::OpenNewFolder => GuiAction::PickFolder { ignore_updates: self.ignore_updates },
            Cmd::RemoveFolder { path } => GuiAction::ForgetFolder { path },
            Cmd::Initialize { location } => GuiAction::Initialize {
                location,
                ignore_updates: self.ignore_updates,
            },
            Cmd::Reload => GuiAction::InitializeHere { ignore_updates: false },
            Cmd::AddTags { record, tag_line } => if self.ready {
                GuiAction::AddTags { record, tag_line }
            } else {
                GuiAction::Fail
            },
            Cmd::GetTags => if self.ready {
                GuiAction::AllTags
            } else {
                GuiAction::Fail
            },
            Cmd::GetRecords { args } => if self.ready {
                GuiAction::Search { args }
            } else {
                GuiAction::Fail
            },
            Cmd::OpenRecord { record } => if self.ready && record.TimesOpened < i32::MAX {
                let mut r = record;
                r.TimesOpened = r.TimesOpened + 1;
                GuiAction::Opened { record: r }
            } else {
                GuiAction::Fail
            },
            Cmd::GetGrabBag { record } => if self.ready {
                GuiAction::GrabBag { record_id: record.RecordID }
            } else {
                GuiAction::Fail
            },
            Cmd::SetGrabBagKey { record, key, value } => if self.ready {
                GuiAction::SetGrabBag { record_id: record.RecordID, key, value }
            } else {
                GuiAction::Fail
            },
            Cmd::GetRecommendedTags { record } => if self.ready {
                GuiAction::Recommend { record }
            } else {
                GuiAction::Fail
            },
            Cmd::GetInitialArguments => {
                let args = crate::text::copy_strings(&self.initial_arguments);
                GuiAction::InitialArguments { args }
            },
            Cmd::GetPort => GuiAction::Port { port: self.port },
            Cmd::OpenContainingFolder { location } => GuiAction::Spawn {
                program: "nemo".to_owned(),
                path: location,
            },
            Cmd::OpenNatively { location } => GuiAction::Spawn {
                program: "xdg-open".to_owned(),
                path: location,
            },
            Cmd::EditSettings => GuiAction::SpawnInWorkingDir {
                program: "code".to_owned(),
                file: SETTINGS_FILENAME.to_owned(),
            },
            Cmd::GetCache { key } => if self.ready {
                GuiAction::GetCache { key }
            } else {
                GuiAction::Fail
            },
            Cmd::SetCache { key, value } => if self.ready {
                GuiAction::SetCache { key, value }
            } else {
                GuiAction::Fail
            },
        }
    }
}

} // verus!
