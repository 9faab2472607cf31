//! The commands of the command line: which command a name selects, and what
//! each command's arguments ask for.
#![allow(non_snake_case)]
use vstd::prelude::*;
use crate::errors::MyCustomError;
use crate::flags::{collect_flag_values, take_flag, take_flag_values, take_flag_with_arg, taken_flag};
use crate::taggenator::Taggenator;
use crate::dates::{date_value, get_date};
use crate::models::Timestamp;
use crate::paths::{file_name_of, join_path, path_file_name, path_joined, paths_equal, same_path};
use crate::text::{parse_bool, parse_bool_spec, parse_i64, parse_int, parse_usize, push_char, str_eq, str_views, string_of, chars_of, trim, trim_str};

verus! {

/// The commands of the command line.
#[derive(PartialEq, Eq, Structural)]
pub enum Command {
    Dump,
    GrabBag,
    Import,
    DumpTags,
    Open,
    OpenAll,
    ApplyTags,
    RunGrabbag,
    Delete,
    Move,
}

/// The command a name selects.
pub open spec fn command_named(name: Seq<char>) -> Option<Command> {
    if name == "dump"@ {
        Some(Command::Dump)
    } else if name == "grabbag"@ || name == "grab_bag"@ {
        Some(Command::GrabBag)
    } else if name == "import"@ {
        Some(Command::Import)
    } else if name == "dump_tags"@ {
        Some(Command::DumpTags)
    } else if name == "open"@ {
        Some(Command::Open)
    } else if name == "open_all"@ {
        Some(Command::OpenAll)
    } else if name == "apply_tags"@ {
        Some(Command::ApplyTags)
    } else if name == "run_grabbag"@ {
        Some(Command::RunGrabbag)
    } else if name == "delete"@ {
        Some(Command::Delete)
    } else if name == "move"@ {
        Some(Command::Move)
    } else {
        None
    }
}

/// The name written on the command line for a command; the grab bag also
/// answers to `grab_bag`.
pub open spec fn command_name(c: Command) -> Seq<char> {
    match c {
        Command::Dump => "dump"@,
        Command::GrabBag => "grabbag"@,
        Command::Import => "import"@,
        Command::DumpTags => "dump_tags"@,
        Command::Open => "open"@,
        Command::OpenAll => "open_all"@,
        Command::ApplyTags => "apply_tags"@,
        Command::RunGrabbag => "run_grabbag"@,
        Command::Delete => "delete"@,
        Command::Move => "move"@,
    }
}

/// Each command is selected by its own name, and a name selects a command
/// only where it is that command's name (or `grab_bag` for the grab bag).
pub proof fn lemma_command_names(c: Command, n: Seq<char>)
    ensures
        command_named(command_name(c)) == Some(c),
        command_named("grab_bag"@) == Some(Command::GrabBag),
        command_named(n) == Some(c) ==> n == command_name(c) || (c == Command::GrabBag && n
            == "grab_bag"@),
{
    reveal_strlit("dump");
    reveal_strlit("grabbag");
    reveal_strlit("grab_bag");
    reveal_strlit("import");
    reveal_strlit("dump_tags");
    reveal_strlit("open");
    reveal_strlit("open_all");
    reveal_strlit("apply_tags");
    reveal_strlit("run_grabbag");
    reveal_strlit("delete");
    reveal_strlit("move");
    assert("dump"@.len() == 4 && "dump"@[0] == 'd');
    assert("grabbag"@.len() == 7 && "grabbag"@[0] == 'g');
    assert("grab_bag"@.len() == 8 && "grab_bag"@[0] == 'g');
    assert("import"@.len() == 6 && "import"@[0] == 'i');
    assert("dump_tags"@.len() == 9 && "dump_tags"@[0] == 'd');
    assert("open"@.len() == 4 && "open"@[0] == 'o');
    assert("open_all"@.len() == 8 && "open_all"@[0] == 'o');
    assert("apply_tags"@.len() == 10 && "apply_tags"@[0] == 'a');
    assert("run_grabbag"@.len() == 11 && "run_grabbag"@[0] == 'r');
    assert("delete"@.len() == 6 && "delete"@[0] == 'd');
    assert("move"@.len() == 4 && "move"@[0] == 'm');
}

/// Distinct names select distinct commands, but for the grab bag's two
/// names.
pub proof fn lemma_distinct_names_distinct_commands(n1: Seq<char>, n2: Seq<char>)
    requires
        command_named(n1) is Some,
        command_named(n1) == command_named(n2),
        n1 != n2,
    ensures
        n1 == "grabbag"@ || n1 == "grab_bag"@,
        n2 == "grabbag"@ || n2 == "grab_bag"@,
{
    let c = command_named(n1)->0;
    lemma_command_names(c, n1);
    lemma_command_names(c, n2);
}

/// Every argument after `get` pairs up with the next into one look-up, in
/// the order given: `get l1 k1 l2 k2 ...` asks for the key `k1` at `l1`, then
/// `k2` at `l2`, and so on.
pub proof fn lemma_get_pairs(pairs: Seq<(Seq<char>, Seq<char>)>)
    ensures
        grab_bag_run(seq!["get"@] + flat_pairs(pairs)) == Some(
            (
                GrabBagState {
                    command: Some(GrabBagCommand::Get),
                    location: None,
                    key: None,
                    value: None,
                },
                pairs.map_values(
                    |p: (Seq<char>, Seq<char>)| GrabBagActionView::Get { location: p.0, key: p.1 },
                ),
            ),
        ),
    decreases pairs.len(),
{
    reveal_strlit("get");
    reveal_strlit("add");
    reveal_strlit("remove");
    reveal_strlit("get_all");
    assert("add"@.len() == 3 && "add"@[0] == 'a');
    assert("remove"@.len() == 6);
    assert("get"@.len() == 3 && "get"@[0] == 'g');
    assert(grab_bag_command_named("get"@) == Some(GrabBagCommand::Get));
    let get = seq!["get"@];
    let start = GrabBagState { command: Some(GrabBagCommand::Get), location: None, key: None, value: None };
    if pairs.len() == 0 {
        assert(get + flat_pairs(pairs) =~= get);
        assert(get.drop_last() =~= Seq::<Seq<char>>::empty());
        assert(get.last() == "get"@);
        assert(Seq::<GrabBagActionView>::empty() + Seq::<GrabBagActionView>::empty() =~= Seq::<GrabBagActionView>::empty());
        assert(grab_bag_run(Seq::<Seq<char>>::empty()) == Some(
            (GrabBagState { command: None, location: None, key: None, value: None }, Seq::<GrabBagActionView>::empty()),
        ));
        assert(grab_bag_run(get) == Some((start, Seq::<GrabBagActionView>::empty())));
        assert(pairs.map_values(
            |p: (Seq<char>, Seq<char>)| GrabBagActionView::Get { location: p.0, key: p.1 },
        ) =~= Seq::<GrabBagActionView>::empty());
    } else {
        let rest = pairs.drop_last();
        let last = pairs.last();
        lemma_get_pairs(rest);
        let a = get + flat_pairs(rest);
        let full = get + flat_pairs(pairs);
        assert(full =~= a.push(last.0).push(last.1));
        assert(full.drop_last() =~= a.push(last.0));
        assert(a.push(last.0).drop_last() =~= a);
        let acts = rest.map_values(
            |p: (Seq<char>, Seq<char>)| GrabBagActionView::Get { location: p.0, key: p.1 },
        );
        assert(acts + Seq::<GrabBagActionView>::empty() =~= acts);
        assert(grab_bag_run(a.push(last.0)) == Some(
            (GrabBagState { location: Some(last.0), ..start }, acts),
        ));
        assert(grab_bag_run(full) == Some((start, acts.push(GrabBagActionView::Get { location: last.0, key: last.1 }))));
        assert(pairs.map_values(
            |p: (Seq<char>, Seq<char>)| GrabBagActionView::Get { location: p.0, key: p.1 },
        ) =~= rest.map_values(
            |p: (Seq<char>, Seq<char>)| GrabBagActionView::Get { location: p.0, key: p.1 },
        ).push(GrabBagActionView::Get { location: last.0, key: last.1 }));
    }
}

/// Every argument after `remove` pairs up with the next into one removal,
/// in the order given: `remove l1 k1 l2 k2 ...` removes the key `k1` at
/// `l1`, then `k2` at `l2`, and so on.
pub proof fn lemma_remove_pairs(pairs: Seq<(Seq<char>, Seq<char>)>)
    ensures
        grab_bag_run(seq!["remove"@] + flat_pairs(pairs)) == Some(
            (
                GrabBagState {
                    command: Some(GrabBagCommand::Remove),
                    location: None,
                    key: None,
                    value: None,
                },
                pairs.map_values(
                    |p: (Seq<char>, Seq<char>)| GrabBagActionView::Remove { location: p.0, key: p.1 },
                ),
            ),
        ),
    decreases pairs.len(),
{
    reveal_strlit("get");
    reveal_strlit("add");
    reveal_strlit("remove");
    reveal_strlit("get_all");
    assert("add"@.len() == 3 && "add"@[0] == 'a');
    assert("remove"@.len() == 6 && "remove"@[0] == 'r');
    assert("get"@.len() == 3 && "get"@[0] == 'g');
    assert(grab_bag_command_named("remove"@) == Some(GrabBagCommand::Remove));
    let get = seq!["remove"@];
    let start = GrabBagState { command: Some(GrabBagCommand::Remove), location: None, key: None, value: None };
    if pairs.len() == 0 {
        assert(get + flat_pairs(pairs) =~= get);
        assert(get.drop_last() =~= Seq::<Seq<char>>::empty());
        assert(get.last() == "remove"@);
        assert(Seq::<GrabBagActionView>::empty() + Seq::<GrabBagActionView>::empty() =~= Seq::<GrabBagActionView>::empty());
        assert(grab_bag_run(Seq::<Seq<char>>::empty()) == Some(
            (GrabBagState { command: None, location: None, key: None, value: None }, Seq::<GrabBagActionView>::empty()),
        ));
        assert(grab_bag_run(get) == Some((start, Seq::<GrabBagActionView>::empty())));
        assert(pairs.map_values(
            |p: (Seq<char>, Seq<char>)| GrabBagActionView::Remove { location: p.0, key: p.1 },
        ) =~= Seq::<GrabBagActionView>::empty());
    } else {
        let rest = pairs.drop_last();
        let last = pairs.last();
        lemma_remove_pairs(rest);
        let a = get + flat_pairs(rest);
        let full = get + flat_pairs(pairs);
        assert(full =~= a.push(last.0).push(last.1));
        assert(full.drop_last() =~= a.push(last.0));
        assert(a.push(last.0).drop_last() =~= a);
        let acts = rest.map_values(
            |p: (Seq<char>, Seq<char>)| GrabBagActionView::Remove { location: p.0, key: p.1 },
        );
        assert(acts + Seq::<GrabBagActionView>::empty() =~= acts);
        assert(grab_bag_run(a.push(last.0)) == Some(
            (GrabBagState { location: Some(last.0), ..start }, acts),
        ));
        assert(grab_bag_run(full) == Some((start, acts.push(GrabBagActionView::Remove { location: last.0, key: last.1 }))));
        assert(pairs.map_values(
            |p: (Seq<char>, Seq<char>)| GrabBagActionView::Remove { location: p.0, key: p.1 },
        ) =~= rest.map_values(
            |p: (Seq<char>, Seq<char>)| GrabBagActionView::Remove { location: p.0, key: p.1 },
        ).push(GrabBagActionView::Remove { location: last.0, key: last.1 }));
    }
}

/// Every argument after `add` groups with the next two into one addition,
/// in the order given: `add l1 k1 v1 l2 k2 v2 ...` sets the key `k1` at `l1`
/// to `v1`, then `k2` at `l2` to `v2`, and so on.
pub proof fn lemma_add_triples(triples: Seq<(Seq<char>, Seq<char>, Seq<char>)>)
    ensures
        grab_bag_run(seq!["add"@] + flat_triples(triples)) == Some(
            (
                GrabBagState {
                    command: Some(GrabBagCommand::Add),
                    location: None,
                    key: None,
                    value: None,
                },
                triples.map_values(
                    |p: (Seq<char>, Seq<char>, Seq<char>)| GrabBagActionView::Add {
                        location: p.0,
                        key: p.1,
                        value: p.2,
                    },
                ),
            ),
        ),
    decreases triples.len(),
{
    reveal_strlit("add");
    assert("add"@.len() == 3 && "add"@[0] == 'a');
    assert(grab_bag_command_named("add"@) == Some(GrabBagCommand::Add));
    let cmd = seq!["add"@];
    let start = GrabBagState { command: Some(GrabBagCommand::Add), location: None, key: None, value: None };
    if triples.len() == 0 {
        assert(cmd + flat_triples(triples) =~= cmd);
        assert(cmd.drop_last() =~= Seq::<Seq<char>>::empty());
        assert(cmd.last() == "add"@);
        assert(Seq::<GrabBagActionView>::empty() + Seq::<GrabBagActionView>::empty() =~= Seq::<GrabBagActionView>::empty());
        assert(grab_bag_run(Seq::<Seq<char>>::empty()) == Some(
            (GrabBagState { command: None, location: None, key: None, value: None }, Seq::<GrabBagActionView>::empty()),
        ));
        assert(grab_bag_run(cmd) == Some((start, Seq::<GrabBagActionView>::empty())));
        assert(triples.map_values(
            |p: (Seq<char>, Seq<char>, Seq<char>)| GrabBagActionView::Add { location: p.0, key: p.1, value: p.2 },
        ) =~= Seq::<GrabBagActionView>::empty());
    } else {
        let rest = triples.drop_last();
        let last = triples.last();
        lemma_add_triples(rest);
        let a = cmd + flat_triples(rest);
        let full = cmd + flat_triples(triples);
        assert(full =~= a.push(last.0).push(last.1).push(last.2));
        assert(full.drop_last() =~= a.push(last.0).push(last.1));
        assert(a.push(last.0).push(last.1).drop_last() =~= a.push(last.0));
        assert(a.push(last.0).drop_last() =~= a);
        let acts = rest.map_values(
            |p: (Seq<char>, Seq<char>, Seq<char>)| GrabBagActionView::Add { location: p.0, key: p.1, value: p.2 },
        );
        assert(acts + Seq::<GrabBagActionView>::empty() =~= acts);
        assert(grab_bag_run(a.push(last.0)) == Some(
            (GrabBagState { location: Some(last.0), ..start }, acts),
        ));
        assert(grab_bag_run(a.push(last.0).push(last.1)) == Some(
            (GrabBagState { location: Some(last.0), key: Some(last.1), ..start }, acts),
        ));
        assert(grab_bag_run(full) == Some(
            (start, acts.push(GrabBagActionView::Add { location: last.0, key: last.1, value: last.2 })),
        ));
        assert(triples.map_values(
            |p: (Seq<char>, Seq<char>, Seq<char>)| GrabBagActionView::Add { location: p.0, key: p.1, value: p.2 },
        ) =~= acts.push(GrabBagActionView::Add { location: last.0, key: last.1, value: last.2 }));
    }
}

/// Selects the command of a name; any other name is an `InvalidCommand`
/// error that carries it.
pub fn RunCommand(command_name: String) -> (r: Result<Command, MyCustomError>)
    ensures
        match command_named(command_name@) {
            Some(c) => r == Ok::<Command, MyCustomError>(c),
            None => r matches Err(MyCustomError::InvalidCommand { name }) && name@ == command_name@,
        },
{
    let n = command_name.as_str();
    if str_eq(n, "dump") {
        Ok(Command::Dump)
    } else if str_eq(n, "grabbag") || str_eq(n, "grab_bag") {
        Ok(Command::GrabBag)
    } else if str_eq(n, "import") {
        Ok(Command::Import)
    } else if str_eq(n, "dump_tags") {
        Ok(Command::DumpTags)
    } else if str_eq(n, "open") {
        Ok(Command::Open)
    } else if str_eq(n, "open_all") {
        Ok(Command::OpenAll)
    } else if str_eq(n, "apply_tags") {
        Ok(Command::ApplyTags)
    } else if str_eq(n, "run_grabbag") {
        Ok(Command::RunGrabbag)
    } else if str_eq(n, "delete") {
        Ok(Command::Delete)
    } else if str_eq(n, "move") {
        Ok(Command::Move)
    } else {
        Err(MyCustomError::InvalidCommand { name: command_name })
    }
}

/// What the command line asks for: whether to bring the database in step
/// with the file system first, and the command name with its arguments.
pub struct ArgsPlan {
    pub update_files: bool,
    pub command: Option<(String, Vec<String>)>,
}

pub const IGNORE_UPDATE_FLAG: &'static str = "--ignore-update";

impl Taggenator {
    /// Reads the command line: `--ignore-update` anywhere skips the update;
    /// the first other argument names the command and the rest are its
    /// arguments. No command when nothing else is left.
    pub fn parse_args(args: Vec<String>) -> (plan: ArgsPlan)
        ensures
            plan.update_files == !str_views(args@).contains(IGNORE_UPDATE_FLAG@),
            ({
                let rest = str_views(args@).filter(|a: Seq<char>| a != IGNORE_UPDATE_FLAG@);
                match plan.command {
                    None => rest.len() == 0,
                    Some((name, cargs)) => rest.len() > 0 && name@ == rest[0] && str_views(cargs@)
                        == rest.drop_first(),
                }
            }),
    {
        let mut args = args;
        let ignore = take_flag(&mut args, IGNORE_UPDATE_FLAG);
        if args.len() == 0 {
            return ArgsPlan { update_files: !ignore, command: None };
        }
        let ghost rest = str_views(args@);
        let name = args.remove(0);
        assert(str_views(args@) =~= rest.drop_first());
        ArgsPlan { update_files: !ignore, command: Some((name, args)) }
    }
}


/// The grab-bag commands.
#[derive(PartialEq, Eq, Structural, Clone, Copy)]
pub enum GrabBagCommand {
    Add,
    Remove,
    Get,
    GetAll,
}

/// One thing a grab-bag command line asks for.
pub enum GrabBagAction {
    Add { location: String, key: String, value: String },
    Remove { location: String, key: String },
    Get { location: String, key: String },
    GetAll { location: String },
}

/// The value of a grab-bag action.
pub enum GrabBagActionView {
    Add { location: Seq<char>, key: Seq<char>, value: Seq<char> },
    Remove { location: Seq<char>, key: Seq<char> },
    Get { location: Seq<char>, key: Seq<char> },
    GetAll { location: Seq<char> },
}

impl View for GrabBagAction {
    type V = GrabBagActionView;

    open spec fn view(&self) -> GrabBagActionView {
        match self {
            GrabBagAction::Add { location, key, value } => GrabBagActionView::Add {
                location: location@,
                key: key@,
                value: value@,
            },
            GrabBagAction::Remove { location, key } => GrabBagActionView::Remove {
                location: location@,
                key: key@,
            },
            GrabBagAction::Get { location, key } => GrabBagActionView::Get {
                location: location@,
                key: key@,
            },
            GrabBagAction::GetAll { location } => GrabBagActionView::GetAll { location: location@ },
        }
    }
}

/// What has been read of a grab-bag command line: the command, then the
/// location, key and value waiting to be used.
pub struct GrabBagState {
    pub command: Option<GrabBagCommand>,
    pub location: Option<Seq<char>>,
    pub key: Option<Seq<char>>,
    pub value: Option<Seq<char>>,
}

pub open spec fn grab_bag_command_named(arg: Seq<char>) -> Option<GrabBagCommand> {
    if arg == "add"@ {
        Some(GrabBagCommand::Add)
    } else if arg == "remove"@ {
        Some(GrabBagCommand::Remove)
    } else if arg == "get"@ {
        Some(GrabBagCommand::Get)
    } else if arg == "get_all"@ {
        Some(GrabBagCommand::GetAll)
    } else {
        None
    }
}

/// An argument after the command fills the first of location, key and value
/// that is empty.
pub open spec fn grab_bag_fill(st: GrabBagState, arg: Seq<char>) -> GrabBagState {
    if st.location is None {
        GrabBagState { location: Some(arg), ..st }
    } else if st.key is None {
        GrabBagState { key: Some(arg), ..st }
    } else if st.value is None {
        GrabBagState { value: Some(arg), ..st }
    } else {
        st
    }
}

/// Once the command has what it needs, it acts and uses those up.
pub open spec fn grab_bag_fire(st: GrabBagState) -> (GrabBagState, Seq<GrabBagActionView>) {
    match st.command {
        Some(GrabBagCommand::Add) => if st.location is Some && st.key is Some && st.value is Some {
            (
                GrabBagState { location: None, key: None, value: None, ..st },
                seq![
                    GrabBagActionView::Add {
                        location: st.location->0,
                        key: st.key->0,
                        value: st.value->0,
                    },
                ],
            )
        } else {
            (st, Seq::empty())
        },
        Some(GrabBagCommand::Remove) => if st.location is Some && st.key is Some {
            (
                GrabBagState { location: None, key: None, ..st },
                seq![GrabBagActionView::Remove { location: st.location->0, key: st.key->0 }],
            )
        } else {
            (st, Seq::empty())
        },
        Some(GrabBagCommand::Get) => if st.location is Some && st.key is Some {
            (
                GrabBagState { location: None, key: None, ..st },
                seq![GrabBagActionView::Get { location: st.location->0, key: st.key->0 }],
            )
        } else {
            (st, Seq::empty())
        },
        Some(GrabBagCommand::GetAll) => if st.location is Some {
            (
                GrabBagState { location: None, ..st },
                seq![GrabBagActionView::GetAll { location: st.location->0 }],
            )
        } else {
            (st, Seq::empty())
        },
        None => (st, Seq::empty()),
    }
}

/// The state and actions after reading the arguments; `None` where the
/// first argument is not a grab-bag command.
pub open spec fn grab_bag_run(args: Seq<Seq<char>>) -> Option<(GrabBagState, Seq<GrabBagActionView>)>
    decreases args.len(),
{
    if args.len() == 0 {
        Some((GrabBagState { command: None, location: None, key: None, value: None }, Seq::empty()))
    } else {
        match grab_bag_run(args.drop_last()) {
            None => None,
            Some((st, acts)) => {
                let arg = args.last();
                if st.command is None {
                    match grab_bag_command_named(arg) {
                        None => None,
                        Some(c) => {
                            let (st2, a) = grab_bag_fire(GrabBagState { command: Some(c), ..st });
                            Some((st2, acts + a))
                        },
                    }
                } else {
                    let (st2, a) = grab_bag_fire(grab_bag_fill(st, arg));
                    Some((st2, acts + a))
                }
            },
        }
    }
}

/// Pairs written one after the other: the first and second of each.
pub open spec fn flat_pairs(pairs: Seq<(Seq<char>, Seq<char>)>) -> Seq<Seq<char>>
    decreases pairs.len(),
{
    if pairs.len() == 0 {
        Seq::empty()
    } else {
        flat_pairs(pairs.drop_last()) + seq![pairs.last().0, pairs.last().1]
    }
}

/// Triples written one after the other: the parts of each in turn.
pub open spec fn flat_triples(triples: Seq<(Seq<char>, Seq<char>, Seq<char>)>) -> Seq<Seq<char>>
    decreases triples.len(),
{
    if triples.len() == 0 {
        Seq::empty()
    } else {
        flat_triples(triples.drop_last()) + seq![triples.last().0, triples.last().1, triples.last().2]
    }
}

pub open spec fn grab_bag_actions_view(v: Seq<GrabBagAction>) -> Seq<GrabBagActionView> {
    v.map_values(|a: GrabBagAction| a@)
}

pub open spec fn opt_view(o: Option<String>) -> Option<Seq<char>> {
    match o {
        Some(s) => Some(s@),
        None => None,
    }
}

fn grab_bag_command_of(arg: &str) -> (c: Option<GrabBagCommand>)
    ensures
        c == grab_bag_command_named(arg@),
{
    if str_eq(arg, "add") {
        Some(GrabBagCommand::Add)
    } else if str_eq(arg, "remove") {
        Some(GrabBagCommand::Remove)
    } else if str_eq(arg, "get") {
        Some(GrabBagCommand::Get)
    } else if str_eq(arg, "get_all") {
        Some(GrabBagCommand::GetAll)
    } else {
        None
    }
}

/// Reads a grab-bag command line into its actions, in order: the first
/// argument is the command (`add`, `remove`, `get` or `get_all`); then
/// location, key and value in turn, each action taken as soon as its command
/// has what it needs. `UnknownError` where the first argument is no command.
pub fn run_grab_bag(args: Vec<String>) -> (r: Result<Vec<GrabBagAction>, MyCustomError>)
    ensures
        match r {
            Ok(actions) => grab_bag_run(str_views(args@)) matches Some((_, acts)) && grab_bag_actions_view(
                actions@,
            ) == acts,
            Err(e) => grab_bag_run(str_views(args@)) is None && e is UnknownError,
        },
        r is Err <==> (args@.len() > 0 && grab_bag_command_named(args@[0]@) is None),
{
    let ghost av = str_views(args@);
    let mut command: Option<GrabBagCommand> = None;
    let mut location: Option<String> = None;
    let mut key: Option<String> = None;
    let mut value: Option<String> = None;
    let mut actions: Vec<GrabBagAction> = Vec::new();
    let mut i: usize = 0;
    while i < args.len()
        invariant
            i <= args.len(),
            av == str_views(args@),
            grab_bag_run(av.take(i as int)) == Some(
                (
                    GrabBagState {
                        command,
                        location: opt_view(location),
                        key: opt_view(key),
                        value: opt_view(value),
                    },
                    grab_bag_actions_view(actions@),
                ),
            ),
            i > 0 ==> command is Some,
            i > 0 ==> grab_bag_command_named(args@[0]@) is Some,
        decreases args.len() - i,
    {
        proof {
            assert(av.take(i + 1).drop_last() =~= av.take(i as int));
            assert(av.take(i + 1).last() == args@[i as int]@);
        }
        let arg = args[i].clone();
        let ghost before = GrabBagState {
            command,
            location: opt_view(location),
            key: opt_view(key),
            value: opt_view(value),
        };
        if command.is_none() {
            match grab_bag_command_of(arg.as_str()) {
                None => {
                    assert(i == 0);
                    assert(grab_bag_run(av.take(1)) is None);
                    assert(av.take(1) == av.take(1).drop_last().push(av[0]));
                    proof {
                        lemma_grab_bag_run_stuck(av, 1);
                    }
                    return Err(MyCustomError::UnknownError);
                },
                Some(c) => {
                    command = Some(c);
                },
            }
        } else if location.is_none() {
            location = Some(arg);
        } else if key.is_none() {
            key = Some(arg);
        } else if value.is_none() {
            value = Some(arg);
        }
        let ghost filled = GrabBagState {
            command,
            location: opt_view(location),
            key: opt_view(key),
            value: opt_view(value),
        };
        let ghost prev_actions = actions@;
        match command {
            Some(GrabBagCommand::Add) => {
                if location.is_some() && key.is_some() && value.is_some() {
                    let l = location.take().unwrap();
                    let k = key.take().unwrap();
                    let v = value.take().unwrap();
                    actions.push(GrabBagAction::Add { location: l, key: k, value: v });
                }
            },
            Some(GrabBagCommand::Remove) => {
                if location.is_some() && key.is_some() {
                    let l = location.take().unwrap();
                    let k = key.take().unwrap();
                    actions.push(GrabBagAction::Remove { location: l, key: k });
                }
            },
            Some(GrabBagCommand::Get) => {
                if location.is_some() && key.is_some() {
                    let l = location.take().unwrap();
                    let k = key.take().unwrap();
                    actions.push(GrabBagAction::Get { location: l, key: k });
                }
            },
            Some(GrabBagCommand::GetAll) => {
                if location.is_some() {
                    let l = location.take().unwrap();
                    actions.push(GrabBagAction::GetAll { location: l });
                }
            },
            None => {},
        }
        proof {
            let (st2, a) = grab_bag_fire(filled);
            assert(grab_bag_actions_view(actions@) =~= grab_bag_actions_view(prev_actions) + a);
            assert(st2 == GrabBagState {
                command,
                location: opt_view(location),
                key: opt_view(key),
                value: opt_view(value),
            });
        }
        i = i + 1;
    }
    assert(av.take(i as int) =~= av);
    Ok(actions)
}

/// Once the run is stuck it stays stuck.
proof fn lemma_grab_bag_run_stuck(args: Seq<Seq<char>>, k: int)
    requires
        0 < k <= args.len(),
        grab_bag_run(args.take(k)) is None,
    ensures
        grab_bag_run(args) is None,
    decreases args.len() - k,
{
    if k < args.len() {
        assert(args.take(k + 1).drop_last() =~= args.take(k));
        lemma_grab_bag_run_stuck(args, k + 1);
    } else {
        assert(args.take(k) =~= args);
    }
}


/// One thing an import line asks for.
pub enum ImportAction {
    /// Tag the record at a location.
    AddTag { location: String, tag: String },
    /// Update the record at a location with what was kept of it; its date
    /// added is left to be set to the time of the update.
    AddRecord {
        filename: String,
        location: String,
        size: i64,
        length: i64,
        times_opened: i64,
        have_manually_touched: bool,
        date_created: Option<Timestamp>,
        date_last_touched: Option<Timestamp>,
    },
}

pub enum ImportActionView {
    AddTag { location: Seq<char>, tag: Seq<char> },
    AddRecord {
        filename: Seq<char>,
        location: Seq<char>,
        size: i64,
        length: i64,
        times_opened: i64,
        have_manually_touched: bool,
        date_created: Option<Timestamp>,
        date_last_touched: Option<Timestamp>,
    },
}

impl View for ImportAction {
    type V = ImportActionView;

    open spec fn view(&self) -> ImportActionView {
        match self {
            ImportAction::AddTag { location, tag } => ImportActionView::AddTag {
                location: location@,
                tag: tag@,
            },
            ImportAction::AddRecord {
                filename,
                location,
                size,
                length,
                times_opened,
                have_manually_touched,
                date_created,
                date_last_touched,
            } => ImportActionView::AddRecord {
                filename: filename@,
                location: location@,
                size: *size,
                length: *length,
                times_opened: *times_opened,
                have_manually_touched: *have_manually_touched,
                date_created: *date_created,
                date_last_touched: *date_last_touched,
            },
        }
    }
}

/// Why an import line stops early.
#[derive(PartialEq, Eq, Structural, Clone, Copy)]
pub enum ImportStop {
    /// An argument that a command needs is missing.
    MissingArgument,
    /// A location has no file name.
    NoFileName,
    /// A number, flag or date does not read.
    Invalid,
}

/// The actions of an import line, in order, and why it stopped, if it did.
pub struct ImportPlan {
    pub actions: Vec<ImportAction>,
    pub stop: Option<ImportStop>,
}

/// An integer as `i64::from_str` reads it.
pub open spec fn i64_value(s: Seq<char>) -> Option<i64> {
    match parse_int(s, true, i64::MIN as int, i64::MAX as int) {
        Some(v) => Some(v as i64),
        None => None,
    }
}

/// The record that the eight arguments after `add_record` describe:
/// location, size, length, times opened, touched, date added, date created
/// and date last touched, read in this order; the first that is missing or
/// does not read stops the import.
pub open spec fn import_record(r: Seq<Seq<char>>) -> Result<ImportActionView, ImportStop> {
    if r.len() < 1 {
        Err(ImportStop::MissingArgument)
    } else if path_file_name(r[0]) is None {
        Err(ImportStop::NoFileName)
    } else if r.len() < 2 {
        Err(ImportStop::MissingArgument)
    } else if i64_value(r[1]) is None {
        Err(ImportStop::Invalid)
    } else if r.len() < 3 {
        Err(ImportStop::MissingArgument)
    } else if i64_value(r[2]) is None {
        Err(ImportStop::Invalid)
    } else if r.len() < 4 {
        Err(ImportStop::MissingArgument)
    } else if i64_value(r[3]) is None {
        Err(ImportStop::Invalid)
    } else if r.len() < 5 {
        Err(ImportStop::MissingArgument)
    } else if parse_bool_spec(r[4]) is None {
        Err(ImportStop::Invalid)
    } else if r.len() < 6 {
        Err(ImportStop::MissingArgument)
    } else if date_value(r[5]) is None {
        Err(ImportStop::Invalid)
    } else if r.len() < 7 {
        Err(ImportStop::MissingArgument)
    } else if date_value(r[6]) is None {
        Err(ImportStop::Invalid)
    } else if r.len() < 8 {
        Err(ImportStop::MissingArgument)
    } else if date_value(r[7]) is None {
        Err(ImportStop::Invalid)
    } else {
        Ok(
            ImportActionView::AddRecord {
                filename: path_file_name(r[0])->0,
                location: r[0],
                size: i64_value(r[1])->0,
                length: i64_value(r[2])->0,
                times_opened: i64_value(r[3])->0,
                have_manually_touched: parse_bool_spec(r[4])->0,
                date_created: date_value(r[6]),
                date_last_touched: date_value(r[7]),
            },
        )
    }
}

/// The actions of an import line, read from the front: `add_tag` takes a
/// location and a tag, `add_record` takes eight arguments, anything else is
/// passed over.
pub open spec fn import_plan(args: Seq<Seq<char>>) -> (Seq<ImportActionView>, Option<ImportStop>)
    decreases args.len(),
{
    if args.len() == 0 {
        (Seq::empty(), None)
    } else if args[0] == "add_tag"@ {
        if args.len() < 3 {
            (Seq::empty(), Some(ImportStop::MissingArgument))
        } else {
            let (a, st) = import_plan(args.skip(3));
            (seq![ImportActionView::AddTag { location: args[1], tag: args[2] }] + a, st)
        }
    } else if args[0] == "add_record"@ {
        match import_record(args.drop_first()) {
            Err(e) => (Seq::empty(), Some(e)),
            Ok(act) => if args.len() >= 9 {
                let (a, st) = import_plan(args.skip(9));
                (seq![act] + a, st)
            } else {
                (Seq::empty(), None)
            },
        }
    } else {
        import_plan(args.drop_first())
    }
}

pub open spec fn import_actions_view(v: Seq<ImportAction>) -> Seq<ImportActionView> {
    v.map_values(|a: ImportAction| a@)
}

fn import_record_at(args: &Vec<String>, i: usize) -> (r: Result<ImportAction, ImportStop>)
    requires
        i <= args.len(),
    ensures
        match r {
            Ok(a) => import_record(str_views(args@).skip(i as int)) == Ok::<ImportActionView, ImportStop>(a@),
            Err(e) => import_record(str_views(args@).skip(i as int)) == Err::<ImportActionView, ImportStop>(e),
        },
{
    let ghost rv = str_views(args@).skip(i as int);
    let n = args.len();
    assert(rv.len() == n - i);
    assert(forall|k: int| 0 <= k < rv.len() ==> rv[k] == #[trigger] args@[i + k]@);
    if n - i < 1 {
        return Err(ImportStop::MissingArgument);
    }
    let location = args[i].clone();
    let filename = match file_name_of(location.as_str()) {
        Some(f) => f,
        None => {
            return Err(ImportStop::NoFileName);
        },
    };
    if n - i < 2 {
        return Err(ImportStop::MissingArgument);
    }
    let size = match parse_i64(args[i + 1].as_str()) {
        Some(v) => v,
        None => {
            return Err(ImportStop::Invalid);
        },
    };
    if n - i < 3 {
        return Err(ImportStop::MissingArgument);
    }
    let length = match parse_i64(args[i + 2].as_str()) {
        Some(v) => v,
        None => {
            return Err(ImportStop::Invalid);
        },
    };
    if n - i < 4 {
        return Err(ImportStop::MissingArgument);
    }
    let times_opened = match parse_i64(args[i + 3].as_str()) {
        Some(v) => v,
        None => {
            return Err(ImportStop::Invalid);
        },
    };
    if n - i < 5 {
        return Err(ImportStop::MissingArgument);
    }
    let touched = match parse_bool(args[i + 4].as_str()) {
        Some(v) => v,
        None => {
            return Err(ImportStop::Invalid);
        },
    };
    if n - i < 6 {
        return Err(ImportStop::MissingArgument);
    }
    if get_date(args[i + 5].as_str()).is_err() {
        return Err(ImportStop::Invalid);
    }
    if n - i < 7 {
        return Err(ImportStop::MissingArgument);
    }
    let date_created = match get_date(args[i + 6].as_str()) {
        Ok(d) => d,
        Err(_) => {
            return Err(ImportStop::Invalid);
        },
    };
    if n - i < 8 {
        return Err(ImportStop::MissingArgument);
    }
    let date_last_touched = match get_date(args[i + 7].as_str()) {
        Ok(d) => d,
        Err(_) => {
            return Err(ImportStop::Invalid);
        },
    };
    Ok(
        ImportAction::AddRecord {
            filename,
            location,
            size,
            length,
            times_opened,
            have_manually_touched: touched,
            date_created,
            date_last_touched,
        },
    )
}

proof fn lemma_import_plan_skip(args: Seq<Seq<char>>, i: int, k: int)
    requires
        0 <= i,
        i + k <= args.len(),
        k >= 0,
    ensures
        args.skip(i).skip(k) == args.skip(i + k),
{
    assert(args.skip(i).skip(k) =~= args.skip(i + k));
}

/// Reads an import line into its actions, in order, and the reason it
/// stopped early, if it did: a missing argument or a location without a
/// file name (where the line cannot go on), or a value that does not read.
/// The date added of a record is read but not kept.
pub fn run_import(args: Vec<String>) -> (plan: ImportPlan)
    ensures
        import_plan(str_views(args@)) == (import_actions_view(plan.actions@), plan.stop),
{
    let ghost av = str_views(args@);
    let mut actions: Vec<ImportAction> = Vec::new();
    let mut i: usize = 0;
    assert(av.skip(0) =~= av);
    assert(import_actions_view(actions@) + import_plan(av.skip(0)).0 =~= import_plan(av).0);
    while i < args.len()
        invariant
            i <= args.len(),
            av == str_views(args@),
            import_plan(av) == (
                import_actions_view(actions@) + import_plan(av.skip(i as int)).0,
                import_plan(av.skip(i as int)).1,
            ),
        decreases args.len() - i,
    {
        let ghost rest = av.skip(i as int);
        assert(rest[0] == args@[i as int]@);
        let ghost prev = import_actions_view(actions@);
        if str_eq(args[i].as_str(), "add_tag") {
            if args.len() - i < 3 {
                return ImportPlan { actions, stop: Some(ImportStop::MissingArgument) };
            }
            assert(rest[1] == args@[i + 1]@ && rest[2] == args@[i + 2]@);
            actions.push(ImportAction::AddTag { location: args[i + 1].clone(), tag: args[i + 2].clone() });
            proof {
                lemma_import_plan_skip(av, i as int, 3);
                assert(import_actions_view(actions@) =~= prev.push(
                    ImportActionView::AddTag { location: rest[1], tag: rest[2] },
                ));
                assert(import_actions_view(actions@) + import_plan(av.skip(i + 3)).0 =~= prev + (seq![
                    ImportActionView::AddTag { location: rest[1], tag: rest[2] },
                ] + import_plan(av.skip(i + 3)).0));
            }
            i = i + 3;
        } else if str_eq(args[i].as_str(), "add_record") {
            proof {
                assert(rest.drop_first() =~= av.skip(i + 1));
            }
            match import_record_at(&args, i + 1) {
                Err(e) => {
                    assert(import_actions_view(actions@) + Seq::<ImportActionView>::empty() =~= prev);
                    return ImportPlan { actions, stop: Some(e) };
                },
                Ok(act) => {
                    let ghost a = act@;
                    actions.push(act);
                    proof {
                        lemma_import_plan_skip(av, i as int, 9);
                        assert(import_actions_view(actions@) =~= prev.push(a));
                        assert(import_actions_view(actions@) + import_plan(av.skip(i + 9)).0 =~= prev + (
                        seq![a] + import_plan(av.skip(i + 9)).0));
                    }
                    i = i + 9;
                },
            }
        } else {
            proof {
                assert(rest.drop_first() =~= av.skip(i + 1));
            }
            i = i + 1;
        }
    }
    proof {
        assert(av.skip(i as int) =~= Seq::<Seq<char>>::empty());
        assert(import_actions_view(actions@) + Seq::<ImportActionView>::empty() =~= import_actions_view(actions@));
    }
    ImportPlan { actions, stop: None }
}


/// The number of threads a command line asks for: the value after
/// `--threads`, or `1`; `None` where it is no `usize`.
pub open spec fn threads_requested(args: Seq<Seq<char>>) -> Option<(usize, Seq<Seq<char>>)> {
    let (text, rest) = match taken_flag(args, "--threads"@) {
        Some((v, r)) => (v, r),
        None => ("1"@, args),
    };
    match parse_int(text, false, 0, usize::MAX as int) {
        Some(n) => Some((n as usize, rest)),
        None => None,
    }
}

fn take_threads(args: &mut Vec<String>) -> (n: Option<usize>)
    ensures
        match threads_requested(str_views(old(args)@)) {
            Some((k, rest)) => n == Some(k) && str_views(final(args)@) == rest,
            None => n is None,
        },
{
    let text = match take_flag_with_arg(args, "--threads") {
        Some(t) => t,
        None => "1".to_owned(),
    };
    parse_usize(text.as_str())
}

/// What `apply_tags` is asked: how many workers, which tag lines to apply,
/// and the search for the records.
pub struct ApplyTagsPlan {
    pub threads: usize,
    pub tags: Vec<String>,
    pub search: Vec<String>,
}

/// Reads the arguments of `apply_tags`: `--threads` (default `1`), then the
/// tag lines given with `--tag` or `-tag`; the rest is the search. `None`
/// where the thread count is no `usize`.
pub fn apply_tags(args: Vec<String>) -> (plan: Option<ApplyTagsPlan>)
    ensures
        match threads_requested(str_views(args@)) {
            None => plan is None,
            Some((n, rest)) => plan matches Some(p) && p.threads == n && (str_views(p.tags@), str_views(
                p.search@,
            )) == collect_flag_values(rest, "--tag"@, "-tag"@),
        },
{
    let mut args = args;
    let threads = match take_threads(&mut args) {
        Some(n) => n,
        None => {
            return None;
        },
    };
    let tags = take_flag_values(&mut args, "--tag", "-tag");
    Some(ApplyTagsPlan { threads, tags, search: args })
}

/// What `run_grabbag` is asked: how many workers, which programs to run on
/// each record, and the search for the records.
pub struct RunGrabbagPlan {
    pub threads: usize,
    pub exes: Vec<String>,
    pub search: Vec<String>,
}

/// Reads the arguments of `run_grabbag`: `--threads` (default `1`), then the
/// programs given with `--exe` or `-exe`; the rest is the search. `None`
/// where the thread count is no `usize`.
pub fn run_grabbag(args: Vec<String>) -> (plan: Option<RunGrabbagPlan>)
    ensures
        match threads_requested(str_views(args@)) {
            None => plan is None,
            Some((n, rest)) => plan matches Some(p) && p.threads == n && (str_views(p.exes@), str_views(
                p.search@,
            )) == collect_flag_values(rest, "--exe"@, "-exe"@),
        },
{
    let mut args = args;
    let threads = match take_threads(&mut args) {
        Some(n) => n,
        None => {
            return None;
        },
    };
    let exes = take_flag_values(&mut args, "--exe", "-exe");
    Some(RunGrabbagPlan { threads, exes, search: args })
}

impl RunGrabbagPlan {
    /// No more workers than records.
    pub fn workers(&self, jobs: usize) -> (n: usize)
        ensures
            n == if self.threads < jobs {
                self.threads
            } else {
                jobs
            },
    {
        if self.threads < jobs {
            self.threads
        } else {
            jobs
        }
    }
}

/// Reads the arguments of `move`: the destination after `-destination`, or
/// else after `--destination`; the rest is the search. `None` where neither
/// is given.
pub fn move_record(args: Vec<String>) -> (r: Option<(String, Vec<String>)>)
    ensures
        match taken_flag(str_views(args@), "-destination"@) {
            Some((d, rest)) => r matches Some((x, s)) && x@ == d && str_views(s@) == rest,
            None => match taken_flag(str_views(args@), "--destination"@) {
                Some((d, rest)) => r matches Some((x, s)) && x@ == d && str_views(s@) == rest,
                None => r is None,
            },
        },
{
    let mut args = args;
    match take_flag_with_arg(&mut args, "-destination") {
        Some(d) => Some((d, args)),
        None => match take_flag_with_arg(&mut args, "--destination") {
            Some(d) => Some((d, args)),
            None => None,
        },
    }
}

/// Where a record moves: its name under the destination, or `None` where
/// that is the path it is at already.
pub fn move_target(destination: &str, name: &str, location: &str) -> (r: Option<String>)
    ensures
        if paths_equal(path_joined(destination@, name@), location@) {
            r is None
        } else {
            r matches Some(t) && t@ == path_joined(destination@, name@)
        },
{
    let target = join_path(destination, name);
    if same_path(target.as_str(), location) {
        None
    } else {
        Some(target)
    }
}

fn push_str_chars(s: &mut String, t: &str)
    ensures
        final(s)@ == old(s)@ + t@,
{
    let c = chars_of(t);
    let mut i: usize = 0;
    while i < c.len()
        invariant
            i <= c.len(),
            c@ == t@,
            s@ == old(s)@ + c@.take(i as int),
        decreases c.len() - i,
    {
        push_char(s, c[i]);
        assert(c@.take(i + 1) =~= c@.take(i as int).push(c@[i as int]));
        i = i + 1;
    }
    assert(c@.take(i as int) =~= c@);
}

/// The command that runs a program on a file: the program, a space, and the
/// file's path in double quotes.
pub fn exe_command(exe_path: &str, location: &str) -> (c: String)
    ensures
        c@ == exe_path@ + seq![' ', '"'] + location@ + seq!['"'],
{
    let mut c = "".to_owned();
    proof {
        reveal_strlit("");
    }
    push_str_chars(&mut c, exe_path);
    push_char(&mut c, ' ');
    push_char(&mut c, '"');
    push_str_chars(&mut c, location);
    push_char(&mut c, '"');
    assert(c@ =~= exe_path@ + seq![' ', '"'] + location@ + seq!['"']);
    c
}

/// What `serde_json::from_str` makes of a text as a `Value`: `None` where it
/// is no JSON; `Some(None)` where it is JSON but no object; otherwise the
/// object's entries in the order of its map, each value as its text where
/// it is a string.
pub uninterp spec fn json_document(text: Seq<char>) -> Option<Option<Seq<(Seq<char>, Option<Seq<char>>)>>>;

pub open spec fn json_entries_view(r: Option<Option<Vec<(String, Option<String>)>>>) -> Option<
    Option<Seq<(Seq<char>, Option<Seq<char>>)>>,
> {
    match r {
        None => None,
        Some(None) => Some(None),
        Some(Some(v)) => Some(Some(v@.map_values(|e: (String, Option<String>)| (e.0@, opt_view(e.1))))),
    }
}

/// Calls `serde_json::from_str` for a `Value` and, for an object, takes its
/// entries with `Value::as_str` of each value. The result is named by
/// `json_document`, a function of the text alone.
#[verifier::external_body]
fn parse_json_object(text: &str) -> (r: Option<Option<Vec<(String, Option<String>)>>>)
    ensures
        json_entries_view(r) == json_document(text@),
{
    match serde_json::from_str::<serde_json::Value>(text) {
        Err(_) => None,
        Ok(serde_json::Value::Object(map)) => Some(
            Some(map.into_iter().map(|(k, v)| (k, v.as_str().map(|s| s.to_string()))).collect()),
        ),
        Ok(_) => Some(None),
    }
}

/// What a program printed for a record's grab bag.
pub enum ExeOutput {
    /// It printed nothing but white space.
    Nothing,
    /// It printed no JSON.
    Invalid,
    /// It printed JSON that is no object.
    NotAnObject,
    /// The keys with string values, in order.
    Entries(Vec<(String, String)>),
}

/// The entries whose values are strings.
pub open spec fn string_entries(entries: Seq<(Seq<char>, Option<Seq<char>>)>) -> Seq<(Seq<char>, Seq<char>)> {
    entries.filter(|e: (Seq<char>, Option<Seq<char>>)| e.1 is Some).map_values(
        |e: (Seq<char>, Option<Seq<char>>)| (e.0, e.1->0),
    )
}

/// Reads what a program printed: trimmed, nothing; otherwise its JSON
/// object's keys with string values.
pub fn exe_output_entries(output: &str) -> (r: ExeOutput)
    ensures
        ({
            let t = trim(output@);
            if t.len() == 0 {
                r is Nothing
            } else {
                match json_document(t) {
                    None => r is Invalid,
                    Some(None) => r is NotAnObject,
                    Some(Some(es)) => r matches ExeOutput::Entries(v) && v@.map_values(
                        |e: (String, String)| (e.0@, e.1@),
                    ) == string_entries(es),
                }
            }
        }),
{
    let t = trim_str(output);
    if chars_of(t.as_str()).len() == 0 {
        return ExeOutput::Nothing;
    }
    match parse_json_object(t.as_str()) {
        None => ExeOutput::Invalid,
        Some(None) => ExeOutput::NotAnObject,
        Some(Some(entries)) => {
            let ghost ev = entries@.map_values(|e: (String, Option<String>)| (e.0@, opt_view(e.1)));
            let ghost pred = |e: (Seq<char>, Option<Seq<char>>)| e.1 is Some;
            let ghost f = |e: (Seq<char>, Option<Seq<char>>)| (e.0, e.1->0);
            let mut out: Vec<(String, String)> = Vec::new();
            let mut i: usize = 0;
            while i < entries.len()
                invariant
                    i <= entries.len(),
                    ev == entries@.map_values(|e: (String, Option<String>)| (e.0@, opt_view(e.1))),
                    pred == (|e: (Seq<char>, Option<Seq<char>>)| e.1 is Some),
                    f == (|e: (Seq<char>, Option<Seq<char>>)| (e.0, e.1->0)),
                    out@.map_values(|e: (String, String)| (e.0@, e.1@)) == ev.take(i as int).filter(
                        pred,
                    ).map_values(f),
                decreases entries.len() - i,
            {
                proof {
                    reveal(Seq::filter);
                    assert(ev.take(i + 1).drop_last() =~= ev.take(i as int));
                    assert(ev.take(i + 1).last() == ev[i as int]);
                }
                match &entries[i].1 {
                    Some(v) => {
                        let ghost prev = out@;
                        let pair = (entries[i].0.clone(), v.clone());
                        out.push(pair);
                        assert(out@.map_values(|e: (String, String)| (e.0@, e.1@)) =~= prev.map_values(
                            |e: (String, String)| (e.0@, e.1@),
                        ).push((pair.0@, pair.1@)));
                        assert(out@.map_values(|e: (String, String)| (e.0@, e.1@)) =~= ev.take(
                            i + 1,
                        ).filter(pred).map_values(f));
                    },
                    None => {},
                }
                i = i + 1;
            }
            assert(ev.take(i as int) =~= ev);
            ExeOutput::Entries(out)
        },
    }
}

/// The first line of a playlist.
pub const PLAYLIST_HEADER: &'static str = "#EXTM3U\n";

/// A playlist of files: the header, then each path on a line of its own.
pub open spec fn playlist_text(paths: Seq<Seq<char>>) -> Seq<char>
    decreases paths.len(),
{
    if paths.len() == 0 {
        PLAYLIST_HEADER@
    } else {
        playlist_text(paths.drop_last()) + paths.last() + seq!['\n']
    }
}

/// Writes the playlist of the given paths.
pub fn playlist(paths: &Vec<String>) -> (text: String)
    ensures
        text@ == playlist_text(str_views(paths@)),
{
    let mut text = PLAYLIST_HEADER.to_owned();
    let ghost pv = str_views(paths@);
    let mut i: usize = 0;
    assert(pv.take(0) =~= Seq::<Seq<char>>::empty());
    while i < paths.len()
        invariant
            i <= paths.len(),
            pv == str_views(paths@),
            text@ == playlist_text(pv.take(i as int)),
        decreases paths.len() - i,
    {
        push_str_chars(&mut text, paths[i].as_str());
        push_char(&mut text, '\n');
        assert(pv.take(i + 1).drop_last() =~= pv.take(i as int));
        assert(pv.take(i + 1).last() == paths@[i as int]@);
        i = i + 1;
    }
    assert(pv.take(i as int) =~= pv);
    text
}

/// Where a playlist is written: `/tmp/gt_`, the random part, `.m3u`.
pub fn playlist_path(random_part: &str) -> (p: String)
    ensures
        p@ == "/tmp/gt_"@ + random_part@ + ".m3u"@,
{
    let mut p = "/tmp/gt_".to_owned();
    push_str_chars(&mut p, random_part);
    push_str_chars(&mut p, ".m3u");
    p
}


/// What `shell_words::split` gives for a text: its words as a shell splits
/// them, or `None` where the quoting does not close.
pub uninterp spec fn shell_split(text: Seq<char>) -> Option<Seq<Seq<char>>>;

/// Calls `shell_words::split`. The result is named by `shell_split`, a
/// function of the text alone.
#[verifier::external_body]
fn shell_words_split(text: &str) -> (r: Option<Vec<String>>)
    ensures
        match r {
            Some(v) => shell_split(text@) == Some(str_views(v@)),
            None => shell_split(text@) is None,
        },
{
    shell_words::split(text).ok()
}

/// Splits a line into words as a shell does; `ParseError` where the quoting
/// does not close.
pub fn split_command_line(line: &str) -> (r: Result<Vec<String>, MyCustomError>)
    ensures
        match shell_split(line@) {
            Some(words) => r matches Ok(v) && str_views(v@) == words,
            None => r matches Err(e) && e is ParseError,
        },
{
    match shell_words_split(line) {
        Some(v) => Ok(v),
        None => Err(MyCustomError::ParseError),
    }
}

/// The program and arguments a command line runs: its first word and the
/// others; `None` where it has no word (and so prints nothing).
pub fn command_invocation(command: &str) -> (r: Result<Option<(String, Vec<String>)>, MyCustomError>)
    ensures
        match shell_split(command@) {
            None => r matches Err(e) && e is ParseError,
            Some(words) => if words.len() == 0 {
                r matches Ok(None)
            } else {
                r matches Ok(Some((p, a))) && p@ == words[0] && str_views(a@) == words.drop_first()
            },
        },
{
    let mut words = match shell_words_split(command) {
        Some(v) => v,
        None => {
            return Err(MyCustomError::ParseError);
        },
    };
    if words.len() == 0 {
        return Ok(None);
    }
    let ghost all = str_views(words@);
    let program = words.remove(0);
    assert(str_views(words@) =~= all.drop_first());
    Ok(Some((program, words)))
}

} // verus!
