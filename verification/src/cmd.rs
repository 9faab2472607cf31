//! The values the window exchanges with the library, and the cache of the
//! folders that were opened.
use vstd::prelude::*;
use crate::text::{contains_str, str_eq, str_views};

verus! {

/// What a window command carries besides its name.
#[derive(Debug)]
pub struct DoSomethingPayload {
    pub command: String,
    pub state: String,
    pub data: u64,
}

/// A reply with a number and a message.
pub struct Response<'a> {
    pub value: u64,
    pub message: &'a str,
}

/// An error reported to the window.
#[derive(Debug, Clone)]
pub struct CommandError<'a> {
    pub message: &'a str,
}

impl<'a> CommandError<'a> {
    /// An error with this message.
    pub fn new(message: &'a str) -> (e: Self)
        ensures
            e.message@ == message@,
    {
        Self { message }
    }
}

/// A folder the window may open.
pub struct StartupFolder {
    pub location: String,
}

/// The folders offered when the window starts, and whether to skip the
/// choice.
pub struct StartupOptions {
    pub folders: Vec<StartupFolder>,
    pub skip: bool,
}

/// The folders opened before, in the order they were first opened.
#[derive(Debug, PartialEq)]
pub struct Cache {
    pub opened: Vec<String>,
}

pub open spec fn folder_views(v: Seq<StartupFolder>) -> Seq<Seq<char>> {
    v.map_values(|f: StartupFolder| f.location@)
}

/// The startup folders: the first ones, then each opened folder not already
/// listed, in order.
pub open spec fn merged_locations(first: Seq<Seq<char>>, opened: Seq<Seq<char>>) -> Seq<Seq<char>>
    decreases opened.len(),
{
    if opened.len() == 0 {
        first
    } else {
        let prev = merged_locations(first, opened.drop_last());
        if prev.contains(opened.last()) {
            prev
        } else {
            prev.push(opened.last())
        }
    }
}

fn folders_contain(folders: &Vec<StartupFolder>, location: &str) -> (b: bool)
    ensures
        b == folder_views(folders@).contains(location@),
{
    let ghost fv = folder_views(folders@);
    let mut i: usize = 0;
    while i < folders.len()
        invariant
            i <= folders.len(),
            fv == folder_views(folders@),
            forall|j: int| 0 <= j < i ==> fv[j] != location@,
        decreases folders.len() - i,
    {
        assert(fv[i as int] == folders@[i as int].location@);
        if str_eq(folders[i].location.as_str(), location) {
            return true;
        }
        i = i + 1;
    }
    false
}

/// The working directory, where it is offered.
pub open spec fn base_folders(base: Option<String>) -> Seq<Seq<char>> {
    match base {
        Some(b) => seq![b@],
        None => Seq::<Seq<char>>::empty(),
    }
}

/// The folders to offer at startup: the working directory where it holds a
/// database (`base`), then the cached folders not already listed.
pub fn startup_folders(base: Option<String>, cache: &Cache) -> (folders: Vec<StartupFolder>)
    ensures
        folder_views(folders@) == merged_locations(base_folders(base), str_views(cache.opened@)),
{
    let ghost first = base_folders(base);
    let ghost ov = str_views(cache.opened@);
    let mut folders: Vec<StartupFolder> = Vec::new();
    match base {
        Some(b) => {
            folders.push(StartupFolder { location: b });
        },
        None => {},
    }
    assert(folder_views(folders@) =~= first);
    assert(ov.take(0) =~= Seq::<Seq<char>>::empty());
    let mut i: usize = 0;
    while i < cache.opened.len()
        invariant
            i <= cache.opened.len(),
            ov == str_views(cache.opened@),
            folder_views(folders@) == merged_locations(first, ov.take(i as int)),
        decreases cache.opened.len() - i,
    {
        assert(ov.take(i + 1).drop_last() =~= ov.take(i as int));
        assert(ov.take(i + 1).last() == cache.opened@[i as int]@);
        if !folders_contain(&folders, cache.opened[i].as_str()) {
            let ghost prev = folders@;
            folders.push(StartupFolder { location: cache.opened[i].clone() });
            assert(folder_views(folders@) =~= folder_views(prev).push(cache.opened@[i as int]@));
        }
        i = i + 1;
    }
    assert(ov.take(i as int) =~= ov);
    folders
}

impl Cache {
    /// A cache that knows one folder.
    pub fn with_location(location: String) -> (c: Cache)
        ensures
            str_views(c.opened@) == seq![location@],
    {
        let mut opened: Vec<String> = Vec::new();
        opened.push(location);
        assert(str_views(opened@) =~= seq![opened@[0]@]);
        Cache { opened }
    }

    /// Remembers a folder, unless it is known already.
    pub fn add(&mut self, location: String)
        ensures
            str_views(final(self).opened@) == if str_views(old(self).opened@).contains(location@) {
                str_views(old(self).opened@)
            } else {
                str_views(old(self).opened@).push(location@)
            },
    {
        if !contains_str(&self.opened, location.as_str()) {
            let ghost prev = self.opened@;
            self.opened.push(location);
            assert(str_views(self.opened@) =~= str_views(prev).push(self.opened@.last()@));
        }
    }

    /// Forgets the first entry of a folder; `false` where it is not known.
    pub fn remove(&mut self, location: &str) -> (found: bool)
        ensures
            found == str_views(old(self).opened@).contains(location@),
            found ==> exists|k: int|
                0 <= k < old(self).opened@.len() && #[trigger] old(self).opened@[k]@ == location@ && (forall|
                    j: int,
                | 0 <= j < k ==> old(self).opened@[j]@ != location@) && final(self).opened@
                    == old(self).opened@.remove(k),
            !found ==> final(self).opened@ == old(self).opened@,
    {
        let ghost ov = str_views(self.opened@);
        let mut i: usize = 0;
        while i < self.opened.len()
            invariant
                i <= self.opened.len(),
                self.opened@ == old(self).opened@,
                ov == str_views(old(self).opened@),
                forall|j: int| 0 <= j < i ==> self.opened@[j]@ != location@,
            decreases self.opened.len() - i,
        {
            if str_eq(self.opened[i].as_str(), location) {
                assert(ov[i as int] == location@);
                self.opened.remove(i);
                return true;
            }
            i = i + 1;
        }
        assert forall|k: int| 0 <= k < ov.len() implies ov[k] != location@ by {
            assert(ov[k] == old(self).opened@[k]@);
        }
        false
    }
}

/// Forgetting a folder that was just remembered, and was not known before,
/// gives back the cache as it was.
pub proof fn lemma_remove_undoes_add(before: Seq<String>, added: Seq<String>, removed: Seq<String>, location: Seq<char>)
    requires
        !str_views(before).contains(location),
        str_views(added) == str_views(before).push(location),
        exists|k: int|
            0 <= k < added.len() && #[trigger] added[k]@ == location && (forall|j: int|
                0 <= j < k ==> added[j]@ != location) && removed == added.remove(k),
    ensures
        str_views(removed) == str_views(before),
{
    let k = choose|k: int|
        0 <= k < added.len() && #[trigger] added[k]@ == location && (forall|j: int|
            0 <= j < k ==> added[j]@ != location) && removed == added.remove(k);
    assert(str_views(added).len() == added.len());
    assert(str_views(before).len() == before.len());
    assert(added.len() == before.len() + 1);
    if k < before.len() {
        assert(str_views(added)[k] == str_views(before)[k]);
        assert(str_views(before).contains(location));
    }
    assert(k == before.len());
    assert(str_views(removed) =~= str_views(before)) by {
        assert forall|j: int| 0 <= j < before.len() implies str_views(removed)[j] == str_views(before)[j] by {
            assert(removed[j] == added[j]);
            assert(str_views(added)[j] == str_views(before)[j]);
        }
    }
}

} // verus!
