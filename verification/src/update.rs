//! Keeping the database in step with the files on disk: from the records the
//! database knows and the files a scan found, the additions, moves and
//! deletions to make.
use vstd::prelude::*;
use crate::models::MiniRecord;
use crate::text::{chars_eq, chars_of, str_eq, str_views};

verus! {

/// A record the database knows, with its file name.
pub struct KnownFile {
    pub name: String,
    pub record: MiniRecord,
}

/// A file the scan found.
pub struct FoundFile {
    pub name: String,
    pub location: String,
}

pub struct KnownView {
    pub name: Seq<char>,
    pub id: i64,
    pub loc: Seq<char>,
}

pub struct FoundView {
    pub name: Seq<char>,
    pub loc: Seq<char>,
}

impl View for KnownFile {
    type V = KnownView;

    open spec fn view(&self) -> KnownView {
        KnownView { name: self.name@, id: self.record.RecordID, loc: self.record.Location@ }
    }
}

impl View for FoundFile {
    type V = FoundView;

    open spec fn view(&self) -> FoundView {
        FoundView { name: self.name@, loc: self.location@ }
    }
}

pub open spec fn known_views(s: Seq<KnownFile>) -> Seq<KnownView> {
    s.map_values(|e: KnownFile| e@)
}

pub open spec fn found_views(s: Seq<FoundFile>) -> Seq<FoundView> {
    s.map_values(|f: FoundFile| f@)
}

/// A change to make to the database.
pub enum UpdateAction {
    /// A new record for a file.
    Add { name: String, location: String },
    /// A record now at another location.
    Move { id: i64, location: String },
    /// A record whose file is gone.
    Delete { id: i64 },
}

pub enum ActionView {
    Add { name: Seq<char>, loc: Seq<char> },
    Move { id: i64, loc: Seq<char> },
    Delete { id: i64 },
}

impl View for UpdateAction {
    type V = ActionView;

    open spec fn view(&self) -> ActionView {
        match self {
            UpdateAction::Add { name, location } => ActionView::Add { name: name@, loc: location@ },
            UpdateAction::Move { id, location } => ActionView::Move { id: *id, loc: location@ },
            UpdateAction::Delete { id } => ActionView::Delete { id: *id },
        }
    }
}

pub open spec fn action_views(s: Seq<UpdateAction>) -> Seq<ActionView> {
    s.map_values(|a: UpdateAction| a@)
}

/// The changes to make, how many of each kind, and the files that could not
/// be reconciled, if any (the changes then stop there).
pub struct UpdatePlan {
    pub actions: Vec<UpdateAction>,
    pub num_added: usize,
    pub num_renamed: usize,
    pub num_deleted: usize,
    pub duplicate: Option<Vec<String>>,
}

// ---------------------------------------------------------------------------
// The plan, stated on views
/// The database knows a file of this name.
pub open spec fn known(fm: Seq<KnownView>, n: Seq<char>) -> bool {
    exists|i: int| 0 <= i < fm.len() && #[trigger] fm[i].name == n
}

/// The database knows a file of this name at this location.
pub open spec fn at_known_location(fm: Seq<KnownView>, n: Seq<char>, l: Seq<char>) -> bool {
    exists|i: int| 0 <= i < fm.len() && #[trigger] fm[i].name == n && fm[i].loc == l
}

/// A found file whose name the database does not know.
pub open spec fn is_new(fm: Seq<KnownView>, f: FoundView) -> bool {
    !known(fm, f.name)
}

/// A found file whose name is known, but never at this location.
pub open spec fn is_moved(fm: Seq<KnownView>, f: FoundView) -> bool {
    known(fm, f.name) && !at_known_location(fm, f.name, f.loc)
}

/// The locations where the scan found files of this name.
pub open spec fn walk_locs(found: Seq<FoundView>, n: Seq<char>) -> Seq<Seq<char>> {
    found.filter(|f: FoundView| f.name == n).map_values(|f: FoundView| f.loc)
}

/// The new locations of files of this name that seem to have moved.
pub open spec fn moved_locs(fm: Seq<KnownView>, found: Seq<FoundView>, n: Seq<char>) -> Seq<Seq<char>> {
    found.filter(|f: FoundView| f.name == n && is_moved(fm, f)).map_values(|f: FoundView| f.loc)
}

/// The records of this name whose location the scan did not see.
pub open spec fn stale(fm: Seq<KnownView>, found: Seq<FoundView>, n: Seq<char>) -> Seq<KnownView> {
    fm.filter(|e: KnownView| e.name == n && !walk_locs(found, n).contains(e.loc))
}

/// The items of `s`, each at its first place.
pub open spec fn distinct(s: Seq<Seq<char>>) -> Seq<Seq<char>>
    decreases s.len(),
{
    if s.len() == 0 {
        s
    } else {
        let d = distinct(s.drop_last());
        if d.contains(s.last()) {
            d
        } else {
            d.push(s.last())
        }
    }
}

/// The names of the found files.
pub open spec fn found_names(s: Seq<FoundView>) -> Seq<Seq<char>> {
    s.map_values(|f: FoundView| f.name)
}

/// The names with files that seem to have moved, in the order found.
pub open spec fn moved_names(fm: Seq<KnownView>, found: Seq<FoundView>) -> Seq<Seq<char>> {
    distinct(found_names(found.filter(|f: FoundView| is_moved(fm, f))))
}

/// What to do for a name with files that seem to have moved: several new
/// locations, or several records not seen, cannot be reconciled; otherwise a
/// record not seen moves to the new location, and with none the file is new.
pub open spec fn name_outcome(fm: Seq<KnownView>, found: Seq<FoundView>, n: Seq<char>) -> Result<
    ActionView,
    Seq<Seq<char>>,
> {
    let ml = moved_locs(fm, found, n);
    let st = stale(fm, found, n);
    if ml.len() > 1 {
        Err(ml)
    } else if st.len() == 0 {
        Ok(ActionView::Add { name: n, loc: ml[0] })
    } else if st.len() == 1 {
        Ok(ActionView::Move { id: st[0].id, loc: ml[0] })
    } else {
        Err(st.map_values(|e: KnownView| e.loc))
    }
}

/// The outcomes of the names in turn, up to the first that fails.
pub open spec fn name_actions(fm: Seq<KnownView>, found: Seq<FoundView>, names: Seq<Seq<char>>) -> (
    Seq<ActionView>,
    Option<Seq<Seq<char>>>,
)
    decreases names.len(),
{
    if names.len() == 0 {
        (Seq::<ActionView>::empty(), None)
    } else {
        let prev = name_actions(fm, found, names.drop_last());
        match prev.1 {
            Some(e) => prev,
            None => match name_outcome(fm, found, names.last()) {
                Ok(a) => (prev.0.push(a), None),
                Err(e) => (prev.0, Some(e)),
            },
        }
    }
}

/// The old location of a record that moved under this name, if one did.
pub open spec fn moved_from(fm: Seq<KnownView>, found: Seq<FoundView>, n: Seq<char>) -> Option<
    Seq<char>,
> {
    if moved_locs(fm, found, n).len() == 1 && stale(fm, found, n).len() == 1 {
        Some(stale(fm, found, n)[0].loc)
    } else {
        None
    }
}

/// A record to delete: its location was not seen, and it did not move.
pub open spec fn is_deleted(fm: Seq<KnownView>, found: Seq<FoundView>, e: KnownView) -> bool {
    !walk_locs(found, e.name).contains(e.loc) && moved_from(fm, found, e.name) != Some(e.loc)
}

/// The whole plan: additions for unknown names, the outcomes of moved names
/// and, when they all succeed, deletions of the records not seen.
pub open spec fn plan_spec(fm: Seq<KnownView>, found: Seq<FoundView>) -> (
    Seq<ActionView>,
    Option<Seq<Seq<char>>>,
) {
    let adds = found.filter(|f: FoundView| is_new(fm, f)).map_values(
        |f: FoundView| ActionView::Add { name: f.name, loc: f.loc },
    );
    let moves = name_actions(fm, found, moved_names(fm, found));
    match moves.1 {
        Some(e) => (adds + moves.0, Some(e)),
        None => (
            adds + moves.0 + fm.filter(|e: KnownView| is_deleted(fm, found, e)).map_values(
                |e: KnownView| ActionView::Delete { id: e.id },
            ),
            None,
        ),
    }
}

/// How many actions of each kind.
pub open spec fn count_adds(s: Seq<ActionView>) -> nat
    decreases s.len(),
{
    if s.len() == 0 {
        0
    } else {
        count_adds(s.drop_last()) + (if s.last() is Add {
            1nat
        } else {
            0nat
        })
    }
}

pub open spec fn count_moves(s: Seq<ActionView>) -> nat
    decreases s.len(),
{
    if s.len() == 0 {
        0
    } else {
        count_moves(s.drop_last()) + (if s.last() is Move {
            1nat
        } else {
            0nat
        })
    }
}

pub open spec fn count_deletes(s: Seq<ActionView>) -> nat
    decreases s.len(),
{
    if s.len() == 0 {
        0
    } else {
        count_deletes(s.drop_last()) + (if s.last() is Delete {
            1nat
        } else {
            0nat
        })
    }
}

// ---------------------------------------------------------------------------
// Computing the plan
fn known_exec(fm: &Vec<KnownFile>, n: &str) -> (b: bool)
    ensures
        b == known(known_views(fm@), n@),
{
    let ghost kv = known_views(fm@);
    let mut i: usize = 0;
    while i < fm.len()
        invariant
            i <= fm.len(),
            kv == known_views(fm@),
            forall|j: int| 0 <= j < i ==> kv[j].name != n@,
        decreases fm.len() - i,
    {
        assert(kv[i as int] == fm@[i as int]@);
        if str_eq(fm[i].name.as_str(), n) {
            assert(kv[i as int].name == n@);
            return true;
        }
        i = i + 1;
    }
    false
}

fn at_known_location_exec(fm: &Vec<KnownFile>, n: &str, l: &str) -> (b: bool)
    ensures
        b == at_known_location(known_views(fm@), n@, l@),
{
    let ghost kv = known_views(fm@);
    let mut i: usize = 0;
    while i < fm.len()
        invariant
            i <= fm.len(),
            kv == known_views(fm@),
            forall|j: int| 0 <= j < i ==> !(kv[j].name == n@ && kv[j].loc == l@),
        decreases fm.len() - i,
    {
        assert(kv[i as int] == fm@[i as int]@);
        if str_eq(fm[i].name.as_str(), n) && str_eq(fm[i].record.Location.as_str(), l) {
            assert(kv[i as int].name == n@ && kv[i as int].loc == l@);
            return true;
        }
        i = i + 1;
    }
    false
}

fn is_moved_exec(fm: &Vec<KnownFile>, f: &FoundFile) -> (b: bool)
    ensures
        b == is_moved(known_views(fm@), f@),
{
    known_exec(fm, f.name.as_str()) && !at_known_location_exec(
        fm,
        f.name.as_str(),
        f.location.as_str(),
    )
}

fn walk_locs_exec(found: &Vec<FoundFile>, n: &str) -> (r: Vec<String>)
    ensures
        str_views(r@) == walk_locs(found_views(found@), n@),
{
    let ghost fv = found_views(found@);
    let ghost pred = |f: FoundView| f.name == n@;
    let mut r: Vec<String> = Vec::new();
    let mut i: usize = 0;
    while i < found.len()
        invariant
            i <= found.len(),
            fv == found_views(found@),
            pred == (|f: FoundView| f.name == n@),
            str_views(r@) == fv.take(i as int).filter(pred).map_values(|f: FoundView| f.loc),
        decreases found.len() - i,
    {
        proof {
            reveal(Seq::filter);
            assert(fv.take(i + 1).drop_last() =~= fv.take(i as int));
            assert(fv.take(i + 1).last() == found@[i as int]@);
        }
        if str_eq(found[i].name.as_str(), n) {
            let ghost old_r = r@;
            let loc = found[i].location.clone();
            r.push(loc);
            assert(str_views(r@) =~= str_views(old_r).push(loc@));
            assert(fv.take(i + 1).filter(pred) == fv.take(i as int).filter(pred).push(
                found@[i as int]@,
            ));
            assert(fv.take(i + 1).filter(pred).map_values(|f: FoundView| f.loc) =~= fv.take(
                i as int,
            ).filter(pred).map_values(|f: FoundView| f.loc).push(loc@));
        } else {
            assert(fv.take(i + 1).filter(pred) == fv.take(i as int).filter(pred));
        }
        i = i + 1;
    }
    assert(fv.take(i as int) =~= fv);
    r
}

fn moved_locs_exec(fm: &Vec<KnownFile>, found: &Vec<FoundFile>, n: &str) -> (r: Vec<String>)
    ensures
        str_views(r@) == moved_locs(known_views(fm@), found_views(found@), n@),
{
    let ghost fv = found_views(found@);
    let ghost kv = known_views(fm@);
    let ghost pred = |f: FoundView| f.name == n@ && is_moved(kv, f);
    let mut r: Vec<String> = Vec::new();
    let mut i: usize = 0;
    while i < found.len()
        invariant
            i <= found.len(),
            fv == found_views(found@),
            kv == known_views(fm@),
            pred == (|f: FoundView| f.name == n@ && is_moved(kv, f)),
            str_views(r@) == fv.take(i as int).filter(pred).map_values(|f: FoundView| f.loc),
        decreases found.len() - i,
    {
        proof {
            reveal(Seq::filter);
            assert(fv.take(i + 1).drop_last() =~= fv.take(i as int));
            assert(fv.take(i + 1).last() == found@[i as int]@);
        }
        if str_eq(found[i].name.as_str(), n) && is_moved_exec(fm, &found[i]) {
            let ghost old_r = r@;
            let loc = found[i].location.clone();
            r.push(loc);
            assert(str_views(r@) =~= str_views(old_r).push(loc@));
            assert(fv.take(i + 1).filter(pred) == fv.take(i as int).filter(pred).push(
                found@[i as int]@,
            ));
            assert(fv.take(i + 1).filter(pred).map_values(|f: FoundView| f.loc) =~= fv.take(
                i as int,
            ).filter(pred).map_values(|f: FoundView| f.loc).push(loc@));
        } else {
            assert(fv.take(i + 1).filter(pred) == fv.take(i as int).filter(pred));
        }
        i = i + 1;
    }
    assert(fv.take(i as int) =~= fv);
    r
}

fn contains_string(v: &Vec<String>, s: &str) -> (b: bool)
    ensures
        b == str_views(v@).contains(s@),
{
    crate::text::contains_str(v, s)
}

/// The records of this name whose location is not among `seen`.
fn stale_exec(fm: &Vec<KnownFile>, n: &str, seen: &Vec<String>) -> (r: Vec<KnownFile>)
    ensures
        known_views(r@) == known_views(fm@).filter(
            |e: KnownView| e.name == n@ && !str_views(seen@).contains(e.loc),
        ),
{
    let ghost kv = known_views(fm@);
    let ghost pred = |e: KnownView| e.name == n@ && !str_views(seen@).contains(e.loc);
    let mut r: Vec<KnownFile> = Vec::new();
    let mut i: usize = 0;
    while i < fm.len()
        invariant
            i <= fm.len(),
            kv == known_views(fm@),
            pred == (|e: KnownView| e.name == n@ && !str_views(seen@).contains(e.loc)),
            known_views(r@) == kv.take(i as int).filter(pred),
        decreases fm.len() - i,
    {
        proof {
            reveal(Seq::filter);
            assert(kv.take(i + 1).drop_last() =~= kv.take(i as int));
            assert(kv.take(i + 1).last() == fm@[i as int]@);
        }
        if str_eq(fm[i].name.as_str(), n) && !contains_string(
            seen,
            fm[i].record.Location.as_str(),
        ) {
            let ghost old_r = r@;
            let e = KnownFile { name: fm[i].name.clone(), record: fm[i].record.copy() };
            r.push(e);
            assert(known_views(r@) =~= known_views(old_r).push(e@));
        }
        i = i + 1;
    }
    assert(kv.take(i as int) =~= kv);
    r
}

proof fn lemma_distinct_props(s: Seq<Seq<char>>)
    ensures
        distinct(s).no_duplicates(),
        forall|x: Seq<char>| distinct(s).contains(x) <==> s.contains(x),
    decreases s.len(),
{
    if s.len() > 0 {
        lemma_distinct_props(s.drop_last());
        let d = distinct(s.drop_last());
        assert forall|x: Seq<char>| distinct(s).contains(x) <==> s.contains(x) by {
            if s.contains(x) && x != s.last() {
                let k = choose|k: int| 0 <= k < s.len() && #[trigger] s[k] == x;
                assert(s.drop_last()[k] == x);
            }
            if s.drop_last().contains(x) {
                let k = choose|k: int| 0 <= k < s.drop_last().len() && #[trigger] s.drop_last()[k] == x;
                assert(s[k] == x);
            }
            if !d.contains(s.last()) {
                if d.push(s.last()).contains(x) && x != s.last() {
                    let k = choose|k: int|
                        0 <= k < d.push(s.last()).len() && #[trigger] d.push(s.last())[k] == x;
                    assert(d[k] == x);
                }
                if d.contains(x) {
                    let k = choose|k: int| 0 <= k < d.len() && #[trigger] d[k] == x;
                    assert(d.push(s.last())[k] == x);
                }
                assert(d.push(s.last())[d.len() as int] == s.last());
            }
            assert(s[s.len() - 1] == s.last());
        }
    }
}

/// The plan for bringing the database in step with a scan.
pub fn plan_update(fm: &Vec<KnownFile>, found: &Vec<FoundFile>) -> (p: UpdatePlan)
    ensures
        action_views(p.actions@) == plan_spec(known_views(fm@), found_views(found@)).0,
        match p.duplicate {
            Some(d) => plan_spec(known_views(fm@), found_views(found@)).1 == Some(str_views(d@)),
            None => plan_spec(known_views(fm@), found_views(found@)).1 is None,
        },
        p.num_added == count_adds(action_views(p.actions@)),
        p.num_renamed == count_moves(action_views(p.actions@)),
        p.num_deleted == count_deletes(action_views(p.actions@)),
{
    let ghost kv = known_views(fm@);
    let ghost fv = found_views(found@);
    // Files whose name is new, and the names of files that seem to have moved.
    let ghost new_pred = |f: FoundView| is_new(kv, f);
    let ghost moved_pred = |f: FoundView| is_moved(kv, f);
    let ghost to_add = |f: FoundView| ActionView::Add { name: f.name, loc: f.loc };
    let mut actions: Vec<UpdateAction> = Vec::new();
    let mut names: Vec<String> = Vec::new();
    let mut i: usize = 0;
    while i < found.len()
        invariant
            i <= found.len(),
            kv == known_views(fm@),
            fv == found_views(found@),
            new_pred == (|f: FoundView| is_new(kv, f)),
            moved_pred == (|f: FoundView| is_moved(kv, f)),
            to_add == (|f: FoundView| ActionView::Add { name: f.name, loc: f.loc }),
            action_views(actions@) == fv.take(i as int).filter(new_pred).map_values(to_add),
            str_views(names@) == distinct(found_names(fv.take(i as int).filter(moved_pred))),
        decreases found.len() - i,
    {
        proof {
            reveal(Seq::filter);
            assert(fv.take(i + 1).drop_last() =~= fv.take(i as int));
            assert(fv.take(i + 1).last() == found@[i as int]@);
        }
        let f = &found[i];
        let is_known = known_exec(fm, f.name.as_str());
        if !is_known {
            let ghost old_a = actions@;
            let a = UpdateAction::Add { name: f.name.clone(), location: f.location.clone() };
            actions.push(a);
            assert(action_views(actions@) =~= action_views(old_a).push(a@));
            assert(fv.take(i + 1).filter(new_pred) == fv.take(i as int).filter(new_pred).push(f@));
            assert(fv.take(i + 1).filter(new_pred).map_values(to_add) =~= fv.take(i as int).filter(
                new_pred,
            ).map_values(to_add).push(a@));
            assert(fv.take(i + 1).filter(moved_pred) == fv.take(i as int).filter(moved_pred));
        } else {
            assert(fv.take(i + 1).filter(new_pred) == fv.take(i as int).filter(new_pred));
            let moved = !at_known_location_exec(fm, f.name.as_str(), f.location.as_str());
            if moved {
                let ghost prev = found_names(fv.take(i as int).filter(moved_pred));
                assert(fv.take(i + 1).filter(moved_pred) == fv.take(i as int).filter(
                    moved_pred,
                ).push(f@));
                assert(found_names(fv.take(i + 1).filter(moved_pred)) =~= prev.push(f.name@));
                assert(prev.push(f.name@).drop_last() =~= prev);
                if !contains_string(&names, f.name.as_str()) {
                    let ghost old_n = names@;
                    names.push(f.name.clone());
                    assert(str_views(names@) =~= str_views(old_n).push(f.name@));
                }
            } else {
                assert(fv.take(i + 1).filter(moved_pred) == fv.take(i as int).filter(moved_pred));
            }
        }
        i = i + 1;
    }
    assert(fv.take(i as int) =~= fv);
    let ghost adds = action_views(actions@);
    // The names with moved files, in turn.
    let mut duplicate: Option<Vec<String>> = None;
    let mut k: usize = 0;
    let ghost mnames = str_views(names@);
    assert(mnames == moved_names(kv, fv));
    while k < names.len() && duplicate.is_none()
        invariant
            k <= names.len(),
            kv == known_views(fm@),
            fv == found_views(found@),
            mnames == str_views(names@),
            mnames == moved_names(kv, fv),
            action_views(actions@) == adds + name_actions(kv, fv, mnames.take(k as int)).0,
            name_actions(kv, fv, mnames.take(k as int)).1 is None,
            match duplicate {
                None => true,
                Some(d) => k < names.len() && name_outcome(kv, fv, mnames[k as int]) == Err::<
                    ActionView,
                    Seq<Seq<char>>,
                >(str_views(d@)),
            },
        decreases names.len() - k + (if duplicate is None {
            1int
        } else {
            0int
        }),
    {
        proof {
            assert(mnames.take(k + 1).drop_last() =~= mnames.take(k as int));
            assert(mnames.take(k + 1).last() == names@[k as int]@);
            assert(mnames[k as int] == names@[k as int]@);
        }
        let n = names[k].as_str();
        let ml = moved_locs_exec(fm, found, n);
        let wl = walk_locs_exec(found, n);
        let st = stale_exec(fm, n, &wl);
        proof {
            let p1 = |e: KnownView| e.name == n@ && !str_views(wl@).contains(e.loc);
            let p2 = |e: KnownView| e.name == n@ && !walk_locs(fv, n@).contains(e.loc);
            assert(p1 =~= p2);
            assert(known_views(st@) == stale(kv, fv, n@));
        }
        if ml.len() > 1 {
            duplicate = Some(ml);
        } else {
            proof {
                lemma_distinct_props(found_names(fv.filter(|f: FoundView| is_moved(kv, f))));
                assert(mnames.contains(n@)) by {
                    assert(mnames[k as int] == n@);
                }
                lemma_moved_name_has_loc(kv, fv, n@);
                assert(str_views(ml@)[0] == ml@[0]@);
            }
            if st.len() == 0 {
                let ghost old_a = actions@;
                let a = UpdateAction::Add { name: names[k].clone(), location: ml[0].clone() };
                actions.push(a);
                assert(action_views(actions@) =~= action_views(old_a).push(a@));
                k = k + 1;
            } else if st.len() == 1 {
                let ghost old_a = actions@;
                let a = UpdateAction::Move { id: st[0].record.RecordID, location: ml[0].clone() };
                actions.push(a);
                assert(action_views(actions@) =~= action_views(old_a).push(a@));
                assert(known_views(st@)[0] == st@[0]@);
                k = k + 1;
            } else {
                let mut locs: Vec<String> = Vec::new();
                let mut j: usize = 0;
                while j < st.len()
                    invariant
                        j <= st.len(),
                        str_views(locs@) == known_views(st@).take(j as int).map_values(
                            |e: KnownView| e.loc,
                        ),
                    decreases st.len() - j,
                {
                    let ghost old_l = locs@;
                    let loc = st[j].record.Location.clone();
                    locs.push(loc);
                    assert(str_views(locs@) =~= str_views(old_l).push(loc@));
                    assert(known_views(st@).take(j + 1) =~= known_views(st@).take(j as int).push(
                        st@[j as int]@,
                    ));
                    assert(known_views(st@).take(j + 1).map_values(|e: KnownView| e.loc)
                        =~= known_views(st@).take(j as int).map_values(|e: KnownView| e.loc).push(
                        loc@,
                    ));
                    j = j + 1;
                }
                assert(known_views(st@).take(j as int) =~= known_views(st@));
                duplicate = Some(locs);
            }
        }
    }
    let ghost final_k = k;
    // Deletions, when every moved name was reconciled.
    if duplicate.is_none() {
        proof {
            assert(mnames.take(k as int) =~= mnames);
        }
        let ghost del_pred = |e: KnownView| is_deleted(kv, fv, e);
        let ghost to_del = |e: KnownView| ActionView::Delete { id: e.id };
        let ghost mid = action_views(actions@);
        let mut d: usize = 0;
        while d < fm.len()
            invariant
                d <= fm.len(),
                kv == known_views(fm@),
                fv == found_views(found@),
                del_pred == (|e: KnownView| is_deleted(kv, fv, e)),
                to_del == (|e: KnownView| ActionView::Delete { id: e.id }),
                action_views(actions@) == mid + kv.take(d as int).filter(del_pred).map_values(
                    to_del,
                ),
            decreases fm.len() - d,
        {
            proof {
                reveal(Seq::filter);
                assert(kv.take(d + 1).drop_last() =~= kv.take(d as int));
                assert(kv.take(d + 1).last() == fm@[d as int]@);
            }
            let e = &fm[d];
            let wl = walk_locs_exec(found, e.name.as_str());
            let mut keep = contains_string(&wl, e.record.Location.as_str());
            if !keep {
                let ml = moved_locs_exec(fm, found, e.name.as_str());
                if ml.len() == 1 {
                    let st = stale_exec(fm, e.name.as_str(), &wl);
                    if st.len() == 1 {
                        assert(known_views(st@)[0] == st@[0]@);
                        keep = str_eq(st[0].record.Location.as_str(), e.record.Location.as_str());
                    }
                }
            }
            if !keep {
                let ghost old_a = actions@;
                let a = UpdateAction::Delete { id: e.record.RecordID };
                actions.push(a);
                assert(action_views(actions@) =~= action_views(old_a).push(a@));
                assert(kv.take(d + 1).filter(del_pred) == kv.take(d as int).filter(del_pred).push(
                    e@,
                ));
                assert(mid + kv.take(d + 1).filter(del_pred).map_values(to_del) =~= mid + kv.take(
                    d as int,
                ).filter(del_pred).map_values(to_del).push(a@));
            } else {
                assert(kv.take(d + 1).filter(del_pred) == kv.take(d as int).filter(del_pred));
            }
            d = d + 1;
        }
        assert(kv.take(d as int) =~= kv);
    } else {
        proof {
            lemma_name_actions_stop(kv, fv, mnames, final_k as int);
        }
    }
    let (num_added, num_renamed, num_deleted) = count_actions(&actions);
    UpdatePlan {
        actions: actions,
        num_added: num_added,
        num_renamed: num_renamed,
        num_deleted: num_deleted,
        duplicate: duplicate,
    }
}

proof fn lemma_filter_refine(s: Seq<FoundView>, kv: Seq<KnownView>, n: Seq<char>)
    requires
        found_names(s.filter(|f: FoundView| is_moved(kv, f))).contains(n),
    ensures
        s.filter(|g: FoundView| g.name == n && is_moved(kv, g)).len() > 0,
    decreases s.len(),
{
    reveal(Seq::filter);
    let p = |f: FoundView| is_moved(kv, f);
    let q = |g: FoundView| g.name == n && is_moved(kv, g);
    if s.len() > 0 {
        if q(s.last()) {
            assert(s.filter(q) == s.drop_last().filter(q).push(s.last()));
        } else {
            let prev = s.drop_last().filter(p);
            if p(s.last()) {
                assert(s.filter(p) == prev.push(s.last()));
                assert(found_names(s.filter(p)) =~= found_names(prev).push(s.last().name));
                let k = choose|k: int|
                    0 <= k < found_names(s.filter(p)).len() && #[trigger] found_names(s.filter(p))[k]
                        == n;
                assert(k < prev.len());
                assert(found_names(prev)[k] == n);
            } else {
                assert(s.filter(p) == prev);
            }
            lemma_filter_refine(s.drop_last(), kv, n);
            assert(s.filter(q) == s.drop_last().filter(q));
        }
    } else {
        assert(s.filter(p).len() == 0);
    }
}

proof fn lemma_moved_name_has_loc(kv: Seq<KnownView>, fv: Seq<FoundView>, n: Seq<char>)
    requires
        found_names(fv.filter(|f: FoundView| is_moved(kv, f))).contains(n),
    ensures
        moved_locs(kv, fv, n).len() > 0,
{
    lemma_filter_refine(fv, kv, n);
}

proof fn lemma_name_actions_stop(kv: Seq<KnownView>, fv: Seq<FoundView>, names: Seq<Seq<char>>, k: int)
    requires
        0 <= k < names.len(),
        name_actions(kv, fv, names.take(k)).1 is None,
        name_outcome(kv, fv, names[k]) is Err,
    ensures
        name_actions(kv, fv, names) == (
            name_actions(kv, fv, names.take(k)).0,
            Some(name_outcome(kv, fv, names[k])->Err_0),
        ),
    decreases names.len() - k,
{
    if k == names.len() - 1 {
        assert(names.drop_last() =~= names.take(k));
    } else {
        assert(names.drop_last().take(k) =~= names.take(k));
        assert(names.drop_last()[k] == names[k]);
        lemma_name_actions_stop(kv, fv, names.drop_last(), k);
    }
}

/// The number of additions, moves and deletions among the actions.
pub fn count_actions(actions: &Vec<UpdateAction>) -> (r: (usize, usize, usize))
    ensures
        r.0 == count_adds(action_views(actions@)),
        r.1 == count_moves(action_views(actions@)),
        r.2 == count_deletes(action_views(actions@)),
{
    let ghost av = action_views(actions@);
    let mut a: usize = 0;
    let mut m: usize = 0;
    let mut d: usize = 0;
    let mut i: usize = 0;
    while i < actions.len()
        invariant
            i <= actions.len(),
            av == action_views(actions@),
            a == count_adds(av.take(i as int)),
            m == count_moves(av.take(i as int)),
            d == count_deletes(av.take(i as int)),
            a + m + d <= i,
        decreases actions.len() - i,
    {
        proof {
            assert(av.take(i + 1).drop_last() =~= av.take(i as int));
            assert(av.take(i + 1).last() == actions@[i as int]@);
        }
        match &actions[i] {
            UpdateAction::Add { .. } => {
                a = a + 1;
            },
            UpdateAction::Move { .. } => {
                m = m + 1;
            },
            UpdateAction::Delete { .. } => {
                d = d + 1;
            },
        }
        i = i + 1;
    }
    assert(av.take(i as int) =~= av);
    (a, m, d)
}

} // verus!
