//! The tag database at work: its settings and its queue of writes, and what
//! a tag line does to a record.
#![allow(non_snake_case)]
use vstd::prelude::*;
use crate::db::{is_tag_insert, learned_all, tag_delete_query, Database, QueryView};
use crate::lists::{dedup, dedup_spec, dedup_views, lemma_dedup_views, lemma_dedup_views_items};
use crate::models::{Record, RecordView};
use crate::tagging::{
    classify_tags, is_removal, line_pieces, output_tags, removal_cut_defined, removal_target,
    requested_additions, requested_removals, split_tag_line, Settings,
};
use crate::text::{chars_of, contains_str, str_views};
use vstd::utf8::encode_utf8;

verus! {

/// The settings and the database, as the commands use them.
pub struct Taggenator {
    pub settings: Settings,
    pub database: Database,
}

/// The tags a line adds: the additions, the tags they bring, each written as
/// its synonym, and each once (its last occurrence kept).
pub open spec fn line_additions(settings: Settings, tags: Seq<Seq<char>>, existing: Seq<Seq<char>>) -> Seq<
    Seq<char>,
> {
    dedup_views(
        settings.with_derived(requested_additions(tags, existing), existing).map_values(
            |t: Seq<char>| settings.synonym_applied(t, existing),
        ),
    )
}

/// The tags of a line once its tagger commands gave these outputs.
pub open spec fn line_tags(
    settings: Settings,
    line: Seq<char>,
    outputs: Seq<Seq<char>>,
    existing: Seq<Seq<char>>,
) -> Seq<Seq<char>> {
    settings.untagged(line_pieces(line)) + output_tags(outputs, existing)
}

/// A record's tags after the removals and additions.
pub open spec fn tags_after(existing: Seq<Seq<char>>, adds: Seq<Seq<char>>, removes: Seq<Seq<char>>) -> Seq<
    Seq<char>,
> {
    existing.filter(|t: Seq<char>| !removes.contains(t)) + adds
}

/// The record with other tags and every other field as it was.
pub open spec fn with_tags(r: RecordView, tags: Seq<Seq<char>>) -> RecordView {
    RecordView { tags, ..r }
}

/// Whether every removal of a trailing `-` in the tags can be cut.
fn all_cuts_defined(tags: &Vec<String>) -> (b: bool)
    ensures
        b == forall|i: int| 0 <= i < tags@.len() ==> removal_cut_defined(#[trigger] tags@[i]@),
{
    let mut i: usize = 0;
    while i < tags.len()
        invariant
            i <= tags.len(),
            forall|j: int| 0 <= j < i ==> removal_cut_defined(#[trigger] tags@[j]@),
        decreases tags.len() - i,
    {
        let c = chars_of(tags[i].as_str());
        if c.len() > 0 && c[0] != '-' && c[c.len() - 1] == '-' {
            if !tags[i].as_str().is_char_boundary(c.len() - 1) {
                assert(!removal_cut_defined(tags@[i as int]@));
                return false;
            }
        }
        i = i + 1;
    }
    true
}

/// The strings of `v` that are not among `drop`.
fn without(v: &Vec<String>, drop: &Vec<String>) -> (r: Vec<String>)
    ensures
        str_views(r@) == str_views(v@).filter(|t: Seq<char>| !str_views(drop@).contains(t)),
{
    let ghost vv = str_views(v@);
    let ghost dv = str_views(drop@);
    let ghost pred = |t: Seq<char>| !dv.contains(t);
    let mut r: Vec<String> = Vec::new();
    let mut i: usize = 0;
    while i < v.len()
        invariant
            i <= v.len(),
            vv == str_views(v@),
            dv == str_views(drop@),
            pred == (|t: Seq<char>| !dv.contains(t)),
            str_views(r@) == vv.take(i as int).filter(pred),
        decreases v.len() - i,
    {
        proof {
            reveal(Seq::filter);
            assert(vv.take(i + 1).drop_last() =~= vv.take(i as int));
            assert(vv.take(i + 1).last() == v@[i as int]@);
        }
        if !contains_str(drop, v[i].as_str()) {
            let ghost prev = r@;
            r.push(v[i].clone());
            assert(str_views(r@) =~= str_views(prev).push(v@[i as int]@));
        }
        i = i + 1;
    }
    assert(vv.take(i as int) =~= vv);
    r
}

impl Taggenator {
    /// A tag database with these settings and this queue of writes.
    pub fn new(settings: Settings, database: Database) -> (t: Taggenator)
        ensures
            t.settings == settings,
            t.database == database,
    {
        Taggenator { settings, database }
    }

    /// Applies a tag line to a record, given the outputs of the line's
    /// tagger commands (those of `Settings::tagger_commands`, in order): the
    /// record loses the tags the line removes and gains those it adds, and
    /// the database is told the same, additions first. `false`, with
    /// nothing changed, where a removal with a trailing `-` cannot be cut.
    pub fn insert_tag_line(&mut self, record: &mut Record, line: String, outputs: &Vec<String>) -> (applied: bool)
        requires
            old(self).database.wf(),
            old(self).database.depth() < i32::MAX,
        ensures
            ({
                let existing = str_views(old(record).Tags@);
                let tags = line_tags(old(self).settings, line@, str_views(outputs@), existing);
                let adds = line_additions(old(self).settings, tags, existing);
                let removes = requested_removals(tags, existing);
                let start = old(self).database.written().len() as int;
                &&& applied == forall|i: int| 0 <= i < tags.len() ==> removal_cut_defined(#[trigger] tags[i])
                &&& !applied ==> *final(self) == *old(self) && *final(record) == *old(record)
                &&& applied ==> {
                    &&& final(record)@ == with_tags(old(record)@, tags_after(existing, adds, removes))
                    &&& final(self).settings == old(self).settings
                    &&& final(self).database.wf()
                    &&& final(self).database.written().len() == start + adds.len() + removes.len()
                    &&& final(self).database.written().take(start) == old(self).database.written()
                    &&& forall|i: int|
                        0 <= i < adds.len() ==> is_tag_insert(
                            #[trigger] final(self).database.written()[start + i],
                            old(record).RecordID,
                            adds[i],
                        )
                    &&& final(self).database.written().skip(start + adds.len()) == removes.map_values(
                        |t: Seq<char>| tag_delete_query(old(record).RecordID, t),
                    )
                    &&& final(self).database.delivered() == old(self).database.delivered()
                    &&& final(self).database.depth() == old(self).database.depth()
                    &&& learned_all(
                        old(self).database.recommender(),
                        final(self).database.recommender(),
                        adds,
                    )
                }
            }),
    {
        let ghost existing = str_views(record.Tags@);
        let pieces = split_tag_line(line.as_str());
        let tags = self.settings.apply_tagger_outputs(&pieces, outputs, &record.Tags);
        assert(str_views(tags@) == line_tags(self.settings, line@, str_views(outputs@), existing));
        if !all_cuts_defined(&tags) {
            proof {
                let tv = str_views(tags@);
                assert(!(forall|i: int| 0 <= i < tv.len() ==> removal_cut_defined(#[trigger] tv[i]))) by {
                    let k = choose|k: int| 0 <= k < tags@.len() && !removal_cut_defined(#[trigger] tags@[k]@);
                    assert(tv[k] == tags@[k]@);
                }
            }
            return false;
        }
        proof {
            let tv = str_views(tags@);
            assert forall|i: int| 0 <= i < tv.len() implies removal_cut_defined(#[trigger] tv[i]) by {
                assert(tv[i] == tags@[i]@);
            }
        }
        let changes = classify_tags(&tags, &record.Tags);
        let mut to_add = changes.to_add;
        let to_remove = changes.to_remove;
        self.settings.add_derived(&record.Tags, &mut to_add);
        self.settings.handle_synonyms(&record.Tags, &mut to_add);
        let ghost before_dedup = to_add@;
        dedup(&mut to_add);
        proof {
            lemma_dedup_views(before_dedup);
        }
        let kept = without(&record.Tags, &to_remove);
        let mut new_tags = kept;
        let mut i: usize = 0;
        let ghost kv = str_views(new_tags@);
        while i < to_add.len()
            invariant
                i <= to_add.len(),
                str_views(new_tags@) == kv + str_views(to_add@).take(i as int),
            decreases to_add.len() - i,
        {
            let ghost prev = new_tags@;
            new_tags.push(to_add[i].clone());
            assert(str_views(new_tags@) =~= str_views(prev).push(to_add@[i as int]@));
            assert(str_views(to_add@).take(i + 1) =~= str_views(to_add@).take(i as int).push(
                to_add@[i as int]@,
            ));
            i = i + 1;
        }
        assert(str_views(to_add@).take(i as int) =~= str_views(to_add@));
        record.Tags = new_tags;
        let ghost mid = self.database;
        self.database.add_tags(record.RecordID, &to_add);
        let ghost after_add = self.database;
        self.database.remove_tags(record.RecordID, &to_remove);
        proof {
            let start = mid.written().len() as int;
            let adds = str_views(to_add@);
            assert(self.database.written().take(start) =~= mid.written()) by {
                assert(self.database.written().take(after_add.written().len() as int) == after_add.written());
            }
            assert(self.database.written().skip(start + adds.len()) =~= str_views(to_remove@).map_values(
                |t: Seq<char>| tag_delete_query(record.RecordID, t),
            ));
            assert forall|i: int| 0 <= i < adds.len() implies is_tag_insert(
                #[trigger] self.database.written()[start + i],
                record.RecordID,
                adds[i],
            ) by {
                assert(self.database.written()[start + i] == after_add.written()[start + i]);
                assert(adds[i] == to_add@[i]@);
            }
        }
        true
    }
}


proof fn lemma_filter_no_duplicates(s: Seq<Seq<char>>, p: spec_fn(Seq<char>) -> bool)
    requires
        s.no_duplicates(),
    ensures
        s.filter(p).no_duplicates(),
    decreases s.len(),
{
    reveal(Seq::filter);
    broadcast use vstd::seq_lib::group_filter_ensures;
    if s.len() > 0 {
        let rest = s.drop_last();
        assert(rest.no_duplicates()) by {
            assert forall|i: int, j: int| 0 <= i < rest.len() && 0 <= j < rest.len() && i != j implies rest[i]
                != rest[j] by {
                assert(rest[i] == s[i] && rest[j] == s[j]);
            }
        }
        lemma_filter_no_duplicates(rest, p);
        if p(s.last()) {
            let f = rest.filter(p);
            assert(!f.contains(s.last())) by {
                if f.contains(s.last()) {
                    rest.lemma_filter_contains_rev(p, s.last());
                    let k = choose|k: int| 0 <= k < rest.len() && rest[k] == s.last();
                    assert(s[k] == s[s.len() - 1]);
                }
            }
            let g = f.push(s.last());
            assert forall|i: int, j: int| 0 <= i < g.len() && 0 <= j < g.len() && i != j implies g[i] != g[j] by {
                if i == g.len() - 1 {
                    assert(f.contains(g[j]) ==> g[j] != s.last());
                    assert(g[j] == f[j]);
                } else if j == g.len() - 1 {
                    assert(g[i] == f[i]);
                } else {
                    assert(g[i] == f[i] && g[j] == f[j]);
                }
            }
        }
    }
}

proof fn lemma_derived_extra_fresh(
    settings: Settings,
    upto: Seq<Seq<char>>,
    adds: Seq<Seq<char>>,
    existing: Seq<Seq<char>>,
)
    ensures
        forall|t: Seq<char>| settings.derived_extra(upto, adds, existing).contains(t) ==> !existing.contains(t),
    decreases upto.len(),
{
    broadcast use vstd::seq_lib::group_filter_ensures;
    if upto.len() > 0 {
        lemma_derived_extra_fresh(settings, upto.drop_last(), adds, existing);
        let a = settings.derived_extra(upto.drop_last(), adds, existing);
        let keep = |n: Seq<char>| !existing.contains(n) && !adds.contains(n);
        let b = settings.derived_of(upto.last()).filter(keep);
        assert forall|t: Seq<char>| (a + b).contains(t) implies !existing.contains(t) by {
            let k = choose|k: int| 0 <= k < (a + b).len() && (a + b)[k] == t;
            if k < a.len() {
                assert(a[k] == t);
            } else {
                assert(b[k - a.len()] == t);
                assert(keep(b[k - a.len()]));
            }
        }
    }
}

/// The tags a line adds are new to the record.
pub proof fn lemma_additions_are_new(settings: Settings, tags: Seq<Seq<char>>, existing: Seq<Seq<char>>)
    ensures
        forall|t: Seq<char>| line_additions(settings, tags, existing).contains(t) ==> !existing.contains(t),
        line_additions(settings, tags, existing).no_duplicates(),
{
    broadcast use vstd::seq_lib::group_filter_ensures;
    let reqs = requested_additions(tags, existing);
    let wd = settings.with_derived(reqs, existing);
    let mapped = wd.map_values(|t: Seq<char>| settings.synonym_applied(t, existing));
    lemma_derived_extra_fresh(settings, reqs, reqs, existing);
    assert forall|i: int| 0 <= i < wd.len() implies !existing.contains(#[trigger] wd[i]) by {
        if i < reqs.len() {
            assert(wd[i] == reqs[i]);
        } else {
            let ex = settings.derived_extra(reqs, reqs, existing);
            assert(wd[i] == ex[i - reqs.len()]);
            assert(ex.contains(ex[i - reqs.len()]));
        }
    }
    assert forall|i: int| 0 <= i < mapped.len() implies !existing.contains(#[trigger] mapped[i]) by {
        assert(!existing.contains(wd[i]));
    }
    lemma_dedup_views_items(mapped);
    assert forall|t: Seq<char>| line_additions(settings, tags, existing).contains(t) implies !existing.contains(t) by {
        assert(mapped.contains(t));
        let k = choose|k: int| 0 <= k < mapped.len() && mapped[k] == t;
        assert(!existing.contains(mapped[k]));
    }
}

/// After a tag line, a record whose tags were distinct still holds each tag
/// once; every tag the line removes is gone and every tag it adds is there.
pub proof fn lemma_tag_line_result(settings: Settings, tags: Seq<Seq<char>>, existing: Seq<Seq<char>>)
    requires
        existing.no_duplicates(),
    ensures
        ({
            let adds = line_additions(settings, tags, existing);
            let removes = requested_removals(tags, existing);
            let after = tags_after(existing, adds, removes);
            &&& after.no_duplicates()
            &&& forall|t: Seq<char>| removes.contains(t) ==> !after.contains(t)
            &&& forall|t: Seq<char>| adds.contains(t) ==> after.contains(t)
            &&& forall|t: Seq<char>|
                existing.contains(t) && !removes.contains(t) ==> after.contains(t)
        }),
{
    broadcast use vstd::seq_lib::group_filter_ensures;
    let adds = line_additions(settings, tags, existing);
    let removes = requested_removals(tags, existing);
    let pred = |t: Seq<char>| !removes.contains(t);
    let kept = existing.filter(pred);
    let after = kept + adds;
    lemma_additions_are_new(settings, tags, existing);
    lemma_filter_no_duplicates(existing, pred);
    assert forall|t: Seq<char>| kept.contains(t) implies existing.contains(t) && !removes.contains(t) by {
        existing.lemma_filter_contains_rev(pred, t);
        let k = choose|k: int| 0 <= k < kept.len() && kept[k] == t;
        assert(pred(kept[k]));
    }
    assert forall|i: int, j: int| 0 <= i < after.len() && 0 <= j < after.len() && i != j implies after[i]
        != after[j] by {
        if i < kept.len() && j < kept.len() {
            assert(after[i] == kept[i] && after[j] == kept[j]);
        } else if i >= kept.len() && j >= kept.len() {
            assert(after[i] == adds[i - kept.len()] && after[j] == adds[j - kept.len()]);
        } else if i < kept.len() {
            assert(kept.contains(after[i]));
            assert(adds.contains(adds[j - kept.len()]));
        } else {
            assert(kept.contains(after[j]));
            assert(adds.contains(adds[i - kept.len()]));
        }
    }
    let rf = |t: Seq<char>| is_removal(t) && existing.contains(removal_target(t));
    assert forall|t: Seq<char>| removes.contains(t) implies !after.contains(t) by {
        let k = choose|k: int| 0 <= k < removes.len() && removes[k] == t;
        let fl = tags.filter(rf);
        assert(removes[k] == removal_target(fl[k]));
        assert(rf(fl[k]));
        assert(existing.contains(t));
        if after.contains(t) {
            let m = choose|m: int| 0 <= m < after.len() && after[m] == t;
            if m < kept.len() {
                assert(kept.contains(kept[m]));
            } else {
                assert(adds.contains(adds[m - kept.len()]));
            }
        }
    }
    assert forall|t: Seq<char>| adds.contains(t) implies after.contains(t) by {
        let k = choose|k: int| 0 <= k < adds.len() && adds[k] == t;
        assert(after[kept.len() + k] == t);
    }
    assert forall|t: Seq<char>| existing.contains(t) && !removes.contains(t) implies after.contains(t) by {
        let k = choose|k: int| 0 <= k < existing.len() && existing[k] == t;
        assert(kept.contains(existing[k]));
        let m = choose|m: int| 0 <= m < kept.len() && kept[m] == t;
        assert(after[m] == t);
    }
}

} // verus!
