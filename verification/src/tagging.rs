//! The settings and the rules of a tag line: which tags a line adds to a
//! record and which it removes, with tagger commands, derived tags and
//! synonyms.
use vstd::prelude::*;
use crate::errors::MyCustomError;
use crate::paths::{extension_of, get_extension_from_filename};
use crate::patterns::{regex_compiles, regex_replace_first, regex_replaced_first};
use crate::text::{
    chars_of, contains_str, copy_strings, split_chars, split_on, str_eq, str_views, string_of, sub_chars, trim,
    trim_str,
};
use vstd::utf8::{decode_utf8, encode_utf8, encode_utf8_decode_utf8, is_char_boundary};

verus! {

/// What the settings file configures.
pub struct Settings {
    /// The extensions of the files the database knows.
    pub extensions: Vec<String>,
    /// Tags that bring further tags with them.
    pub derived: Vec<(String, Vec<String>)>,
    /// Tags that stand for a command whose output lines are tags; `%s` in the
    /// command is the record's location.
    pub tagger: Vec<(String, String)>,
    /// Tags that are written as another tag.
    pub synonyms: Vec<(String, String)>,
}

pub open spec fn pairs_view(v: Seq<(String, String)>) -> Seq<(Seq<char>, Seq<char>)> {
    v.map_values(|e: (String, String)| (e.0@, e.1@))
}

pub open spec fn lists_view(v: Seq<(String, Vec<String>)>) -> Seq<(Seq<char>, Seq<Seq<char>>)> {
    v.map_values(|e: (String, Vec<String>)| (e.0@, str_views(e.1@)))
}

/// The value of the first entry with this key.
pub open spec fn first_value<V>(entries: Seq<(Seq<char>, V)>, key: Seq<char>) -> Option<V>
    decreases entries.len(),
{
    if entries.len() == 0 {
        None
    } else if entries[0].0 == key {
        Some(entries[0].1)
    } else {
        first_value(entries.drop_first(), key)
    }
}

proof fn lemma_first_value_skip<V>(entries: Seq<(Seq<char>, V)>, key: Seq<char>, i: int)
    requires
        0 <= i < entries.len(),
        entries[i].0 != key,
    ensures
        first_value(entries.skip(i), key) == first_value(entries.skip(i + 1), key),
{
    assert(entries.skip(i).drop_first() =~= entries.skip(i + 1));
}

proof fn lemma_first_value_found<V>(entries: Seq<(Seq<char>, V)>, key: Seq<char>, i: int)
    requires
        0 <= i < entries.len(),
        entries[i].0 == key,
    ensures
        first_value(entries.skip(i), key) == Some(entries[i].1),
{
}

/// The text of the first pair with this key.
fn lookup_text(entries: &Vec<(String, String)>, key: &str) -> (r: Option<String>)
    ensures
        match r {
            Some(v) => first_value(pairs_view(entries@), key@) == Some(v@),
            None => first_value(pairs_view(entries@), key@) is None,
        },
{
    let ghost ev = pairs_view(entries@);
    let mut i: usize = 0;
    assert(ev.skip(0) =~= ev);
    while i < entries.len()
        invariant
            i <= entries.len(),
            ev == pairs_view(entries@),
            first_value(ev, key@) == first_value(ev.skip(i as int), key@),
        decreases entries.len() - i,
    {
        assert(ev[i as int] == (entries@[i as int].0@, entries@[i as int].1@));
        if str_eq(entries[i].0.as_str(), key) {
            proof {
                lemma_first_value_found(ev, key@, i as int);
            }
            return Some(entries[i].1.clone());
        }
        proof {
            lemma_first_value_skip(ev, key@, i as int);
        }
        i = i + 1;
    }
    assert(ev.skip(i as int) =~= Seq::<(Seq<char>, Seq<char>)>::empty());
    None
}

/// The list of the first entry with this key.
fn lookup_list(entries: &Vec<(String, Vec<String>)>, key: &str) -> (r: Option<Vec<String>>)
    ensures
        match r {
            Some(v) => first_value(lists_view(entries@), key@) == Some(str_views(v@)),
            None => first_value(lists_view(entries@), key@) is None,
        },
{
    let ghost ev = lists_view(entries@);
    let mut i: usize = 0;
    assert(ev.skip(0) =~= ev);
    while i < entries.len()
        invariant
            i <= entries.len(),
            ev == lists_view(entries@),
            first_value(ev, key@) == first_value(ev.skip(i as int), key@),
        decreases entries.len() - i,
    {
        assert(ev[i as int] == (entries@[i as int].0@, str_views(entries@[i as int].1@)));
        if str_eq(entries[i].0.as_str(), key) {
            proof {
                lemma_first_value_found(ev, key@, i as int);
            }
            return Some(copy_strings(&entries[i].1));
        }
        proof {
            lemma_first_value_skip(ev, key@, i as int);
        }
        i = i + 1;
    }
    assert(ev.skip(i as int) =~= Seq::<(Seq<char>, Seq<Seq<char>>)>::empty());
    None
}

/// A file is known when its extension is one of the configured ones.
pub open spec fn has_valid_extension(extensions: Seq<Seq<char>>, path: Seq<char>) -> bool {
    match extension_of(path) {
        Some(e) => extensions.contains(e),
        None => false,
    }
}

/// The pieces of a tag line: the text between commas, trimmed.
pub open spec fn line_pieces(line: Seq<char>) -> Seq<Seq<char>> {
    split_on(line, ',').map_values(|p: Seq<char>| trim(p))
}

/// Splits a tag line at commas and trims each piece.
pub fn split_tag_line(line: &str) -> (tags: Vec<String>)
    ensures
        str_views(tags@) == line_pieces(line@),
{
    let pieces = split_chars(line, ',');
    let ghost pv = str_views(pieces@);
    let mut out: Vec<String> = Vec::new();
    let mut i: usize = 0;
    while i < pieces.len()
        invariant
            i <= pieces.len(),
            pv == str_views(pieces@),
            pv == split_on(line@, ','),
            str_views(out@) == pv.take(i as int).map_values(|p: Seq<char>| trim(p)),
        decreases pieces.len() - i,
    {
        let t = trim_str(pieces[i].as_str());
        let ghost prev = out@;
        out.push(t);
        assert(pv[i as int] == pieces@[i as int]@);
        assert(str_views(out@) =~= str_views(prev).push(t@));
        assert(pv.take(i + 1) =~= pv.take(i as int).push(pv[i as int]));
        assert(str_views(out@) =~= pv.take(i + 1).map_values(|p: Seq<char>| trim(p)));
        i = i + 1;
    }
    assert(pv.take(i as int) =~= pv);
    out
}

impl Settings {
    /// The command configured for a tag.
    pub open spec fn tagger_of(&self, tag: Seq<char>) -> Option<Seq<char>> {
        first_value(pairs_view(self.tagger@), tag)
    }

    /// The synonym configured for a tag.
    pub open spec fn synonym_of(&self, tag: Seq<char>) -> Option<Seq<char>> {
        first_value(pairs_view(self.synonyms@), tag)
    }

    /// The tags a tag brings with it.
    pub open spec fn derived_of(&self, tag: Seq<char>) -> Seq<Seq<char>> {
        match first_value(lists_view(self.derived@), tag) {
            Some(l) => l,
            None => Seq::empty(),
        }
    }

    /// The settings file written when there is none.
    pub fn get_default() -> (text: &'static str)
        ensures
            text@ == DEFAULT_SETTINGS@,
    {
        DEFAULT_SETTINGS
    }

    /// Whether the path has one of the configured extensions.
    pub fn valid_extension(extensions: &Vec<String>, path: &str) -> (b: bool)
        ensures
            b == has_valid_extension(str_views(extensions@), path@),
    {
        match get_extension_from_filename(path) {
            Some(ext) => contains_str(extensions, ext.as_str()),
            None => false,
        }
    }
}

/// The placeholder in a tagger command for the record's location.
pub const LOCATION_PLACEHOLDER: &'static str = "%s";

/// The tags of a tagger's output: its lines, less those the record has.
pub open spec fn output_tags(outputs: Seq<Seq<char>>, existing: Seq<Seq<char>>) -> Seq<Seq<char>>
    decreases outputs.len(),
{
    if outputs.len() == 0 {
        Seq::empty()
    } else {
        output_tags(outputs.drop_last(), existing) + split_on(outputs.last(), '\n').filter(
            |p: Seq<char>| !existing.contains(p),
        )
    }
}

impl Settings {
    /// The tags that have a tagger command, in order.
    pub open spec fn tagged(&self, tags: Seq<Seq<char>>) -> Seq<Seq<char>> {
        tags.filter(|t: Seq<char>| self.tagger_of(t) is Some)
    }

    /// The tags that have no tagger command, in order.
    pub open spec fn untagged(&self, tags: Seq<Seq<char>>) -> Seq<Seq<char>> {
        tags.filter(|t: Seq<char>| self.tagger_of(t) is None)
    }

    /// The command run for a tag: its tagger command with the first `%s`
    /// replaced by the location.
    pub open spec fn tagger_command(&self, tag: Seq<char>, location: Seq<char>) -> Seq<char> {
        match self.tagger_of(tag) {
            Some(c) => regex_replaced_first(LOCATION_PLACEHOLDER@, c, location),
            None => Seq::empty(),
        }
    }

    /// The commands to run for the tags of a line, one for each tag that has
    /// a tagger, in the order of the tags. `ParseError` only where such a tag
    /// exists and the placeholder pattern does not compile.
    pub fn tagger_commands(&self, tags: &Vec<String>, location: &str) -> (r: Result<
        Vec<String>,
        MyCustomError,
    >)
        ensures
            match r {
                Ok(cmds) => str_views(cmds@) == self.tagged(str_views(tags@)).map_values(
                    |t: Seq<char>| self.tagger_command(t, location@),
                ),
                Err(e) => e is ParseError,
            },
            r is Err <==> (self.tagged(str_views(tags@)).len() > 0 && !regex_compiles(
                LOCATION_PLACEHOLDER@,
            )),
    {
        let ghost tv = str_views(tags@);
        let ghost pred = |t: Seq<char>| self.tagger_of(t) is Some;
        let ghost f = |t: Seq<char>| self.tagger_command(t, location@);
        let mut cmds: Vec<String> = Vec::new();
        let mut i: usize = 0;
        while i < tags.len()
            invariant
                i <= tags.len(),
                tv == str_views(tags@),
                pred == (|t: Seq<char>| self.tagger_of(t) is Some),
                f == (|t: Seq<char>| self.tagger_command(t, location@)),
                str_views(cmds@) == tv.take(i as int).filter(pred).map_values(f),
                tv.take(i as int).filter(pred).len() > 0 ==> regex_compiles(LOCATION_PLACEHOLDER@),
            decreases tags.len() - i,
        {
            proof {
                reveal(Seq::filter);
                assert(tv.take(i + 1).drop_last() =~= tv.take(i as int));
                assert(tv.take(i + 1).last() == tags@[i as int]@);
            }
            match lookup_text(&self.tagger, tags[i].as_str()) {
                Some(command) => {
                    match regex_replace_first(LOCATION_PLACEHOLDER, command.as_str(), location) {
                        Some(c) => {
                            let ghost prev = cmds@;
                            cmds.push(c);
                            assert(str_views(cmds@) =~= str_views(prev).push(c@));
                            assert(tv.take(i + 1).filter(pred) == tv.take(i as int).filter(
                                pred,
                            ).push(tv[i as int]));
                            assert(str_views(cmds@) =~= tv.take(i + 1).filter(pred).map_values(f));
                        },
                        None => {
                            proof {
                                assert(tv.take(i + 1).filter(pred).len() > 0);
                                assert(tv.take(i + 1) =~= tv.subrange(0, i + 1));
                                lemma_filter_prefix_len(tv, pred, i + 1);
                            }
                            return Err(MyCustomError::ParseError);
                        },
                    }
                },
                None => {},
            }
            i = i + 1;
        }
        assert(tv.take(i as int) =~= tv);
        Ok(cmds)
    }

    /// The tags of a line once the tagger commands have run: the tags
    /// without a tagger, then the new lines of each command's output in
    /// turn. `outputs` are the outputs of the commands of `tagger_commands`,
    /// in their order.
    pub fn apply_tagger_outputs(&self, tags: &Vec<String>, outputs: &Vec<String>, existing: &Vec<String>) -> (r: Vec<
        String,
    >)
        ensures
            str_views(r@) == self.untagged(str_views(tags@)) + output_tags(
                str_views(outputs@),
                str_views(existing@),
            ),
    {
        let ghost tv = str_views(tags@);
        let ghost pred = |t: Seq<char>| self.tagger_of(t) is None;
        let mut r: Vec<String> = Vec::new();
        let mut i: usize = 0;
        while i < tags.len()
            invariant
                i <= tags.len(),
                tv == str_views(tags@),
                pred == (|t: Seq<char>| self.tagger_of(t) is None),
                str_views(r@) == tv.take(i as int).filter(pred),
            decreases tags.len() - i,
        {
            proof {
                reveal(Seq::filter);
                assert(tv.take(i + 1).drop_last() =~= tv.take(i as int));
                assert(tv.take(i + 1).last() == tags@[i as int]@);
            }
            if lookup_text(&self.tagger, tags[i].as_str()).is_none() {
                let ghost prev = r@;
                r.push(tags[i].clone());
                assert(str_views(r@) =~= str_views(prev).push(tags@[i as int]@));
            }
            i = i + 1;
        }
        assert(tv.take(i as int) =~= tv);
        let ghost ov = str_views(outputs@);
        let ghost ev = str_views(existing@);
        let ghost untagged = str_views(r@);
        let mut j: usize = 0;
        assert(ov.take(0) =~= Seq::<Seq<char>>::empty());
        assert(untagged + output_tags(ov.take(0), ev) =~= untagged);
        while j < outputs.len()
            invariant
                j <= outputs.len(),
                ov == str_views(outputs@),
                ev == str_views(existing@),
                str_views(r@) == untagged + output_tags(ov.take(j as int), ev),
            decreases outputs.len() - j,
        {
            let lines = split_chars(outputs[j].as_str(), '\n');
            let ghost lv = str_views(lines@);
            let ghost keep = |p: Seq<char>| !ev.contains(p);
            let ghost base = str_views(r@);
            let mut k: usize = 0;
            assert(base + lv.take(0).filter(keep) =~= base) by {
                reveal(Seq::filter);
            }
            while k < lines.len()
                invariant
                    k <= lines.len(),
                    lv == str_views(lines@),
                    ev == str_views(existing@),
                    keep == (|p: Seq<char>| !ev.contains(p)),
                    str_views(r@) == base + lv.take(k as int).filter(keep),
                decreases lines.len() - k,
            {
                proof {
                    reveal(Seq::filter);
                    assert(lv.take(k + 1).drop_last() =~= lv.take(k as int));
                    assert(lv.take(k + 1).last() == lines@[k as int]@);
                }
                if !contains_str(existing, lines[k].as_str()) {
                    let ghost prev = r@;
                    r.push(lines[k].clone());
                    assert(str_views(r@) =~= str_views(prev).push(lines@[k as int]@));
                    assert(str_views(r@) =~= base + lv.take(k + 1).filter(keep));
                }
                k = k + 1;
            }
            proof {
                assert(lv.take(k as int) =~= lv);
                assert(ov.take(j + 1).drop_last() =~= ov.take(j as int));
                assert(ov.take(j + 1).last() == outputs@[j as int]@);
                assert(str_views(r@) =~= untagged + output_tags(ov.take(j + 1), ev));
            }
            j = j + 1;
        }
        assert(ov.take(j as int) =~= ov);
        r
    }
}

/// A tag with `-` in front or at the end asks for a tag to be removed.
pub open spec fn is_removal(t: Seq<char>) -> bool {
    t.len() > 0 && (t[0] == '-' || t.last() == '-')
}

/// The tag a removal names: without its leading `-`; or, for a trailing
/// `-`, the text up to as many bytes as the tag has characters, less one.
pub open spec fn removal_target(t: Seq<char>) -> Seq<char> {
    if t[0] == '-' {
        t.drop_first()
    } else {
        decode_utf8(encode_utf8(t).take(t.len() - 1))
    }
}

/// A removal with a trailing `-` can be cut only where that byte count
/// falls on a character boundary (always so for ASCII tags).
pub open spec fn removal_cut_defined(t: Seq<char>) -> bool {
    (t.len() > 0 && t[0] != '-' && t.last() == '-') ==> is_char_boundary(
        encode_utf8(t),
        t.len() - 1,
    )
}

/// The tags of a line that add a tag the record lacks.
pub open spec fn requested_additions(tags: Seq<Seq<char>>, existing: Seq<Seq<char>>) -> Seq<Seq<char>> {
    tags.filter(|t: Seq<char>| t.len() > 0 && !is_removal(t) && !existing.contains(t))
}

/// The tags that a line removes from the record, in the order of the line.
pub open spec fn requested_removals(tags: Seq<Seq<char>>, existing: Seq<Seq<char>>) -> Seq<Seq<char>> {
    tags.filter(|t: Seq<char>| is_removal(t) && existing.contains(removal_target(t))).map_values(
        |t: Seq<char>| removal_target(t),
    )
}

/// The tag named by a removal.
fn removal_target_of(tag: &str) -> (r: String)
    requires
        is_removal(tag@),
        removal_cut_defined(tag@),
    ensures
        r@ == removal_target(tag@),
{
    let c = chars_of(tag);
    if c[0] == '-' {
        string_of(sub_chars(&c, 1, c.len()).as_slice())
    } else {
        let n: usize = c.len() - 1;
        proof {
            broadcast use encode_utf8_decode_utf8;
        }
        let (head, _rest) = tag.split_at(n);
        let r = head.to_owned();
        proof {
            broadcast use encode_utf8_decode_utf8;
            assert(encode_utf8(head@) =~= encode_utf8(tag@).take(n as int));
            assert(decode_utf8(encode_utf8(head@)) == head@);
        }
        r
    }
}

/// What a line asks of a record.
pub struct TagChanges {
    pub to_add: Vec<String>,
    pub to_remove: Vec<String>,
}

/// Sorts the tags of a line into additions of tags the record lacks and
/// removals of tags it has; empty tags are skipped.
pub fn classify_tags(tags: &Vec<String>, existing: &Vec<String>) -> (c: TagChanges)
    requires
        forall|i: int| 0 <= i < tags@.len() ==> removal_cut_defined(#[trigger] tags@[i]@),
    ensures
        str_views(c.to_add@) == requested_additions(str_views(tags@), str_views(existing@)),
        str_views(c.to_remove@) == requested_removals(str_views(tags@), str_views(existing@)),
{
    let ghost tv = str_views(tags@);
    let ghost ev = str_views(existing@);
    let ghost padd = |t: Seq<char>| t.len() > 0 && !is_removal(t) && !ev.contains(t);
    let ghost prem = |t: Seq<char>| is_removal(t) && ev.contains(removal_target(t));
    let ghost tgt = |t: Seq<char>| removal_target(t);
    let mut to_add: Vec<String> = Vec::new();
    let mut to_remove: Vec<String> = Vec::new();
    let mut i: usize = 0;
    while i < tags.len()
        invariant
            i <= tags.len(),
            tv == str_views(tags@),
            ev == str_views(existing@),
            forall|j: int| 0 <= j < tags@.len() ==> removal_cut_defined(#[trigger] tags@[j]@),
            padd == (|t: Seq<char>| t.len() > 0 && !is_removal(t) && !ev.contains(t)),
            prem == (|t: Seq<char>| is_removal(t) && ev.contains(removal_target(t))),
            tgt == (|t: Seq<char>| removal_target(t)),
            str_views(to_add@) == tv.take(i as int).filter(padd),
            str_views(to_remove@) == tv.take(i as int).filter(prem).map_values(tgt),
        decreases tags.len() - i,
    {
        proof {
            reveal(Seq::filter);
            assert(tv.take(i + 1).drop_last() =~= tv.take(i as int));
            assert(tv.take(i + 1).last() == tags@[i as int]@);
        }
        let tag = &tags[i];
        let c = chars_of(tag.as_str());
        if c.len() == 0 {
        } else if c[0] == '-' || c[c.len() - 1] == '-' {
            let target = removal_target_of(tag.as_str());
            if contains_str(existing, target.as_str()) {
                let ghost prev = to_remove@;
                to_remove.push(target);
                assert(str_views(to_remove@) =~= str_views(prev).push(target@));
                assert(tv.take(i + 1).filter(prem) == tv.take(i as int).filter(prem).push(tv[i as int]));
                assert(str_views(to_remove@) =~= tv.take(i + 1).filter(prem).map_values(tgt));
            }
        } else if !contains_str(existing, tag.as_str()) {
            let ghost prev = to_add@;
            to_add.push(tag.clone());
            assert(str_views(to_add@) =~= str_views(prev).push(tag@));
        }
        i = i + 1;
    }
    assert(tv.take(i as int) =~= tv);
    TagChanges { to_add, to_remove }
}

impl Settings {
    /// The tags brought by the tags of `upto`, each at most once per tag that
    /// brings it, less those the record has or `adds` already holds.
    pub open spec fn derived_extra(
        &self,
        upto: Seq<Seq<char>>,
        adds: Seq<Seq<char>>,
        existing: Seq<Seq<char>>,
    ) -> Seq<Seq<char>>
        decreases upto.len(),
    {
        if upto.len() == 0 {
            Seq::empty()
        } else {
            self.derived_extra(upto.drop_last(), adds, existing) + self.derived_of(upto.last()).filter(
                |n: Seq<char>| !existing.contains(n) && !adds.contains(n),
            )
        }
    }

    /// The additions followed by the tags they bring.
    pub open spec fn with_derived(&self, adds: Seq<Seq<char>>, existing: Seq<Seq<char>>) -> Seq<Seq<char>> {
        adds + self.derived_extra(adds, adds, existing)
    }

    /// A tag as it is written: its synonym, unless the record has that.
    pub open spec fn synonym_applied(&self, t: Seq<char>, existing: Seq<Seq<char>>) -> Seq<char> {
        match self.synonym_of(t) {
            Some(s) => if existing.contains(s) {
                t
            } else {
                s
            },
            None => t,
        }
    }

    /// Appends the tags that the tags bring with them.
    pub fn add_derived(&self, existing: &Vec<String>, tags: &mut Vec<String>)
        ensures
            str_views(final(tags)@) == self.with_derived(str_views(old(tags)@), str_views(existing@)),
    {
        let ghost tv = str_views(tags@);
        let ghost ev = str_views(existing@);
        let mut extra: Vec<String> = Vec::new();
        let mut i: usize = 0;
        assert(tv.take(0) =~= Seq::<Seq<char>>::empty());
        while i < tags.len()
            invariant
                i <= tags.len(),
                tv == str_views(tags@),
                ev == str_views(existing@),
                str_views(extra@) == self.derived_extra(tv.take(i as int), tv, ev),
            decreases tags.len() - i,
        {
            let ghost base = str_views(extra@);
            let ghost keep = |n: Seq<char>| !ev.contains(n) && !tv.contains(n);
            proof {
                assert(tv.take(i + 1).drop_last() =~= tv.take(i as int));
                assert(tv.take(i + 1).last() == tags@[i as int]@);
            }
            match lookup_list(&self.derived, tags[i].as_str()) {
                Some(matches) => {
                    let ghost mv = str_views(matches@);
                    let mut k: usize = 0;
                    assert(base + mv.take(0).filter(keep) =~= base) by {
                        reveal(Seq::filter);
                    }
                    while k < matches.len()
                        invariant
                            k <= matches.len(),
                            mv == str_views(matches@),
                            tv == str_views(tags@),
                            ev == str_views(existing@),
                            keep == (|n: Seq<char>| !ev.contains(n) && !tv.contains(n)),
                            str_views(extra@) == base + mv.take(k as int).filter(keep),
                        decreases matches.len() - k,
                    {
                        proof {
                            reveal(Seq::filter);
                            assert(mv.take(k + 1).drop_last() =~= mv.take(k as int));
                            assert(mv.take(k + 1).last() == matches@[k as int]@);
                        }
                        if !contains_str(existing, matches[k].as_str()) && !contains_str(
                            tags,
                            matches[k].as_str(),
                        ) {
                            let ghost prev = extra@;
                            extra.push(matches[k].clone());
                            assert(str_views(extra@) =~= str_views(prev).push(matches@[k as int]@));
                            assert(str_views(extra@) =~= base + mv.take(k + 1).filter(keep));
                        }
                        k = k + 1;
                    }
                    assert(mv.take(k as int) =~= mv);
                },
                None => {
                    assert(self.derived_of(tv[i as int]) =~= Seq::<Seq<char>>::empty());
                    assert(Seq::<Seq<char>>::empty().filter(keep) =~= Seq::<Seq<char>>::empty()) by {
                        reveal(Seq::filter);
                    }
                },
            }
            assert(str_views(extra@) =~= self.derived_extra(tv.take(i + 1), tv, ev));
            i = i + 1;
        }
        assert(tv.take(i as int) =~= tv);
        let ghost old_tags = tags@;
        let ghost old_extra = extra@;
        tags.append(&mut extra);
        assert(str_views(tags@) =~= str_views(old_tags) + str_views(old_extra));
    }

    /// Writes each tag as its synonym, unless the record has the synonym.
    pub fn handle_synonyms(&self, existing: &Vec<String>, tags: &mut Vec<String>)
        ensures
            str_views(final(tags)@) == str_views(old(tags)@).map_values(
                |t: Seq<char>| self.synonym_applied(t, str_views(existing@)),
            ),
    {
        let ghost tv = str_views(tags@);
        let ghost ev = str_views(existing@);
        let ghost f = |t: Seq<char>| self.synonym_applied(t, ev);
        let mut out: Vec<String> = Vec::new();
        let mut i: usize = 0;
        while i < tags.len()
            invariant
                i <= tags.len(),
                tv == str_views(tags@),
                ev == str_views(existing@),
                f == (|t: Seq<char>| self.synonym_applied(t, ev)),
                str_views(out@) == tv.take(i as int).map_values(f),
            decreases tags.len() - i,
        {
            let ghost prev = out@;
            let written = match lookup_text(&self.synonyms, tags[i].as_str()) {
                Some(syn) => if contains_str(existing, syn.as_str()) {
                    tags[i].clone()
                } else {
                    syn
                },
                None => tags[i].clone(),
            };
            out.push(written);
            assert(tv[i as int] == tags@[i as int]@);
            assert(str_views(out@) =~= str_views(prev).push(written@));
            assert(str_views(out@) =~= tv.take(i + 1).map_values(f));
            i = i + 1;
        }
        assert(tv.take(i as int) =~= tv);
        *tags = out;
    }
}

/// Filtering a longer prefix keeps at least what a shorter one kept.
proof fn lemma_filter_prefix_len(s: Seq<Seq<char>>, pred: spec_fn(Seq<char>) -> bool, k: int)
    requires
        0 <= k <= s.len(),
    ensures
        s.take(k).filter(pred).len() <= s.filter(pred).len(),
    decreases s.len() - k,
{
    reveal(Seq::filter);
    if k < s.len() {
        lemma_filter_prefix_len(s, pred, k + 1);
        assert(s.take(k + 1).drop_last() =~= s.take(k));
    } else {
        assert(s.take(k) =~= s);
    }
}

/// Whether `toml::from_str` reads a text as a TOML value.
pub uninterp spec fn toml_readable(text: Seq<char>) -> bool;

/// Calls `toml::from_str` for a `toml::Value` and reports whether it
/// succeeded. The result is named by `toml_readable`, a function of the text
/// alone.
#[verifier::external_body]
fn toml_parses(text: &str) -> (b: bool)
    ensures
        b == toml_readable(text@),
{
    toml::from_str::<toml::Value>(text).is_ok()
}

impl Settings {
    /// Reads the text of a settings file. Text that is no TOML makes the
    /// program stop, so it is left out here: `parse_checked` tests it first.
    pub fn parse(text: &str) -> (r: Result<(), MyCustomError>)
        requires
            toml_readable(text@),
        ensures
            r is Ok,
    {
        if toml_parses(text) {
            Ok(())
        } else {
            Err(MyCustomError::ParseError)
        }
    }

    /// Tests whether the text is TOML and reads it only then: `None` for text
    /// that is no TOML, on which `parse` would stop the program.
    pub fn parse_checked(text: &str) -> (r: Option<Result<(), MyCustomError>>)
        ensures
            r is None <==> !toml_readable(text@),
            r matches Some(inner) ==> inner is Ok,
    {
        if toml_parses(text) {
            Some(Self::parse(text))
        } else {
            None
        }
    }
}

/// The settings file written when there is none: every table present and
/// empty but for the common extensions.
pub const DEFAULT_SETTINGS: &'static str = "# The extensions of the files to keep track of.
extensions = [\"mp4\", \"mkv\", \"avi\", \"webm\", \"jpg\", \"jpeg\", \"png\", \"gif\", \"cbz\", \"zip\"]

# A tag on the left brings the tags on the right with it.
[derived]

# A tag on the left runs the command on the right (%s is the file's location);
# each line the command prints is a tag.
[tagger]

# A tag on the left is written as the tag on the right.
[synonyms]
";

} // verus!
