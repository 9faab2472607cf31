//! Recommending tags for a record from the words of its location.
use vstd::prelude::*;
use crate::patterns::{regex_compiles, regex_is_valid, regex_replace_all, regex_replaced_all};
use crate::text::{
    lemma_push_contains, lemma_concat_contains, chars_of, concat_all, contains_str, lowercase, split_chars, split_on, str_views, string_of,
    to_lowercase,
};

verus! {

/// The characters that keys and words keep: letters, digits and spaces.
pub const NOT_WORD_PATTERN: &'static str = "[^A-Za-z0-9 ]";

/// Knows every tag under a key made of the letters and digits of its last
/// part, and recommends the tags whose key is made of consecutive words of a
/// location.
#[derive(Debug)]
pub struct TagRecommender {
    mapping: Vec<(String, Vec<String>)>,
    pattern: String,
}

/// The characters after the last `:`, or all of them when there is none.
pub open spec fn after_last_colon(s: Seq<char>) -> Seq<char>
    decreases s.len(),
{
    if s.len() == 0 {
        s
    } else if s.last() == ':' {
        Seq::<char>::empty()
    } else {
        after_last_colon(s.drop_last()).push(s.last())
    }
}

pub open spec fn without_spaces(s: Seq<char>) -> Seq<char> {
    s.filter(|c: char| c != ' ')
}

/// The key a tag is known under: of its part after the last `:` (all of it
/// when there is no `:`), only letters and digits, in lower case.
pub open spec fn tag_key(pattern: Seq<char>, tag: Seq<char>) -> Seq<char> {
    if tag.contains(':') {
        without_spaces(
            lowercase(regex_replaced_all(pattern, lowercase(after_last_colon(tag)), Seq::empty())),
        )
    } else {
        without_spaces(lowercase(regex_replaced_all(pattern, tag, Seq::empty())))
    }
}

/// What is recommended for a tag: the tag itself, or its lower case when it
/// has no `:`.
pub open spec fn tag_value(tag: Seq<char>) -> Seq<char> {
    if tag.contains(':') {
        tag
    } else {
        lowercase(tag)
    }
}

pub open spec fn entries_lookup(
    entries: Seq<(Seq<char>, Seq<Seq<char>>)>,
    key: Seq<char>,
) -> Set<Seq<char>> {
    Set::new(
        |t: Seq<char>|
            exists|i: int|
                0 <= i < entries.len() && #[trigger] entries[i].0 == key && entries[i].1.contains(t),
    )
}

pub open spec fn entry_views(m: Seq<(String, Vec<String>)>) -> Seq<(Seq<char>, Seq<Seq<char>>)> {
    m.map_values(|e: (String, Vec<String>)| (e.0@, str_views(e.1@)))
}

/// The words of a location: its lower case with every character other than
/// letters, digits and spaces made a space, split at spaces.
pub open spec fn location_words(pattern: Seq<char>, location: Seq<char>) -> Seq<Seq<char>> {
    split_on(regex_replaced_all(pattern, lowercase(location), seq![' ']), ' ').filter(
        |w: Seq<char>| w.len() > 0,
    )
}

/// Runs of one to five consecutive words.
pub open spec fn is_window(items: Seq<Seq<char>>, s: int, e: int) -> bool {
    0 <= s < e <= items.len() && e - s <= 5
}

pub open spec fn window_key(items: Seq<Seq<char>>, s: int, e: int) -> Seq<char> {
    concat_all(items.subrange(s, e))
}

impl TagRecommender {
    /// The pattern of the characters that keys drop.
    pub closed spec fn pattern(&self) -> Seq<char> {
        self.pattern@
    }

    /// The tags known under a key.
    pub closed spec fn lookup(&self, key: Seq<char>) -> Set<Seq<char>> {
        entries_lookup(entry_views(self.mapping@), key)
    }

    pub closed spec fn wf(&self) -> bool {
        regex_compiles(self.pattern@) && self.pattern@ == NOT_WORD_PATTERN@
    }

    /// Whether the tag `m` is recommended for these words: some run of them
    /// is a key that `m` is known under, and `m` is not among `existing`.
    pub open spec fn suggests(&self, items: Seq<Seq<char>>, existing: Seq<Seq<char>>, m: Seq<char>) -> bool {
        &&& exists|s: int, e: int|
            is_window(items, s, e) && #[trigger] self.lookup(window_key(items, s, e)).contains(m)
        &&& !existing.contains(m)
    }

    /// A recommender that knows the given tags. `None` only where the
    /// pattern of word characters does not compile.
    pub fn new(tags: &Vec<String>) -> (r: Option<TagRecommender>)
        ensures
            match r {
                Some(rec) => rec.wf() && forall|key: Seq<char>|
                    #![trigger rec.lookup(key)]
                    rec.lookup(key) == Set::new(
                        |t: Seq<char>|
                            exists|i: int|
                                0 <= i < tags@.len() && tag_key(NOT_WORD_PATTERN@, #[trigger] tags@[i]@)
                                    == key && t == tag_value(tags@[i]@),
                    ),
                None => !regex_compiles(NOT_WORD_PATTERN@),
            },
    {
        let pattern = string_of(chars_of(NOT_WORD_PATTERN).as_slice());
        if !regex_is_valid(pattern.as_str()) {
            return None;
        }
        let mut rv = TagRecommender { mapping: Vec::new(), pattern: pattern };
        assert forall|key: Seq<char>| rv.lookup(key) =~= Set::empty() by {}
        rv.add_tags(tags);
        Some(rv)
    }

    /// Makes all the given tags known.
    pub fn add_tags(&mut self, tags: &Vec<String>)
        requires
            old(self).wf(),
        ensures
            final(self).wf(),
            final(self).pattern() == old(self).pattern(),
            forall|key: Seq<char>|
                #![trigger final(self).lookup(key)]
                final(self).lookup(key) == old(self).lookup(key).union(
                    Set::new(
                        |t: Seq<char>|
                            exists|i: int|
                                0 <= i < tags@.len() && tag_key(old(self).pattern(), #[trigger] tags@[i]@)
                                    == key && t == tag_value(tags@[i]@),
                    ),
                ),
    {
        let ghost orig = *self;
        let mut i: usize = 0;
        while i < tags.len()
            invariant
                i <= tags.len(),
                self.wf(),
                self.pattern() == orig.pattern(),
                forall|key: Seq<char>|
                    #![trigger self.lookup(key)]
                    self.lookup(key) == orig.lookup(key).union(
                        Set::new(
                            |t: Seq<char>|
                                exists|j: int|
                                    0 <= j < i && tag_key(orig.pattern(), #[trigger] tags@[j]@) == key
                                        && t == tag_value(tags@[j]@),
                        ),
                    ),
            decreases tags.len() - i,
        {
            let ghost before = *self;
            self.add_tag(&tags[i]);
            assert forall|key: Seq<char>| #[trigger]
                self.lookup(key) =~= orig.lookup(key).union(
                    Set::new(
                        |t: Seq<char>|
                            exists|j: int|
                                0 <= j < i + 1 && tag_key(orig.pattern(), #[trigger] tags@[j]@) == key
                                    && t == tag_value(tags@[j]@),
                    ),
                ) by {
                assert(before.lookup(key) == orig.lookup(key).union(
                    Set::new(
                        |t: Seq<char>|
                            exists|j: int|
                                0 <= j < i && tag_key(orig.pattern(), #[trigger] tags@[j]@) == key
                                    && t == tag_value(tags@[j]@),
                    ),
                ));
            }
            i = i + 1;
        }
    }

    /// The key that a tag is known under.
    fn key_of(&self, tag: &str) -> (k: String)
        requires
            self.wf(),
        ensures
            k@ == tag_key(self.pattern(), tag@),
    {
        let c = chars_of(tag);
        let mut last: usize = c.len();
        let mut found = false;
        let mut i: usize = 0;
        // the position after the last ':'
        while i < c.len()
            invariant
                i <= c.len(),
                found == c@.take(i as int).contains(':'),
                found ==> last <= i && c@.subrange(last as int, i as int) == after_last_colon(
                    c@.take(i as int),
                ),
                !found ==> c@.take(i as int) == after_last_colon(c@.take(i as int)),
            decreases c.len() - i,
        {
            proof {
                assert(c@.take(i + 1).drop_last() =~= c@.take(i as int));
                assert(c@.take(i + 1).last() == c@[i as int]);
            }
            if c[i] == ':' {
                found = true;
                last = i + 1;
                assert(c@.take(i + 1)[i as int] == ':');
                assert(c@.subrange(last as int, i + 1) =~= Seq::<char>::empty());
            } else {
                proof {
                    if found {
                        assert(c@.subrange(last as int, i + 1) =~= c@.subrange(
                            last as int,
                            i as int,
                        ).push(c@[i as int]));
                    } else {
                        assert(c@.take(i + 1) =~= c@.take(i as int).push(c@[i as int]));
                    }
                    if c@.take(i + 1).contains(':') {
                        let k = choose|k: int| 0 <= k < i + 1 && #[trigger] c@.take(i + 1)[k] == ':';
                        assert(c@.take(i as int)[k] == ':');
                    }
                }
                assert(found ==> c@.take(i + 1).contains(':')) by {
                    if found {
                        let k = choose|k: int| 0 <= k < i && #[trigger] c@.take(i as int)[k] == ':';
                        assert(c@.take(i + 1)[k] == ':');
                    }
                }
            }
            i = i + 1;
        }
        assert(c@.take(i as int) =~= c@);
        let lowered = if found {
            let tail = string_of(crate::text::sub_chars(&c, last, c.len()).as_slice());
            let lt = to_lowercase(tail.as_str());
            let stripped = regex_replace_all(self.pattern.as_str(), lt.as_str(), "");
            to_lowercase(stripped.as_str())
        } else {
            let stripped = regex_replace_all(self.pattern.as_str(), tag, "");
            to_lowercase(stripped.as_str())
        };
        proof {
            reveal_strlit("");
            assert(""@ =~= Seq::<char>::empty());
        }
        remove_spaces(lowered.as_str())
    }

    /// Makes one tag known.
    pub fn add_tag(&mut self, tag: &String)
        requires
            old(self).wf(),
        ensures
            final(self).wf(),
            final(self).pattern() == old(self).pattern(),
            forall|key: Seq<char>|
                #![trigger final(self).lookup(key)]
                final(self).lookup(key) == (if key == tag_key(old(self).pattern(), tag@) {
                    old(self).lookup(key).insert(tag_value(tag@))
                } else {
                    old(self).lookup(key)
                }),
    {
        let key = self.key_of(tag.as_str());
        let has_colon = crate::text::str_contains(tag.as_str(), ":");
        let value = if has_colon {
            tag.clone()
        } else {
            to_lowercase(tag.as_str())
        };
        proof {
            reveal_strlit(":");
            assert(has_colon == tag@.contains(':')) by {
                if has_colon {
                    let k = choose|k: int| crate::text::occurs_at(tag@, ":"@, k);
                    assert(tag@.subrange(k, k + 1)[0] == tag@[k]);
                }
                if tag@.contains(':') {
                    let k = choose|k: int| 0 <= k < tag@.len() && #[trigger] tag@[k] == ':';
                    assert(tag@.subrange(k, k + 1) =~= ":"@);
                    assert(crate::text::occurs_at(tag@, ":"@, k));
                }
            }
            assert(value@ == tag_value(tag@));
        }
        let ghost ev = entry_views(self.mapping@);
        let ghost kv = key@;
        let ghost vv = value@;
        let mut i: usize = 0;
        while i < self.mapping.len()
            invariant
                i <= self.mapping.len(),
                ev == entry_views(self.mapping@),
                self.mapping@ == old(self).mapping@,
                self.pattern == old(self).pattern,
                self.wf(),
                kv == key@,
                vv == value@,
                kv == tag_key(old(self).pattern(), tag@),
                vv == tag_value(tag@),
                forall|j: int| 0 <= j < i ==> #[trigger] ev[j].0 != kv,
            decreases self.mapping.len() - i,
        {
            assert(ev[i as int].0 == self.mapping@[i as int].0@);
            if crate::text::str_eq(self.mapping[i].0.as_str(), key.as_str()) {
                let ghost ith = self.mapping@[i as int];
                assert(ith.0@ == kv);
                let entry = self.mapping.remove(i);
                assert(entry == ith);
                let ek = entry.0;
                let mut evals = entry.1;
                assert(ek@ == kv);
                let ghost old_raw = evals@;
                let ghost old_vals = str_views(evals@);
                assert(old_vals == ev[i as int].1);
                if !contains_str(&evals, value.as_str()) {
                    evals.push(value);
                    assert(evals@ == old_raw.push(value));
                    assert(str_views(evals@) =~= old_vals.push(vv));
                    proof {
                        lemma_push_contains(old_vals, vv);
                    }
                }
                let ghost new_vals = str_views(evals@);
                assert(forall|t: Seq<char>| new_vals.contains(t) <==> (old_vals.contains(t) || t == vv));
                self.mapping.insert(i, (ek, evals));
                proof {
                    let nv = entry_views(self.mapping@);
                    assert(self.mapping@ =~= old(self).mapping@.update(i as int, (ek, evals)));
                    assert(nv =~= ev.update(i as int, (kv, new_vals)));
                    assert forall|k: Seq<char>|
                        #![trigger self.lookup(k)]
                        self.lookup(k) =~= (if k == kv {
                            old(self).lookup(k).insert(vv)
                        } else {
                            old(self).lookup(k)
                        }) by {
                        assert forall|t: Seq<char>| self.lookup(k).contains(t) implies (if k == kv {
                            old(self).lookup(k).insert(vv)
                        } else {
                            old(self).lookup(k)
                        }).contains(t) by {
                            let j = choose|j: int|
                                0 <= j < nv.len() && #[trigger] nv[j].0 == k && nv[j].1.contains(t);
                            if j != i {
                                assert(ev[j] == nv[j]);
                            } else if t != vv {
                                assert(ev[j].1.contains(t));
                                assert(ev[j].0 == k);
                            }
                        }
                        assert forall|t: Seq<char>| (if k == kv {
                            old(self).lookup(k).insert(vv)
                        } else {
                            old(self).lookup(k)
                        }).contains(t) implies self.lookup(k).contains(t) by {
                            if k == kv && t == vv {
                                assert(nv[i as int].1.contains(vv));
                                assert(nv[i as int].0 == k);
                            } else {
                                let j = choose|j: int|
                                    0 <= j < ev.len() && #[trigger] ev[j].0 == k && ev[j].1.contains(t);
                                if j != i {
                                    assert(nv[j] == ev[j]);
                                } else {
                                    assert(nv[j].1.contains(t));
                                    assert(nv[j].0 == k);
                                }
                            }
                        }
                    }
                }
                return;
            }
            i = i + 1;
        }
        let mut vals: Vec<String> = Vec::new();
        vals.push(value);
        assert(str_views(vals@) =~= seq![vv]);
        self.mapping.push((key, vals));
        proof {
            let nv = entry_views(self.mapping@);
            assert(nv =~= ev.push((kv, seq![vv])));
            assert forall|k: Seq<char>|
                #![trigger self.lookup(k)]
                self.lookup(k) =~= (if k == kv {
                    old(self).lookup(k).insert(vv)
                } else {
                    old(self).lookup(k)
                }) by {
                assert forall|t: Seq<char>| self.lookup(k).contains(t) implies (if k == kv {
                    old(self).lookup(k).insert(vv)
                } else {
                    old(self).lookup(k)
                }).contains(t) by {
                    let j = choose|j: int|
                        0 <= j < nv.len() && #[trigger] nv[j].0 == k && nv[j].1.contains(t);
                    if j < ev.len() {
                        assert(ev[j] == nv[j]);
                    } else {
                        let m = choose|m: int| 0 <= m < nv[j].1.len() && #[trigger] nv[j].1[m] == t;
                    }
                }
                assert forall|t: Seq<char>| (if k == kv {
                    old(self).lookup(k).insert(vv)
                } else {
                    old(self).lookup(k)
                }).contains(t) implies self.lookup(k).contains(t) by {
                    if k == kv && t == vv {
                        assert(nv[ev.len() as int].1[0] == vv);
                        assert(nv[ev.len() as int].0 == k);
                    } else {
                        let j = choose|j: int|
                            0 <= j < ev.len() && #[trigger] ev[j].0 == k && ev[j].1.contains(t);
                        assert(nv[j] == ev[j]);
                    }
                }
            }
        }
    }

    /// The tags known under a key.
    fn lookup_exec(&self, key: &str) -> (r: Vec<String>)
        ensures
            forall|t: Seq<char>| str_views(r@).contains(t) <==> self.lookup(key@).contains(t),
    {
        let ghost ev = entry_views(self.mapping@);
        let mut r: Vec<String> = Vec::new();
        let mut i: usize = 0;
        while i < self.mapping.len()
            invariant
                i <= self.mapping.len(),
                ev == entry_views(self.mapping@),
                forall|t: Seq<char>|
                    str_views(r@).contains(t) <==> (exists|j: int|
                        0 <= j < i && #[trigger] ev[j].0 == key@ && ev[j].1.contains(t)),
            decreases self.mapping.len() - i,
        {
            assert(ev[i as int].0 == self.mapping@[i as int].0@);
            assert(ev[i as int].1 == str_views(self.mapping@[i as int].1@));
            let ghost before = str_views(r@);
            assert(forall|t: Seq<char>|
                #[trigger] before.contains(t) <==> (exists|j: int|
                    0 <= j < i && #[trigger] ev[j].0 == key@ && ev[j].1.contains(t)));
            if crate::text::str_eq(self.mapping[i].0.as_str(), key) {
                let vals = &self.mapping[i].1;
                let ghost ivals = ev[i as int].1;
                let mut j: usize = 0;
                assert(before + ivals.take(0) =~= before);
                while j < vals.len()
                    invariant
                        j <= vals@.len(),
                        ivals == str_views(vals@),
                        str_views(r@) == before + ivals.take(j as int),
                    decreases vals@.len() - j,
                {
                    let ghost prev = str_views(r@);
                    let v = vals[j].clone();
                    assert(ivals[j as int] == v@);
                    r.push(v);
                    assert(str_views(r@) =~= prev.push(v@));
                    assert(ivals.take(j + 1) =~= ivals.take(j as int).push(v@));
                    assert(str_views(r@) =~= before + ivals.take(j + 1));
                    j = j + 1;
                }
                assert(ivals.take(j as int) =~= ivals);
                proof {
                    lemma_concat_contains(before, ivals);
                }
                assert forall|t: Seq<char>|
                    str_views(r@).contains(t) <==> (exists|k: int|
                        0 <= k < i + 1 && #[trigger] ev[k].0 == key@ && ev[k].1.contains(t)) by {
                    if exists|k: int|
                        0 <= k < i + 1 && #[trigger] ev[k].0 == key@ && ev[k].1.contains(t) {
                        let k = choose|k: int|
                            0 <= k < i + 1 && #[trigger] ev[k].0 == key@ && ev[k].1.contains(t);
                        if k < i {
                            assert(before.contains(t));
                        }
                    }
                }
            } else {
                assert forall|t: Seq<char>|
                    str_views(r@).contains(t) <==> (exists|k: int|
                        0 <= k < i + 1 && #[trigger] ev[k].0 == key@ && ev[k].1.contains(t)) by {
                    if exists|k: int|
                        0 <= k < i + 1 && #[trigger] ev[k].0 == key@ && ev[k].1.contains(t) {
                        let k = choose|k: int|
                            0 <= k < i + 1 && #[trigger] ev[k].0 == key@ && ev[k].1.contains(t);
                        assert(k < i);
                    }
                }
            }
            i = i + 1;
        }
        r
    }

    /// The tags recommended for a location, leaving out those in `existing`.
    pub fn recommend_from_location(&self, location: &String, existing: &Vec<String>) -> (r: Vec<String>)
        requires
            self.wf(),
        ensures
            forall|m: Seq<char>|
                str_views(r@).contains(m) <==> self.suggests(
                    location_words(self.pattern(), location@),
                    str_views(existing@),
                    m,
                ),
            str_views(r@).no_duplicates(),
    {
        let lowered = to_lowercase(location.as_str());
        let spaced = regex_replace_all(self.pattern.as_str(), lowered.as_str(), " ");
        proof {
            reveal_strlit(" ");
            assert(" "@ =~= seq![' ']);
        }
        let pieces = split_chars(spaced.as_str(), ' ');
        let ghost pv = str_views(pieces@);
        let ghost pred = |w: Seq<char>| w.len() > 0;
        let mut items: Vec<String> = Vec::new();
        let mut i: usize = 0;
        while i < pieces.len()
            invariant
                i <= pieces.len(),
                pv == str_views(pieces@),
                pred == (|w: Seq<char>| w.len() > 0),
                str_views(items@) == pv.take(i as int).filter(pred),
            decreases pieces.len() - i,
        {
            proof {
                reveal(Seq::filter);
                assert(pv.take(i + 1).drop_last() =~= pv.take(i as int));
                assert(pv.take(i + 1).last() == pieces@[i as int]@);
            }
            if chars_of(pieces[i].as_str()).len() > 0 {
                let ghost prev = items@;
                let w = pieces[i].clone();
                items.push(w);
                assert(str_views(items@) =~= str_views(prev).push(w@));
            }
            i = i + 1;
        }
        assert(pv.take(i as int) =~= pv);
        self.helper(items, existing)
    }

    /// The tags recommended for the values of a grab bag.
    pub fn recommend_from_grabbag(&self, grabbag_tags: Vec<String>, existing: &Vec<String>) -> (r: Vec<String>)
        ensures
            forall|m: Seq<char>|
                str_views(r@).contains(m) <==> self.suggests(
                    str_views(grabbag_tags@),
                    str_views(existing@),
                    m,
                ),
            str_views(r@).no_duplicates(),
    {
        self.helper(grabbag_tags, existing)
    }

    /// Some run of words before (`bs`, `be`), in the order of their start and
    /// then their end, is a key that `m` is known under.
    pub open spec fn found_before(&self, items: Seq<Seq<char>>, m: Seq<char>, bs: int, be: int) -> bool {
        exists|s: int, e: int|
            is_window(items, s, e) && (s < bs || (s == bs && e < be)) && #[trigger] self.lookup(
                window_key(items, s, e),
            ).contains(m)
    }

    proof fn lemma_found_step(&self, items: Seq<Seq<char>>, m: Seq<char>, bs: int, be: int)
        ensures
            self.found_before(items, m, bs, be + 1) <==> (self.found_before(items, m, bs, be) || (
            is_window(items, bs, be) && self.lookup(window_key(items, bs, be)).contains(m))),
    {
        if self.found_before(items, m, bs, be + 1) {
            let (s, e) = choose|s: int, e: int|
                is_window(items, s, e) && (s < bs || (s == bs && e < be + 1))
                    && #[trigger] self.lookup(window_key(items, s, e)).contains(m);
            if !(s == bs && e == be) {
                assert(self.found_before(items, m, bs, be));
            }
        }
        if self.found_before(items, m, bs, be) {
            let (s, e) = choose|s: int, e: int|
                is_window(items, s, e) && (s < bs || (s == bs && e < be)) && #[trigger] self.lookup(
                    window_key(items, s, e),
                ).contains(m);
            assert(self.found_before(items, m, bs, be + 1));
        }
        if is_window(items, bs, be) && self.lookup(window_key(items, bs, be)).contains(m) {
            assert(self.found_before(items, m, bs, be + 1));
        }
    }

    proof fn lemma_found_row_done(&self, items: Seq<Seq<char>>, m: Seq<char>, bs: int, be: int)
        requires
            be > bs + 5 || be > items.len(),
        ensures
            self.found_before(items, m, bs, be) <==> self.found_before(items, m, bs + 1, bs + 2),
    {
        if self.found_before(items, m, bs, be) {
            let (s, e) = choose|s: int, e: int|
                is_window(items, s, e) && (s < bs || (s == bs && e < be)) && #[trigger] self.lookup(
                    window_key(items, s, e),
                ).contains(m);
            assert(self.found_before(items, m, bs + 1, bs + 2));
        }
        if self.found_before(items, m, bs + 1, bs + 2) {
            let (s, e) = choose|s: int, e: int|
                is_window(items, s, e) && (s < bs + 1 || (s == bs + 1 && e < bs + 2))
                    && #[trigger] self.lookup(window_key(items, s, e)).contains(m);
            assert(self.found_before(items, m, bs, be));
        }
    }

    /// The tags known under the keys made by runs of one to five consecutive
    /// words, leaving out those in `existing`.
    pub fn helper(&self, items: Vec<String>, existing: &Vec<String>) -> (r: Vec<String>)
        ensures
            forall|m: Seq<char>|
                str_views(r@).contains(m) <==> self.suggests(
                    str_views(items@),
                    str_views(existing@),
                    m,
                ),
            str_views(r@).no_duplicates(),
    {
        let ghost iv = str_views(items@);
        let ghost ex = str_views(existing@);
        let mut rv: Vec<String> = Vec::new();
        let n = items.len();
        let mut start: usize = 0;
        assert forall|m: Seq<char>| !self.found_before(iv, m, 0, 1) by {
            if self.found_before(iv, m, 0, 1) {
                let (s, e) = choose|s: int, e: int|
                    is_window(iv, s, e) && (s < 0 || (s == 0 && e < 1)) && #[trigger] self.lookup(
                        window_key(iv, s, e),
                    ).contains(m);
            }
        }
        while start < n
            invariant
                start <= n,
                n == items@.len(),
                iv == str_views(items@),
                ex == str_views(existing@),
                str_views(rv@).no_duplicates(),
                forall|m: Seq<char>|
                    #[trigger] str_views(rv@).contains(m) <==> (!ex.contains(m)
                        && self.found_before(iv, m, start as int, start + 1)),
            decreases n - start,
        {
            let mut len: usize = 1;
            let mut key = String::new();
            assert(iv.subrange(start as int, start as int) =~= Seq::<Seq<char>>::empty());
            while len <= 5 && len <= n - start
                invariant
                    start < n,
                    1 <= len <= 6,
                    start + len <= n + 1,
                    n == items@.len(),
                    iv == str_views(items@),
                    ex == str_views(existing@),
                    key@ == window_key(iv, start as int, start + len - 1),
                    str_views(rv@).no_duplicates(),
                    forall|m: Seq<char>|
                        #[trigger] str_views(rv@).contains(m) <==> (!ex.contains(m)
                            && self.found_before(iv, m, start as int, start + len)),
                decreases 6 - len,
            {
                let end = start + len;
                key.append(items[end - 1].as_str());
                proof {
                    let sub = iv.subrange(start as int, end as int);
                    assert(sub.drop_last() =~= iv.subrange(start as int, end - 1));
                    assert(sub.last() == items@[end - 1]@);
                }
                let found = self.lookup_exec(key.as_str());
                let ghost before = str_views(rv@);
                let mut k: usize = 0;
                while k < found.len()
                    invariant
                        k <= found.len(),
                        ex == str_views(existing@),
                        str_views(rv@).no_duplicates(),
                        forall|m: Seq<char>|
                            #[trigger] str_views(rv@).contains(m) <==> (before.contains(m) || (
                            !ex.contains(m) && str_views(found@).take(k as int).contains(m))),
                    decreases found.len() - k,
                {
                    let m = &found[k];
                    let ghost prev = str_views(rv@);
                    let ghost fk = str_views(found@).take(k as int);
                    assert(str_views(found@).take(k + 1) =~= fk.push(m@));
                    proof {
                        lemma_push_contains(fk, m@);
                        lemma_push_contains(prev, m@);
                    }
                    let fresh = !contains_str(existing, m.as_str()) && !contains_str(&rv, m.as_str());
                    if fresh {
                        rv.push(m.clone());
                        assert(str_views(rv@) =~= prev.push(m@));
                        assert forall|a: int, b: int|
                            0 <= a < b < str_views(rv@).len() implies str_views(rv@)[a]
                            != str_views(rv@)[b] by {
                            if b == prev.len() {
                                assert(prev[a] == str_views(rv@)[a]);
                            } else {
                                assert(prev[a] == str_views(rv@)[a] && prev[b] == str_views(rv@)[b]);
                            }
                        }
                    }
                    k = k + 1;
                }
                assert(str_views(found@).take(k as int) =~= str_views(found@));
                proof {
                    assert forall|m: Seq<char>|
                        #[trigger] str_views(rv@).contains(m) <==> (!ex.contains(m)
                            && self.found_before(iv, m, start as int, start + len + 1)) by {
                        self.lemma_found_step(iv, m, start as int, start + len);
                        assert(is_window(iv, start as int, end as int));
                    }
                }
                len = len + 1;
            }
            proof {
                assert forall|m: Seq<char>|
                    #[trigger] str_views(rv@).contains(m) <==> (!ex.contains(m)
                        && self.found_before(iv, m, start + 1, start + 2)) by {
                    self.lemma_found_row_done(iv, m, start as int, start + len);
                }
            }
            start = start + 1;
        }
        proof {
            assert forall|m: Seq<char>|
                #[trigger] str_views(rv@).contains(m) <==> self.suggests(iv, ex, m) by {
                if self.found_before(iv, m, n as int, n + 1) {
                    let (s, e) = choose|s: int, e: int|
                        is_window(iv, s, e) && (s < n || (s == n && e < n + 1))
                            && #[trigger] self.lookup(window_key(iv, s, e)).contains(m);
                }
                if exists|s: int, e: int|
                    is_window(iv, s, e) && #[trigger] self.lookup(window_key(iv, s, e)).contains(m) {
                    let (s, e) = choose|s: int, e: int|
                        is_window(iv, s, e) && #[trigger] self.lookup(window_key(iv, s, e)).contains(m);
                    assert(self.found_before(iv, m, n as int, n + 1));
                }
            }
        }
        rv
    }
}

/// Removes the spaces.
fn remove_spaces(s: &str) -> (r: String)
    ensures
        r@ == without_spaces(s@),
{
    let c = chars_of(s);
    let ghost pred = |x: char| x != ' ';
    let mut out: Vec<char> = Vec::new();
    let mut i: usize = 0;
    while i < c.len()
        invariant
            i <= c.len(),
            pred == (|x: char| x != ' '),
            out@ == c@.take(i as int).filter(pred),
        decreases c.len() - i,
    {
        proof {
            reveal(Seq::filter);
            assert(c@.take(i + 1).drop_last() =~= c@.take(i as int));
            assert(c@.take(i + 1).last() == c@[i as int]);
        }
        if c[i] != ' ' {
            out.push(c[i]);
        }
        i = i + 1;
    }
    assert(c@.take(i as int) =~= c@);
    string_of(out.as_slice())
}

} // verus!
