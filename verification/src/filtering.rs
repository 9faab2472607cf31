//! What a filter does to a list of records once the database has been read:
//! orderings, selections and limits.
use vstd::prelude::*;
use crate::errors::MyCustomError;
use crate::models::{Record, RecordView, Timestamp, record_views, lemma_record_views_push};
use crate::paths::{path_without_extension, without_extension};
use crate::sorting::{
    is_permutation, is_stable_order, key_views, permuted, stable_order, identity_order,
    shuffle_indices, lemma_permuted_push, lemma_key_views_push,
};
use crate::text::{
    chars_eq, chars_of, contains_chars, is_substring, lowercase, parse_i32, parse_int, str_eq,
    str_views, to_lowercase,
};

verus! {

broadcast use vstd::seq_lib::group_to_multiset_ensures;

/// What records are ordered by.
pub enum SortKey {
    TagCount,
    Size,
    Name,
    Location,
    /// Date added, then date created.
    Added,
    /// Date last opened, then date added.
    Opened,
    TimesOpened,
}

/// What a filter's name asks for.
pub enum FilterKind {
    Random,
    Reverse,
    Sort { key: SortKey, desc: bool },
    Touched,
    Untouched,
    Seen,
    Unseen,
    TagsAll,
    TagsAny,
    SearchAll,
    SearchAny,
    NameAll,
    NameAny,
    Limit,
    Nothing,
    Unknown,
}

/// The meaning of each filter name.
pub open spec fn filter_kind(name: Seq<char>) -> FilterKind {
    if name == "random"@ {
        FilterKind::Random
    } else if name == "reverse"@ {
        FilterKind::Reverse
    } else if name == "most_tags"@ {
        FilterKind::Sort { key: SortKey::TagCount, desc: true }
    } else if name == "fewest_tags"@ {
        FilterKind::Sort { key: SortKey::TagCount, desc: false }
    } else if name == "largest"@ || name == "biggest"@ {
        FilterKind::Sort { key: SortKey::Size, desc: true }
    } else if name == "smallest"@ {
        FilterKind::Sort { key: SortKey::Size, desc: false }
    } else if name == "alpha"@ || name == "alphabetical"@ {
        FilterKind::Sort { key: SortKey::Name, desc: false }
    } else if name == "location"@ {
        FilterKind::Sort { key: SortKey::Location, desc: false }
    } else if name == "newest"@ {
        FilterKind::Sort { key: SortKey::Added, desc: true }
    } else if name == "oldest"@ {
        FilterKind::Sort { key: SortKey::Added, desc: false }
    } else if name == "most_recently_opened"@ {
        FilterKind::Sort { key: SortKey::Opened, desc: true }
    } else if name == "least_recently_opened"@ {
        FilterKind::Sort { key: SortKey::Opened, desc: false }
    } else if name == "most_frequently_opened"@ {
        FilterKind::Sort { key: SortKey::TimesOpened, desc: true }
    } else if name == "least_frequently_opened"@ {
        FilterKind::Sort { key: SortKey::TimesOpened, desc: false }
    } else if name == "touched"@ {
        FilterKind::Touched
    } else if name == "untouched"@ {
        FilterKind::Untouched
    } else if name == "seen"@ {
        FilterKind::Seen
    } else if name == "unseen"@ {
        FilterKind::Unseen
    } else if name == "tags"@ || name == "tags_exclusive"@ {
        FilterKind::TagsAll
    } else if name == "tags_inclusive"@ {
        FilterKind::TagsAny
    } else if name == "search"@ || name == "search_exclusive"@ {
        FilterKind::SearchAll
    } else if name == "search_inclusive"@ {
        FilterKind::SearchAny
    } else if name == "name"@ || name == "name_exclusive"@ {
        FilterKind::NameAll
    } else if name == "name_inclusive"@ {
        FilterKind::NameAny
    } else if name == "limit"@ {
        FilterKind::Limit
    } else if name.len() == 0 {
        FilterKind::Nothing
    } else {
        FilterKind::Unknown
    }
}

/// Reads a filter name.
pub fn classify(name: &str) -> (k: FilterKind)
    ensures
        k == filter_kind(name@),
{
    if str_eq(name, "random") {
        FilterKind::Random
    } else if str_eq(name, "reverse") {
        FilterKind::Reverse
    } else if str_eq(name, "most_tags") {
        FilterKind::Sort { key: SortKey::TagCount, desc: true }
    } else if str_eq(name, "fewest_tags") {
        FilterKind::Sort { key: SortKey::TagCount, desc: false }
    } else if str_eq(name, "largest") || str_eq(name, "biggest") {
        FilterKind::Sort { key: SortKey::Size, desc: true }
    } else if str_eq(name, "smallest") {
        FilterKind::Sort { key: SortKey::Size, desc: false }
    } else if str_eq(name, "alpha") || str_eq(name, "alphabetical") {
        FilterKind::Sort { key: SortKey::Name, desc: false }
    } else if str_eq(name, "location") {
        FilterKind::Sort { key: SortKey::Location, desc: false }
    } else if str_eq(name, "newest") {
        FilterKind::Sort { key: SortKey::Added, desc: true }
    } else if str_eq(name, "oldest") {
        FilterKind::Sort { key: SortKey::Added, desc: false }
    } else if str_eq(name, "most_recently_opened") {
        FilterKind::Sort { key: SortKey::Opened, desc: true }
    } else if str_eq(name, "least_recently_opened") {
        FilterKind::Sort { key: SortKey::Opened, desc: false }
    } else if str_eq(name, "most_frequently_opened") {
        FilterKind::Sort { key: SortKey::TimesOpened, desc: true }
    } else if str_eq(name, "least_frequently_opened") {
        FilterKind::Sort { key: SortKey::TimesOpened, desc: false }
    } else if str_eq(name, "touched") {
        FilterKind::Touched
    } else if str_eq(name, "untouched") {
        FilterKind::Untouched
    } else if str_eq(name, "seen") {
        FilterKind::Seen
    } else if str_eq(name, "unseen") {
        FilterKind::Unseen
    } else if str_eq(name, "tags") || str_eq(name, "tags_exclusive") {
        FilterKind::TagsAll
    } else if str_eq(name, "tags_inclusive") {
        FilterKind::TagsAny
    } else if str_eq(name, "search") || str_eq(name, "search_exclusive") {
        FilterKind::SearchAll
    } else if str_eq(name, "search_inclusive") {
        FilterKind::SearchAny
    } else if str_eq(name, "name") || str_eq(name, "name_exclusive") {
        FilterKind::NameAll
    } else if str_eq(name, "name_inclusive") {
        FilterKind::NameAny
    } else if str_eq(name, "limit") {
        FilterKind::Limit
    } else if chars_of(name).len() == 0 {
        FilterKind::Nothing
    } else {
        FilterKind::Unknown
    }
}

// ---------------------------------------------------------------------------
// Orderings
/// An optional date as a key: absent dates come first, the others by their
/// seconds and then their nanoseconds.
pub open spec fn date_key(d: Option<Timestamp>) -> Seq<i64> {
    match d {
        Some(x) => seq![1i64, x.secs, x.nanos as i64],
        None => seq![0i64],
    }
}

/// Text as a key: its characters' code points, which order strings as Rust's
/// byte-wise string comparison does.
pub open spec fn text_key(s: Seq<char>) -> Seq<i64> {
    s.map_values(|c: char| (c as u32) as i64)
}

/// The key a record is ordered by.
pub open spec fn sort_key(key: SortKey, r: RecordView) -> Seq<i64> {
    match key {
        SortKey::TagCount => seq![r.tags.len() as i64],
        SortKey::Size => seq![r.size],
        SortKey::Name => text_key(r.name),
        SortKey::Location => text_key(r.location),
        SortKey::Added => date_key(r.date_added) + date_key(r.date_created),
        SortKey::Opened => date_key(r.date_last_accessed) + date_key(r.date_added),
        SortKey::TimesOpened => seq![r.times_opened as i64],
    }
}

pub open spec fn sort_keys(key: SortKey, v: Seq<RecordView>) -> Seq<Seq<i64>> {
    v.map_values(|r: RecordView| sort_key(key, r))
}

fn push_date_key(k: &mut Vec<i64>, d: Option<Timestamp>)
    ensures
        final(k)@ == old(k)@ + date_key(d),
{
    match d {
        Some(x) => {
            k.push(1);
            k.push(x.secs);
            k.push(x.nanos as i64);
        },
        None => {
            k.push(0);
        },
    }
    assert(k@ =~= old(k)@ + date_key(d));
}

fn text_key_exec(s: &str) -> (k: Vec<i64>)
    ensures
        k@ == text_key(s@),
{
    let c = chars_of(s);
    let mut k: Vec<i64> = Vec::new();
    let mut i: usize = 0;
    while i < c.len()
        invariant
            i <= c.len(),
            k@ == text_key(c@.take(i as int)),
        decreases c.len() - i,
    {
        k.push((c[i] as u32) as i64);
        assert(text_key(c@.take(i + 1)) =~= text_key(c@.take(i as int)).push((c@[i as int] as u32) as i64));
        i = i + 1;
    }
    assert(c@.take(i as int) =~= c@);
    k
}

fn record_key(key: &SortKey, r: &Record) -> (k: Vec<i64>)
    ensures
        k@ == sort_key(*key, r@),
{
    match key {
        SortKey::TagCount => {
            let mut k = Vec::new();
            k.push(r.Tags.len() as i64);
            assert(k@ =~= sort_key(*key, r@));
            k
        },
        SortKey::Size => {
            let mut k = Vec::new();
            k.push(r.Size);
            assert(k@ =~= sort_key(*key, r@));
            k
        },
        SortKey::Name => text_key_exec(r.Name.as_str()),
        SortKey::Location => text_key_exec(r.Location.as_str()),
        SortKey::Added => {
            let mut k = Vec::new();
            push_date_key(&mut k, r.DateAdded);
            push_date_key(&mut k, r.DateCreated);
            assert(k@ =~= sort_key(*key, r@));
            k
        },
        SortKey::Opened => {
            let mut k = Vec::new();
            push_date_key(&mut k, r.DateLastAccessed);
            push_date_key(&mut k, r.DateAdded);
            assert(k@ =~= sort_key(*key, r@));
            k
        },
        SortKey::TimesOpened => {
            let mut k = Vec::new();
            k.push(r.TimesOpened as i64);
            assert(k@ =~= sort_key(*key, r@));
            k
        },
    }
}

/// The records in the order `p` gives.
fn reorder(records: &Vec<Record>, p: &Vec<usize>) -> (out: Vec<Record>)
    requires
        forall|i: int| 0 <= i < p@.len() ==> p@[i] < records@.len(),
    ensures
        record_views(out@) == permuted(record_views(records@), p@),
{
    let mut out: Vec<Record> = Vec::new();
    let mut i: usize = 0;
    while i < p.len()
        invariant
            i <= p.len(),
            forall|j: int| 0 <= j < p@.len() ==> p@[j] < records@.len(),
            record_views(out@) == permuted(record_views(records@), p@.take(i as int)),
        decreases p.len() - i,
    {
        let r = records[p[i]].copy();
        proof {
            lemma_record_views_push(out@, r);
            lemma_permuted_push(record_views(records@), p@, i as int);
        }
        out.push(r);
        i = i + 1;
    }
    assert(p@.take(i as int) =~= p@);
    out
}

/// The records, stably ordered by a key.
pub fn sort_records(records: &Vec<Record>, key: SortKey, desc: bool) -> (out: Vec<Record>)
    ensures
        exists|p: Seq<usize>|
            #![trigger permuted(record_views(records@), p)]
            is_stable_order(sort_keys(key, record_views(records@)), desc, p) && record_views(out@)
                == permuted(record_views(records@), p),
{
    let ghost v = record_views(records@);
    let mut keys: Vec<Vec<i64>> = Vec::new();
    let mut i: usize = 0;
    while i < records.len()
        invariant
            i <= records.len(),
            v == record_views(records@),
            key_views(keys@) == sort_keys(key, v).take(i as int),
        decreases records.len() - i,
    {
        let k = record_key(&key, &records[i]);
        proof {
            lemma_key_views_push(keys@, k);
            assert(sort_keys(key, v).take(i + 1) =~= sort_keys(key, v).take(i as int).push(
                sort_key(key, v[i as int]),
            ));
        }
        keys.push(k);
        i = i + 1;
    }
    assert(sort_keys(key, v).take(i as int) =~= sort_keys(key, v));
    let p = stable_order(&keys, desc);
    let out = reorder(records, &p);
    out
}

/// The records in a random order.
pub fn shuffle_records(records: &Vec<Record>) -> (out: Vec<Record>)
    ensures
        exists|p: Seq<usize>|
            #![trigger permuted(record_views(records@), p)]
            is_permutation(p, records@.len()) && record_views(out@) == permuted(
                record_views(records@),
                p,
            ),
{
    let ident = identity_order(records.len());
    let ghost id = ident@;
    let p = shuffle_indices(ident);
    proof {
        assert(id.no_duplicates());
        id.lemma_multiset_has_no_duplicates();
        p@.lemma_multiset_has_no_duplicates_conv();
        assert forall|i: int| 0 <= i < p@.len() implies p@[i] < records@.len() by {
            assert(p@.contains(p@[i]));
            assert(p@.to_multiset().count(p@[i]) > 0);
            assert(id.to_multiset().count(p@[i]) > 0);
            assert(id.contains(p@[i]));
            let k = choose|k: int| 0 <= k < id.len() && id[k] == p@[i];
        }
        assert(p@.to_multiset().len() == p@.len());
        assert(id.to_multiset().len() == id.len());
        assert(is_permutation(p@, records@.len()));
    }
    reorder(records, &p)
}

/// The records in reverse order.
pub fn reverse_records(records: &Vec<Record>) -> (out: Vec<Record>)
    ensures
        record_views(out@) == record_views(records@).reverse(),
{
    let mut out: Vec<Record> = Vec::new();
    let mut i: usize = records.len();
    while i > 0
        invariant
            i <= records.len(),
            record_views(out@) == record_views(records@).reverse().take(records.len() - i),
        decreases i,
    {
        i = i - 1;
        let r = records[i].copy();
        proof {
            lemma_record_views_push(out@, r);
            assert(record_views(records@).reverse().take(records.len() - i) =~= record_views(
                records@,
            ).reverse().take(records.len() - i - 1).push(r@));
        }
        out.push(r);
    }
    assert(record_views(records@).reverse().take(records.len() as int) =~= record_views(
        records@,
    ).reverse());
    out
}

// ---------------------------------------------------------------------------
// Selections
/// A search term matches a record's location or one of its tags, each in
/// lower case.
pub open spec fn loose_match(r: RecordView, term: Seq<char>) -> bool {
    is_substring(term, lowercase(r.location)) || tag_match(r, term)
}

/// A search term matches one of a record's tags, in lower case.
pub open spec fn tag_match(r: RecordView, term: Seq<char>) -> bool {
    exists|t: int| 0 <= t < r.tags.len() && is_substring(term, #[trigger] lowercase(r.tags[t]))
}

/// A record's name without its extension, in lower case.
pub open spec fn name_key(r: RecordView) -> Seq<char> {
    lowercase(without_extension(r.name))
}

/// Whether a selecting filter keeps a record.
pub open spec fn keeps(kind: FilterKind, terms: Seq<Seq<char>>, r: RecordView) -> bool {
    match kind {
        FilterKind::Touched => r.touched,
        FilterKind::Untouched => !r.touched,
        FilterKind::Seen => r.times_opened > 0,
        FilterKind::Unseen => r.times_opened == 0,
        FilterKind::TagsAll => forall|i: int| 0 <= i < terms.len() ==> tag_match(r, #[trigger] terms[i]),
        FilterKind::TagsAny => terms.len() == 0 || exists|i: int|
            0 <= i < terms.len() && tag_match(r, #[trigger] terms[i]),
        FilterKind::SearchAll => forall|i: int|
            0 <= i < terms.len() ==> loose_match(r, #[trigger] terms[i]),
        FilterKind::SearchAny => terms.len() == 0 || exists|i: int|
            0 <= i < terms.len() && loose_match(r, #[trigger] terms[i]),
        FilterKind::NameAll => forall|i: int| 0 <= i < terms.len() ==> #[trigger] terms[i] == name_key(r),
        FilterKind::NameAny => exists|i: int| 0 <= i < terms.len() && #[trigger] terms[i] == name_key(r),
        _ => true,
    }
}

/// A search looks at a record's location and at each of its tags, in lower
/// case: a term kept by one of them keeps the record in a filter that needs
/// any one term (`search_inclusive`), and a filter that needs every term
/// (`search`) keeps a record exactly when each term is part of its location
/// or of one of its tags.
pub proof fn lemma_search_sees_location_and_tags(terms: Seq<Seq<char>>, r: RecordView, i: int)
    requires
        0 <= i < terms.len(),
    ensures
        (is_substring(terms[i], lowercase(r.location)) || exists|t: int|
            0 <= t < r.tags.len() && is_substring(terms[i], #[trigger] lowercase(r.tags[t])))
            ==> keeps(FilterKind::SearchAny, terms, r),
        keeps(FilterKind::SearchAll, terms, r) <==> forall|j: int|
            0 <= j < terms.len() ==> (is_substring(#[trigger] terms[j], lowercase(r.location))
                || exists|t: int|
                0 <= t < r.tags.len() && is_substring(terms[j], #[trigger] lowercase(r.tags[t]))),
{
    assert(loose_match(r, terms[i]) <==> (is_substring(terms[i], lowercase(r.location)) || exists|t: int|
        0 <= t < r.tags.len() && is_substring(terms[i], #[trigger] lowercase(r.tags[t]))));
}

/// A tags filter that needs any one term (`tags_inclusive`) keeps a record
/// where a term is part of one of its tags in lower case.
pub proof fn lemma_tags_inclusive_sees_tags(terms: Seq<Seq<char>>, r: RecordView, i: int, t: int)
    requires
        0 <= i < terms.len(),
        0 <= t < r.tags.len(),
        is_substring(terms[i], lowercase(r.tags[t])),
    ensures
        keeps(FilterKind::TagsAny, terms, r),
{
    assert(tag_match(r, terms[i]));
}

/// Whether a filter kind selects records (rather than ordering them).
pub open spec fn is_selection(kind: FilterKind) -> bool {
    match kind {
        FilterKind::Touched | FilterKind::Untouched | FilterKind::Seen | FilterKind::Unseen
        | FilterKind::TagsAll | FilterKind::TagsAny | FilterKind::SearchAll
        | FilterKind::SearchAny | FilterKind::NameAll | FilterKind::NameAny => true,
        _ => false,
    }
}

fn lower_chars(s: &str) -> (c: Vec<char>)
    ensures
        c@ == lowercase(s@),
{
    let l = to_lowercase(s);
    chars_of(l.as_str())
}

fn tag_match_exec(r: &Record, term: &Vec<char>) -> (b: bool)
    ensures
        b == tag_match(r@, term@),
{
    let mut t: usize = 0;
    while t < r.Tags.len()
        invariant
            t <= r.Tags.len(),
            forall|j: int| 0 <= j < t ==> !is_substring(term@, #[trigger] lowercase(r@.tags[j])),
        decreases r.Tags.len() - t,
    {
        let lt = lower_chars(r.Tags[t].as_str());
        assert(r@.tags[t as int] == r.Tags@[t as int]@);
        if contains_chars(&lt, term) {
            return true;
        }
        t = t + 1;
    }
    false
}

fn loose_match_exec(r: &Record, term: &Vec<char>) -> (b: bool)
    ensures
        b == loose_match(r@, term@),
{
    let loc = lower_chars(r.Location.as_str());
    if contains_chars(&loc, term) {
        return true;
    }
    tag_match_exec(r, term)
}

fn name_key_exec(r: &Record) -> (k: Vec<char>)
    ensures
        k@ == name_key(r@),
{
    let stem = path_without_extension(r.Name.as_str());
    lower_chars(stem.as_str())
}

/// Whether a selecting filter keeps a record.
pub fn keeps_exec(kind: &FilterKind, terms: &Vec<String>, r: &Record) -> (b: bool)
    ensures
        b == keeps(*kind, str_views(terms@), r@),
{
    let ghost tv = str_views(terms@);
    match kind {
        FilterKind::Touched => r.HaveManuallyTouched,
        FilterKind::Untouched => !r.HaveManuallyTouched,
        FilterKind::Seen => r.TimesOpened > 0,
        FilterKind::Unseen => r.TimesOpened == 0,
        FilterKind::TagsAll | FilterKind::SearchAll => {
            let loose = match kind {
                FilterKind::SearchAll => true,
                _ => false,
            };
            let mut i: usize = 0;
            while i < terms.len()
                invariant
                    i <= terms.len(),
                    tv == str_views(terms@),
                    *kind is TagsAll || *kind is SearchAll,
                    loose == (*kind is SearchAll),
                    forall|j: int|
                        0 <= j < i ==> (if loose {
                            loose_match(r@, #[trigger] tv[j])
                        } else {
                            tag_match(r@, tv[j])
                        }),
                decreases terms.len() - i,
            {
                let term = chars_of(terms[i].as_str());
                assert(term@ == tv[i as int]);
                let m = if loose {
                    loose_match_exec(r, &term)
                } else {
                    tag_match_exec(r, &term)
                };
                if !m {
                    return false;
                }
                i = i + 1;
            }
            true
        },
        FilterKind::TagsAny | FilterKind::SearchAny => {
            let loose = match kind {
                FilterKind::SearchAny => true,
                _ => false,
            };
            if terms.len() == 0 {
                return true;
            }
            let mut i: usize = 0;
            while i < terms.len()
                invariant
                    i <= terms.len(),
                    tv == str_views(terms@),
                    *kind is TagsAny || *kind is SearchAny,
                    loose == (*kind is SearchAny),
                    forall|j: int|
                        0 <= j < i ==> !(if loose {
                            loose_match(r@, #[trigger] tv[j])
                        } else {
                            tag_match(r@, tv[j])
                        }),
                decreases terms.len() - i,
            {
                let term = chars_of(terms[i].as_str());
                assert(term@ == tv[i as int]);
                let m = if loose {
                    loose_match_exec(r, &term)
                } else {
                    tag_match_exec(r, &term)
                };
                if m {
                    return true;
                }
                i = i + 1;
            }
            false
        },
        FilterKind::NameAll | FilterKind::NameAny => {
            let all = match kind {
                FilterKind::NameAll => true,
                _ => false,
            };
            let key = name_key_exec(r);
            let mut i: usize = 0;
            while i < terms.len()
                invariant
                    i <= terms.len(),
                    tv == str_views(terms@),
                    *kind is NameAll || *kind is NameAny,
                    all == (*kind is NameAll),
                    key@ == name_key(r@),
                    forall|j: int| 0 <= j < i ==> (#[trigger] tv[j] == key@) == all,
                decreases terms.len() - i,
            {
                let term = chars_of(terms[i].as_str());
                assert(term@ == tv[i as int]);
                let same = chars_eq(&term, &key);
                if same != all {
                    return same;
                }
                i = i + 1;
            }
            all
        },
        _ => true,
    }
}

/// The records that a selecting filter keeps, in their order.
pub fn select_records(records: &Vec<Record>, kind: &FilterKind, terms: &Vec<String>) -> (out: Vec<
    Record,
>)
    ensures
        record_views(out@) == record_views(records@).filter(
            |r: RecordView| keeps(*kind, str_views(terms@), r),
        ),
{
    let ghost v = record_views(records@);
    let ghost pred = |r: RecordView| keeps(*kind, str_views(terms@), r);
    let mut out: Vec<Record> = Vec::new();
    let mut i: usize = 0;
    while i < records.len()
        invariant
            i <= records.len(),
            v == record_views(records@),
            pred == (|r: RecordView| keeps(*kind, str_views(terms@), r)),
            record_views(out@) == v.take(i as int).filter(pred),
        decreases records.len() - i,
    {
        let keep = keeps_exec(kind, terms, &records[i]);
        proof {
            reveal(Seq::filter);
            assert(v.take(i + 1).drop_last() =~= v.take(i as int));
            assert(v.take(i + 1).last() == records@[i as int]@);
        }
        if keep {
            let r = records[i].copy();
            proof {
                lemma_record_views_push(out@, r);
            }
            out.push(r);
        }
        i = i + 1;
    }
    assert(v.take(i as int) =~= v);
    out
}

// ---------------------------------------------------------------------------
// Limits
/// What a limit does: a positive limit keeps that many records from the
/// front; a limit of zero or below keeps that many (negated) from the back.
/// `None` when the limit is not an `i32` or the list is longer than `i32`
/// can count.
pub open spec fn limit_spec(v: Seq<RecordView>, arg: Seq<char>) -> Option<Seq<RecordView>> {
    match parse_int(arg, true, i32::MIN as int, i32::MAX as int) {
        None => None,
        Some(l) => if v.len() > i32::MAX {
            None
        } else if l > 0 {
            if l < v.len() {
                Some(v.take(l))
            } else {
                Some(v)
            }
        } else {
            let index = v.len() + l;
            if index > 0 {
                Some(v.skip(index))
            } else {
                Some(v)
            }
        },
    }
}

fn copy_range(records: &Vec<Record>, lo: usize, hi: usize) -> (out: Vec<Record>)
    requires
        lo <= hi <= records@.len(),
    ensures
        record_views(out@) == record_views(records@).subrange(lo as int, hi as int),
{
    let mut out: Vec<Record> = Vec::new();
    let mut i: usize = lo;
    while i < hi
        invariant
            lo <= i <= hi <= records@.len(),
            record_views(out@) == record_views(records@).subrange(lo as int, i as int),
        decreases hi - i,
    {
        let r = records[i].copy();
        proof {
            lemma_record_views_push(out@, r);
            assert(record_views(records@).subrange(lo as int, i + 1) =~= record_views(
                records@,
            ).subrange(lo as int, i as int).push(r@));
        }
        out.push(r);
        i = i + 1;
    }
    out
}

/// Applies a limit to the records.
pub fn limit_records(records: &Vec<Record>, arg: &str) -> (r: Result<Vec<Record>, MyCustomError>)
    ensures
        match r {
            Ok(out) => limit_spec(record_views(records@), arg@) == Some(record_views(out@)),
            Err(e) => limit_spec(record_views(records@), arg@) is None,
        },
{
    let ghost v = record_views(records@);
    let limit = match parse_i32(arg) {
        Some(l) => l,
        None => {
            return Err(MyCustomError::ParseError);
        },
    };
    if records.len() > 0x7fff_ffff {
        return Err(MyCustomError::UnknownError);
    }
    let size = records.len() as i64;
    let limit = limit as i64;
    if limit > 0 {
        if limit < size {
            let out = copy_range(records, 0, limit as usize);
            assert(v.subrange(0, limit as int) =~= v.take(limit as int));
            Ok(out)
        } else {
            let out = copy_range(records, 0, records.len());
            assert(v.subrange(0, v.len() as int) =~= v);
            Ok(out)
        }
    } else {
        let index = size + limit;
        if index > 0 {
            let out = copy_range(records, index as usize, records.len());
            assert(v.subrange(index as int, v.len() as int) =~= v.skip(index as int));
            Ok(out)
        } else {
            let out = copy_range(records, 0, records.len());
            assert(v.subrange(0, v.len() as int) =~= v);
            Ok(out)
        }
    }
}


/// `touched` and `untouched` split the records between them; `seen` and
/// `unseen` never both keep a record, and one of them does where the record
/// was not opened a negative number of times.
pub proof fn lemma_selection_complements(terms: Seq<Seq<char>>, r: RecordView)
    ensures
        keeps(FilterKind::Touched, terms, r) != keeps(FilterKind::Untouched, terms, r),
        !(keeps(FilterKind::Seen, terms, r) && keeps(FilterKind::Unseen, terms, r)),
        r.times_opened >= 0 ==> keeps(FilterKind::Seen, terms, r) || keeps(FilterKind::Unseen, terms, r),
{
}

/// With one term, the searches that ask for every term and those that ask
/// for any term keep the same records.
pub proof fn lemma_single_term_all_any(term: Seq<char>, r: RecordView)
    ensures
        keeps(FilterKind::TagsAll, seq![term], r) == keeps(FilterKind::TagsAny, seq![term], r),
        keeps(FilterKind::SearchAll, seq![term], r) == keeps(FilterKind::SearchAny, seq![term], r),
        keeps(FilterKind::NameAll, seq![term], r) == keeps(FilterKind::NameAny, seq![term], r),
{
    let terms = seq![term];
    if keeps(FilterKind::TagsAll, terms, r) {
        assert(tag_match(r, terms[0]));
    }
    if keeps(FilterKind::SearchAll, terms, r) {
        assert(loose_match(r, terms[0]));
    }
    if keeps(FilterKind::NameAll, terms, r) {
        assert(terms[0] == name_key(r));
    }
}

/// Selecting twice with the same filter keeps what selecting once keeps.
pub proof fn lemma_selection_idempotent(kind: FilterKind, terms: Seq<Seq<char>>, v: Seq<RecordView>)
    ensures
        v.filter(|r: RecordView| keeps(kind, terms, r)).filter(|r: RecordView| keeps(kind, terms, r))
            == v.filter(|r: RecordView| keeps(kind, terms, r)),
    decreases v.len(),
{
    reveal(Seq::filter);
    let pred = |r: RecordView| keeps(kind, terms, r);
    if v.len() > 0 {
        lemma_selection_idempotent(kind, terms, v.drop_last());
        let f = v.drop_last().filter(pred);
        if pred(v.last()) {
            assert(f.push(v.last()).drop_last() =~= f);
        }
    }
}

/// Reversing twice gives the records back in their order.
pub proof fn lemma_reverse_twice(v: Seq<RecordView>)
    ensures
        v.reverse().reverse() == v,
{
    assert(v.reverse().reverse() =~= v);
}

} // verus!
