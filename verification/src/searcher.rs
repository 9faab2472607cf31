//! Search arguments into filters, filters into SQL, and query rows into records.
use vstd::prelude::*;
use crate::errors::MyCustomError;
use crate::filtering::{
    FilterKind, classify, filter_kind, is_selection, keeps, limit_records, limit_spec,
    reverse_records, select_records, shuffle_records, sort_keys, sort_records,
};
use crate::models::{Record, RecordView, record_views, lemma_record_views_push};
use crate::sorting::{is_permutation, is_stable_order, permuted};
use crate::text::{chars_of, copy_strings, str_eq, str_views, string_of};

verus! {

/// One step of a search: a filter or ordering name and its arguments.
#[derive(Debug)]
pub struct Filter {
    pub name: String,
    pub args: Vec<String>,
}

/// The mathematical value of a filter.
pub struct FilterView {
    pub name: Seq<char>,
    pub args: Seq<Seq<char>>,
}

impl View for Filter {
    type V = FilterView;

    open spec fn view(&self) -> FilterView {
        FilterView { name: self.name@, args: str_views(self.args@) }
    }
}

pub open spec fn filter_views(v: Seq<Filter>) -> Seq<FilterView> {
    v.map_values(|f: Filter| f@)
}

proof fn lemma_filter_views_push(s: Seq<Filter>, f: Filter)
    ensures
        filter_views(s.push(f)) == filter_views(s).push(f@),
{
    assert(filter_views(s.push(f)) =~= filter_views(s).push(f@));
}

/// Names whose filters become part of the SQL query.
pub open spec fn sqlizable_name(name: Seq<char>) -> bool {
    ||| name == "search"@
    ||| name == "search_inclusive"@
    ||| name == "search_exclusive"@
    ||| name == "tags"@
    ||| name == "tags_exclusive"@
    ||| name == "tags_inclusive"@
}

pub open spec fn is_search_name(name: Seq<char>) -> bool {
    name == "search"@ || name == "search_inclusive"@ || name == "search_exclusive"@
}

pub open spec fn is_tags_name(name: Seq<char>) -> bool {
    name == "tags"@ || name == "tags_inclusive"@ || name == "tags_exclusive"@
}

/// The SQL condition for one search term, without the joining word.
pub open spec fn term_condition(name: Seq<char>, term: Seq<char>) -> Seq<char> {
    if is_search_name(name) {
        "(Records.Location LIKE \"%"@ + term + "%\")"@ + "\nor "@
            + "EXISTS(\n\t\t\t\t\t\t\tSELECT Tags.TagName from Tags\n\t\t\t\t\t\t\tWHERE Tags.RecordID = Records.RecordID\n\t\t\t\t\t\t\tAND Tags.TagName Like '%"@
            + term + "%'\n\t\t\t\t\t\t)"@
    } else {
        "(\""@ + term
            + "\" in (\n\t\t\t\t\t\tSELECT Tags.TagName from Tags\n\t\t\t\t\t\tWHERE Tags.RecordID = Records.RecordID))"@
    }
}

/// A term that starts with `-` excludes what it names.
pub open spec fn is_excluding(arg: Seq<char>) -> bool {
    arg.len() > 0 && arg[0] == '-'
}

/// The SQL for the `i`-th argument of a filter.
pub open spec fn arg_clause(name: Seq<char>, args: Seq<Seq<char>>, i: int) -> Seq<char> {
    let arg = args[i];
    let excl = is_excluding(arg);
    let term = if excl {
        arg.drop_first()
    } else {
        arg
    };
    let joiner = if excl {
        if i > 0 {
            "\nand not "@
        } else {
            "\nnot "@
        }
    } else if i > 0 {
        if name == "search_inclusive"@ || name == "tags_inclusive"@ {
            "\nor "@
        } else {
            "\nand "@
        }
    } else {
        Seq::<char>::empty()
    };
    joiner + " ("@ + term_condition(name, term) + "\n)"@
}

/// The SQL for the first `n` arguments of a filter.
pub open spec fn arg_clauses(name: Seq<char>, args: Seq<Seq<char>>, n: nat) -> Seq<char>
    decreases n,
{
    if n == 0 {
        Seq::<char>::empty()
    } else {
        arg_clauses(name, args, (n - 1) as nat) + arg_clause(name, args, n - 1)
    }
}

/// What adding a filter does to an SQL query: a search or tags filter with
/// arguments adds its condition (opening a `where` clause when it is the
/// first); any other leaves the query as it is.
pub open spec fn sqlize_spec(f: FilterView, sql: Seq<char>, is_first: bool) -> Seq<char> {
    if sqlizable_name(f.name) && f.args.len() > 0 {
        sql + " "@ + (if is_first {
            "where ("@
        } else {
            "and ("@
        }) + arg_clauses(f.name, f.args, f.args.len()) + ")"@
    } else {
        sql
    }
}

/// The clauses of the first `k` arguments depend on those arguments alone.
proof fn lemma_arg_clauses_prefix(name: Seq<char>, a: Seq<Seq<char>>, b: Seq<Seq<char>>, k: nat)
    requires
        k <= a.len(),
        k <= b.len(),
        forall|i: int| 0 <= i < k ==> a[i] == b[i],
    ensures
        arg_clauses(name, a, k) == arg_clauses(name, b, k),
    decreases k,
{
    if k > 0 {
        lemma_arg_clauses_prefix(name, a, b, (k - 1) as nat);
        assert(a[k - 1] == b[k - 1]);
    }
}

/// Adding a last term to a filter: the SQL of the shorter filter, its
/// closing bracket put back after the new term's condition with its joining
/// word in front.
proof fn lemma_sqlize_last_term(f: FilterView, sql: Seq<char>, is_first: bool)
    requires
        sqlizable_name(f.name),
        f.args.len() >= 2,
    ensures
        ({
            let shorter = sqlize_spec(FilterView { name: f.name, args: f.args.drop_last() }, sql, is_first);
            shorter.len() > 0 && sqlize_spec(f, sql, is_first) == shorter.drop_last() + arg_clause(
                f.name,
                f.args,
                f.args.len() - 1,
            ) + ")"@
        }),
{
    reveal_strlit(")");
    let n = f.args.len();
    lemma_arg_clauses_prefix(f.name, f.args, f.args.drop_last(), (n - 1) as nat);
    let opener = if is_first {
        "where ("@
    } else {
        "and ("@
    };
    let head = sql + " "@ + opener + arg_clauses(f.name, f.args, (n - 1) as nat);
    let shorter = sqlize_spec(FilterView { name: f.name, args: f.args.drop_last() }, sql, is_first);
    assert(shorter == head + ")"@);
    assert((head + ")"@).drop_last() =~= head);
    assert(sqlize_spec(f, sql, is_first) =~= head + arg_clause(f.name, f.args, n - 1) + ")"@);
}

/// A filter that keeps a record where any one of its terms holds
/// (`tags_inclusive`, `search_inclusive`) joins each term after the first
/// that does not exclude with `or`: its SQL is that of the filter without
/// the term, with `or` and the term's condition put before the closing
/// bracket.
pub proof fn lemma_inclusive_terms_join_with_or(
    name: Seq<char>,
    args: Seq<Seq<char>>,
    sql: Seq<char>,
    is_first: bool,
)
    requires
        name == "tags_inclusive"@ || name == "search_inclusive"@,
        args.len() >= 2,
        !is_excluding(args.last()),
    ensures
        ({
            let shorter = sqlize_spec(FilterView { name, args: args.drop_last() }, sql, is_first);
            sqlize_spec(FilterView { name, args }, sql, is_first) == shorter.drop_last() + "\nor "@
                + " ("@ + term_condition(name, args.last()) + "\n)"@ + ")"@
        }),
{
    lemma_sqlize_last_term(FilterView { name, args }, sql, is_first);
}

/// A filter that keeps a record where all of its terms hold (`tags`,
/// `tags_exclusive`, `search`, `search_exclusive`) joins each term after the
/// first that does not exclude with `and`; a term that excludes joins with
/// `and not` in any filter.
pub proof fn lemma_other_terms_join_with_and(
    name: Seq<char>,
    args: Seq<Seq<char>>,
    sql: Seq<char>,
    is_first: bool,
)
    requires
        sqlizable_name(name),
        args.len() >= 2,
    ensures
        ({
            let shorter = sqlize_spec(FilterView { name, args: args.drop_last() }, sql, is_first);
            let last = args.last();
            &&& (name != "tags_inclusive"@ && name != "search_inclusive"@ && !is_excluding(last))
                ==> sqlize_spec(FilterView { name, args }, sql, is_first) == shorter.drop_last()
                + "\nand "@ + " ("@ + term_condition(name, last) + "\n)"@ + ")"@
            &&& is_excluding(last) ==> sqlize_spec(FilterView { name, args }, sql, is_first)
                == shorter.drop_last() + "\nand not "@ + " ("@ + term_condition(name, last.drop_first())
                + "\n)"@ + ")"@
        }),
{
    lemma_sqlize_last_term(FilterView { name, args }, sql, is_first);
}

fn is_search_exec(name: &str) -> (b: bool)
    ensures
        b == is_search_name(name@),
{
    str_eq(name, "search") || str_eq(name, "search_inclusive") || str_eq(name, "search_exclusive")
}

fn is_tags_exec(name: &str) -> (b: bool)
    ensures
        b == is_tags_name(name@),
{
    str_eq(name, "tags") || str_eq(name, "tags_inclusive") || str_eq(name, "tags_exclusive")
}

fn append_arg_clause(rv: &mut String, name: &str, args: &Vec<String>, i: usize)
    requires
        i < args@.len(),
        sqlizable_name(name@),
    ensures
        final(rv)@ == old(rv)@ + arg_clause(name@, str_views(args@), i as int),
{
    let arg_chars = chars_of(args[i].as_str());
    let excl = arg_chars.len() > 0 && arg_chars[0] == '-';
    let term = if excl {
        string_of(crate::text::sub_chars(&arg_chars, 1, arg_chars.len()).as_slice())
    } else {
        args[i].clone()
    };
    assert(excl ==> term@ =~= arg_chars@.drop_first());
    assert(str_views(args@)[i as int] == args@[i as int]@);
    if excl {
        if i > 0 {
            rv.append("\nand not ");
        } else {
            rv.append("\nnot ");
        }
    } else if i > 0 {
        if str_eq(name, "search_inclusive") || str_eq(name, "tags_inclusive") {
            rv.append("\nor ");
        } else {
            rv.append("\nand ");
        }
    } else {
        assert(rv@ =~= old(rv)@ + Seq::<char>::empty());
    }
    rv.append(" (");
    if is_search_exec(name) {
        rv.append("(Records.Location LIKE \"%");
        rv.append(term.as_str());
        rv.append("%\")");
        rv.append("\nor ");
        rv.append(
            "EXISTS(\n\t\t\t\t\t\t\tSELECT Tags.TagName from Tags\n\t\t\t\t\t\t\tWHERE Tags.RecordID = Records.RecordID\n\t\t\t\t\t\t\tAND Tags.TagName Like '%",
        );
        rv.append(term.as_str());
        rv.append("%'\n\t\t\t\t\t\t)");
    } else {
        rv.append("(\"");
        rv.append(term.as_str());
        rv.append(
            "\" in (\n\t\t\t\t\t\tSELECT Tags.TagName from Tags\n\t\t\t\t\t\tWHERE Tags.RecordID = Records.RecordID))",
        );
    }
    rv.append("\n)");
    assert(rv@ =~= old(rv)@ + arg_clause(name@, str_views(args@), i as int));
}

impl Filter {
    /// A filter with this name and these arguments.
    pub fn new(name: String, args: Vec<String>) -> (r: Result<Filter, MyCustomError>)
        ensures
            r matches Ok(f) && f.name == name && f.args == args,
    {
        Ok(Filter { name: name, args: args })
    }

    /// Whether this filter can be expressed in the SQL query.
    pub fn sqlizable(&self) -> (b: bool)
        ensures
            b == sqlizable_name(self.name@),
    {
        let n = self.name.as_str();
        str_eq(n, "search") || str_eq(n, "search_inclusive") || str_eq(n, "search_exclusive")
            || str_eq(n, "tags") || str_eq(n, "tags_exclusive") || str_eq(n, "tags_inclusive")
    }

    /// Adds this filter's condition to an SQL query. A filter whose condition
    /// was added has its arguments cleared.
    pub fn sqlize(&mut self, sql: String, is_first: bool) -> (res: String)
        ensures
            res@ == sqlize_spec(old(self)@, sql@, is_first),
            final(self).name == old(self).name,
            final(self).args@ == (if sqlizable_name(old(self).name@) && old(self).args@.len() > 0 {
                Seq::<String>::empty()
            } else {
                old(self).args@
            }),
    {
        if !self.sqlizable() || self.args.len() == 0 {
            return sql;
        }
        let mut rv = String::new();
        if is_first {
            rv.append("where (");
        } else {
            rv.append("and (");
        }
        let ghost start = rv@;
        let mut i: usize = 0;
        while i < self.args.len()
            invariant
                i <= self.args.len(),
                sqlizable_name(self.name@),
                rv@ == start + arg_clauses(self.name@, str_views(self.args@), i as nat),
            decreases self.args.len() - i,
        {
            append_arg_clause(&mut rv, self.name.as_str(), &self.args, i);
            assert(start + arg_clauses(self.name@, str_views(self.args@), (i + 1) as nat) =~= start
                + arg_clauses(self.name@, str_views(self.args@), i as nat) + arg_clause(
                self.name@,
                str_views(self.args@),
                i as int,
            ));
            i = i + 1;
        }
        self.args.clear();
        rv.append(")");
        let mut out = sql;
        out.append(" ");
        out.append(rv.as_str());
        assert(out@ =~= sqlize_spec(old(self)@, sql@, is_first));
        out
    }

    /// Applies this filter to records read from the database: orders,
    /// selects or limits them. An unknown name, or a limit that cannot be
    /// read, is an error; so is a missing list.
    pub fn execute(&self, records: Option<Vec<Record>>) -> (r: Result<Option<Vec<Record>>, MyCustomError>)
        ensures
            match records {
                None => r matches Err(MyCustomError::UnknownError),
                Some(rs) => execute_outcome(
                    filter_kind(self.name@),
                    str_views(self.args@),
                    record_views(rs@),
                    r,
                ),
            },
    {
        let records = match records {
            Some(rs) => rs,
            None => {
                return Err(MyCustomError::UnknownError);
            },
        };
        let ghost v = record_views(records@);
        let kind = classify(self.name.as_str());
        match kind {
            FilterKind::Random => {
                let out = shuffle_records(&records);
                Ok(Some(out))
            },
            FilterKind::Reverse => {
                let out = reverse_records(&records);
                Ok(Some(out))
            },
            FilterKind::Sort { key, desc } => {
                let out = sort_records(&records, key, desc);
                Ok(Some(out))
            },
            FilterKind::Limit => {
                if self.args.len() == 0 {
                    return Ok(Some(records));
                }
                assert(str_views(self.args@)[0] == self.args@[0]@);
                match limit_records(&records, self.args[0].as_str()) {
                    Ok(out) => Ok(Some(out)),
                    Err(e) => Err(e),
                }
            },
            FilterKind::Nothing => Ok(Some(records)),
            FilterKind::Unknown => Err(MyCustomError::UnknownError),
            _ => {
                let out = select_records(&records, &kind, &self.args);
                Ok(Some(out))
            },
        }
    }
}

/// What a filter produces from the records `v`.
pub open spec fn produces(kind: FilterKind, args: Seq<Seq<char>>, v: Seq<RecordView>, out: Seq<
    RecordView,
>) -> bool {
    match kind {
        FilterKind::Random => exists|p: Seq<usize>|
            #![trigger permuted(v, p)]
            is_permutation(p, v.len()) && out == permuted(v, p),
        FilterKind::Reverse => out == v.reverse(),
        FilterKind::Sort { key, desc } => exists|p: Seq<usize>|
            #![trigger permuted(v, p)]
            is_stable_order(sort_keys(key, v), desc, p) && out == permuted(v, p),
        FilterKind::Limit => if args.len() == 0 {
            out == v
        } else {
            limit_spec(v, args[0]) == Some(out)
        },
        FilterKind::Nothing => out == v,
        FilterKind::Unknown => false,
        _ => out == v.filter(|r: RecordView| keeps(kind, args, r)),
    }
}

/// When a filter fails on the records `v`: an unknown name, or a limit that
/// cannot be applied.
pub open spec fn fails(kind: FilterKind, args: Seq<Seq<char>>, v: Seq<RecordView>) -> bool {
    ||| kind is Unknown
    ||| (kind is Limit && args.len() > 0 && limit_spec(v, args[0]) is None)
}

/// The outcome of a filter: the records it produces, or an error exactly
/// when it fails.
pub open spec fn execute_outcome(
    kind: FilterKind,
    args: Seq<Seq<char>>,
    v: Seq<RecordView>,
    r: Result<Option<Vec<Record>>, MyCustomError>,
) -> bool {
    match r {
        Ok(Some(out)) => !fails(kind, args, v) && produces(kind, args, v, record_views(out@)),
        Ok(None) => false,
        Err(e) => fails(kind, args, v) && (kind is Unknown ==> e is UnknownError),
    }
}

// ---------------------------------------------------------------------------
// Searchers
/// The arguments of a search split at each `-sort`.
pub open spec fn segments(args: Seq<Seq<char>>) -> Seq<Seq<Seq<char>>>
    decreases args.len(),
{
    if args.len() == 0 {
        seq![Seq::<Seq<char>>::empty()]
    } else {
        let prev = segments(args.drop_last());
        if args.last() == "-sort"@ {
            prev.push(Seq::<Seq<char>>::empty())
        } else {
            prev.update(prev.len() - 1, prev.last().push(args.last()))
        }
    }
}

proof fn lemma_segments_nonempty(args: Seq<Seq<char>>)
    ensures
        segments(args).len() >= 1,
    decreases args.len(),
{
    if args.len() > 0 {
        lemma_segments_nonempty(args.drop_last());
    }
}

/// The filter a segment of arguments names: its first word is the name.
pub open spec fn segment_filter(seg: Seq<Seq<char>>) -> FilterView {
    FilterView { name: seg[0], args: seg.drop_first() }
}

pub open spec fn nonempty_segment(seg: Seq<Seq<char>>) -> bool {
    seg.len() > 0
}

/// The filters of a search: one for each nonempty segment.
pub open spec fn filters_of(segs: Seq<Seq<Seq<char>>>) -> Seq<FilterView> {
    segs.filter(|s: Seq<Seq<char>>| nonempty_segment(s)).map_values(
        |s: Seq<Seq<char>>| segment_filter(s),
    )
}

proof fn lemma_filters_of_push(segs: Seq<Seq<Seq<char>>>, seg: Seq<Seq<char>>)
    ensures
        filters_of(segs.push(seg)) == (if seg.len() > 0 {
            filters_of(segs).push(segment_filter(seg))
        } else {
            filters_of(segs)
        }),
{
    reveal(Seq::filter);
    assert(segs.push(seg).drop_last() =~= segs);
    let p = |s: Seq<Seq<char>>| nonempty_segment(s);
    assert(segs.push(seg).filter(p) == (if seg.len() > 0 {
        segs.filter(p).push(seg)
    } else {
        segs.filter(p)
    }));
    assert(filters_of(segs.push(seg)) =~= (if seg.len() > 0 {
        filters_of(segs).push(segment_filter(seg))
    } else {
        filters_of(segs)
    }));
}

/// A search: the filters to apply, in order.
#[derive(Debug)]
pub struct Searcher {
    filters: Vec<Filter>,
}

impl View for Searcher {
    type V = Seq<FilterView>;

    closed spec fn view(&self) -> Seq<FilterView> {
        filter_views(self.filters@)
    }
}

/// How many filters at the front can be expressed in SQL.
pub open spec fn sqlizable_prefix(fs: Seq<FilterView>) -> nat
    decreases fs.len(),
{
    if fs.len() > 0 && sqlizable_name(fs[0].name) {
        1 + sqlizable_prefix(fs.drop_first())
    } else {
        0
    }
}

/// The query with the conditions of the filters `fs` added in turn.
pub open spec fn sqlize_all(sql: Seq<char>, fs: Seq<FilterView>, is_first: bool) -> Seq<char>
    decreases fs.len(),
{
    if fs.len() == 0 {
        sql
    } else {
        sqlize_all(sqlize_spec(fs[0], sql, is_first), fs.drop_first(), false)
    }
}

proof fn lemma_sqlize_all_step(sql: Seq<char>, fs: Seq<FilterView>, k: int)
    requires
        0 <= k < fs.len(),
    ensures
        sqlize_all(sql, fs.take(k + 1), true) == sqlize_spec(
            fs[k],
            sqlize_all(sql, fs.take(k), true),
            k == 0,
        ),
    decreases k,
{
    assert(fs.take(k + 1)[0] == fs[0]);
    if k == 0 {
        assert(fs.take(1).drop_first() =~= Seq::<FilterView>::empty());
        assert(fs.take(0) =~= Seq::<FilterView>::empty());
        assert(sqlize_all(sql, fs.take(1), true) == sqlize_all(
            sqlize_spec(fs[0], sql, true),
            fs.take(1).drop_first(),
            false,
        ));
    } else {
        assert(fs.take(k)[0] == fs[0]);
        let s1 = sqlize_spec(fs[0], sql, true);
        assert(fs.take(k + 1).drop_first() =~= fs.drop_first().take(k));
        assert(fs.take(k).drop_first() =~= fs.drop_first().take(k - 1));
        assert(fs.drop_first()[k - 1] == fs[k]);
        lemma_sqlize_all_step_false(s1, fs.drop_first(), k - 1);
    }
}

proof fn lemma_sqlize_all_step_false(sql: Seq<char>, fs: Seq<FilterView>, k: int)
    requires
        0 <= k < fs.len(),
    ensures
        sqlize_all(sql, fs.take(k + 1), false) == sqlize_spec(
            fs[k],
            sqlize_all(sql, fs.take(k), false),
            false,
        ),
    decreases k,
{
    assert(fs.take(k + 1)[0] == fs[0]);
    if k == 0 {
        assert(fs.take(1).drop_first() =~= Seq::<FilterView>::empty());
        assert(fs.take(0) =~= Seq::<FilterView>::empty());
        assert(sqlize_all(sql, fs.take(1), false) == sqlize_all(
            sqlize_spec(fs[0], sql, false),
            fs.take(1).drop_first(),
            false,
        ));
    } else {
        assert(fs.take(k)[0] == fs[0]);
        let s1 = sqlize_spec(fs[0], sql, false);
        assert(fs.take(k + 1).drop_first() =~= fs.drop_first().take(k));
        assert(fs.take(k).drop_first() =~= fs.drop_first().take(k - 1));
        assert(fs.drop_first()[k - 1] == fs[k]);
        lemma_sqlize_all_step_false(s1, fs.drop_first(), k - 1);
    }
}

proof fn lemma_sqlizable_prefix(fs: Seq<FilterView>, k: int)
    requires
        0 <= k <= fs.len(),
        forall|j: int| 0 <= j < k ==> sqlizable_name(#[trigger] fs[j].name),
        k < fs.len() ==> !sqlizable_name(fs[k].name),
    ensures
        sqlizable_prefix(fs) == k,
    decreases k,
{
    if k > 0 {
        assert forall|j: int| 0 <= j < k - 1 implies sqlizable_name(
            #[trigger] fs.drop_first()[j].name,
        ) by {
            assert(fs.drop_first()[j] == fs[j + 1]);
        }
        lemma_sqlizable_prefix(fs.drop_first(), k - 1);
    }
}

impl Searcher {
    /// Reads search arguments: they are split at each `-sort`, and each
    /// nonempty part is a filter named by its first word.
    pub fn new(args: Vec<String>) -> (r: Result<Searcher, MyCustomError>)
        ensures
            r matches Ok(s) && s@ == filters_of(segments(str_views(args@))),
    {
        let ghost a = str_views(args@);
        let mut filters: Vec<Filter> = Vec::new();
        let mut name: Option<String> = None;
        let mut current: Vec<String> = Vec::new();
        let mut i: usize = 0;
        while i < args.len()
            invariant
                a == str_views(args@),
                i <= args.len(),
                ({
                    let sg = segments(a.take(i as int));
                    &&& filter_views(filters@) == filters_of(sg.drop_last())
                    &&& match name {
                        None => sg.last().len() == 0 && current@.len() == 0,
                        Some(n) => sg.last() == seq![n@] + str_views(current@),
                    }
                }),
            decreases args.len() - i,
        {
            proof {
                lemma_segments_nonempty(a.take(i as int));
                assert(a.take(i + 1).drop_last() =~= a.take(i as int));
                assert(a.take(i + 1).last() == args@[i as int]@);
            }
            let ghost sg = segments(a.take(i as int));
            if str_eq(args[i].as_str(), "-sort") {
                assert(segments(a.take(i + 1)) == sg.push(Seq::<Seq<char>>::empty()));
                assert(sg.push(Seq::<Seq<char>>::empty()).drop_last() =~= sg);
                proof {
                    assert(sg =~= sg.drop_last().push(sg.last()));
                    lemma_filters_of_push(sg.drop_last(), sg.last());
                }
                match name {
                    Some(n) => {
                        let f = Filter { name: n, args: current };
                        proof {
                            lemma_filter_views_push(filters@, f);
                            assert(f@.args =~= sg.last().drop_first());
                            assert(sg.last()[0] == f@.name);
                        }
                        filters.push(f);
                        name = None;
                        current = Vec::new();
                    },
                    None => {},
                }
            } else {
                let arg = args[i].clone();
                let ghost nsg = sg.update(sg.len() - 1, sg.last().push(arg@));
                assert(segments(a.take(i + 1)) == nsg);
                assert(nsg.drop_last() =~= sg.drop_last());
                match name {
                    None => {
                        assert(nsg.last() =~= seq![arg@] + str_views(current@));
                        name = Some(arg);
                    },
                    Some(n) => {
                        let ghost old_cur = current@;
                        current.push(arg);
                        assert(str_views(current@) =~= str_views(old_cur).push(arg@));
                        assert(nsg.last() =~= seq![n@] + str_views(current@));
                        name = Some(n);
                    },
                }
            }
            i = i + 1;
        }
        proof {
            lemma_segments_nonempty(a.take(i as int));
            assert(a.take(i as int) =~= a);
        }
        let ghost sg = segments(a);
        proof {
            assert(sg =~= sg.drop_last().push(sg.last()));
            lemma_filters_of_push(sg.drop_last(), sg.last());
        }
        match name {
            Some(n) => {
                let f = Filter { name: n, args: current };
                proof {
                    lemma_filter_views_push(filters@, f);
                    assert(f@.args =~= sg.last().drop_first());
                    assert(sg.last()[0] == f@.name);
                }
                filters.push(f);
            },
            None => {},
        }
        Ok(Searcher { filters: filters })
    }

    /// Adds the conditions of the leading SQL-expressible filters to the
    /// query and drops those filters; the others stay for `execute`.
    pub fn format_query(&mut self, query: &str) -> (res: String)
        ensures
            res@ == sqlize_all(query@, old(self)@.take(sqlizable_prefix(old(self)@) as int), true),
            final(self)@ == old(self)@.skip(sqlizable_prefix(old(self)@) as int),
    {
        let ghost fs = self@;
        let mut sql = string_of(chars_of(query).as_slice());
        let mut count: usize = 0;
        let mut is_first = true;
        while count < self.filters.len()
            invariant
                count <= self.filters.len(),
                filter_views(self.filters@).skip(count as int) == fs.skip(count as int),
                self.filters@.len() == fs.len(),
                forall|j: int| 0 <= j < count ==> sqlizable_name(#[trigger] fs[j].name),
                sql@ == sqlize_all(query@, fs.take(count as int), true),
                is_first == (count == 0),
            ensures
                count <= self.filters.len(),
                filter_views(self.filters@).skip(count as int) == fs.skip(count as int),
                self.filters@.len() == fs.len(),
                forall|j: int| 0 <= j < count ==> sqlizable_name(#[trigger] fs[j].name),
                sql@ == sqlize_all(query@, fs.take(count as int), true),
                count < fs.len() ==> !sqlizable_name(fs[count as int].name),
            decreases self.filters.len() - count,
        {
            assert(fs[count as int] == filter_views(self.filters@).skip(count as int)[0]);
            if !self.filters[count].sqlizable() {
                break;
            }
            proof {
                lemma_sqlize_all_step(query@, fs, count as int);
            }
            let mut f = self.filters.remove(count);
            sql = f.sqlize(sql, is_first);
            self.filters.insert(count, f);
            proof {
                assert(filter_views(self.filters@).skip(count + 1) =~= fs.skip(count + 1)) by {
                    assert forall|j: int| 0 <= j < fs.len() - count - 1 implies #[trigger] filter_views(
                        self.filters@,
                    ).skip(count + 1)[j] == fs.skip(count + 1)[j] by {
                        assert(filter_views(self.filters@).skip(count + 1)[j] == self.filters@[count
                            + 1 + j]@);
                        assert(fs.skip(count as int)[j + 1] == fs.skip(count + 1)[j]);
                    }
                }
            }
            is_first = false;
            count = count + 1;
        }
        proof {
            assert(fs.skip(count as int).len() > 0 ==> fs.skip(count as int)[0] == fs[count as int]);
            lemma_sqlizable_prefix(fs, count as int);
        }
        let ghost before = self.filters@;
        let rest = self.filters.split_off(count);
        self.filters = rest;
        assert(filter_views(self.filters@) =~= filter_views(before).skip(count as int));
        sql
    }

    /// The filters still to apply.
    pub fn filters(&self) -> (f: &Vec<Filter>)
        ensures
            filter_views(f@) == self@,
    {
        &self.filters
    }
}

// ---------------------------------------------------------------------------
// Rows into records
/// One row of the records-with-tags query: a record and the tag of this row,
/// if any.
pub struct RecordRow {
    pub record: Record,
    pub tag: Option<String>,
}

/// A record with one more tag, kept once.
pub open spec fn with_tag(r: RecordView, t: Seq<char>) -> RecordView {
    if r.tags.contains(t) {
        r
    } else {
        RecordView { tags: r.tags.push(t), ..r }
    }
}

/// The record a row starts.
pub open spec fn row_record(row: RecordRow) -> RecordView {
    match row.tag {
        Some(t) => with_tag(row.record@, t@),
        None => row.record@,
    }
}

/// Reading rows one by one: finished records, and the record being built.
/// A row with the current record's id adds its tag to it; a row with another
/// id finishes the current record and starts a new one. A row with the
/// current id and no tag starts the record afresh.
pub open spec fn group_state(rows: Seq<RecordRow>) -> (Seq<RecordView>, Option<RecordView>)
    decreases rows.len(),
{
    if rows.len() == 0 {
        (Seq::<RecordView>::empty(), None)
    } else {
        let s = group_state(rows.drop_last());
        let row = rows.last();
        match s.1 {
            Some(c) => if c.id == row.record.RecordID {
                match row.tag {
                    Some(t) => (s.0, Some(with_tag(c, t@))),
                    None => (s.0, Some(row_record(row))),
                }
            } else {
                (s.0.push(c), Some(row_record(row)))
            },
            None => (s.0, Some(row_record(row))),
        }
    }
}

/// The records that the rows describe.
pub open spec fn grouped_records(rows: Seq<RecordRow>) -> Seq<RecordView> {
    let s = group_state(rows);
    match s.1 {
        Some(c) => s.0.push(c),
        None => s.0,
    }
}

/// Adds a tag to a record unless it has it already.
pub fn add_tag_once(r: &mut Record, tag: String)
    ensures
        final(r)@ == with_tag(old(r)@, tag@),
{
    if crate::text::contains_str(&r.Tags, tag.as_str()) {
        return;
    }
    let ghost old_tags = r.Tags@;
    r.Tags.push(tag);
    assert(str_views(r.Tags@) =~= str_views(old_tags).push(tag@));
}

/// Turns the rows of the records-with-tags query into records.
pub fn group_rows(rows: Vec<RecordRow>) -> (records: Vec<Record>)
    ensures
        record_views(records@) == grouped_records(rows@),
{
    let ghost all = rows@;
    let mut records: Vec<Record> = Vec::new();
    let mut current: Option<Record> = None;
    let mut rows = rows;
    let n = rows.len();
    assert(all.len() == n);
    let mut i: usize = 0;
    while rows.len() > 0
        invariant
            i + rows.len() == all.len(),
            all.len() <= usize::MAX,
            rows@ == all.skip(i as int),
            ({
                let s = group_state(all.take(i as int));
                &&& record_views(records@) == s.0
                &&& match current {
                    Some(c) => s.1 == Some(c@),
                    None => s.1 is None,
                }
            }),
        decreases rows.len(),
    {
        let row = rows.remove(0);
        proof {
            assert(row == all[i as int]);
            assert(all.take(i + 1).drop_last() =~= all.take(i as int));
            assert(all.take(i + 1).last() == row);
        }
        let RecordRow { record, tag } = row;
        let same = match &current {
            Some(c) => c.RecordID == record.RecordID,
            None => false,
        };
        let has_tag = tag.is_some();
        if same && has_tag {
            match (current, tag) {
                (Some(mut c), Some(t)) => {
                    add_tag_once(&mut c, t);
                    current = Some(c);
                },
                _ => {
                    current = None;
                },
            }
        } else {
            if !same {
                match current {
                    Some(c) => {
                        proof {
                            lemma_record_views_push(records@, c);
                        }
                        records.push(c);
                    },
                    None => {},
                }
            }
            let mut fresh = record;
            match tag {
                Some(t) => {
                    add_tag_once(&mut fresh, t);
                },
                None => {},
            }
            current = Some(fresh);
        }
        i = i + 1;
        assert(rows@ =~= all.skip(i as int));
    }
    assert(all.take(i as int) =~= all);
    match current {
        Some(c) => {
            proof {
                lemma_record_views_push(records@, c);
            }
            records.push(c);
        },
        None => {},
    }
    records
}

/// Some record carries the tag `t`.
pub open spec fn carries(v: Seq<RecordView>, t: Seq<char>) -> bool {
    exists|i: int| 0 <= i < v.len() && #[trigger] v[i].tags.contains(t)
}

/// The tags that the records carry, each once.
pub fn collect_tags(records: &Vec<Record>) -> (tags: Vec<String>)
    ensures
        forall|t: Seq<char>| str_views(tags@).contains(t) <==> carries(record_views(records@), t),
        str_views(tags@).no_duplicates(),
{
    let ghost v = record_views(records@);
    let mut tags: Vec<String> = Vec::new();
    let mut i: usize = 0;
    while i < records.len()
        invariant
            i <= records.len(),
            v == record_views(records@),
            str_views(tags@).no_duplicates(),
            forall|t: Seq<char>| str_views(tags@).contains(t) <==> carries(v.take(i as int), t),
        decreases records.len() - i,
    {
        let mut j: usize = 0;
        let ghost tv = str_views(records@[i as int].Tags@);
        while j < records[i].Tags.len()
            invariant
                i < records.len(),
                j <= records@[i as int].Tags.len(),
                v == record_views(records@),
                tv == str_views(records@[i as int].Tags@),
                str_views(tags@).no_duplicates(),
                forall|t: Seq<char>|
                    str_views(tags@).contains(t) <==> (carries(v.take(i as int), t) || tv.take(
                        j as int,
                    ).contains(t)),
            decreases records@[i as int].Tags.len() - j,
        {
            let t = &records[i].Tags[j];
            assert(tv.take(j + 1) =~= tv.take(j as int).push(t@));
            assert(tv[j as int] == t@);
            let ghost prev = str_views(tags@);
            assert(forall|x: Seq<char>|
                #[trigger] prev.contains(x) <==> (carries(v.take(i as int), x) || tv.take(
                    j as int,
                ).contains(x)));
            if !crate::text::contains_str(&tags, t.as_str()) {
                tags.push(t.clone());
                assert(str_views(tags@) =~= prev.push(t@));
                proof {
                    assert forall|a: int, b: int|
                        0 <= a < str_views(tags@).len() && 0 <= b < str_views(tags@).len() && a
                            != b implies str_views(tags@)[a] != str_views(tags@)[b] by {
                        if a == prev.len() {
                            assert(str_views(tags@)[b] == prev[b]);
                            assert(str_views(tags@)[a] == t@);
                        } else if b == prev.len() {
                            assert(prev[a] == str_views(tags@)[a]);
                            assert(str_views(tags@)[b] == t@);
                        } else {
                            assert(prev[a] == str_views(tags@)[a]);
                            assert(prev[b] == str_views(tags@)[b]);
                        }
                    }
                }
            }
            assert forall|x: Seq<char>|
                str_views(tags@).contains(x) <==> (prev.contains(x) || x == t@) by {
                if str_views(tags@).contains(x) {
                    let k = choose|k: int|
                        0 <= k < str_views(tags@).len() && #[trigger] str_views(tags@)[k] == x;
                    if k < prev.len() {
                        assert(prev[k] == x);
                    }
                }
                if prev.contains(x) {
                    let k = choose|k: int| 0 <= k < prev.len() && #[trigger] prev[k] == x;
                    assert(str_views(tags@)[k] == x);
                }
                if x == t@ && !prev.contains(x) {
                    assert(str_views(tags@)[prev.len() as int] == x);
                }
            }
            assert forall|x: Seq<char>|
                str_views(tags@).contains(x) <==> (carries(v.take(i as int), x) || tv.take(
                    j + 1,
                ).contains(x)) by {
                assert(prev.contains(x) <==> (carries(v.take(i as int), x) || tv.take(
                    j as int,
                ).contains(x)));
                assert(str_views(tags@).contains(x) <==> (prev.contains(x) || x == t@));
                if x == t@ {
                    assert(tv.take(j + 1)[j as int] == x);
                }
                if tv.take(j + 1).contains(x) && !tv.take(j as int).contains(x) {
                    let k = choose|k: int| 0 <= k < j + 1 && #[trigger] tv.take(j + 1)[k] == x;
                    if k < j {
                        assert(tv.take(j as int)[k] == x);
                    }
                }
                if tv.take(j as int).contains(x) {
                    let k = choose|k: int| 0 <= k < j && #[trigger] tv.take(j as int)[k] == x;
                    assert(tv.take(j + 1)[k] == x);
                }
            }
            j = j + 1;
        }
        proof {
            assert(tv.take(j as int) =~= tv);
            assert(v[i as int].tags == tv);
            assert forall|x: Seq<char>|
                str_views(tags@).contains(x) <==> carries(v.take(i + 1), x) by {
                if carries(v.take(i + 1), x) {
                    let k = choose|k: int|
                        0 <= k < i + 1 && #[trigger] v.take(i + 1)[k].tags.contains(x);
                    if k < i {
                        assert(v.take(i as int)[k].tags.contains(x));
                    }
                }
                if carries(v.take(i as int), x) {
                    let k = choose|k: int|
                        0 <= k < i && #[trigger] v.take(i as int)[k].tags.contains(x);
                    assert(v.take(i + 1)[k].tags.contains(x));
                }
                if tv.contains(x) {
                    assert(v.take(i + 1)[i as int].tags.contains(x));
                }
            }
        }
        i = i + 1;
    }
    assert(v.take(i as int) =~= v);
    tags
}

/// What applying filters in turn produces from the records `v`: each filter
/// produces the input of the next.
pub open spec fn pipeline(fs: Seq<FilterView>, v: Seq<RecordView>, out: Seq<RecordView>) -> bool
    decreases fs.len(),
{
    if fs.len() == 0 {
        out == v
    } else {
        exists|mid: Seq<RecordView>|
            #![trigger produces(filter_kind(fs[0].name), fs[0].args, v, mid)]
            !fails(filter_kind(fs[0].name), fs[0].args, v) && produces(
                filter_kind(fs[0].name),
                fs[0].args,
                v,
                mid,
            ) && pipeline(fs.drop_first(), mid, out)
    }
}

/// Whether applying the filters in turn to `v` can fail at some filter.
pub open spec fn may_fail(fs: Seq<FilterView>, v: Seq<RecordView>) -> bool
    decreases fs.len(),
{
    fs.len() > 0 && (fails(filter_kind(fs[0].name), fs[0].args, v) || exists|mid: Seq<RecordView>|
        #![trigger produces(filter_kind(fs[0].name), fs[0].args, v, mid)]
        produces(filter_kind(fs[0].name), fs[0].args, v, mid) && may_fail(fs.drop_first(), mid))
}

proof fn lemma_may_fail_at(fs: Seq<FilterView>, k: int, v0: Seq<RecordView>, mid: Seq<RecordView>)
    requires
        0 <= k < fs.len(),
        pipeline(fs.take(k), v0, mid),
        fails(filter_kind(fs[k].name), fs[k].args, mid),
    ensures
        may_fail(fs, v0),
    decreases k,
{
    if k == 0 {
        assert(fs.take(0).len() == 0);
        assert(mid == v0);
    } else {
        assert(fs.take(k).len() == k);
        assert(fs.take(k)[0] == fs[0]);
        let m = choose|m: Seq<RecordView>|
            #![trigger produces(filter_kind(fs.take(k)[0].name), fs.take(k)[0].args, v0, m)]
            !fails(filter_kind(fs.take(k)[0].name), fs.take(k)[0].args, v0) && produces(
                filter_kind(fs.take(k)[0].name),
                fs.take(k)[0].args,
                v0,
                m,
            ) && pipeline(fs.take(k).drop_first(), m, mid);
        assert(fs.take(k).drop_first() =~= fs.drop_first().take(k - 1));
        assert(fs.drop_first()[k - 1] == fs[k]);
        lemma_may_fail_at(fs.drop_first(), k - 1, m, mid);
        assert(produces(filter_kind(fs[0].name), fs[0].args, v0, m));
    }
}

impl Searcher {
    /// Applies the remaining filters in turn to records read from the
    /// database, stopping at the first that fails.
    pub fn apply_filters(&self, records: Vec<Record>) -> (r: Result<Vec<Record>, MyCustomError>)
        ensures
            r matches Ok(out) ==> pipeline(self@, record_views(records@), record_views(out@)),
            r is Err ==> may_fail(self@, record_views(records@)),
    {
        let mut current = records;
        let ghost fs = self@;
        let ghost v0 = record_views(current@);
        // After each step the filters so far form a pipeline from the input
        // to the current records.
        let mut k: usize = 0;
        while k < self.filters.len()
            invariant
                k <= self.filters.len(),
                fs == self@,
                fs.len() == self.filters@.len(),
                v0 == record_views(records@),
                pipeline(fs.take(k as int), v0, record_views(current@)),
            decreases self.filters.len() - k,
        {
            let ghost before = record_views(current@);
            assert(fs[k as int] == self.filters@[k as int]@);
            match self.filters[k].execute(Some(current)) {
                Ok(Some(next)) => {
                    proof {
                        lemma_pipeline_extend(fs, k as int, v0, before, record_views(next@));
                    }
                    current = next;
                },
                Ok(None) => {
                    return Err(MyCustomError::UnknownError);
                },
                Err(e) => {
                    proof {
                        lemma_may_fail_at(fs, k as int, v0, before);
                    }
                    return Err(e);
                },
            }
            k = k + 1;
        }
        assert(fs.take(k as int) =~= fs);
        Ok(current)
    }
}

proof fn lemma_pipeline_extend(
    fs: Seq<FilterView>,
    k: int,
    v0: Seq<RecordView>,
    mid: Seq<RecordView>,
    out: Seq<RecordView>,
)
    requires
        0 <= k < fs.len(),
        pipeline(fs.take(k), v0, mid),
        !fails(filter_kind(fs[k].name), fs[k].args, mid),
        produces(filter_kind(fs[k].name), fs[k].args, mid, out),
    ensures
        pipeline(fs.take(k + 1), v0, out),
    decreases k,
{
    assert(fs.take(k + 1)[0] == fs[0]);
    assert(fs.take(k + 1).len() == k + 1);
    if k == 0 {
        assert(fs.take(1).drop_first() =~= Seq::<FilterView>::empty());
        assert(fs.take(0).len() == 0);
        assert(mid == v0);
        assert(pipeline(fs.take(1).drop_first(), out, out));
        assert(pipeline(fs.take(1), v0, out));
    } else {
        assert(fs.take(k).len() == k);
        assert(exists|m: Seq<RecordView>|
            #![trigger produces(filter_kind(fs.take(k)[0].name), fs.take(k)[0].args, v0, m)]
            !fails(filter_kind(fs.take(k)[0].name), fs.take(k)[0].args, v0) && produces(
                filter_kind(fs.take(k)[0].name),
                fs.take(k)[0].args,
                v0,
                m,
            ) && pipeline(fs.take(k).drop_first(), m, mid));
        assert(fs.take(k)[0] == fs[0]);
        assert(fs.drop_first()[k - 1] == fs[k]);
        let m = choose|m: Seq<RecordView>|
            #![trigger produces(filter_kind(fs.take(k)[0].name), fs.take(k)[0].args, v0, m)]
            !fails(filter_kind(fs.take(k)[0].name), fs.take(k)[0].args, v0) && produces(
                filter_kind(fs.take(k)[0].name),
                fs.take(k)[0].args,
                v0,
                m,
            ) && pipeline(fs.take(k).drop_first(), m, mid);
        assert(fs.take(k).drop_first() =~= fs.drop_first().take(k - 1));
        assert(fs.take(k + 1).drop_first() =~= fs.drop_first().take(k));
        lemma_pipeline_extend(fs.drop_first(), k - 1, m, mid, out);
        assert(pipeline(fs.take(k + 1).drop_first(), m, out));
    }
}

} // verus!
