//! The write side of the database. Every change is a query; queries are
//! gathered into batches and handed to the writer in the order they were made.
use vstd::prelude::*;
use crate::models::{Record, Timestamp};
use crate::paths::{location_relative_to_base, relative_location};
use crate::patterns::regex_compiles;
use crate::recommender::{location_words, tag_key, tag_value, TagRecommender, NOT_WORD_PATTERN};
use crate::text::{i64_text, int_text, lowercase, str_views, to_lowercase, trim, trim_str};

verus! {

/// A parameter of a query.
pub enum Sqlizable {
    Text(String),
    Number(i64),
    /// A moment; `None` is SQL `NULL`.
    Date(Option<Timestamp>),
    Boolean(bool),
}

/// The value of a parameter.
pub enum SqlValue {
    Text(Seq<char>),
    Number(i64),
    Date(Option<Timestamp>),
    Boolean(bool),
}

impl View for Sqlizable {
    type V = SqlValue;

    open spec fn view(&self) -> SqlValue {
        match self {
            Sqlizable::Text(s) => SqlValue::Text(s@),
            Sqlizable::Number(n) => SqlValue::Number(*n),
            Sqlizable::Date(d) => SqlValue::Date(*d),
            Sqlizable::Boolean(b) => SqlValue::Boolean(*b),
        }
    }
}

/// A statement and its parameters.
pub struct Query {
    pub sql: String,
    pub params: Vec<Sqlizable>,
}

/// The value of a query.
pub struct QueryView {
    pub sql: Seq<char>,
    pub params: Seq<SqlValue>,
}

impl View for Query {
    type V = QueryView;

    open spec fn view(&self) -> QueryView {
        QueryView { sql: self.sql@, params: self.params@.map_values(|p: Sqlizable| p@) }
    }
}

pub open spec fn query_views(q: Seq<Query>) -> Seq<QueryView> {
    q.map_values(|x: Query| x@)
}

pub open spec fn batch_views(b: Seq<Vec<Query>>) -> Seq<Seq<QueryView>> {
    b.map_values(|v: Vec<Query>| query_views(v@))
}

/// The queries of the batches, batch after batch.
pub open spec fn flatten(b: Seq<Seq<QueryView>>) -> Seq<QueryView>
    decreases b.len(),
{
    if b.len() == 0 {
        Seq::empty()
    } else {
        flatten(b.drop_last()) + b.last()
    }
}

pub proof fn lemma_flatten_push(b: Seq<Seq<QueryView>>, x: Seq<QueryView>)
    ensures
        flatten(b.push(x)) == flatten(b) + x,
{
    assert(b.push(x).drop_last() =~= b);
}

pub const INSERT_RECORD_SQL: &'static str = "
\t\t\tINSERT INTO records (
\t\t\t\tName,
\t\t\t\tLocation,

\t\t\t\tSize,
\t\t\t\tLength,
\t\t\t\tTimesOpened,

\t\t\t\tDateAdded,
\t\t\t\tDateCreated,
\t\t\t\tDateLastAccessed,

\t\t\t\tHaveManuallyTouched,
\t\t\t\tImported
\t\t\t)
\t\t\tVALUES (?, ?, ?, ?, ?, ?, ?, ?, ?, ?)";

pub const UPDATE_RECORD_BY_LOCATION_SQL: &'static str = "UPDATE records
\t\t\tSET
\t\t\t\tName = ?,
\t\t\t\tLocation = ?,

\t\t\t\tSize = ?,
\t\t\t\tLength = ?,
\t\t\t\tTimesOpened = ?,

\t\t\t\tDateAdded = ?,
\t\t\t\tDateCreated = ?,
\t\t\t\tDateLastAccessed = ?,

\t\t\t\tHaveManuallyTouched = ?,
\t\t\t\tImported = ?
\t\t\tWHERE Records.Location = ?";

pub const UPDATE_LOCATION_SQL: &'static str = "UPDATE Records SET Location = ?
\t\t\tWHERE Records.RecordID = ?";

pub const DELETE_RECORD_SQL: &'static str = "DELETE FROM Records WHERE RecordID=?";

pub const INSERT_TAG_SQL: &'static str = "INSERT INTO Tags (RecordID, TagName, DateAdded) VALUES (?1, ?2, ?3)";

pub const INSERT_TAG_BY_LOCATION_SQL: &'static str = "INSERT INTO Tags (RecordID, TagName, DateAdded)
\t\t\tSELECT RecordID, ?, ?
\t\t\tFROM Records WHERE Records.Location = ?";

pub const UPSERT_GRABBAG_SQL: &'static str = "REPLACE INTO grabbag (RecordID, Key, Value) VALUES(?, ?, ?)";

pub const UPSERT_GRABBAG_BY_LOCATION_SQL: &'static str = "REPLACE INTO grabbag (RecordID, Key, Value)
\t\t\tSELECT RecordID, ?, ?
\t\t\tFROM Records WHERE Records.Location = ?";

pub const DELETE_GRABBAG_SQL: &'static str = "DELETE FROM grabbag WHERE RecordID = ?1 AND Key = ?2";

pub const DELETE_GRABBAG_BY_LOCATION_SQL: &'static str = "DELETE FROM grabbag WHERE Location = ?1 AND Key = ?2";

pub const SET_TIMES_OPENED_SQL: &'static str = "UPDATE Records SET TimesOpened = ?
\t\t\tWHERE Records.RecordID = ?";

pub const SET_TOUCHED_SQL: &'static str = "UPDATE Records SET HaveManuallyTouched = ?
\t\t\tWHERE Records.RecordID = ?";

pub const DELETE_TAG_SQL: &'static str = "DELETE FROM Tags WHERE RecordID = ?1 AND TagName = ?2";

/// Calls `chrono::Utc::now` and gives its seconds since the Unix epoch and
/// the nanoseconds past them. Nothing is promised of the value: it is the
/// time of the call. `Utc::now` panics where the machine's clock reads a
/// time before 1970.
#[verifier::external_body]
fn now_stamp() -> Timestamp {
    let now = chrono::Utc::now();
    Timestamp { secs: now.timestamp(), nanos: now.timestamp_subsec_nanos() }
}

/// Queues the changes to the database and hands them out in batches.
pub struct Database {
    batching_count: i32,
    batch: Vec<Query>,
    outbox: Vec<Vec<Query>>,
    max_batch_size: usize,
    recommender: Option<TagRecommender>,
    written: Ghost<Seq<QueryView>>,
    delivered: Ghost<Seq<QueryView>>,
}


impl Database {
    /// Everything written so far, in order.
    pub closed spec fn written(&self) -> Seq<QueryView> {
        self.written@
    }

    /// What the writer has taken so far, in order.
    pub closed spec fn delivered(&self) -> Seq<QueryView> {
        self.delivered@
    }

    /// The batches sent and not yet taken by the writer, oldest first.
    pub closed spec fn sent(&self) -> Seq<Seq<QueryView>> {
        batch_views(self.outbox@)
    }

    /// The queries of the batch being gathered.
    pub closed spec fn unsent(&self) -> Seq<QueryView> {
        query_views(self.batch@)
    }

    /// How many batches are open.
    pub closed spec fn depth(&self) -> int {
        self.batching_count as int
    }

    /// The size at which a batch is sent even while batches are open.
    pub closed spec fn max_batch(&self) -> nat {
        self.max_batch_size as nat
    }

    /// The recommender of tags, once the known tags have been loaded.
    pub closed spec fn recommender(&self) -> Option<TagRecommender> {
        self.recommender
    }

    /// Nothing written is lost or reordered: what was written is what was
    /// delivered, then the sent batches, then the batch being gathered.
    pub closed spec fn wf(&self) -> bool {
        &&& self.written@ == self.delivered@ + flatten(batch_views(self.outbox@)) + query_views(
            self.batch@,
        )
        &&& (self.recommender matches Some(r) ==> r.wf())
    }

    /// `new` is `self` after `q` was written: a batch is sent when no batch
    /// is open or when it has reached the maximum size.
    pub open spec fn after_write(self, new: Self, q: QueryView) -> bool {
        &&& new.wf()
        &&& new.written() == self.written().push(q)
        &&& new.delivered() == self.delivered()
        &&& new.depth() == self.depth()
        &&& new.max_batch() == self.max_batch()
        &&& if self.depth() == 0 || self.unsent().len() + 1 >= self.max_batch() {
            &&& new.sent() == self.sent().push(self.unsent().push(q))
            &&& new.unsent() == Seq::<QueryView>::empty()
        } else {
            &&& new.sent() == self.sent()
            &&& new.unsent() == self.unsent().push(q)
        }
    }

    /// A database with nothing written, no batch open, and no recommender.
    pub fn new(max_batch_size: usize) -> (db: Database)
        ensures
            db.wf(),
            db.written() == Seq::<QueryView>::empty(),
            db.delivered() == Seq::<QueryView>::empty(),
            db.sent() == Seq::<Seq<QueryView>>::empty(),
            db.unsent() == Seq::<QueryView>::empty(),
            db.depth() == 0,
            db.max_batch() == max_batch_size,
            db.recommender() is None,
    {
        let db = Database {
            batching_count: 0,
            batch: Vec::new(),
            outbox: Vec::new(),
            max_batch_size,
            recommender: None,
            written: Ghost(Seq::empty()),
            delivered: Ghost(Seq::empty()),
        };
        assert(batch_views(db.outbox@) =~= Seq::<Seq<QueryView>>::empty());
        assert(query_views(db.batch@) =~= Seq::<QueryView>::empty());
        db
    }

    /// How many batches are open.
    pub fn batch_depth(&self) -> (d: i32)
        ensures
            d == self.depth(),
    {
        self.batching_count
    }

    fn send_batch(&mut self)
        requires
            old(self).wf(),
        ensures
            final(self).wf(),
            final(self).written() == old(self).written(),
            final(self).delivered() == old(self).delivered(),
            final(self).sent() == old(self).sent().push(old(self).unsent()),
            final(self).unsent() == Seq::<QueryView>::empty(),
            final(self).depth() == old(self).depth(),
            final(self).max_batch() == old(self).max_batch(),
            final(self).recommender() == old(self).recommender(),
    {
        let mut taken: Vec<Query> = Vec::new();
        std::mem::swap(&mut taken, &mut self.batch);
        let ghost before = self.outbox@;
        self.outbox.push(taken);
        proof {
            assert(batch_views(self.outbox@) =~= batch_views(before).push(query_views(taken@)));
            lemma_flatten_push(batch_views(before), query_views(taken@));
            assert(query_views(self.batch@) =~= Seq::<QueryView>::empty());
            assert(self.written@ =~= self.delivered@ + flatten(batch_views(self.outbox@))
                + query_views(self.batch@));
        }
    }

    fn async_write(&mut self, q: Query)
        requires
            old(self).wf(),
        ensures
            old(self).after_write(*final(self), q@),
            final(self).recommender() == old(self).recommender(),
    {
        let ghost qv = q@;
        let ghost before = query_views(self.batch@);
        self.batch.push(q);
        proof {
            assert(query_views(self.batch@) =~= before.push(qv));
            self.written@ = self.written@.push(qv);
        }
        if self.batching_count == 0 || self.batch.len() >= self.max_batch_size {
            self.send_batch();
        }
    }

    /// Opens a batch: writes wait until the last open batch is ended or the
    /// batch is full.
    pub fn start_batch(&mut self)
        requires
            old(self).wf(),
            old(self).depth() < i32::MAX,
        ensures
            final(self).wf(),
            final(self).depth() == old(self).depth() + 1,
            final(self).written() == old(self).written(),
            final(self).delivered() == old(self).delivered(),
            final(self).sent() == old(self).sent(),
            final(self).unsent() == old(self).unsent(),
            final(self).max_batch() == old(self).max_batch(),
            final(self).recommender() == old(self).recommender(),
    {
        self.batching_count = self.batching_count + 1;
    }

    /// Ends a batch; when none is left open, the gathered batch is sent,
    /// even when it is empty.
    pub fn end_batch(&mut self)
        requires
            old(self).wf(),
            old(self).depth() > i32::MIN,
        ensures
            final(self).wf(),
            final(self).depth() == old(self).depth() - 1,
            final(self).written() == old(self).written(),
            final(self).delivered() == old(self).delivered(),
            final(self).max_batch() == old(self).max_batch(),
            final(self).recommender() == old(self).recommender(),
            if old(self).depth() - 1 <= 0 {
                &&& final(self).sent() == old(self).sent().push(old(self).unsent())
                &&& final(self).unsent() == Seq::<QueryView>::empty()
            } else {
                &&& final(self).sent() == old(self).sent()
                &&& final(self).unsent() == old(self).unsent()
            },
    {
        self.batching_count = self.batching_count - 1;
        if self.batching_count <= 0 {
            self.send_batch();
        }
    }

    /// Hands the sent batches to the writer, oldest first.
    pub fn take_outbox(&mut self) -> (batches: Vec<Vec<Query>>)
        requires
            old(self).wf(),
        ensures
            final(self).wf(),
            batch_views(batches@) == old(self).sent(),
            final(self).delivered() == old(self).delivered() + flatten(old(self).sent()),
            final(self).sent() == Seq::<Seq<QueryView>>::empty(),
            final(self).written() == old(self).written(),
            final(self).unsent() == old(self).unsent(),
            final(self).depth() == old(self).depth(),
            final(self).max_batch() == old(self).max_batch(),
            final(self).recommender() == old(self).recommender(),
    {
        let mut taken: Vec<Vec<Query>> = Vec::new();
        std::mem::swap(&mut taken, &mut self.outbox);
        proof {
            self.delivered@ = self.delivered@ + flatten(batch_views(taken@));
            assert(batch_views(self.outbox@) =~= Seq::<Seq<QueryView>>::empty());
            assert(flatten(batch_views(self.outbox@)) =~= Seq::<QueryView>::empty());
        }
        taken
    }
}


/// The parameters of a record, in the order of the record's columns.
pub open spec fn record_params(
    name: Seq<char>,
    location: Seq<char>,
    size: i64,
    length: i64,
    times_opened: i64,
    date_added: Option<Timestamp>,
    date_created: Option<Timestamp>,
    date_last_touched: Option<Timestamp>,
    touched: bool,
    imported: bool,
) -> Seq<SqlValue> {
    seq![
        SqlValue::Text(name),
        SqlValue::Text(location),
        SqlValue::Number(size),
        SqlValue::Number(length),
        SqlValue::Number(times_opened),
        SqlValue::Date(date_added),
        SqlValue::Date(date_created),
        SqlValue::Date(date_last_touched),
        SqlValue::Boolean(touched),
        SqlValue::Boolean(imported),
    ]
}

/// `q` inserts the tag, lower-cased and trimmed, for the record, stamped
/// with some time.
pub open spec fn is_tag_insert(q: QueryView, id: i64, tag: Seq<char>) -> bool {
    &&& q.sql == INSERT_TAG_SQL@
    &&& q.params.len() == 3
    &&& q.params[0] == SqlValue::Number(id)
    &&& q.params[1] == SqlValue::Text(trim(lowercase(tag)))
    &&& q.params[2] matches SqlValue::Date(Some(_))
}

/// `q` deletes the tag from the record.
pub open spec fn tag_delete_query(id: i64, tag: Seq<char>) -> QueryView {
    QueryView { sql: DELETE_TAG_SQL@, params: seq![SqlValue::Number(id), SqlValue::Text(tag)] }
}

/// The recommender after learning the tags: each key also knows the tags
/// that map to it.
pub open spec fn learned_all(old: Option<TagRecommender>, new: Option<TagRecommender>, tags: Seq<Seq<char>>) -> bool {
    match old {
        None => new is None,
        Some(r) => new matches Some(r2) && r2.wf() && r2.pattern() == r.pattern() && forall|key: Seq<char>|
            #![trigger r2.lookup(key)]
            r2.lookup(key) == r.lookup(key).union(
                Set::new(
                    |t: Seq<char>|
                        exists|i: int|
                            0 <= i < tags.len() && tag_key(r.pattern(), #[trigger] tags[i]) == key && t
                                == tag_value(tags[i]),
                ),
            ),
    }
}

fn query_of(sql: &str, params: Vec<Sqlizable>) -> (q: Query)
    ensures
        q@.sql == sql@,
        q@.params == params@.map_values(|p: Sqlizable| p@),
{
    Query { sql: sql.to_owned(), params }
}

impl Database {
    fn write_query(&mut self, sql: &str, params: Vec<Sqlizable>, Ghost(expected): Ghost<QueryView>)
        requires
            old(self).wf(),
            expected.sql == sql@,
            expected.params == params@.map_values(|p: Sqlizable| p@),
        ensures
            old(self).after_write(*final(self), expected),
            final(self).recommender() == old(self).recommender(),
    {
        let q = query_of(sql, params);
        assert(q@ == expected);
        self.async_write(q);
    }

    /// Writes a new record.
    pub fn add_record_core(
        &mut self,
        filename: String,
        location: String,
        size: i64,
        length: i64,
        times_opened: i64,
        date_added: Option<Timestamp>,
        date_created: Option<Timestamp>,
        date_last_touched: Option<Timestamp>,
        have_manually_touched: bool,
        was_imported: bool,
    )
        requires
            old(self).wf(),
        ensures
            old(self).after_write(
                *final(self),
                QueryView {
                    sql: INSERT_RECORD_SQL@,
                    params: record_params(
                        filename@,
                        location@,
                        size,
                        length,
                        times_opened,
                        date_added,
                        date_created,
                        date_last_touched,
                        have_manually_touched,
                        was_imported,
                    ),
                },
            ),
            final(self).recommender() == old(self).recommender(),
    {
        let ghost expected = QueryView {
            sql: INSERT_RECORD_SQL@,
            params: record_params(
                filename@,
                location@,
                size,
                length,
                times_opened,
                date_added,
                date_created,
                date_last_touched,
                have_manually_touched,
                was_imported,
            ),
        };
        let mut p: Vec<Sqlizable> = Vec::new();
        p.push(Sqlizable::Text(filename));
        p.push(Sqlizable::Text(location));
        p.push(Sqlizable::Number(size));
        p.push(Sqlizable::Number(length));
        p.push(Sqlizable::Number(times_opened));
        p.push(Sqlizable::Date(date_added));
        p.push(Sqlizable::Date(date_created));
        p.push(Sqlizable::Date(date_last_touched));
        p.push(Sqlizable::Boolean(have_manually_touched));
        p.push(Sqlizable::Boolean(was_imported));
        assert(p@.map_values(|x: Sqlizable| x@) =~= expected.params);
        self.write_query(INSERT_RECORD_SQL, p, Ghost(expected));
    }

    /// Writes a record for a file the scan found: its size and creation
    /// date as the file system gives them, no length yet, never opened,
    /// added at the time of the call, neither touched nor imported.
    pub fn add_record(&mut self, filename: &str, location: &str, size: i64, date_created: Option<Timestamp>)
        requires
            old(self).wf(),
        ensures
            final(self).recommender() == old(self).recommender(),
            exists|stamp: Timestamp|
                #![trigger record_params(filename@, location@, size, -1i64, 0i64, Some(stamp), date_created, None, false, false)]
                old(self).after_write(
                    *final(self),
                    QueryView {
                        sql: INSERT_RECORD_SQL@,
                        params: record_params(
                            filename@,
                            location@,
                            size,
                            -1i64,
                            0i64,
                            Some(stamp),
                            date_created,
                            None,
                            false,
                            false,
                        ),
                    },
                ),
    {
        let stamp = now_stamp();
        self.add_record_core(
            filename.to_owned(),
            location.to_owned(),
            size,
            -1,
            0,
            Some(stamp),
            date_created,
            None,
            false,
            false,
        );
    }

    /// Updates the record at a location, made relative to `base` (the
    /// working directory). A record without a date added gets the time of
    /// the call. `false`, with nothing written, where no relative path leads
    /// to the location.
    pub fn add_record_by_location(
        &mut self,
        filename: String,
        location: String,
        size: i64,
        length: i64,
        times_opened: i64,
        date_added: Option<Timestamp>,
        date_created: Option<Timestamp>,
        date_last_touched: Option<Timestamp>,
        have_manually_touched: bool,
        was_imported: bool,
        base: &str,
    ) -> (applied: bool)
        requires
            old(self).wf(),
        ensures
            applied == relative_location(location@, base@) is Some,
            final(self).recommender() == old(self).recommender(),
            !applied ==> *final(self) == *old(self),
            applied ==> exists|stamp: Option<Timestamp>|
                #![trigger record_params(filename@, relative_location(location@, base@)->0, size, length, times_opened, stamp, date_created, date_last_touched, have_manually_touched, was_imported)]
                stamp is Some && (date_added is Some ==> stamp == date_added) && old(self).after_write(
                    *final(self),
                    QueryView {
                        sql: UPDATE_RECORD_BY_LOCATION_SQL@,
                        params: record_params(
                            filename@,
                            relative_location(location@, base@)->0,
                            size,
                            length,
                            times_opened,
                            stamp,
                            date_created,
                            date_last_touched,
                            have_manually_touched,
                            was_imported,
                        ).push(SqlValue::Text(relative_location(location@, base@)->0)),
                    },
                ),
    {
        let ghost fname = filename@;
        let rel = match location_relative_to_base(location.as_str(), base) {
            Some(r) => r,
            None => {
                return false;
            },
        };
        let stamp = match date_added {
            Some(d) => Some(d),
            None => Some(now_stamp()),
        };
        let ghost expected = QueryView {
            sql: UPDATE_RECORD_BY_LOCATION_SQL@,
            params: record_params(
                filename@,
                rel@,
                size,
                length,
                times_opened,
                stamp,
                date_created,
                date_last_touched,
                have_manually_touched,
                was_imported,
            ).push(SqlValue::Text(rel@)),
        };
        let where_location = rel.clone();
        let mut p: Vec<Sqlizable> = Vec::new();
        p.push(Sqlizable::Text(filename));
        p.push(Sqlizable::Text(rel));
        p.push(Sqlizable::Number(size));
        p.push(Sqlizable::Number(length));
        p.push(Sqlizable::Number(times_opened));
        p.push(Sqlizable::Date(stamp));
        p.push(Sqlizable::Date(date_created));
        p.push(Sqlizable::Date(date_last_touched));
        p.push(Sqlizable::Boolean(have_manually_touched));
        p.push(Sqlizable::Boolean(was_imported));
        p.push(Sqlizable::Text(where_location));
        assert(p@.map_values(|x: Sqlizable| x@) =~= expected.params);
        self.write_query(UPDATE_RECORD_BY_LOCATION_SQL, p, Ghost(expected));
        assert(expected.params == record_params(
            fname,
            relative_location(location@, base@)->0,
            size,
            length,
            times_opened,
            stamp,
            date_created,
            date_last_touched,
            have_manually_touched,
            was_imported,
        ).push(SqlValue::Text(relative_location(location@, base@)->0)));
        true
    }

    /// Moves a record to a new location. The record's id is written as text.
    pub fn update_location(&mut self, record_id: i64, location: &str)
        requires
            old(self).wf(),
        ensures
            old(self).after_write(
                *final(self),
                QueryView {
                    sql: UPDATE_LOCATION_SQL@,
                    params: seq![SqlValue::Text(location@), SqlValue::Text(int_text(record_id as int))],
                },
            ),
            final(self).recommender() == old(self).recommender(),
    {
        let ghost expected = QueryView {
            sql: UPDATE_LOCATION_SQL@,
            params: seq![SqlValue::Text(location@), SqlValue::Text(int_text(record_id as int))],
        };
        let mut p: Vec<Sqlizable> = Vec::new();
        p.push(Sqlizable::Text(location.to_owned()));
        p.push(Sqlizable::Text(i64_text(record_id)));
        assert(p@.map_values(|x: Sqlizable| x@) =~= expected.params);
        self.write_query(UPDATE_LOCATION_SQL, p, Ghost(expected));
    }

    /// Deletes a record.
    pub fn delete_record(&mut self, record_id: i64)
        requires
            old(self).wf(),
        ensures
            old(self).after_write(
                *final(self),
                QueryView { sql: DELETE_RECORD_SQL@, params: seq![SqlValue::Number(record_id)] },
            ),
            final(self).recommender() == old(self).recommender(),
    {
        let ghost expected = QueryView {
            sql: DELETE_RECORD_SQL@,
            params: seq![SqlValue::Number(record_id)],
        };
        let mut p: Vec<Sqlizable> = Vec::new();
        p.push(Sqlizable::Number(record_id));
        assert(p@.map_values(|x: Sqlizable| x@) =~= expected.params);
        self.write_query(DELETE_RECORD_SQL, p, Ghost(expected));
    }
}


impl Database {
    /// Adds a tag, lower-cased and trimmed, to a record, stamped with the
    /// time of the call; a loaded recommender learns the tag.
    pub fn add_tag(&mut self, record_id: i64, tag: &String)
        requires
            old(self).wf(),
        ensures
            final(self).wf(),
            final(self).written().len() == old(self).written().len() + 1,
            old(self).after_write(*final(self), final(self).written().last()),
            is_tag_insert(final(self).written().last(), record_id, tag@),
            learned_all(old(self).recommender(), final(self).recommender(), seq![tag@]),
    {
        let mut rec: Option<TagRecommender> = None;
        std::mem::swap(&mut rec, &mut self.recommender);
        let ghost before = *self;
        match rec {
            Some(mut r) => {
                let ghost r0 = r;
                let mut one: Vec<String> = Vec::new();
                one.push(tag.clone());
                r.add_tags(&one);
                assert(str_views(one@) =~= seq![tag@]);
                proof {
                    assert forall|key: Seq<char>| #![trigger r.lookup(key)]
                        r.lookup(key) == r0.lookup(key).union(
                            Set::new(
                                |t: Seq<char>|
                                    exists|i: int|
                                        0 <= i < seq![tag@].len() && tag_key(r0.pattern(), #[trigger] seq![tag@][i])
                                            == key && t == tag_value(seq![tag@][i]),
                            ),
                        ) by {
                        assert(Set::new(
                            |t: Seq<char>|
                                exists|i: int|
                                    0 <= i < one@.len() && tag_key(r0.pattern(), #[trigger] one@[i]@) == key
                                        && t == tag_value(one@[i]@),
                        ) =~= Set::new(
                            |t: Seq<char>|
                                exists|i: int|
                                    0 <= i < seq![tag@].len() && tag_key(r0.pattern(), #[trigger] seq![tag@][i])
                                        == key && t == tag_value(seq![tag@][i]),
                        )) by {
                            assert(one@[0]@ == seq![tag@][0]);
                        }
                    }
                }
                self.recommender = Some(r);
            },
            None => {},
        }
        let lowered = to_lowercase(tag.as_str());
        let name = trim_str(lowered.as_str());
        let stamp = now_stamp();
        let ghost expected = QueryView {
            sql: INSERT_TAG_SQL@,
            params: seq![SqlValue::Number(record_id), SqlValue::Text(name@), SqlValue::Date(Some(stamp))],
        };
        let mut p: Vec<Sqlizable> = Vec::new();
        p.push(Sqlizable::Number(record_id));
        p.push(Sqlizable::Text(name));
        p.push(Sqlizable::Date(Some(stamp)));
        assert(p@.map_values(|x: Sqlizable| x@) =~= expected.params);
        self.write_query(INSERT_TAG_SQL, p, Ghost(expected));
    }

    /// Adds the tags to a record in one batch.
    pub fn add_tags(&mut self, record_id: i64, tags: &Vec<String>)
        requires
            old(self).wf(),
            old(self).depth() < i32::MAX,
        ensures
            final(self).wf(),
            final(self).written().len() == old(self).written().len() + tags@.len(),
            final(self).written().take(old(self).written().len() as int) == old(self).written(),
            forall|i: int|
                0 <= i < tags@.len() ==> is_tag_insert(
                    #[trigger] final(self).written()[old(self).written().len() + i],
                    record_id,
                    tags@[i]@,
                ),
            final(self).delivered() == old(self).delivered(),
            final(self).depth() == old(self).depth(),
            final(self).max_batch() == old(self).max_batch(),
            old(self).depth() <= 0 ==> final(self).unsent() == Seq::<QueryView>::empty(),
            learned_all(old(self).recommender(), final(self).recommender(), str_views(tags@)),
    {
        let ghost start = *self;
        self.start_batch();
        let mut i: usize = 0;
        proof {
            lemma_learned_none(start.recommender(), str_views(tags@).take(0));
        }
        while i < tags.len()
            invariant
                i <= tags.len(),
                self.wf(),
                self.depth() == start.depth() + 1,
                self.max_batch() == start.max_batch(),
                self.delivered() == start.delivered(),
                self.written().len() == start.written().len() + i,
                self.written().take(start.written().len() as int) == start.written(),
                forall|j: int|
                    0 <= j < i ==> is_tag_insert(
                        #[trigger] self.written()[start.written().len() + j],
                        record_id,
                        tags@[j]@,
                    ),
                learned_all(start.recommender(), self.recommender(), str_views(tags@).take(i as int)),
            decreases tags.len() - i,
        {
            let ghost before = *self;
            self.add_tag(record_id, &tags[i]);
            proof {
                assert(self.written().take(start.written().len() as int) =~= start.written()) by {
                    assert(self.written() == before.written().push(self.written().last()));
                }
                assert forall|j: int| 0 <= j < i + 1 implies is_tag_insert(
                    #[trigger] self.written()[start.written().len() + j],
                    record_id,
                    tags@[j]@,
                ) by {
                    if j < i {
                        assert(self.written()[start.written().len() + j] == before.written()[start.written().len() + j]);
                    }
                }
                lemma_learned_step(start.recommender(), before.recommender(), self.recommender(), str_views(tags@), i as int);
            }
            i = i + 1;
        }
        assert(str_views(tags@).take(i as int) =~= str_views(tags@));
        self.end_batch();
    }
}

proof fn lemma_learned_none(r: Option<TagRecommender>, tags: Seq<Seq<char>>)
    requires
        tags.len() == 0,
        r matches Some(x) ==> x.wf(),
    ensures
        learned_all(r, r, tags),
{
    match r {
        None => {},
        Some(x) => {
            assert forall|key: Seq<char>| #![trigger x.lookup(key)]
                x.lookup(key) == x.lookup(key).union(
                    Set::new(
                        |t: Seq<char>|
                            exists|i: int|
                                0 <= i < tags.len() && tag_key(x.pattern(), #[trigger] tags[i]) == key && t
                                    == tag_value(tags[i]),
                    ),
                ) by {
                assert(x.lookup(key) =~= x.lookup(key).union(
                    Set::new(
                        |t: Seq<char>|
                            exists|i: int|
                                0 <= i < tags.len() && tag_key(x.pattern(), #[trigger] tags[i]) == key && t
                                    == tag_value(tags[i]),
                    ),
                ));
            }
        },
    }
}

proof fn lemma_learned_step(
    a: Option<TagRecommender>,
    b: Option<TagRecommender>,
    c: Option<TagRecommender>,
    tags: Seq<Seq<char>>,
    i: int,
)
    requires
        0 <= i < tags.len(),
        learned_all(a, b, tags.take(i)),
        learned_all(b, c, seq![tags[i]]),
    ensures
        learned_all(a, c, tags.take(i + 1)),
{
    match a {
        None => {},
        Some(ra) => {
            let rb = b->0;
            let rc = c->0;
            assert forall|key: Seq<char>| #![trigger rc.lookup(key)]
                rc.lookup(key) == ra.lookup(key).union(
                    Set::new(
                        |t: Seq<char>|
                            exists|j: int|
                                0 <= j < tags.take(i + 1).len() && tag_key(ra.pattern(), #[trigger] tags.take(i + 1)[j])
                                    == key && t == tag_value(tags.take(i + 1)[j]),
                    ),
                ) by {
                let s_old = Set::new(
                    |t: Seq<char>|
                        exists|j: int|
                            0 <= j < tags.take(i).len() && tag_key(ra.pattern(), #[trigger] tags.take(i)[j]) == key
                                && t == tag_value(tags.take(i)[j]),
                );
                let s_one = Set::new(
                    |t: Seq<char>|
                        exists|j: int|
                            0 <= j < seq![tags[i]].len() && tag_key(rb.pattern(), #[trigger] seq![tags[i]][j])
                                == key && t == tag_value(seq![tags[i]][j]),
                );
                let s_new = Set::new(
                    |t: Seq<char>|
                        exists|j: int|
                            0 <= j < tags.take(i + 1).len() && tag_key(ra.pattern(), #[trigger] tags.take(i + 1)[j])
                                == key && t == tag_value(tags.take(i + 1)[j]),
                );
                assert(rb.lookup(key) == ra.lookup(key).union(s_old));
                assert(rc.lookup(key) == rb.lookup(key).union(s_one));
                assert(s_new =~= s_old.union(s_one)) by {
                    assert forall|t: Seq<char>| s_new.contains(t) implies s_old.union(s_one).contains(t) by {
                        let j = choose|j: int|
                            0 <= j < tags.take(i + 1).len() && tag_key(ra.pattern(), #[trigger] tags.take(i + 1)[j])
                                == key && t == tag_value(tags.take(i + 1)[j]);
                        if j < i {
                            assert(tags.take(i)[j] == tags.take(i + 1)[j]);
                        } else {
                            assert(seq![tags[i]][0] == tags.take(i + 1)[j]);
                        }
                    }
                    assert forall|t: Seq<char>| s_old.union(s_one).contains(t) implies s_new.contains(t) by {
                        if s_old.contains(t) {
                            let j = choose|j: int|
                                0 <= j < tags.take(i).len() && tag_key(ra.pattern(), #[trigger] tags.take(i)[j]) == key
                                    && t == tag_value(tags.take(i)[j]);
                            assert(tags.take(i + 1)[j] == tags.take(i)[j]);
                        } else {
                            assert(tags.take(i + 1)[i] == seq![tags[i]][0]);
                        }
                    }
                }
                assert(rc.lookup(key) =~= ra.lookup(key).union(s_new));
            }
        },
    }
}


impl Database {
    /// Adds a tag, as given, to the record at a location made relative to
    /// `base`, stamped with the time of the call. `false`, with nothing
    /// written, where no relative path leads to the location.
    pub fn add_tag_by_location(&mut self, location: String, tag: String, base: &str) -> (applied: bool)
        requires
            old(self).wf(),
        ensures
            applied == relative_location(location@, base@) is Some,
            final(self).recommender() == old(self).recommender(),
            !applied ==> *final(self) == *old(self),
            applied ==> {
                &&& old(self).after_write(*final(self), final(self).written().last())
                &&& final(self).written().last().sql == INSERT_TAG_BY_LOCATION_SQL@
                &&& final(self).written().last().params.len() == 3
                &&& final(self).written().last().params[0] == SqlValue::Text(tag@)
                &&& final(self).written().last().params[1] matches SqlValue::Date(Some(_))
                &&& final(self).written().last().params[2] == SqlValue::Text(
                    relative_location(location@, base@)->0,
                )
            },
    {
        let rel = match location_relative_to_base(location.as_str(), base) {
            Some(r) => r,
            None => {
                return false;
            },
        };
        let stamp = now_stamp();
        let ghost expected = QueryView {
            sql: INSERT_TAG_BY_LOCATION_SQL@,
            params: seq![SqlValue::Text(tag@), SqlValue::Date(Some(stamp)), SqlValue::Text(rel@)],
        };
        let mut p: Vec<Sqlizable> = Vec::new();
        p.push(Sqlizable::Text(tag));
        p.push(Sqlizable::Date(Some(stamp)));
        p.push(Sqlizable::Text(rel));
        assert(p@.map_values(|x: Sqlizable| x@) =~= expected.params);
        self.write_query(INSERT_TAG_BY_LOCATION_SQL, p, Ghost(expected));
        true
    }

    /// Sets a key of a record's grab bag.
    pub fn grabbag_upsert(&mut self, record_id: i64, key: String, value: String)
        requires
            old(self).wf(),
        ensures
            old(self).after_write(
                *final(self),
                QueryView {
                    sql: UPSERT_GRABBAG_SQL@,
                    params: seq![SqlValue::Number(record_id), SqlValue::Text(key@), SqlValue::Text(value@)],
                },
            ),
            final(self).recommender() == old(self).recommender(),
    {
        let ghost expected = QueryView {
            sql: UPSERT_GRABBAG_SQL@,
            params: seq![SqlValue::Number(record_id), SqlValue::Text(key@), SqlValue::Text(value@)],
        };
        let mut p: Vec<Sqlizable> = Vec::new();
        p.push(Sqlizable::Number(record_id));
        p.push(Sqlizable::Text(key));
        p.push(Sqlizable::Text(value));
        assert(p@.map_values(|x: Sqlizable| x@) =~= expected.params);
        self.write_query(UPSERT_GRABBAG_SQL, p, Ghost(expected));
    }

    /// Sets a key of the grab bag of the record at a location made relative
    /// to `base`. `false`, with nothing written, where no relative path
    /// leads to the location.
    pub fn grabbag_upsert_by_location(&mut self, location: String, key: String, value: String, base: &str) -> (applied:
        bool)
        requires
            old(self).wf(),
        ensures
            applied == relative_location(location@, base@) is Some,
            final(self).recommender() == old(self).recommender(),
            !applied ==> *final(self) == *old(self),
            applied ==> old(self).after_write(
                *final(self),
                QueryView {
                    sql: UPSERT_GRABBAG_BY_LOCATION_SQL@,
                    params: seq![
                        SqlValue::Text(key@),
                        SqlValue::Text(value@),
                        SqlValue::Text(relative_location(location@, base@)->0),
                    ],
                },
            ),
    {
        let rel = match location_relative_to_base(location.as_str(), base) {
            Some(r) => r,
            None => {
                return false;
            },
        };
        let ghost expected = QueryView {
            sql: UPSERT_GRABBAG_BY_LOCATION_SQL@,
            params: seq![SqlValue::Text(key@), SqlValue::Text(value@), SqlValue::Text(rel@)],
        };
        let mut p: Vec<Sqlizable> = Vec::new();
        p.push(Sqlizable::Text(key));
        p.push(Sqlizable::Text(value));
        p.push(Sqlizable::Text(rel));
        assert(p@.map_values(|x: Sqlizable| x@) =~= expected.params);
        self.write_query(UPSERT_GRABBAG_BY_LOCATION_SQL, p, Ghost(expected));
        true
    }

    /// Removes a key from a record's grab bag.
    pub fn grabbag_delete(&mut self, record_id: i64, key: String)
        requires
            old(self).wf(),
        ensures
            old(self).after_write(
                *final(self),
                QueryView {
                    sql: DELETE_GRABBAG_SQL@,
                    params: seq![SqlValue::Number(record_id), SqlValue::Text(key@)],
                },
            ),
            final(self).recommender() == old(self).recommender(),
    {
        let ghost expected = QueryView {
            sql: DELETE_GRABBAG_SQL@,
            params: seq![SqlValue::Number(record_id), SqlValue::Text(key@)],
        };
        let mut p: Vec<Sqlizable> = Vec::new();
        p.push(Sqlizable::Number(record_id));
        p.push(Sqlizable::Text(key));
        assert(p@.map_values(|x: Sqlizable| x@) =~= expected.params);
        self.write_query(DELETE_GRABBAG_SQL, p, Ghost(expected));
    }

    /// Removes a key from the grab bag at a location made relative to
    /// `base`. `false`, with nothing written, where no relative path leads
    /// to the location.
    pub fn grabbag_delete_by_location(&mut self, location: String, key: String, base: &str) -> (applied: bool)
        requires
            old(self).wf(),
        ensures
            applied == relative_location(location@, base@) is Some,
            final(self).recommender() == old(self).recommender(),
            !applied ==> *final(self) == *old(self),
            applied ==> old(self).after_write(
                *final(self),
                QueryView {
                    sql: DELETE_GRABBAG_BY_LOCATION_SQL@,
                    params: seq![
                        SqlValue::Text(relative_location(location@, base@)->0),
                        SqlValue::Text(key@),
                    ],
                },
            ),
    {
        let rel = match location_relative_to_base(location.as_str(), base) {
            Some(r) => r,
            None => {
                return false;
            },
        };
        let ghost expected = QueryView {
            sql: DELETE_GRABBAG_BY_LOCATION_SQL@,
            params: seq![SqlValue::Text(rel@), SqlValue::Text(key@)],
        };
        let mut p: Vec<Sqlizable> = Vec::new();
        p.push(Sqlizable::Text(rel));
        p.push(Sqlizable::Text(key));
        assert(p@.map_values(|x: Sqlizable| x@) =~= expected.params);
        self.write_query(DELETE_GRABBAG_BY_LOCATION_SQL, p, Ghost(expected));
        true
    }

    /// Records how many times a record was opened.
    pub fn set_times_opened(&mut self, record_id: i64, times_opened: i32)
        requires
            old(self).wf(),
        ensures
            old(self).after_write(
                *final(self),
                QueryView {
                    sql: SET_TIMES_OPENED_SQL@,
                    params: seq![SqlValue::Number(times_opened as i64), SqlValue::Number(record_id)],
                },
            ),
            final(self).recommender() == old(self).recommender(),
    {
        let ghost expected = QueryView {
            sql: SET_TIMES_OPENED_SQL@,
            params: seq![SqlValue::Number(times_opened as i64), SqlValue::Number(record_id)],
        };
        let mut p: Vec<Sqlizable> = Vec::new();
        p.push(Sqlizable::Number(times_opened as i64));
        p.push(Sqlizable::Number(record_id));
        assert(p@.map_values(|x: Sqlizable| x@) =~= expected.params);
        self.write_query(SET_TIMES_OPENED_SQL, p, Ghost(expected));
    }

    /// Records whether a record was touched by hand.
    pub fn set_touched(&mut self, record_id: i64, touched: bool)
        requires
            old(self).wf(),
        ensures
            old(self).after_write(
                *final(self),
                QueryView {
                    sql: SET_TOUCHED_SQL@,
                    params: seq![SqlValue::Boolean(touched), SqlValue::Number(record_id)],
                },
            ),
            final(self).recommender() == old(self).recommender(),
    {
        let ghost expected = QueryView {
            sql: SET_TOUCHED_SQL@,
            params: seq![SqlValue::Boolean(touched), SqlValue::Number(record_id)],
        };
        let mut p: Vec<Sqlizable> = Vec::new();
        p.push(Sqlizable::Boolean(touched));
        p.push(Sqlizable::Number(record_id));
        assert(p@.map_values(|x: Sqlizable| x@) =~= expected.params);
        self.write_query(SET_TOUCHED_SQL, p, Ghost(expected));
    }

    /// Removes a tag, as given, from a record.
    pub fn remove_tag(&mut self, record_id: i64, tag: &String)
        requires
            old(self).wf(),
        ensures
            old(self).after_write(*final(self), tag_delete_query(record_id, tag@)),
            final(self).recommender() == old(self).recommender(),
    {
        let ghost expected = tag_delete_query(record_id, tag@);
        let mut p: Vec<Sqlizable> = Vec::new();
        p.push(Sqlizable::Number(record_id));
        p.push(Sqlizable::Text(tag.clone()));
        assert(p@.map_values(|x: Sqlizable| x@) =~= expected.params);
        self.write_query(DELETE_TAG_SQL, p, Ghost(expected));
    }

    /// Removes the tags from a record in one batch.
    pub fn remove_tags(&mut self, record_id: i64, tags: &Vec<String>)
        requires
            old(self).wf(),
            old(self).depth() < i32::MAX,
        ensures
            final(self).wf(),
            final(self).written() == old(self).written() + str_views(tags@).map_values(
                |t: Seq<char>| tag_delete_query(record_id, t),
            ),
            final(self).delivered() == old(self).delivered(),
            final(self).depth() == old(self).depth(),
            final(self).max_batch() == old(self).max_batch(),
            old(self).depth() <= 0 ==> final(self).unsent() == Seq::<QueryView>::empty(),
            final(self).recommender() == old(self).recommender(),
    {
        let ghost start = *self;
        let ghost tv = str_views(tags@);
        let ghost f = |t: Seq<char>| tag_delete_query(record_id, t);
        self.start_batch();
        let mut i: usize = 0;
        assert(start.written() + tv.take(0).map_values(f) =~= start.written());
        while i < tags.len()
            invariant
                i <= tags.len(),
                self.wf(),
                tv == str_views(tags@),
                f == (|t: Seq<char>| tag_delete_query(record_id, t)),
                self.depth() == start.depth() + 1,
                self.max_batch() == start.max_batch(),
                self.delivered() == start.delivered(),
                self.recommender() == start.recommender(),
                self.written() == start.written() + tv.take(i as int).map_values(f),
            decreases tags.len() - i,
        {
            self.remove_tag(record_id, &tags[i]);
            assert(tv.take(i + 1) =~= tv.take(i as int).push(tv[i as int]));
            assert(self.written() =~= start.written() + tv.take(i + 1).map_values(f));
            i = i + 1;
        }
        assert(tv.take(i as int) =~= tv);
        self.end_batch();
    }

    /// Builds the recommender from all the tags of the database, and gives
    /// the tags back.
    pub fn get_all_tags(&mut self, tags: Vec<String>) -> (r: Vec<String>)
        requires
            old(self).wf(),
        ensures
            final(self).wf(),
            r@ == tags@,
            final(self).written() == old(self).written(),
            final(self).delivered() == old(self).delivered(),
            final(self).sent() == old(self).sent(),
            final(self).unsent() == old(self).unsent(),
            final(self).depth() == old(self).depth(),
            final(self).max_batch() == old(self).max_batch(),
            match final(self).recommender() {
                Some(rec) => forall|key: Seq<char>|
                    #![trigger rec.lookup(key)]
                    rec.lookup(key) == Set::new(
                        |t: Seq<char>|
                            exists|i: int|
                                0 <= i < tags@.len() && tag_key(NOT_WORD_PATTERN@, #[trigger] tags@[i]@)
                                    == key && t == tag_value(tags@[i]@),
                    ),
                None => !regex_compiles(NOT_WORD_PATTERN@),
            },
    {
        self.recommender = TagRecommender::new(&tags);
        tags
    }

    /// The tags recommended for a record from its location, leaving out
    /// those it has; `None` until the recommender is built.
    pub fn get_recommended_tags(&self, record: &Record) -> (r: Option<Vec<String>>)
        requires
            self.wf(),
        ensures
            match self.recommender() {
                None => r is None,
                Some(rec) => r matches Some(v) && (forall|m: Seq<char>|
                    str_views(v@).contains(m) <==> rec.suggests(
                        location_words(rec.pattern(), record.Location@),
                        str_views(record.Tags@),
                        m,
                    )) && str_views(v@).no_duplicates(),
            },
    {
        match &self.recommender {
            Some(rec) => Some(rec.recommend_from_location(&record.Location, &record.Tags)),
            None => None,
        }
    }
}


/// Nothing written to the database is lost or reordered: what was written
/// is what the writer took, then the batches sent, then the batch being
/// gathered.
pub proof fn lemma_writes_kept_in_order(db: Database)
    requires
        db.wf(),
    ensures
        db.written() == db.delivered() + flatten(db.sent()) + db.unsent(),
{
}

} // verus!
