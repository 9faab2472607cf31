//! The records of the database and its table definitions.
#![allow(non_snake_case)]
use vstd::prelude::*;
use crate::text::{copy_strings, str_views};

verus! {

/// A moment in UTC: whole seconds since the Unix epoch and the nanoseconds
/// past that second (at least a full second only within a leap second).
#[derive(Debug, Clone, Copy, PartialEq, Eq, Structural)]
pub struct Timestamp {
    pub secs: i64,
    pub nanos: u32,
}

/// A file known to the database, with its tags.
#[derive(Debug)]
pub struct Record {
    pub RecordID: i64,
    pub Name: String,
    pub Location: String,
    /// The tags, each present once.
    pub Tags: Vec<String>,
    pub Size: i64,
    pub Length: i32,
    pub TimesOpened: i32,
    pub DateAdded: Option<Timestamp>,
    pub DateCreated: Option<Timestamp>,
    pub DateLastAccessed: Option<Timestamp>,
    pub HaveManuallyTouched: bool,
    pub Imported: bool,
}

/// The mathematical value of a record: its fields, with strings as
/// character sequences.
pub struct RecordView {
    pub id: i64,
    pub name: Seq<char>,
    pub location: Seq<char>,
    pub tags: Seq<Seq<char>>,
    pub size: i64,
    pub length: i32,
    pub times_opened: i32,
    pub date_added: Option<Timestamp>,
    pub date_created: Option<Timestamp>,
    pub date_last_accessed: Option<Timestamp>,
    pub touched: bool,
    pub imported: bool,
}

impl View for Record {
    type V = RecordView;

    open spec fn view(&self) -> RecordView {
        RecordView {
            id: self.RecordID,
            name: self.Name@,
            location: self.Location@,
            tags: str_views(self.Tags@),
            size: self.Size,
            length: self.Length,
            times_opened: self.TimesOpened,
            date_added: self.DateAdded,
            date_created: self.DateCreated,
            date_last_accessed: self.DateLastAccessed,
            touched: self.HaveManuallyTouched,
            imported: self.Imported,
        }
    }
}

/// The views of a list of records.
pub open spec fn record_views(v: Seq<Record>) -> Seq<RecordView> {
    v.map_values(|r: Record| r@)
}

pub proof fn lemma_record_views_push(s: Seq<Record>, r: Record)
    ensures
        record_views(s.push(r)) == record_views(s).push(r@),
{
    assert(record_views(s.push(r)) =~= record_views(s).push(r@));
}

impl Record {
    /// A copy of the record, equal to it.
    pub fn copy(&self) -> (r: Record)
        ensures
            r@ == self@,
    {
        Record {
            RecordID: self.RecordID,
            Name: self.Name.clone(),
            Location: self.Location.clone(),
            Tags: copy_strings(&self.Tags),
            Size: self.Size,
            Length: self.Length,
            TimesOpened: self.TimesOpened,
            DateAdded: self.DateAdded,
            DateCreated: self.DateCreated,
            DateLastAccessed: self.DateLastAccessed,
            HaveManuallyTouched: self.HaveManuallyTouched,
            Imported: self.Imported,
        }
    }
}

/// The identity and place of a record, as the file-system scan needs them.
#[derive(Debug)]
pub struct MiniRecord {
    pub RecordID: i64,
    pub Location: String,
}

impl MiniRecord {
    pub fn copy(&self) -> (r: MiniRecord)
        ensures
            r.RecordID == self.RecordID,
            r.Location@ == self.Location@,
    {
        MiniRecord { RecordID: self.RecordID, Location: self.Location.clone() }
    }
}

/// A key and value of the cache table.
pub struct Cache {
    pub Key: String,
    pub Value: String,
}

/// The definition of the records table.
pub const RECORDS_SQL: &'static str = "
	CREATE TABLE Records (
		RecordID INTEGER PRIMARY KEY,
		Name VARCHAR(500),
		Location VARCHAR(1000),

		Size BIGINT DEFAULT -1,
		Length INTEGER DEFAULT -1,
		TimesOpened INTEGER DEFAULT 0,

		DateAdded DateTime,
		DateCreated DateTime,
		DateLastAccessed DateTime,

		HaveManuallyTouched BOOLEAN DEFAULT 0,
		Imported BOOLEAN DEFAULT 0
	);
";

/// The definition of the tags table.
pub const TAGS_SQL: &'static str = "
CREATE TABLE Tags (
	TagID INTEGER PRIMARY KEY,
	RecordID INTEGER,
	TagName VARCHAR(255),
	DateAdded DateTime,
	FOREIGN KEY(RecordID) REFERENCES Records(RecordID) ON DELETE CASCADE,
	UNIQUE(RecordID, TagName)
);
";

/// The definition of the grab-bag table.
pub const GRABBAG_SQL: &'static str = "
CREATE TABLE GrabBag (
	GrabBagID INTEGER PRIMARY KEY,
	RecordID INTEGER,
	Key VARCHAR(255),
	Value VARCHAR(255),
	FOREIGN KEY(RecordID) REFERENCES Records(RecordID),
	UNIQUE(RecordID, Key)
);
";

/// The definition of the cache table.
pub const CACHE_SQL: &'static str = "
	CREATE TABLE Cache (
		CacheID INTEGER PRIMARY KEY,
		Key VARCHAR(500),
		Value VARCHAR(5000),
		UNIQUE(Key)
	);
";

} // verus!
