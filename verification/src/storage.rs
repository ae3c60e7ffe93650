//! The entry store: its errors, the entries that cross its boundary, the rows
//! it keeps, and the contract that every store answers to.

use crate::text::{lemma_text_order, text_before};
use std::time::{SystemTime, UNIX_EPOCH};
use vstd::prelude::*;
use vstd::string::StringExecFns;

pub mod memory;

verus! {

/// A failure of the store, classified by its cause. Each variant carries the
/// driver's own words.
#[derive(Debug, Eq, PartialEq)]
pub enum Error {
    /// The store cannot be reached or read.
    StorageAccessError(String),
    /// The store rejected a statement or its parameters.
    StorageOperationError(String),
    /// A row holds something other than what an entry needs.
    DataExtractError(String),
    /// Anything else.
    GenericError(String),
}

/// `Error`, with each text as a sequence of characters.
pub enum ErrorView {
    StorageAccessError(Seq<char>),
    StorageOperationError(Seq<char>),
    DataExtractError(Seq<char>),
    GenericError(Seq<char>),
}

impl View for Error {
    type V = ErrorView;

    open spec fn view(&self) -> ErrorView {
        match self {
            Error::StorageAccessError(s) => ErrorView::StorageAccessError(s@),
            Error::StorageOperationError(s) => ErrorView::StorageOperationError(s@),
            Error::DataExtractError(s) => ErrorView::DataExtractError(s@),
            Error::GenericError(s) => ErrorView::GenericError(s@),
        }
    }
}

impl ErrorView {
    /// The message that a user reads.
    pub open spec fn message(self) -> Seq<char> {
        match self {
            ErrorView::StorageAccessError(s) => "Database access denied: "@ + s,
            ErrorView::StorageOperationError(s) => "Failed to perform database operation: "@ + s,
            ErrorView::DataExtractError(s) => "Possibly corrupted data: "@ + s,
            ErrorView::GenericError(s) => "Database error: "@ + s,
        }
    }
}

/// What a database driver reports when a call fails.
#[derive(Debug, Clone, Copy, PartialEq, Eq)]
pub enum Fault {
    /// The database engine itself reported an error.
    SqliteFailure,
    /// The engine was built for use by one thread only.
    SqliteSingleThreadedMode,
    /// A column's value cannot be converted to the type asked for.
    FromSqlConversionFailure,
    /// A column's integer does not fit the type asked for.
    IntegralValueOutOfRange,
    /// A text is not UTF-8.
    Utf8Error,
    /// A text holds a nul where none may stand.
    NulError,
    /// The statement has no parameter of the name given.
    InvalidParameterName,
    /// A path cannot be written as text.
    InvalidPath,
    /// A statement that should return nothing returned rows.
    ExecuteReturnedResults,
    /// A query that should return a row returned none.
    QueryReturnedNoRows,
    /// The statement has no column at the index given.
    InvalidColumnIndex,
    /// The statement has no column of the name given.
    InvalidColumnName,
    /// A column's type cannot be converted to the type asked for.
    InvalidColumnType,
    /// A statement that should insert one row inserted none or several.
    StatementChangedRows,
    /// A parameter cannot be converted to a value of the database.
    ToSqlConversionFailure,
    /// The statement is not a read-only query.
    InvalidQuery,
    /// The text holds more than one statement.
    MultipleStatement,
    /// The statement takes another number of parameters than were given.
    InvalidParameterCount,
    /// A failure that the driver names in no other way.
    Other,
}

/// A driver's failure: what went wrong, and the driver's message.
#[derive(Debug)]
pub struct Failure {
    pub fault: Fault,
    pub message: String,
}

impl Fault {
    /// The store could not be opened, reached or read as text.
    pub open spec fn denies_access(self) -> bool {
        self is SqliteFailure || self is SqliteSingleThreadedMode || self is Utf8Error
            || self is NulError
    }

    /// A column could not be found or turned into the value asked for.
    pub open spec fn corrupts_data(self) -> bool {
        self is FromSqlConversionFailure || self is IntegralValueOutOfRange
            || self is InvalidColumnIndex || self is InvalidColumnName
            || self is InvalidColumnType
    }

    /// The statement or its parameters were refused.
    pub open spec fn rejects_operation(self) -> bool {
        self is InvalidParameterName || self is QueryReturnedNoRows
            || self is ToSqlConversionFailure || self is InvalidQuery || self is MultipleStatement
            || self is InvalidParameterCount
    }
}

/// The error that a failure is reported as.
pub open spec fn classified(fault: Fault, message: Seq<char>) -> ErrorView {
    if fault.denies_access() {
        ErrorView::StorageAccessError(message)
    } else if fault.corrupts_data() {
        ErrorView::DataExtractError(message)
    } else if fault.rejects_operation() {
        ErrorView::StorageOperationError(message)
    } else {
        ErrorView::GenericError(message)
    }
}

impl Error {
    /// Classifies a driver's failure by its cause and keeps the message.
    pub fn from(err: Failure) -> (r: Error)
        ensures
            r@ == classified(err.fault, err.message@),
    {
        let message = err.message;
        match err.fault {
            Fault::SqliteFailure => Error::StorageAccessError(message),
            Fault::SqliteSingleThreadedMode => Error::StorageAccessError(message),
            Fault::FromSqlConversionFailure => Error::DataExtractError(message),
            Fault::IntegralValueOutOfRange => Error::DataExtractError(message),
            Fault::Utf8Error => Error::StorageAccessError(message),
            Fault::NulError => Error::StorageAccessError(message),
            Fault::InvalidParameterName => Error::StorageOperationError(message),
            Fault::QueryReturnedNoRows => Error::StorageOperationError(message),
            Fault::InvalidColumnIndex => Error::DataExtractError(message),
            Fault::InvalidColumnName => Error::DataExtractError(message),
            Fault::InvalidColumnType => Error::DataExtractError(message),
            Fault::ToSqlConversionFailure => Error::StorageOperationError(message),
            Fault::InvalidQuery => Error::StorageOperationError(message),
            Fault::MultipleStatement => Error::StorageOperationError(message),
            Fault::InvalidParameterCount => Error::StorageOperationError(message),
            _ => Error::GenericError(message),
        }
    }

    /// The message that a user reads.
    pub fn to_string(&self) -> (s: String)
        ensures
            s@ == self@.message(),
    {
        match self {
            Error::StorageAccessError(s) => String::from_str("Database access denied: ").concat(
                s.as_str(),
            ),
            Error::StorageOperationError(s) => String::from_str(
                "Failed to perform database operation: ",
            ).concat(s.as_str()),
            Error::DataExtractError(s) => String::from_str("Possibly corrupted data: ").concat(
                s.as_str(),
            ),
            Error::GenericError(s) => String::from_str("Database error: ").concat(s.as_str()),
        }
    }
}

/// The unit of storage as the vault handles it: a value under a bucket and a
/// key, with the time of the write that produced it.
#[derive(Eq, PartialEq, Debug)]
pub struct Entry {
    pub bucket: String,
    pub key: String,
    pub value: String,
    /// Seconds since the epoch. For a fresh entry the time it was made; for one
    /// read from a store the time of the last write to its row.
    pub created_on: u64,
}

/// `Entry`, with each text as a sequence of characters.
pub struct EntryView {
    pub bucket: Seq<char>,
    pub key: Seq<char>,
    pub value: Seq<char>,
    pub created_on: u64,
}

impl View for Entry {
    type V = EntryView;

    open spec fn view(&self) -> EntryView {
        EntryView {
            bucket: self.bucket@,
            key: self.key@,
            value: self.value@,
            created_on: self.created_on,
        }
    }
}

/// `SystemTime::now`, as whole seconds since the Unix epoch, or nothing where
/// the clock stands before the epoch. Nothing is claimed of the value.
#[verifier::external_body]
fn unix_seconds() -> Option<u64> {
    SystemTime::now().duration_since(UNIX_EPOCH).ok().map(|elapsed| elapsed.as_secs())
}

/// The current time in seconds since the epoch. A clock that stands before the
/// epoch reads as 0: see `seconds_of`. Nothing is known of a clock's reading.
pub fn now() -> u64 {
    seconds_of(unix_seconds())
}

/// The time that a reading of the clock stands for: the seconds it shows, and
/// 0 where the clock stands before the epoch and shows none.
pub fn seconds_of(reading: Option<u64>) -> (r: u64)
    ensures
        r == match reading {
            Some(seconds) => seconds,
            None => 0,
        },
{
    match reading {
        Some(seconds) => seconds,
        None => 0,
    }
}

impl Entry {
    /// An entry made now.
    pub fn new(bucket: &str, key: &str, value: &str) -> (e: Entry)
        ensures
            e@.bucket == bucket@,
            e@.key == key@,
            e@.value == value@,
    {
        Entry::at(bucket, key, value, now())
    }

    /// An entry made at the given time.
    pub fn at(bucket: &str, key: &str, value: &str, created_on: u64) -> (e: Entry)
        ensures
            e@ == (EntryView { bucket: bucket@, key: key@, value: value@, created_on }),
    {
        Entry {
            bucket: bucket.to_owned(),
            key: key.to_owned(),
            value: value.to_owned(),
            created_on,
        }
    }

    /// The entry that a row stands for. Its time is that of the last write:
    /// the time of modification where the row has one, else that of creation.
    pub fn from_row(
        bucket: String,
        key: String,
        value: String,
        created_on: u64,
        modified_on: Option<u64>,
    ) -> (e: Entry)
        ensures
            e@ == entry_of(
                (bucket@, key@),
                Record { value: value@, created_on, modified_on },
            ),
    {
        let written: u64 = match modified_on {
            Some(modified) => modified,
            None => created_on,
        };
        Entry { bucket, key, value, created_on: written }
    }
}

/// A row of the store, without the pair it is kept under.
pub struct Record {
    pub value: Seq<char>,
    /// Set once, at the first write.
    pub created_on: u64,
    /// Set by every write after the first.
    pub modified_on: Option<u64>,
}

impl Record {
    /// The time of the last write to the row.
    pub open spec fn written_on(self) -> u64 {
        match self.modified_on {
            Some(modified) => modified,
            None => self.created_on,
        }
    }
}

/// The bucket and the key that a row is kept under.
pub type Pair = (Seq<char>, Seq<char>);

/// The rows of a store: at most one for each pair.
pub type Rows = Map<Pair, Record>;

/// The entry that a row is handed out as.
pub open spec fn entry_of(pair: Pair, row: Record) -> EntryView {
    EntryView { bucket: pair.0, key: pair.1, value: row.value, created_on: row.written_on() }
}

/// What a lookup finds under a pair.
pub open spec fn found(rows: Rows, bucket: Seq<char>, key: Seq<char>) -> Option<EntryView> {
    if rows.contains_key((bucket, key)) {
        Some(entry_of((bucket, key), rows[(bucket, key)]))
    } else {
        None
    }
}

/// The rows after an entry is stored. A pair that is not there gets a row
/// created at the entry's time. A row that is there gets the entry's value and
/// is marked as modified at the entry's time; its time of creation stays.
pub open spec fn upserted(rows: Rows, entry: EntryView) -> Rows {
    let pair = (entry.bucket, entry.key);
    if rows.contains_key(pair) {
        rows.insert(
            pair,
            Record {
                value: entry.value,
                created_on: rows[pair].created_on,
                modified_on: Some(entry.created_on),
            },
        )
    } else {
        rows.insert(
            pair,
            Record { value: entry.value, created_on: entry.created_on, modified_on: None },
        )
    }
}

/// Storing twice under one pair leaves one row under it: the second write adds
/// none. It keeps the time of creation that the first left, marks the row as
/// modified at its own time, and touches no other row.
pub proof fn lemma_store_twice(rows: Rows, first: EntryView, second: EntryView)
    requires
        first.bucket == second.bucket,
        first.key == second.key,
    ensures
        ({
            let pair = (first.bucket, first.key);
            let once = upserted(rows, first);
            let twice = upserted(once, second);
            &&& twice.dom() == once.dom()
            &&& twice.dom() == rows.dom().insert(pair)
            &&& twice[pair].created_on == once[pair].created_on
            &&& twice[pair].modified_on == Some(second.created_on)
            &&& twice[pair].value == second.value
            &&& twice.remove(pair) == rows.remove(pair)
            &&& rows.dom().finite() ==> twice.dom().finite() && twice.dom().len()
                == once.dom().len() && once.dom().len() == if rows.contains_key(pair) {
                rows.dom().len()
            } else {
                rows.dom().len() + 1
            }
        }),
{
}

/// A lookup after two writes under one pair finds the second: its value and
/// its time, nothing of the first.
pub proof fn lemma_lookup_finds_latest(rows: Rows, first: EntryView, second: EntryView)
    requires
        first.bucket == second.bucket,
        first.key == second.key,
    ensures
        found(upserted(upserted(rows, first), second), second.bucket, second.key) == Some(second),
{
}

/// A lookup finds what was stored last under the pair, and a write under one
/// pair changes what no other pair holds.
pub proof fn lemma_lookup_after_store(
    rows: Rows,
    entry: EntryView,
    bucket: Seq<char>,
    key: Seq<char>,
)
    ensures
        found(upserted(rows, entry), bucket, key) == if bucket == entry.bucket && key
            == entry.key {
            Some(entry)
        } else {
            found(rows, bucket, key)
        },
{
}

/// A lookup after a removal finds nothing under the pair, and what it found
/// before under every other.
pub proof fn lemma_lookup_after_delete(
    rows: Rows,
    gone: Pair,
    bucket: Seq<char>,
    key: Seq<char>,
)
    ensures
        found(rows.remove(gone), bucket, key) == if (bucket, key) == gone {
            None
        } else {
            found(rows, bucket, key)
        },
{
}

/// Removing twice is removing once.
pub proof fn lemma_delete_twice(rows: Rows, gone: Pair)
    ensures
        rows.remove(gone).remove(gone) == rows.remove(gone),
{
}

/// Whether no row was modified before it was created.
pub open spec fn in_order(rows: Rows) -> bool {
    forall|pair: Pair| #[trigger]
        rows.contains_key(pair) ==> rows[pair].created_on <= rows[pair].written_on()
}

/// Rows stay in order under a write that is not dated before the creation of
/// the row it updates.
pub proof fn lemma_store_keeps_order(rows: Rows, entry: EntryView)
    requires
        in_order(rows),
        rows.contains_key((entry.bucket, entry.key)) ==> rows[(
            entry.bucket,
            entry.key,
        )].created_on <= entry.created_on,
    ensures
        in_order(upserted(rows, entry)),
{
    let after = upserted(rows, entry);
    assert forall|pair: Pair| #[trigger] after.contains_key(pair) implies after[pair].created_on
        <= after[pair].written_on() by {
        assert(pair == (entry.bucket, entry.key) || rows.contains_key(pair));
    }
}

/// Whether a bucket holds a row.
pub open spec fn holds_bucket(rows: Rows, bucket: Seq<char>) -> bool {
    exists|key: Seq<char>| rows.contains_key((bucket, key))
}

/// Whether `names` lists the buckets of `rows`: every bucket that holds a row,
/// no other, each once, in the order of texts.
pub open spec fn lists_buckets(names: Seq<Seq<char>>, rows: Rows) -> bool {
    &&& forall|i: int, j: int|
        0 <= i < j < names.len() ==> text_before(#[trigger] names[i], #[trigger] names[j])
    &&& forall|i: int| 0 <= i < names.len() ==> holds_bucket(rows, #[trigger] names[i])
    &&& forall|bucket: Seq<char>, key: Seq<char>| #[trigger]
        rows.contains_key((bucket, key)) ==> names.contains(bucket)
}

/// The buckets of given rows can be listed in one way only.
pub proof fn lemma_buckets_listed_one_way(first: Seq<Seq<char>>, second: Seq<Seq<char>>, rows: Rows)
    requires
        lists_buckets(first, rows),
        lists_buckets(second, rows),
    ensures
        first == second,
{
    assert forall|name: Seq<char>| first.contains(name) == second.contains(name) by {
        if first.contains(name) {
            let i = choose|i: int| 0 <= i < first.len() && first[i] == name;
            assert(holds_bucket(rows, first[i]));
        }
        if second.contains(name) {
            let i = choose|i: int| 0 <= i < second.len() && second[i] == name;
            assert(holds_bucket(rows, second[i]));
        }
    }
    lemma_ascending_by_members(first, second);
}

/// Two sequences in the strict order of texts that hold the same texts are
/// the same sequence.
pub proof fn lemma_ascending_by_members(first: Seq<Seq<char>>, second: Seq<Seq<char>>)
    requires
        forall|i: int, j: int|
            0 <= i < j < first.len() ==> text_before(#[trigger] first[i], #[trigger] first[j]),
        forall|i: int, j: int|
            0 <= i < j < second.len() ==> text_before(#[trigger] second[i], #[trigger] second[j]),
        forall|name: Seq<char>| first.contains(name) == second.contains(name),
    ensures
        first == second,
    decreases first.len(),
{
    if first.len() == 0 {
        if second.len() > 0 {
            assert(second.contains(second[0]));
        }
        assert(first =~= second);
    } else {
        assert(first.contains(first[0]));
        let j = choose|j: int| 0 <= j < second.len() && second[j] == first[0];
        assert(second.contains(second[0]));
        let i = choose|i: int| 0 <= i < first.len() && first[i] == second[0];
        lemma_text_order(second[0], first[0], second[0]);
        assert(first[0] == second[0]) by {
            if j > 0 {
                assert(text_before(second[0], second[j]));
                if i > 0 {
                    assert(text_before(first[0], first[i]));
                }
            }
        }
        let rest = first.drop_first();
        let other = second.drop_first();
        assert forall|name: Seq<char>| rest.contains(name) == other.contains(name) by {
            lemma_text_order(name, name, name);
            if rest.contains(name) {
                let k = choose|k: int| 0 <= k < rest.len() && rest[k] == name;
                assert(first[k + 1] == name);
                assert(text_before(first[0], first[k + 1]));
                assert(first.contains(name));
                let m = choose|m: int| 0 <= m < second.len() && second[m] == name;
                assert(m > 0);
                assert(other[m - 1] == name);
            }
            if other.contains(name) {
                let k = choose|k: int| 0 <= k < other.len() && other[k] == name;
                assert(second[k + 1] == name);
                assert(text_before(second[0], second[k + 1]));
                assert(second.contains(name));
                let m = choose|m: int| 0 <= m < first.len() && first[m] == name;
                assert(m > 0);
                assert(rest[m - 1] == name);
            }
        }
        assert forall|a: int, b: int| 0 <= a < b < rest.len() implies text_before(
            #[trigger] rest[a],
            #[trigger] rest[b],
        ) by {
            assert(text_before(first[a + 1], first[b + 1]));
        }
        assert forall|a: int, b: int| 0 <= a < b < other.len() implies text_before(
            #[trigger] other[a],
            #[trigger] other[b],
        ) by {
            assert(text_before(second[a + 1], second[b + 1]));
        }
        lemma_ascending_by_members(rest, other);
        assert(first =~= seq![first[0]] + rest);
        assert(second =~= seq![second[0]] + other);
    }
}

/// Whether `entries` lists the rows of `bucket`: the entry of every row that
/// the bucket holds, no other, each once.
pub open spec fn lists_entries(entries: Seq<EntryView>, rows: Rows, bucket: Seq<char>) -> bool {
    &&& forall|i: int|
        0 <= i < entries.len() ==> found(rows, bucket, (#[trigger] entries[i]).key) == Some(
            entries[i],
        )
    &&& forall|i: int, j: int|
        0 <= i < j < entries.len() ==> (#[trigger] entries[i]).key != (#[trigger] entries[j]).key
    &&& forall|key: Seq<char>| #[trigger]
        rows.contains_key((bucket, key)) ==> exists|i: int|
            0 <= i < entries.len() && (#[trigger] entries[i]).key == key
}

/// The views of the entries of a vector.
pub open spec fn entry_views(entries: Seq<Entry>) -> Seq<EntryView> {
    Seq::new(entries.len(), |i: int| entries[i]@)
}

/// The views of the strings of a vector.
pub open spec fn text_views(texts: Seq<String>) -> Seq<Seq<char>> {
    Seq::new(texts.len(), |i: int| texts[i]@)
}

/// The view of what a lookup found.
pub open spec fn found_view(hit: Option<Entry>) -> Option<EntryView> {
    match hit {
        Some(entry) => Some(entry@),
        None => None,
    }
}

/// An entry store. A store that fails says so and leaves its rows as they were.
pub trait Storage {
    /// The rows of the store.
    spec fn rows(&self) -> Rows;

    /// Whether the store answers every call. A store in memory does; one
    /// behind a file or a connection may fail.
    spec fn dependable(&self) -> bool;

    /// The entry under a pair, if there is one.
    fn lookup_entry(&self, bucket: &str, key: &str) -> (r: Result<Option<Entry>, Error>)
        ensures
            r matches Ok(hit) ==> found_view(hit) == found(self.rows(), bucket@, key@),
            self.dependable() ==> r is Ok,
    ;

    /// Stores an entry under its pair: inserts it, or updates the row that is
    /// there.
    fn store_entry(&mut self, entry: Entry) -> (r: Result<(), Error>)
        ensures
            match r {
                Ok(_) => final(self).rows() == upserted(old(self).rows(), entry@),
                Err(_) => final(self).rows() == old(self).rows(),
            },
            old(self).dependable() ==> r is Ok,
            final(self).dependable() == old(self).dependable(),
    ;

    /// Removes the row under a pair. Removing what is not there succeeds.
    fn delete_entry(&mut self, bucket: &str, key: &str) -> (r: Result<(), Error>)
        ensures
            match r {
                Ok(_) => final(self).rows() == old(self).rows().remove((bucket@, key@)),
                Err(_) => final(self).rows() == old(self).rows(),
            },
            old(self).dependable() ==> r is Ok,
            final(self).dependable() == old(self).dependable(),
    ;

    /// The buckets that hold a row, each once, in the order of texts.
    fn list_buckets(&self) -> (r: Result<Vec<String>, Error>)
        ensures
            r matches Ok(names) ==> lists_buckets(text_views(names@), self.rows()),
            self.dependable() ==> r is Ok,
    ;

    /// The entries of a bucket; none where the bucket holds no row.
    fn list_entries(&self, bucket: &str) -> (r: Result<Vec<Entry>, Error>)
        ensures
            r matches Ok(entries) ==> lists_entries(entry_views(entries@), self.rows(), bucket@),
            self.dependable() ==> r is Ok,
    ;
}

/// What the number of rows that a write changed says of the write.
#[derive(Debug, Clone, Copy, PartialEq, Eq)]
pub enum Written {
    /// One row: the write went through.
    One,
    /// No row: the entry was neither inserted nor updated.
    Nothing,
    /// More than one row: the store holds a pair twice.
    Several,
}

/// Judges a write by the number of rows it changed. Anything but one row means
/// that the store is broken, not that the caller erred.
pub fn judge_write(changed: usize) -> (r: Written)
    ensures
        r is One <==> changed == 1,
        r is Nothing <==> changed == 0,
        r is Several <==> changed > 1,
{
    if changed == 1 {
        Written::One
    } else if changed == 0 {
        Written::Nothing
    } else {
        Written::Several
    }
}

} // verus!
