//! The vault's operations: store, get, delete and the two listings, each over
//! a store that the caller hands in and the passwords that the caller asked for.

use crate::crypto;
use crate::crypto::{decrypted, encrypted};
use crate::storage;
use crate::storage::{
    entry_views, found, lists_buckets, lists_entries, text_views, upserted, Entry, EntryView, Rows,
    Storage,
};
use crate::text::{decimal, decimal_digits};
use vstd::prelude::*;
use vstd::string::StringExecFns;

verus! {

/// The file that the vault keeps its store in.
pub const DB_NAME: &'static str = "tresor.db";

/// What a listing shows in place of a value that the password does not open.
pub const MASKED_VALUE: &'static str = "********";

/// Why an operation of the vault failed.
#[derive(Debug, Eq, PartialEq)]
pub enum ExecError {
    /// The store cannot be reached; carries the store's message.
    StorageAccessError(String),
    /// The store failed in another way; carries the store's message.
    StorageOperationError(String),
    /// Nothing is stored under the pair.
    KeyNotFound { bucket: String, key: String },
    /// The value could not be encrypted; carries the cipher's message.
    EncryptionError(String),
    /// The value could not be decrypted; carries the cipher's message.
    DecryptionError(String),
}

/// `ExecError`, with each text as a sequence of characters.
pub enum ExecErrorView {
    StorageAccessError(Seq<char>),
    StorageOperationError(Seq<char>),
    KeyNotFound { bucket: Seq<char>, key: Seq<char> },
    EncryptionError(Seq<char>),
    DecryptionError(Seq<char>),
}

impl View for ExecError {
    type V = ExecErrorView;

    open spec fn view(&self) -> ExecErrorView {
        match self {
            ExecError::StorageAccessError(s) => ExecErrorView::StorageAccessError(s@),
            ExecError::StorageOperationError(s) => ExecErrorView::StorageOperationError(s@),
            ExecError::KeyNotFound { bucket, key } => ExecErrorView::KeyNotFound {
                bucket: bucket@,
                key: key@,
            },
            ExecError::EncryptionError(s) => ExecErrorView::EncryptionError(s@),
            ExecError::DecryptionError(s) => ExecErrorView::DecryptionError(s@),
        }
    }
}

impl ExecErrorView {
    /// The message that a user reads. It names the pair that was not found,
    /// and hides what a store or the cipher said.
    pub open spec fn message(self) -> Seq<char> {
        match self {
            ExecErrorView::StorageAccessError(_) => "Database access denied for \""@ + DB_NAME@
                + "\""@,
            ExecErrorView::StorageOperationError(_) =>
                "Failed to perform operation over local database"@,
            ExecErrorView::KeyNotFound { bucket, key } => "Key \""@ + key
                + "\" was not found in the bucket \""@ + bucket + "\""@,
            ExecErrorView::EncryptionError(_) => "Failed to encrypt the data"@,
            ExecErrorView::DecryptionError(_) => "Failed to decrypt the data"@,
        }
    }

    /// The error that a failure of the store is reported as.
    pub open spec fn of_storage(err: storage::ErrorView) -> ExecErrorView {
        match err {
            storage::ErrorView::StorageAccessError(_) => ExecErrorView::StorageAccessError(
                err.message(),
            ),
            _ => ExecErrorView::StorageOperationError(err.message()),
        }
    }
}

impl ExecError {
    /// Reports a failure of the store: one that denies access as such, every
    /// other as a failed operation, each with the store's message.
    pub fn from(err: storage::Error) -> (r: ExecError)
        ensures
            r@ == ExecErrorView::of_storage(err@),
    {
        let message = err.to_string();
        match err {
            storage::Error::StorageAccessError(_) => ExecError::StorageAccessError(message),
            _ => ExecError::StorageOperationError(message),
        }
    }

    /// The message that a user reads.
    pub fn to_string(&self) -> (s: String)
        ensures
            s@ == self@.message(),
    {
        match self {
            ExecError::StorageAccessError(_) => String::from_str(
                "Database access denied for \"",
            ).concat(DB_NAME).concat("\""),
            ExecError::StorageOperationError(_) => String::from_str(
                "Failed to perform operation over local database",
            ),
            ExecError::KeyNotFound { bucket, key } => String::from_str("Key \"").concat(
                key.as_str(),
            ).concat("\" was not found in the bucket \"").concat(bucket.as_str()).concat("\""),
            ExecError::EncryptionError(_) => String::from_str("Failed to encrypt the data"),
            ExecError::DecryptionError(_) => String::from_str("Failed to decrypt the data"),
        }
    }
}

/// The salt of an entry: the decimal numeral of its time.
pub open spec fn salt_of(created_on: u64) -> Seq<char> {
    decimal_digits(created_on as nat)
}

/// The salt that an entry's value is encrypted under.
pub fn salt(entry: &Entry) -> (s: String)
    ensures
        s@ == salt_of(entry.created_on),
{
    decimal(entry.created_on)
}

/// What `decrypt_entry` answers: the plaintext of the entry's value under the
/// password and the entry's salt, or the decryption error with the cipher's
/// message.
pub open spec fn decrypted_entry(password: Seq<char>, entry: EntryView) -> Result<
    Seq<char>,
    ExecErrorView,
> {
    match decrypted(password, salt_of(entry.created_on), entry.value) {
        Ok(value) => Ok(value),
        Err(err) => Err(ExecErrorView::DecryptionError(err.message())),
    }
}

/// What `encrypt_entry_at` answers: the entry made at `now` whose value is the
/// given one encrypted under the password and the salt of `now`, or the
/// encryption error with the cipher's message.
pub open spec fn encrypted_entry(password: Seq<char>, entry: EntryView, now: u64) -> Result<
    EntryView,
    ExecErrorView,
> {
    match encrypted(password, salt_of(now), entry.value) {
        Ok(value) => Ok(EntryView { bucket: entry.bucket, key: entry.key, value, created_on: now }),
        Err(err) => Err(ExecErrorView::EncryptionError(err.message())),
    }
}

/// Whether an exec result holds the views that a spec result names.
pub open spec fn entry_result_is(
    r: Result<Entry, ExecError>,
    model: Result<EntryView, ExecErrorView>,
) -> bool {
    match r {
        Ok(entry) => model == Ok::<EntryView, ExecErrorView>(entry@),
        Err(err) => model == Err::<EntryView, ExecErrorView>(err@),
    }
}

/// Whether an exec result holds the views that a spec result names.
pub open spec fn value_result_is(
    r: Result<String, ExecError>,
    model: Result<Seq<char>, ExecErrorView>,
) -> bool {
    match r {
        Ok(value) => model == Ok::<Seq<char>, ExecErrorView>(value@),
        Err(err) => model == Err::<Seq<char>, ExecErrorView>(err@),
    }
}

/// Makes the entry that is stored in place of `entry`: a new entry, made at
/// `now`, with the value encrypted under `password`. Decrypting it under the
/// same password gives the value back.
pub fn encrypt_entry_at(password: &str, entry: Entry, now: u64) -> (r: Result<Entry, ExecError>)
    ensures
        entry_result_is(r, encrypted_entry(password@, entry@, now)),
        r matches Ok(stored) ==> decrypted_entry(password@, stored@) == Ok::<
            Seq<char>,
            ExecErrorView,
        >(entry@.value),
{
    let mut new_entry = Entry::at(
        entry.bucket.as_str(),
        entry.key.as_str(),
        entry.value.as_str(),
        now,
    );
    let nonce = salt(&new_entry);
    match crypto::encrypt(password, nonce.as_str(), entry.value.as_str()) {
        Ok(value) => {
            new_entry.value = value;
            Ok(new_entry)
        },
        Err(err) => Err(ExecError::EncryptionError(err.to_string())),
    }
}

/// Makes the entry that is stored in place of `entry`, as of now: see
/// `encrypt_entry_at`.
pub fn encrypt_entry(password: &str, entry: Entry) -> (r: Result<Entry, ExecError>)
    ensures
        match r {
            Ok(stored) => encrypted_entry(password@, entry@, stored.created_on) == Ok::<
                EntryView,
                ExecErrorView,
            >(stored@) && decrypted_entry(password@, stored@) == Ok::<Seq<char>, ExecErrorView>(
                entry@.value,
            ),
            Err(err) => exists|now: u64|
                encrypted_entry(password@, entry@, now) == Err::<EntryView, ExecErrorView>(err@),
        },
{
    let now: u64 = storage::now();
    encrypt_entry_at(password, entry, now)
}

/// Decrypts the value of an entry under `password` and the entry's salt.
pub fn decrypt_entry(password: &str, entry: &Entry) -> (r: Result<String, ExecError>)
    ensures
        value_result_is(r, decrypted_entry(password@, entry@)),
{
    let nonce = salt(entry);
    match crypto::decrypt(password, nonce.as_str(), entry.value.as_str()) {
        Ok(value) => Ok(value),
        Err(err) => Err(ExecError::DecryptionError(err.to_string())),
    }
}

impl ExecErrorView {
    /// Whether the error reports a failure of the store.
    pub open spec fn is_of_storage(self) -> bool {
        self is StorageAccessError || self is StorageOperationError
    }
}

/// The view of what a lookup found.
pub open spec fn hit_view(hit: Option<&Entry>) -> Option<EntryView> {
    match hit {
        Some(entry) => Some(entry@),
        None => None,
    }
}

/// Whether an operation ended with a failure of the store.
pub open spec fn fails_in_storage<T>(r: Result<T, ExecError>) -> bool {
    r matches Err(err) && err@.is_of_storage()
}

/// The view of how an operation without a result ended.
pub open spec fn outcome_view(r: Result<(), ExecError>) -> Option<ExecErrorView> {
    match r {
        Ok(_) => None,
        Err(err) => Some(err@),
    }
}

/// What a read answers, given what the store holds under the pair: the
/// plaintext, `KeyNotFound` where the pair holds nothing, the decryption
/// error where the password does not open what it holds.
pub open spec fn to_read(
    existing: Option<EntryView>,
    bucket: Seq<char>,
    key: Seq<char>,
    password: Seq<char>,
) -> Result<Seq<char>, ExecErrorView> {
    match existing {
        Some(entry) => decrypted_entry(password, entry),
        None => Err(ExecErrorView::KeyNotFound { bucket, key }),
    }
}

/// What stands in the way of an overwrite or a removal: nothing where the
/// password opens the entry, the decryption error where it does not.
pub open spec fn guarded(password: Seq<char>, existing: EntryView) -> Option<ExecErrorView> {
    match decrypted_entry(password, existing) {
        Ok(_) => None,
        Err(err) => Some(err),
    }
}

/// The entry that a store hands to the entry store, given what is there under
/// the pair. An entry that is there has to open under the password for it
/// before anything is encrypted.
pub open spec fn to_store(
    existing: Option<EntryView>,
    fresh: EntryView,
    existing_password: Seq<char>,
    password: Seq<char>,
    now: u64,
) -> Result<EntryView, ExecErrorView> {
    match existing {
        Some(entry) => match guarded(existing_password, entry) {
            Some(err) => Err(err),
            None => encrypted_entry(password, fresh, now),
        },
        None => encrypted_entry(password, fresh, now),
    }
}

/// Which error stands in the way of removing what is there under a pair, if
/// any: `KeyNotFound` where the pair holds nothing, the decryption error where
/// the password does not open what it holds.
pub open spec fn to_delete(
    existing: Option<EntryView>,
    bucket: Seq<char>,
    key: Seq<char>,
    password: Seq<char>,
) -> Option<ExecErrorView> {
    match existing {
        Some(entry) => guarded(password, entry),
        None => Some(ExecErrorView::KeyNotFound { bucket, key }),
    }
}

/// Ends the setting up of a store: the store itself is of no further use, and
/// its failure is reported as the vault's.
pub fn call_init<S>(setup: Result<S, storage::Error>) -> (r: Result<(), ExecError>)
    ensures
        match setup {
            Ok(_) => r is Ok,
            Err(failure) => r matches Err(err) && err@ == ExecErrorView::of_storage(failure@),
        },
{
    match setup {
        Ok(_) => Ok(()),
        Err(failure) => Err(ExecError::from(failure)),
    }
}

/// Turns what a lookup returned into the entry, `KeyNotFound` where there is
/// none, or the store's failure.
pub fn found_or_missing(hit: Result<Option<Entry>, storage::Error>, bucket: &str, key: &str) -> (r:
    Result<Entry, ExecError>)
    ensures
        match hit {
            Ok(Some(entry)) => r == Ok::<Entry, ExecError>(entry),
            Ok(None) => r matches Err(err) && err@ == (ExecErrorView::KeyNotFound {
                bucket: bucket@,
                key: key@,
            }),
            Err(failure) => r matches Err(err) && err@ == ExecErrorView::of_storage(failure@),
        },
{
    match hit {
        Ok(Some(entry)) => Ok(entry),
        Ok(None) => Err(ExecError::KeyNotFound { bucket: bucket.to_owned(), key: key.to_owned() }),
        Err(failure) => Err(ExecError::from(failure)),
    }
}

/// Reads the plaintext of what the store holds under a pair.
pub fn read_entry(existing: Option<&Entry>, bucket: &str, key: &str, password: &str) -> (r: Result<
    String,
    ExecError,
>)
    ensures
        value_result_is(r, to_read(hit_view(existing), bucket@, key@, password@)),
{
    match existing {
        Some(entry) => decrypt_entry(password, entry),
        None => Err(ExecError::KeyNotFound { bucket: bucket.to_owned(), key: key.to_owned() }),
    }
}

/// Decides what a store of `value` under a pair hands to the entry store, as
/// of `now`: the entry with the value encrypted under `password`. Where the
/// pair already holds an entry, `existing_password` has to decrypt that entry
/// first. What comes out decrypts to `value` under `password`.
pub fn entry_to_store_at(
    existing: Option<&Entry>,
    bucket: &str,
    key: &str,
    value: &str,
    existing_password: &str,
    password: &str,
    now: u64,
) -> (r: Result<Entry, ExecError>)
    ensures
        entry_result_is(
            r,
            to_store(
                hit_view(existing),
                EntryView { bucket: bucket@, key: key@, value: value@, created_on: now },
                existing_password@,
                password@,
                now,
            ),
        ),
        r matches Ok(entry) ==> decrypted_entry(password@, entry@) == Ok::<
            Seq<char>,
            ExecErrorView,
        >(value@),
{
    match existing {
        Some(entry) => {
            match decrypt_entry(existing_password, entry) {
                Ok(_) => {},
                Err(err) => {
                    return Err(err);
                },
            }
        },
        None => {},
    }
    encrypt_entry_at(password, Entry::at(bucket, key, value, now), now)
}

/// Decides what a store of `value` under a pair hands to the entry store, as
/// of now: see `entry_to_store_at`.
pub fn entry_to_store(
    existing: Option<&Entry>,
    bucket: &str,
    key: &str,
    value: &str,
    existing_password: &str,
    password: &str,
) -> (r: Result<Entry, ExecError>)
    ensures
        exists|now: u64|
            entry_result_is(
                r,
                #[trigger] to_store(
                    hit_view(existing),
                    EntryView { bucket: bucket@, key: key@, value: value@, created_on: now },
                    existing_password@,
                    password@,
                    now,
                ),
            ),
        r matches Ok(entry) ==> decrypted_entry(password@, entry@) == Ok::<
            Seq<char>,
            ExecErrorView,
        >(value@),
        existing matches Some(entry) && guarded(existing_password@, entry@) is Some ==> r is Err,
{
    let now: u64 = storage::now();
    entry_to_store_at(existing, bucket, key, value, existing_password, password, now)
}

/// Decides whether what the store holds under a pair may be removed.
pub fn check_delete(existing: Option<&Entry>, bucket: &str, key: &str, password: &str) -> (r:
    Result<(), ExecError>)
    ensures
        outcome_view(r) == to_delete(hit_view(existing), bucket@, key@, password@),
{
    match existing {
        Some(entry) => match decrypt_entry(password, entry) {
            Ok(_) => Ok(()),
            Err(err) => Err(err),
        },
        None => Err(ExecError::KeyNotFound { bucket: bucket.to_owned(), key: key.to_owned() }),
    }
}

/// What `call_get` answers while the store works.
pub open spec fn got(rows: Rows, bucket: Seq<char>, key: Seq<char>, password: Seq<char>) -> Result<
    Seq<char>,
    ExecErrorView,
> {
    to_read(found(rows, bucket, key), bucket, key, password)
}

/// Whether a store of `fresh` as of `now` took the rows from `before` to
/// `after` and ended as `outcome` says. On success the rows hold the entry of
/// `to_store`. On failure they are as before, and the error is that of
/// `to_store` unless the store itself failed.
pub open spec fn stores(
    before: Rows,
    after: Rows,
    outcome: Option<ExecErrorView>,
    fresh: EntryView,
    existing_password: Seq<char>,
    password: Seq<char>,
    now: u64,
) -> bool {
    let plan = to_store(
        found(before, fresh.bucket, fresh.key),
        fresh,
        existing_password,
        password,
        now,
    );
    match outcome {
        None => plan matches Ok(entry) && after == upserted(before, entry),
        Some(err) => after == before && (err.is_of_storage() || plan == Err::<
            EntryView,
            ExecErrorView,
        >(err)),
    }
}

/// Whether a removal under a pair took the rows from `before` to `after` and
/// ended as `outcome` says. On success the pair holds nothing. On failure the
/// rows are as before, and the error is that of `to_delete` unless the store
/// itself failed.
pub open spec fn deletes(
    before: Rows,
    after: Rows,
    outcome: Option<ExecErrorView>,
    bucket: Seq<char>,
    key: Seq<char>,
    password: Seq<char>,
) -> bool {
    let obstacle = to_delete(found(before, bucket, key), bucket, key, password);
    match outcome {
        None => obstacle is None && after == before.remove((bucket, key)),
        Some(err) => after == before && (err.is_of_storage() || obstacle == Some(err)),
    }
}

/// The overwrite guard: where the pair holds an entry that the password for it
/// does not open, a store fails, the rows are as before, and a lookup finds
/// what it found before.
pub proof fn lemma_overwrite_guard(
    before: Rows,
    after: Rows,
    outcome: Option<ExecErrorView>,
    fresh: EntryView,
    existing_password: Seq<char>,
    password: Seq<char>,
    now: u64,
)
    requires
        stores(before, after, outcome, fresh, existing_password, password, now),
        found(before, fresh.bucket, fresh.key) matches Some(existing) && guarded(
            existing_password,
            existing,
        ) is Some,
    ensures
        outcome is Some,
        after == before,
        found(after, fresh.bucket, fresh.key) == found(before, fresh.bucket, fresh.key),
{
}

/// The removal guard: where the pair holds an entry that the password does
/// not open, a removal fails and the rows are as before.
pub proof fn lemma_delete_guard(
    before: Rows,
    after: Rows,
    outcome: Option<ExecErrorView>,
    bucket: Seq<char>,
    key: Seq<char>,
    password: Seq<char>,
)
    requires
        deletes(before, after, outcome, bucket, key, password),
        found(before, bucket, key) matches Some(existing) && guarded(password, existing) is Some,
    ensures
        outcome is Some,
        after == before,
{
}

/// Looks up the entry under a pair. A pair that holds none is an error.
pub fn find_entry<S: Storage>(storage: &S, bucket: &str, key: &str) -> (r: Result<Entry, ExecError>)
    ensures
        match r {
            Ok(entry) => found(storage.rows(), bucket@, key@) == Some(entry@),
            Err(err) => err@.is_of_storage() || (found(storage.rows(), bucket@, key@) is None
                && err@ == (ExecErrorView::KeyNotFound { bucket: bucket@, key: key@ })),
        },
        storage.dependable() ==> !fails_in_storage(r),
{
    found_or_missing(storage.lookup_entry(bucket, key), bucket, key)
}

/// Stores `value` under a pair, encrypted under `password`, as of `now`.
/// Where the pair already holds an entry, `existing_password` has to decrypt
/// that entry first: if it does not, nothing is stored and the rows stay as
/// they were. What was stored reads back as `value` under `password`.
pub fn call_store_at<S: Storage>(
    storage: &mut S,
    bucket: &str,
    key: &str,
    value: &str,
    existing_password: &str,
    password: &str,
    now: u64,
) -> (r: Result<(), ExecError>)
    ensures
        stores(
            old(storage).rows(),
            final(storage).rows(),
            outcome_view(r),
            EntryView { bucket: bucket@, key: key@, value: value@, created_on: now },
            existing_password@,
            password@,
            now,
        ),
        found(old(storage).rows(), bucket@, key@) matches Some(existing) && guarded(
            existing_password@,
            existing,
        ) is Some ==> r is Err && final(storage).rows() == old(storage).rows(),
        r is Ok ==> got(final(storage).rows(), bucket@, key@, password@) == Ok::<
            Seq<char>,
            ExecErrorView,
        >(value@),
        old(storage).dependable() ==> !fails_in_storage(r),
        final(storage).dependable() == old(storage).dependable(),
{
    let hit = match storage.lookup_entry(bucket, key) {
        Ok(hit) => hit,
        Err(failure) => {
            return Err(ExecError::from(failure));
        },
    };
    let existing = match &hit {
        Some(entry) => Some(entry),
        None => None,
    };
    let entry = match entry_to_store_at(
        existing,
        bucket,
        key,
        value,
        existing_password,
        password,
        now,
    ) {
        Ok(entry) => entry,
        Err(err) => {
            return Err(err);
        },
    };
    match storage.store_entry(entry) {
        Ok(_) => Ok(()),
        Err(failure) => Err(ExecError::from(failure)),
    }
}

/// Stores `value` under a pair as of now: see `call_store_at`.
pub fn call_store<S: Storage>(
    storage: &mut S,
    bucket: &str,
    key: &str,
    value: &str,
    existing_password: &str,
    password: &str,
) -> (r: Result<(), ExecError>)
    ensures
        exists|now: u64|
            stores(
                old(storage).rows(),
                final(storage).rows(),
                outcome_view(r),
                EntryView { bucket: bucket@, key: key@, value: value@, created_on: now },
                existing_password@,
                password@,
                now,
            ),
        found(old(storage).rows(), bucket@, key@) matches Some(existing) && guarded(
            existing_password@,
            existing,
        ) is Some ==> r is Err && final(storage).rows() == old(storage).rows(),
        r is Ok ==> got(final(storage).rows(), bucket@, key@, password@) == Ok::<
            Seq<char>,
            ExecErrorView,
        >(value@),
        old(storage).dependable() ==> !fails_in_storage(r),
        final(storage).dependable() == old(storage).dependable(),
{
    let now: u64 = storage::now();
    call_store_at(storage, bucket, key, value, existing_password, password, now)
}

/// The plaintext stored under a pair.
pub fn call_get<S: Storage>(storage: &S, bucket: &str, key: &str, password: &str) -> (r: Result<
    String,
    ExecError,
>)
    ensures
        match r {
            Ok(value) => got(storage.rows(), bucket@, key@, password@) == Ok::<
                Seq<char>,
                ExecErrorView,
            >(value@),
            Err(err) => err@.is_of_storage() || got(storage.rows(), bucket@, key@, password@)
                == Err::<Seq<char>, ExecErrorView>(err@),
        },
        storage.dependable() ==> !fails_in_storage(r),
{
    let entry = match find_entry(storage, bucket, key) {
        Ok(entry) => entry,
        Err(err) => {
            return Err(err);
        },
    };
    read_entry(Some(&entry), bucket, key, password)
}

/// Removes the row under a pair. The password has to decrypt the entry first:
/// if it does not, or if the pair holds nothing, the rows stay as they were.
pub fn call_delete<S: Storage>(storage: &mut S, bucket: &str, key: &str, password: &str) -> (r:
    Result<(), ExecError>)
    ensures
        deletes(
            old(storage).rows(),
            final(storage).rows(),
            outcome_view(r),
            bucket@,
            key@,
            password@,
        ),
        old(storage).dependable() ==> !fails_in_storage(r),
        final(storage).dependable() == old(storage).dependable(),
{
    let hit = match storage.lookup_entry(bucket, key) {
        Ok(hit) => hit,
        Err(failure) => {
            return Err(ExecError::from(failure));
        },
    };
    let existing = match &hit {
        Some(entry) => Some(entry),
        None => None,
    };
    match check_delete(existing, bucket, key, password) {
        Ok(_) => {},
        Err(err) => {
            return Err(err);
        },
    }
    match storage.delete_entry(bucket, key) {
        Ok(_) => Ok(()),
        Err(failure) => Err(ExecError::from(failure)),
    }
}

/// The buckets of the store, each once, in the order of texts.
pub fn call_buckets_list<S: Storage>(storage: &S) -> (r: Result<Vec<String>, ExecError>)
    ensures
        match r {
            Ok(names) => lists_buckets(text_views(names@), storage.rows()),
            Err(err) => err@.is_of_storage(),
        },
        storage.dependable() ==> r is Ok,
{
    match storage.list_buckets() {
        Ok(names) => Ok(names),
        Err(failure) => Err(ExecError::from(failure)),
    }
}

/// The entry as a listing shows it: with its plaintext where the password
/// opens it, with the masked value where it does not.
pub open spec fn shown(password: Seq<char>, entry: EntryView) -> EntryView {
    EntryView {
        bucket: entry.bucket,
        key: entry.key,
        value: match decrypted_entry(password, entry) {
            Ok(value) => value,
            Err(_) => MASKED_VALUE@,
        },
        created_on: entry.created_on,
    }
}

/// Whether `list` shows the entries of `stored`, one for one and in order.
pub open spec fn shows(list: Seq<EntryView>, stored: Seq<EntryView>, password: Seq<char>) -> bool {
    &&& list.len() == stored.len()
    &&& forall|i: int| 0 <= i < list.len() ==> #[trigger] list[i] == shown(password, stored[i])
}

/// The entry as a listing shows it under `password`.
pub fn show_entry(password: &str, entry: &Entry) -> (r: Entry)
    ensures
        r@ == shown(password@, entry@),
{
    let value = match decrypt_entry(password, entry) {
        Ok(value) => value,
        Err(_) => MASKED_VALUE.to_owned(),
    };
    Entry {
        bucket: entry.bucket.clone(),
        key: entry.key.clone(),
        value,
        created_on: entry.created_on,
    }
}

/// The entries as a listing shows them under `password`.
pub fn show_entries(password: &str, entries: &Vec<Entry>) -> (r: Vec<Entry>)
    ensures
        shows(entry_views(r@), entry_views(entries@), password@),
{
    let mut list: Vec<Entry> = Vec::new();
    let mut i: usize = 0;
    while i < entries.len()
        invariant
            i <= entries@.len(),
            list@.len() == i,
            forall|j: int| 0 <= j < i ==> (#[trigger] list@[j])@ == shown(password@, entries@[j]@),
        decreases entries.len() - i,
    {
        list.push(show_entry(password, &entries[i]));
        i += 1;
    }
    list
}

/// The entries of a bucket as a listing shows them under `password`. An entry
/// that the password does not open is listed with the masked value; it does
/// not end the listing.
pub fn call_entries_list<S: Storage>(storage: &S, bucket: &str, password: &str) -> (r: Result<
    Vec<Entry>,
    ExecError,
>)
    ensures
        match r {
            Ok(list) => exists|stored: Seq<EntryView>| #[trigger]
                lists_entries(stored, storage.rows(), bucket@) && shows(
                    entry_views(list@),
                    stored,
                    password@,
                ),
            Err(err) => err@.is_of_storage(),
        },
        storage.dependable() ==> r is Ok,
{
    match storage.list_entries(bucket) {
        Ok(entries) => {
            let list = show_entries(password, &entries);
            Ok(list)
        },
        Err(failure) => Err(ExecError::from(failure)),
    }
}

} // verus!
