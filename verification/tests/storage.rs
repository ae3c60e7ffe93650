use tresor::storage::memory::MemoryStorage;
use tresor::storage::{
    judge_write, now, seconds_of, Entry, Error, Failure, Fault, Storage, Written,
};

#[test]
fn lookup_nothing() {
    let storage = MemoryStorage::new();
    let result = storage.lookup_entry("undefined", "undefined");

    assert!(matches!(result, Ok(None)));
}

#[test]
fn insert_entry() {
    let mut storage = MemoryStorage::new();
    let result = storage.store_entry(Entry::new("b", "k", "v"));

    assert_eq!(result, Ok(()));
}

#[test]
fn lookup_entry() {
    let mut storage = MemoryStorage::new();
    let stored_entry = Entry::new("b", "k", "v");
    storage.store_entry(stored_entry).unwrap();
    let result = storage.lookup_entry("b", "k");

    assert!(matches!(result, Ok(Some(_))));

    let entry = result.unwrap().unwrap();

    assert_eq!(entry.bucket, "b");
    assert_eq!(entry.key, "k");
    assert_eq!(entry.value, "v");
}

#[test]
fn update_entry() {
    let mut storage = MemoryStorage::new();
    let entry1 = Entry::new("b", "k", "v1");
    storage.store_entry(entry1).unwrap();

    let entry2 = Entry::new("b", "k", "v2");
    let created_on = entry2.created_on;
    storage.store_entry(entry2).unwrap();
    let entry = storage.lookup_entry("b", "k").unwrap().unwrap();

    assert_eq!(entry.value, "v2".to_string());
    assert_eq!(entry.created_on, created_on);
}

#[test]
fn delete_non_existent_entry() {
    let mut storage = MemoryStorage::new();
    let bucket = "b";
    let key = "k";
    let result = storage.delete_entry(bucket, key);

    assert!(matches!(result, Ok(_)));
}

#[test]
fn delete_entry() {
    let mut storage = MemoryStorage::new();
    storage.store_entry(Entry::new("b", "k", "v1")).unwrap();

    let result = storage.delete_entry("b", "k");

    assert!(matches!(result, Ok(_)));
}

#[test]
fn list_buckets() {
    let mut storage = MemoryStorage::new();

    let buckets = storage.list_buckets();
    assert_eq!(buckets, Ok(Vec::new()));

    storage.store_entry(Entry::new("b1", "k1", "v1")).unwrap();
    storage.store_entry(Entry::new("b2", "k2", "v2")).unwrap();
    storage.store_entry(Entry::new("b3", "k3", "v3")).unwrap();

    let buckets = storage.list_buckets();
    assert_eq!(buckets, Ok(vec!["b1".into(), "b2".into(), "b3".into()]));
}

#[test]
fn list_entries() {
    let mut storage = MemoryStorage::new();

    storage.store_entry(Entry::new("b1", "k1", "v1")).unwrap();
    storage.store_entry(Entry::new("b1", "k2", "v2")).unwrap();
    storage.store_entry(Entry::new("b1", "k3", "v3")).unwrap();

    let entries = storage.list_entries("b1");
    assert_eq!(
        entries,
        Ok(vec![
            Entry::new("b1", "k1", "v1"),
            Entry::new("b1", "k2", "v2"),
            Entry::new("b1", "k3", "v3"),
        ])
    );

    let entries = storage.list_entries("notexist");
    assert_eq!(entries, Ok(Vec::new()));
}

#[test]
fn entry_at_keeps_what_it_is_given() {
    let entry = Entry::at("b", "k", "v", 42);
    assert_eq!(
        entry,
        Entry {
            bucket: "b".to_string(),
            key: "k".to_string(),
            value: "v".to_string(),
            created_on: 42
        }
    );
}

#[test]
fn entry_new_is_dated_by_the_clock() {
    let before = now();
    let entry = Entry::new("b", "k", "v");
    let after = now();
    assert_eq!(entry.bucket, "b");
    assert_eq!(entry.key, "k");
    assert_eq!(entry.value, "v");
    assert!(before <= entry.created_on && entry.created_on <= after);
    // Later than the first of January 2020.
    assert!(entry.created_on > 1_577_836_800);
}

#[test]
fn a_clock_before_the_epoch_reads_as_zero() {
    assert_eq!(seconds_of(Some(1_700_000_000)), 1_700_000_000);
    assert_eq!(seconds_of(Some(0)), 0);
    assert_eq!(seconds_of(Some(u64::MAX)), u64::MAX);
    assert_eq!(seconds_of(None), 0);
}

#[test]
fn from_row_takes_the_time_of_the_last_write() {
    let fresh = Entry::from_row("b".into(), "k".into(), "v".into(), 10, None);
    assert_eq!(fresh, Entry::at("b", "k", "v", 10));
    let modified = Entry::from_row("b".into(), "k".into(), "v".into(), 10, Some(25));
    assert_eq!(modified, Entry::at("b", "k", "v", 25));
}

#[test]
fn storing_twice_keeps_one_row_and_its_creation_time() {
    let mut storage = MemoryStorage::new();
    storage.store_entry(Entry::at("b", "k", "v", 100)).unwrap();
    assert_eq!(storage.timestamps("b", "k"), Some((100, None)));

    storage.store_entry(Entry::at("b", "k", "v", 130)).unwrap();
    assert_eq!(storage.timestamps("b", "k"), Some((100, Some(130))));
    assert_eq!(storage.list_entries("b"), Ok(vec![Entry::at("b", "k", "v", 130)]));
    assert_eq!(storage.list_buckets(), Ok(vec!["b".to_string()]));

    storage.store_entry(Entry::at("b", "k", "v", 170)).unwrap();
    assert_eq!(storage.timestamps("b", "k"), Some((100, Some(170))));
    assert_eq!(storage.list_entries("b").unwrap().len(), 1);
}

#[test]
fn lookup_returns_the_latest_value_only() {
    let mut storage = MemoryStorage::new();
    storage.store_entry(Entry::at("b", "k", "first", 1)).unwrap();
    storage.store_entry(Entry::at("b", "k", "second", 2)).unwrap();
    assert_eq!(storage.lookup_entry("b", "k"), Ok(Some(Entry::at("b", "k", "second", 2))));
    assert_eq!(storage.list_entries("b"), Ok(vec![Entry::at("b", "k", "second", 2)]));
}

#[test]
fn pairs_are_kept_apart() {
    let mut storage = MemoryStorage::new();
    storage.store_entry(Entry::at("b", "k", "one", 1)).unwrap();
    storage.store_entry(Entry::at("b", "other", "two", 2)).unwrap();
    storage.store_entry(Entry::at("other", "k", "three", 3)).unwrap();
    assert_eq!(storage.lookup_entry("b", "k"), Ok(Some(Entry::at("b", "k", "one", 1))));
    assert_eq!(storage.lookup_entry("b", "other"), Ok(Some(Entry::at("b", "other", "two", 2))));
    assert_eq!(storage.lookup_entry("other", "k"), Ok(Some(Entry::at("other", "k", "three", 3))));
    assert_eq!(storage.lookup_entry("k", "b"), Ok(None));
    assert_eq!(storage.timestamps("k", "b"), None);
}

#[test]
fn delete_removes_the_row_and_no_other() {
    let mut storage = MemoryStorage::new();
    storage.store_entry(Entry::at("b", "k1", "v1", 1)).unwrap();
    storage.store_entry(Entry::at("b", "k2", "v2", 2)).unwrap();
    storage.store_entry(Entry::at("c", "k1", "v3", 3)).unwrap();

    assert_eq!(storage.delete_entry("b", "k1"), Ok(()));
    assert_eq!(storage.lookup_entry("b", "k1"), Ok(None));
    assert_eq!(storage.lookup_entry("b", "k2"), Ok(Some(Entry::at("b", "k2", "v2", 2))));
    assert_eq!(storage.lookup_entry("c", "k1"), Ok(Some(Entry::at("c", "k1", "v3", 3))));

    // Deleting again succeeds and changes nothing.
    assert_eq!(storage.delete_entry("b", "k1"), Ok(()));
    assert_eq!(storage.list_buckets(), Ok(vec!["b".to_string(), "c".to_string()]));

    // A pair that is stored again starts afresh.
    storage.store_entry(Entry::at("b", "k1", "v4", 9)).unwrap();
    assert_eq!(storage.timestamps("b", "k1"), Some((9, None)));
}

#[test]
fn buckets_are_listed_once_and_sorted() {
    let mut storage = MemoryStorage::new();
    for (bucket, key) in
        [("b3", "k"), ("b1", "k"), ("b2", "k"), ("b1", "k2"), ("b10", "k"), ("B", "k"), ("é", "k")]
    {
        storage.store_entry(Entry::at(bucket, key, "v", 1)).unwrap();
    }
    let expected: Vec<String> =
        ["B", "b1", "b10", "b2", "b3", "é"].iter().map(|s| s.to_string()).collect();
    assert_eq!(storage.list_buckets(), Ok(expected));

    storage.delete_entry("b1", "k").unwrap();
    assert!(storage.list_buckets().unwrap().contains(&"b1".to_string()));
    storage.delete_entry("b1", "k2").unwrap();
    assert!(!storage.list_buckets().unwrap().contains(&"b1".to_string()));
}

#[test]
fn entries_of_a_bucket_are_listed_once() {
    let mut storage = MemoryStorage::new();
    storage.store_entry(Entry::at("b1", "k1", "v1", 1)).unwrap();
    storage.store_entry(Entry::at("b2", "k1", "x", 2)).unwrap();
    storage.store_entry(Entry::at("b1", "k2", "v2", 3)).unwrap();
    storage.store_entry(Entry::at("b1", "k1", "v1b", 4)).unwrap();
    assert_eq!(
        storage.list_entries("b1"),
        Ok(vec![Entry::at("b1", "k1", "v1b", 4), Entry::at("b1", "k2", "v2", 3)])
    );
    assert_eq!(storage.list_entries("b2"), Ok(vec![Entry::at("b2", "k1", "x", 2)]));
    assert_eq!(storage.list_entries("b"), Ok(Vec::new()));
}

fn classify(fault: Fault) -> Error {
    Error::from(Failure { fault, message: "m".to_string() })
}

#[test]
fn faults_that_deny_access() {
    for fault in
        [Fault::SqliteFailure, Fault::SqliteSingleThreadedMode, Fault::Utf8Error, Fault::NulError]
    {
        assert_eq!(classify(fault), Error::StorageAccessError("m".to_string()));
    }
}

#[test]
fn faults_that_reject_the_operation() {
    for fault in [
        Fault::InvalidParameterName,
        Fault::QueryReturnedNoRows,
        Fault::ToSqlConversionFailure,
        Fault::InvalidQuery,
        Fault::MultipleStatement,
        Fault::InvalidParameterCount,
    ] {
        assert_eq!(classify(fault), Error::StorageOperationError("m".to_string()));
    }
}

#[test]
fn faults_that_corrupt_data() {
    for fault in [
        Fault::FromSqlConversionFailure,
        Fault::IntegralValueOutOfRange,
        Fault::InvalidColumnIndex,
        Fault::InvalidColumnName,
        Fault::InvalidColumnType,
    ] {
        assert_eq!(classify(fault), Error::DataExtractError("m".to_string()));
    }
}

#[test]
fn every_other_fault_is_generic() {
    for fault in [
        Fault::InvalidPath,
        Fault::ExecuteReturnedResults,
        Fault::StatementChangedRows,
        Fault::Other,
    ] {
        assert_eq!(classify(fault), Error::GenericError("m".to_string()));
    }
}

#[test]
fn classification_keeps_the_message() {
    let error = Error::from(Failure {
        fault: Fault::SqliteFailure,
        message: "unable to open database file".to_string(),
    });
    assert_eq!(error, Error::StorageAccessError("unable to open database file".to_string()));
}

#[test]
fn storage_error_messages() {
    assert_eq!(
        Error::StorageAccessError("x".to_string()).to_string(),
        "Database access denied: x"
    );
    assert_eq!(
        Error::StorageOperationError("x".to_string()).to_string(),
        "Failed to perform database operation: x"
    );
    assert_eq!(Error::DataExtractError("x".to_string()).to_string(), "Possibly corrupted data: x");
    assert_eq!(Error::GenericError("x".to_string()).to_string(), "Database error: x");
}

#[test]
fn a_write_has_to_change_one_row() {
    assert_eq!(judge_write(1), Written::One);
    assert_eq!(judge_write(0), Written::Nothing);
    assert_eq!(judge_write(2), Written::Several);
    assert_eq!(judge_write(usize::MAX), Written::Several);
}
