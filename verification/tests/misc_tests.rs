use cache_rs::storage::lmdb_store::{insert_outcome, lookup_outcome, tolerate_missing};
use std::time::{Duration, SystemTime, UNIX_EPOCH};
use cache_rs::items::{create_large_shirt, Shirt, ShirtSize};
use cache_rs::kv::{delete_outcome, read_outcome};
use cache_rs::time::{current_unix, FakeTime, TimeProvider};
use cache_rs::wal::{frame_record, records_after, split_frames, IndexCounter, WalReader};

#[test]
fn large_shirt_has_color_and_size() {
    let shirt = create_large_shirt("red".to_string());
    assert_eq!(shirt.color, "red");
    assert_eq!(shirt.size, 2);
    assert_eq!(ShirtSize::Large.code(), 2);
    assert_eq!(Shirt::new().size, 0);
}

#[test]
fn fake_time_is_fixed() {
    let clock = FakeTime { timestamp: 1_700_000_000 };
    assert_eq!(clock.now(), 1_700_000_000);
    assert_eq!(clock.now(), 1_700_000_000);
}

#[test]
fn real_clock_is_after_2020() {
    assert!(current_unix().unwrap() > 1_577_836_800);
}

#[test]
fn read_outcome_maps_lmdb_answers() {
    assert!(matches!(read_outcome(Ok(vec![1]), false), Ok(Some(v)) if v == vec![1]));
    assert!(matches!(read_outcome(Err(lmdb::Error::NotFound), true), Ok(None)));
    assert!(matches!(read_outcome(Err(lmdb::Error::MapFull), false), Err(_)));
}

#[test]
fn indexed_frames_read_back() {
    assert_eq!(frame_record(b"ab"), vec![0, 0, 0, 2, b'a', b'b']);
    let mut log = frame_record(b"one");
    log.extend_from_slice(&frame_record(b"two"));
    assert_eq!(split_frames(&log).unwrap(), vec![b"one".to_vec(), b"two".to_vec()]);
    log.extend_from_slice(&[0, 0, 0, 9, 1]);
    assert!(split_frames(&log).is_none());
}

#[test]
fn latest_index_is_the_largest_readable() {
    assert_eq!(WalReader::latest_index(&vec![]), 0);
    assert_eq!(WalReader::latest_index(&vec![Some(3), None, Some(9), Some(4)]), 9);
    assert_eq!(WalReader::latest_index(&vec![None]), 0);
}

#[test]
fn truncation_keeps_later_records() {
    let records = vec![
        (Some(1), b"a".to_vec()),
        (None, b"junk".to_vec()),
        (Some(5), b"b".to_vec()),
        (Some(2), b"c".to_vec()),
        (Some(7), b"d".to_vec()),
    ];
    assert_eq!(records_after(&records, 2), vec![b"b".to_vec(), b"d".to_vec()]);
}

#[test]
fn index_counter_counts_up() {
    let mut c = IndexCounter::after(41);
    assert_eq!(c.assign(), 42);
    assert_eq!(c.assign(), 43);
    let mut end = IndexCounter::after(u64::MAX - 1);
    assert_eq!(end.assign(), u64::MAX);
    assert_eq!(end.assign(), 0);
}

#[test]
fn delete_outcome_counts_removed_entries() {
    assert!(matches!(delete_outcome(Ok(()), false, Some(Ok(()))), Ok(1)));
    assert!(matches!(delete_outcome(Ok(()), false, Some(Err(lmdb::Error::MapFull))), Err(_)));
    assert!(matches!(delete_outcome(Err(lmdb::Error::NotFound), true, None), Ok(0)));
    assert!(matches!(delete_outcome(Err(lmdb::Error::BadTxn), false, None), Err(_)));
}

#[test]
fn unix_secs_from_clock_reading() {
    assert_eq!(cache_rs::time::unix_secs_of(Ok(Duration::from_millis(5_999))), Some(5));
    let before_epoch = UNIX_EPOCH.duration_since(SystemTime::now());
    assert_eq!(cache_rs::time::unix_secs_of(before_epoch), None);
}

#[test]
fn lmdb_error_classification() {
    assert!(cache_rs::lmdb_env::is_not_found(&lmdb::Error::NotFound));
    assert!(!cache_rs::lmdb_env::is_not_found(&lmdb::Error::KeyExist));
    assert!(cache_rs::lmdb_env::is_key_exist(&lmdb::Error::KeyExist));
    assert!(!cache_rs::lmdb_env::is_key_exist(&lmdb::Error::MapFull));
}

#[test]
fn lmdb_store_outcomes() {
    assert!(matches!(lookup_outcome(Ok(vec![4])), Ok(Some(v)) if v == vec![4]));
    assert!(matches!(lookup_outcome(Err(lmdb::Error::NotFound)), Ok(None)));
    assert!(matches!(lookup_outcome(Err(lmdb::Error::Corrupted)), Err(_)));
    assert!(tolerate_missing(Ok(())).is_ok());
    assert!(tolerate_missing(Err(lmdb::Error::NotFound)).is_ok());
    assert_eq!(tolerate_missing(Err(lmdb::Error::BadTxn)), Err(lmdb::Error::BadTxn));
    assert!(matches!(insert_outcome(Ok(()), Some(Ok(()))), Ok(true)));
    assert!(matches!(insert_outcome(Err(lmdb::Error::KeyExist), None), Ok(false)));
    assert!(matches!(insert_outcome(Err(lmdb::Error::MapFull), None), Err(_)));
    assert!(matches!(insert_outcome(Ok(()), Some(Err(lmdb::Error::MapFull))), Err(_)));
}

#[test]
fn appends_after_reopen_continue_the_index() {
    let existing = vec![Some(3), None, Some(7)];
    let last = WalReader::latest_index(&existing);
    let mut counter = IndexCounter::after(last);
    let mut all = existing.clone();
    for expected in 8..=10u64 {
        let i = counter.assign();
        assert_eq!(i, expected);
        all.push(Some(i));
    }
    assert_eq!(WalReader::latest_index(&all), 10);
}
