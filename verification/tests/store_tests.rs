use actionkv::StoreError;
use actionkv::index::Index;
use actionkv::log::{append_record, read_record_at, replay};
use actionkv::store::ActionKV;

#[test]
fn round_trip_single_record() {
    let mut log: Vec<u8> = Vec::new();
    let key = b"some key".to_vec();
    let value = b"some value".to_vec();
    let off = append_record(&mut log, &key, &value);
    assert_eq!(off, 0);
    assert_eq!(log.len(), 12 + key.len() + value.len());
    let kv = read_record_at(&log, off).expect("freshly appended record must read back");
    assert_eq!(kv.key, key);
    assert_eq!(kv.value, value);
}

#[test]
fn round_trip_through_store() {
    let mut store = ActionKV::open(Vec::new());
    store.load().unwrap();
    let key = b"k".to_vec();
    let value = b"v".to_vec();
    let off = store.insert_but_ignore_index(&key, &value);
    let kv = store.get_at(off).unwrap();
    assert_eq!(kv.key, key);
    assert_eq!(kv.value, value);
}

#[test]
fn round_trip_empty_key_and_value() {
    let mut log: Vec<u8> = Vec::new();
    let off = append_record(&mut log, &Vec::new(), &Vec::new());
    assert_eq!(log.len(), 12);
    let kv = read_record_at(&log, off).unwrap();
    assert_eq!(kv.key, Vec::<u8>::new());
    assert_eq!(kv.value, Vec::<u8>::new());
}

#[test]
fn checksum_field_is_crc32_of_payload() {
    let mut log: Vec<u8> = Vec::new();
    append_record(&mut log, &b"a".to_vec(), &b"1".to_vec());
    let expected = crc32fast::hash(b"a1").to_le_bytes();
    assert_eq!(&log[0..4], &expected);
}

#[test]
fn last_write_wins() {
    let mut store = ActionKV::open(Vec::new());
    store.load().unwrap();
    let key = b"k".to_vec();
    store.insert(&key, &b"v1".to_vec());
    store.insert(&key, &b"v2".to_vec());
    store.insert(&key, &b"v3".to_vec());
    assert_eq!(store.get(&key), Some(b"v3".to_vec()));
}

#[test]
fn tombstone_monotonicity() {
    let mut store = ActionKV::open(Vec::new());
    store.load().unwrap();
    let key = b"a".to_vec();
    store.insert(&key, &b"1".to_vec());
    store.insert(&b"b".to_vec(), &b"2".to_vec());
    let len_before = store.seek_to_end();
    store.delete(&key);
    let len_after = store.seek_to_end();
    assert!(len_after > len_before);
    assert_eq!(store.get(&key), None);
    // A full replay still yields every prior record for the key, in order,
    // then the tombstone.
    let recs = replay(store.log_bytes()).unwrap();
    assert_eq!(recs.len(), 3);
    assert_eq!(recs[0].1.key, b"a".to_vec());
    assert_eq!(recs[0].1.value, b"1".to_vec());
    assert_eq!(recs[1].1.key, b"b".to_vec());
    assert_eq!(recs[2].1.key, b"a".to_vec());
    assert_eq!(recs[2].1.value, Vec::<u8>::new());
    // The fallback scan agrees: the key's last record is the tombstone.
    let found = store.find(&key).unwrap().expect("key has records");
    assert_eq!(found.0, len_before);
    assert_eq!(found.1, Vec::<u8>::new());
}

#[test]
fn replay_idempotence() {
    let mut store = ActionKV::open(Vec::new());
    store.load().unwrap();
    store.insert(&b"a".to_vec(), &b"1".to_vec());
    store.insert(&b"b".to_vec(), &b"2".to_vec());
    store.insert(&b"a".to_vec(), &b"3".to_vec());

    let mut first = Index::new();
    first.rebuild_from(store.log_bytes()).unwrap();
    let mut second = Index::new();
    second.rebuild_from(store.log_bytes()).unwrap();
    for key in [b"a".to_vec(), b"b".to_vec(), b"missing".to_vec()] {
        assert_eq!(first.lookup(&key), second.lookup(&key));
    }
    assert_eq!(first.lookup(&b"a".to_vec()), Some((12 + 2) * 2));
    assert_eq!(first.lookup(&b"b".to_vec()), Some(12 + 2));
    assert_eq!(first.lookup(&b"missing".to_vec()), None);
}

#[test]
fn corruption_of_payload_is_detected() {
    let mut log: Vec<u8> = Vec::new();
    append_record(&mut log, &b"key".to_vec(), &b"value".to_vec());
    // Flipping any byte within the key or value region fails the checksum.
    for i in 12..log.len() {
        let mut corrupt = log.clone();
        corrupt[i] ^= 0xFF;
        assert_eq!(read_record_at(&corrupt, 0), Err(StoreError::ChecksumMismatch));
    }
}

#[test]
fn corruption_of_checksum_field_is_detected() {
    let mut log: Vec<u8> = Vec::new();
    append_record(&mut log, &b"key".to_vec(), &b"value".to_vec());
    // Flipping any byte of the checksum field, data intact, fails as well.
    for i in 0..4 {
        let mut corrupt = log.clone();
        corrupt[i] ^= 0xFF;
        assert_eq!(read_record_at(&corrupt, 0), Err(StoreError::ChecksumMismatch));
    }
}

#[test]
fn corrupt_log_fails_load_and_replay() {
    let mut store = ActionKV::open(Vec::new());
    store.load().unwrap();
    store.insert(&b"a".to_vec(), &b"1".to_vec());
    let mut bytes = store.log_bytes().clone();
    let last = bytes.len() - 1;
    bytes[last] ^= 0xFF;
    let mut reopened = ActionKV::open(bytes.clone());
    assert_eq!(reopened.load(), Err(StoreError::ChecksumMismatch));
    assert_eq!(replay(&bytes), Err(StoreError::ChecksumMismatch));
}

#[test]
fn truncated_record_reads_as_end_of_log() {
    let mut log: Vec<u8> = Vec::new();
    append_record(&mut log, &b"key".to_vec(), &b"value".to_vec());
    // Fewer bytes than the header declares: the expected end-of-log signal.
    log.truncate(log.len() - 1);
    assert_eq!(read_record_at(&log, 0), Err(StoreError::UnexpectedEndOfLog));
    // Reading past the end of the log says the same.
    assert_eq!(read_record_at(&log, 10_000), Err(StoreError::UnexpectedEndOfLog));
    // During sequential replay a trailing partial record ends the replay
    // cleanly instead of failing it.
    assert_eq!(replay(&log).unwrap().len(), 0);
}

#[test]
fn empty_store_behavior() {
    let mut store = ActionKV::open(Vec::new());
    assert_eq!(store.seek_to_end(), 0);
    store.load().unwrap();
    assert_eq!(store.get(&b"anything".to_vec()), None);
    assert_eq!(replay(store.log_bytes()).unwrap().len(), 0);
    assert_eq!(store.find(&b"anything".to_vec()).unwrap(), None);
}

#[test]
fn end_to_end_scenario() {
    let mut store = ActionKV::open(Vec::new());
    store.load().unwrap();
    store.insert(&b"a".to_vec(), &b"1".to_vec());
    store.insert(&b"b".to_vec(), &b"2".to_vec());
    store.update(&b"a".to_vec(), &b"3".to_vec());
    assert_eq!(store.get(&b"a".to_vec()), Some(b"3".to_vec()));
    assert_eq!(store.get(&b"b".to_vec()), Some(b"2".to_vec()));
    store.delete(&b"a".to_vec());
    assert_eq!(store.get(&b"a".to_vec()), None);

    // Reopening the same bytes and replaying from a cold index reproduces
    // the same observable outcomes.
    let bytes = store.log_bytes().clone();
    let mut reopened = ActionKV::open(bytes);
    reopened.load().unwrap();
    assert_eq!(reopened.get(&b"a".to_vec()), None);
    assert_eq!(reopened.get(&b"b".to_vec()), Some(b"2".to_vec()));
    assert_eq!(reopened.seek_to_end(), store.seek_to_end());
}

#[test]
fn index_lookup_follows_latest_write() {
    let mut idx = Index::new();
    assert_eq!(idx.lookup(&b"k".to_vec()), None);
    idx.note_write(b"k".to_vec(), 0);
    assert_eq!(idx.lookup(&b"k".to_vec()), Some(0));
    idx.note_write(b"k".to_vec(), 42);
    assert_eq!(idx.lookup(&b"k".to_vec()), Some(42));
    idx.note_write(b"other".to_vec(), 7);
    assert_eq!(idx.lookup(&b"k".to_vec()), Some(42));
    assert_eq!(idx.lookup(&b"other".to_vec()), Some(7));
}

#[test]
fn find_reports_last_match_independent_of_index() {
    let mut store = ActionKV::open(Vec::new());
    store.load().unwrap();
    store.insert(&b"a".to_vec(), &b"1".to_vec());
    store.insert(&b"b".to_vec(), &b"2".to_vec());
    store.insert(&b"a".to_vec(), &b"3".to_vec());
    let found = store.find(&b"a".to_vec()).unwrap().expect("key exists");
    assert_eq!(found.1, b"3".to_vec());
    assert_eq!(found.0, (12 + 2) * 2);
    assert_eq!(store.find(&b"nope".to_vec()).unwrap(), None);
}
