use kvs::engine::COMPACTION_POINT;
use kvs::meta::KvMeta;
use kvs::record::read_value;
use kvs::{KvStore, KvStoreError};

fn fresh() -> (KvStore, Vec<u8>) {
    let store = KvStore::open(KvMeta::fresh("/db".to_owned()), &[]).unwrap();
    (store, Vec::new())
}

fn set(store: &mut KvStore, log: &mut Vec<u8>, k: &str, v: &str) {
    if store.needs_compaction() {
        compact(store, log);
    }
    let rec = KvStore::put_record(k.to_owned(), v.to_owned());
    log.extend_from_slice(&rec);
    store.apply(&rec).unwrap();
}

fn remove(store: &mut KvStore, log: &mut Vec<u8>, k: &str) -> Result<(), KvStoreError> {
    let rec = store.remove_record(k.to_owned())?;
    log.extend_from_slice(&rec);
    store.apply(&rec)
}

fn get(store: &KvStore, log: &[u8], k: &str) -> Option<String> {
    let key = k.to_owned();
    store.lookup(&key).map(|(gen, off, len)| {
        assert_eq!(gen, store.current_version());
        let (off, len) = (off as usize, len as usize);
        read_value(&key, &log[off..off + len]).unwrap()
    })
}

fn read_live(store: &KvStore, log: &[u8]) -> Vec<(String, Vec<u8>)> {
    store
        .compaction_plan()
        .into_iter()
        .map(|(k, (_, off, len))| (k, log[off as usize..(off + len) as usize].to_vec()))
        .collect()
}

fn compact(store: &mut KvStore, log: &mut Vec<u8>) {
    let live = read_live(store, log);
    *log = store.compact(&live).unwrap();
}

#[test]
fn basic_round_trip() {
    let (mut s, mut log) = fresh();
    set(&mut s, &mut log, "k", "v");
    assert_eq!(get(&s, &log, "k"), Some("v".to_owned()));
    remove(&mut s, &mut log, "k").unwrap();
    assert_eq!(get(&s, &log, "k"), None);
}

#[test]
fn overwrite_keeps_latest() {
    let (mut s, mut log) = fresh();
    set(&mut s, &mut log, "k", "v1");
    set(&mut s, &mut log, "k", "v2");
    assert_eq!(get(&s, &log, "k"), Some("v2".to_owned()));
}

#[test]
fn restart_durability() {
    let (mut s, mut log) = fresh();
    set(&mut s, &mut log, "a", "1");
    set(&mut s, &mut log, "b", "2");
    let meta = s.current_meta();
    let reopened = KvStore::open(meta, &log).unwrap();
    assert_eq!(get(&reopened, &log, "a"), Some("1".to_owned()));
    assert_eq!(get(&reopened, &log, "b"), Some("2".to_owned()));
    assert_eq!(reopened.log_length(), log.len() as u64);
}

#[test]
fn reopen_after_remove_and_overwrite() {
    let (mut s, mut log) = fresh();
    set(&mut s, &mut log, "a", "1");
    set(&mut s, &mut log, "b", "2");
    set(&mut s, &mut log, "a", "3");
    remove(&mut s, &mut log, "b").unwrap();
    let reopened = KvStore::open(s.current_meta(), &log).unwrap();
    assert_eq!(get(&reopened, &log, "a"), Some("3".to_owned()));
    assert_eq!(get(&reopened, &log, "b"), None);
}

#[test]
fn compaction_triggered() {
    let (mut s, mut log) = fresh();
    let value = "x".repeat(1000);
    for _ in 0..2000 {
        set(&mut s, &mut log, "k", &value);
    }
    assert!(s.current_version() >= 1);
    assert_eq!(get(&s, &log, "k"), Some(value.clone()));
    assert!((log.len() as u64) < COMPACTION_POINT + 3000);
    let reopened = KvStore::open(s.current_meta(), &log).unwrap();
    assert_eq!(get(&reopened, &log, "k"), Some(value));
}

#[test]
fn compaction_preserves_values() {
    let (mut s, mut log) = fresh();
    set(&mut s, &mut log, "a", "1");
    set(&mut s, &mut log, "b", "2");
    set(&mut s, &mut log, "a", "11");
    set(&mut s, &mut log, "c", "3");
    remove(&mut s, &mut log, "c").unwrap();
    let before = log.len();
    compact(&mut s, &mut log);
    assert_eq!(s.current_version(), 1);
    assert_eq!(s.current_meta().uncompact_size, 0);
    assert!(log.len() < before);
    assert_eq!(get(&s, &log, "a"), Some("11".to_owned()));
    assert_eq!(get(&s, &log, "b"), Some("2".to_owned()));
    assert_eq!(get(&s, &log, "c"), None);
}

#[test]
fn compaction_rejects_wrong_reads() {
    let (mut s, mut log) = fresh();
    set(&mut s, &mut log, "a", "1");
    set(&mut s, &mut log, "b", "2");
    let live = read_live(&s, &log);
    let swapped = vec![(live[0].0.clone(), live[1].1.clone()), (live[1].0.clone(), live[0].1.clone())];
    assert!(matches!(s.compact(&swapped), Err(KvStoreError::Codec)));
    let duplicated = vec![live[0].clone(), live[0].clone()];
    assert!(matches!(s.compact(&duplicated), Err(KvStoreError::Codec)));
    let short = vec![live[0].clone()];
    assert!(matches!(s.compact(&short), Err(KvStoreError::Codec)));
    assert_eq!(s.current_version(), 0);
    assert_eq!(get(&s, &log, "a"), Some("1".to_owned()));
}

#[test]
fn prepared_compaction_changes_nothing_until_committed() {
    let (mut s, mut log) = fresh();
    set(&mut s, &mut log, "a", "1");
    set(&mut s, &mut log, "a", "2");
    set(&mut s, &mut log, "b", "3");
    let live = read_live(&s, &log);
    let c = s.prepare_compaction(&live).unwrap();
    assert_eq!(c.new_version(), 1);
    assert_eq!(s.current_version(), 0);
    assert_eq!(get(&s, &log, "a"), Some("2".to_owned()));
    let new_log = c.log().clone();
    let mut expected = Vec::new();
    for (_, rec) in &live {
        expected.extend_from_slice(rec);
    }
    assert_eq!(new_log, expected);
    let returned = s.commit_compaction(c);
    assert_eq!(returned, new_log);
    assert_eq!(s.current_version(), 1);
    assert_eq!(s.log_length(), new_log.len() as u64);
    assert_eq!(get(&s, &new_log, "a"), Some("2".to_owned()));
    assert_eq!(get(&s, &new_log, "b"), Some("3".to_owned()));
    let (gen, off, _) = s.lookup(&"a".to_owned()).unwrap();
    assert_eq!((gen, off), (1, 0));
}

#[test]
fn entries_point_at_latest_record() {
    let (mut s, mut log) = fresh();
    set(&mut s, &mut log, "a", "1");
    set(&mut s, &mut log, "b", "2");
    set(&mut s, &mut log, "a", "1");
    assert_eq!(s.lookup(&"a".to_owned()), Some((0, 38, 19)));
    let reopened = KvStore::open(s.current_meta(), &log).unwrap();
    assert_eq!(reopened.lookup(&"a".to_owned()), Some((0, 38, 19)));
    assert_eq!(reopened.lookup(&"b".to_owned()), Some((0, 19, 19)));
    remove(&mut s, &mut log, "a").unwrap();
    assert_eq!(s.lookup(&"b".to_owned()), Some((0, 19, 19)));
    assert_eq!(s.lookup(&"a".to_owned()), None);
}

#[test]
fn compaction_at_last_generation_fails() {
    let meta = KvMeta { uncompact_size: 0, db_dir: "/db".to_owned(), version: u64::MAX };
    let mut s = KvStore::open(meta, &[]).unwrap();
    assert!(matches!(s.compact(&Vec::new()), Err(KvStoreError::Io(_))));
}

#[test]
fn remove_absent_key_fails() {
    let (mut s, mut log) = fresh();
    set(&mut s, &mut log, "a", "1");
    let len = log.len();
    assert!(matches!(remove(&mut s, &mut log, "b"), Err(KvStoreError::KeyNotFound)));
    assert_eq!(log.len(), len);
    assert_eq!(s.log_length(), len as u64);
    assert_eq!(get(&s, &log, "a"), Some("1".to_owned()));
}

#[test]
fn empty_value_round_trips() {
    let (mut s, mut log) = fresh();
    set(&mut s, &mut log, "k", "");
    assert_eq!(get(&s, &log, "k"), Some(String::new()));
    let reopened = KvStore::open(s.current_meta(), &log).unwrap();
    assert_eq!(get(&reopened, &log, "k"), Some(String::new()));
}

#[test]
fn large_key_and_value() {
    let (mut s, mut log) = fresh();
    let key = "k".repeat(100 * 1024);
    let value = "é".repeat(50 * 1024);
    set(&mut s, &mut log, &key, &value);
    assert_eq!(get(&s, &log, &key), Some(value.clone()));
    let reopened = KvStore::open(s.current_meta(), &log).unwrap();
    assert_eq!(get(&reopened, &log, &key), Some(value));
}

#[test]
fn fresh_directory_is_empty() {
    let meta = KvMeta::fresh("/data".to_owned());
    assert_eq!(meta.version, 0);
    assert_eq!(meta.uncompact_size, 0);
    let s = KvStore::open(meta, &[]).unwrap();
    assert_eq!(s.current_version(), 0);
    assert_eq!(s.log_length(), 0);
    assert_eq!(s.current_meta().db_dir, "/data");
    assert_eq!(s.lookup(&"k".to_owned()), None);
    assert!(!s.needs_compaction());
}

#[test]
fn open_rejects_corrupt_log() {
    let (mut s, mut log) = fresh();
    set(&mut s, &mut log, "a", "1");
    log.pop();
    assert!(matches!(KvStore::open(s.current_meta(), &log), Err(KvStoreError::Codec)));
    assert!(matches!(
        KvStore::open(KvMeta::fresh("/db".to_owned()), b"{\"Set\":{}}"),
        Err(KvStoreError::Codec)
    ));
}

#[test]
fn apply_rejects_partial_records() {
    let (mut s, _) = fresh();
    let mut two = KvStore::put_record("a".to_owned(), "1".to_owned());
    two.extend(KvStore::put_record("b".to_owned(), "2".to_owned()));
    assert!(matches!(s.apply(&two), Err(KvStoreError::Codec)));
    assert!(matches!(s.apply(&two[..5]), Err(KvStoreError::Codec)));
    assert_eq!(s.log_length(), 0);
}

#[test]
fn written_bytes_count_toward_compaction() {
    let (mut s, mut log) = fresh();
    set(&mut s, &mut log, "k", "v");
    assert_eq!(s.current_meta().uncompact_size, log.len() as u64);
    remove(&mut s, &mut log, "k").unwrap();
    assert_eq!(s.current_meta().uncompact_size, log.len() as u64);
    let meta = KvMeta { uncompact_size: COMPACTION_POINT, db_dir: "/db".to_owned(), version: 0 };
    let big = KvStore::open(meta, &[]).unwrap();
    assert!(big.needs_compaction());
}

#[test]
fn index_entries_point_at_records() {
    let (mut s, mut log) = fresh();
    set(&mut s, &mut log, "a", "1");
    set(&mut s, &mut log, "b", "22");
    let (gen, off, len) = s.lookup(&"b".to_owned()).unwrap();
    assert_eq!((gen, off, len), (0, 19, 20));
    assert_eq!(s.lookup(&"a".to_owned()), Some((0, 0, 19)));
    assert!(matches!(read_value(&"a".to_owned(), &log[19..39]), Err(KvStoreError::Codec)));
}

#[test]
fn sequence_of_operations_matches_model() {
    let (mut s, mut log) = fresh();
    let mut model = std::collections::BTreeMap::new();
    for i in 0..200u32 {
        let k = format!("key{}", i % 7);
        if i % 5 == 3 {
            let r = remove(&mut s, &mut log, &k);
            assert_eq!(r.is_ok(), model.remove(&k).is_some());
        } else {
            let v = format!("value{}", i);
            set(&mut s, &mut log, &k, &v);
            model.insert(k, v);
        }
        for j in 0..7 {
            let k = format!("key{}", j);
            assert_eq!(get(&s, &log, &k), model.get(&k).cloned());
        }
    }
}
