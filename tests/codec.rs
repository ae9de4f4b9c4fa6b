use kvs::meta::{check_engine, get_db_path, get_meta_path, handle_is_stale, KvMeta, KvStoreMeta};
use kvs::record::{decode, encode, read_value, Command};
use kvs::KvStoreError;

#[test]
fn put_record_bytes() {
    let rec = encode(&Command::Put { key: "k".to_owned(), value: "v".to_owned() });
    assert_eq!(
        rec,
        vec![b'P', 1, 0, 0, 0, 0, 0, 0, 0, 1, 0, 0, 0, 0, 0, 0, 0, b'k', b'v']
    );
}

#[test]
fn remove_record_bytes() {
    let rec = encode(&Command::Remove { key: "ab".to_owned() });
    assert_eq!(rec, vec![b'R', 2, 0, 0, 0, 0, 0, 0, 0, b'a', b'b']);
}

#[test]
fn decode_gives_offsets() {
    let mut log = encode(&Command::Put { key: "clé".to_owned(), value: "".to_owned() });
    let first = log.len();
    log.extend(encode(&Command::Remove { key: "clé".to_owned() }));
    match decode(&log, 0) {
        Some((Command::Put { key, value }, n)) => {
            assert_eq!(key, "clé");
            assert_eq!(value, "");
            assert_eq!(n, first);
            assert_eq!(n, 17 + 4);
        }
        other => panic!("unexpected {:?}", other),
    }
    match decode(&log, first) {
        Some((Command::Remove { key }, n)) => {
            assert_eq!(key, "clé");
            assert_eq!(first + n, log.len());
        }
        other => panic!("unexpected {:?}", other),
    }
    assert!(decode(&log, log.len()).is_none());
}

#[test]
fn decode_rejects_bad_input() {
    let rec = encode(&Command::Put { key: "k".to_owned(), value: "v".to_owned() });
    assert!(decode(&rec[..rec.len() - 1], 0).is_none());
    let mut bad_tag = rec.clone();
    bad_tag[0] = b'X';
    assert!(decode(&bad_tag, 0).is_none());
    let mut bad_utf8 = rec.clone();
    bad_utf8[17] = 0xff;
    assert!(decode(&bad_utf8, 0).is_none());
    let mut huge = rec.clone();
    huge[8] = 0xff;
    assert!(decode(&huge, 0).is_none());
}

#[test]
fn read_value_checks_key() {
    let rec = encode(&Command::Put { key: "k".to_owned(), value: "v".to_owned() });
    assert_eq!(read_value(&"k".to_owned(), &rec).unwrap(), "v");
    assert!(matches!(read_value(&"j".to_owned(), &rec), Err(KvStoreError::Codec)));
    let rm = encode(&Command::Remove { key: "k".to_owned() });
    assert!(matches!(read_value(&"k".to_owned(), &rm), Err(KvStoreError::Codec)));
}

#[test]
fn file_paths() {
    assert_eq!(get_db_path("/tmp/db", 0), "/tmp/db/kv.0.log");
    assert_eq!(get_db_path("/tmp/db", 1234), "/tmp/db/kv.1234.log");
    assert_eq!(get_db_path("d", u64::MAX), "d/kv.18446744073709551615.log");
    assert_eq!(get_meta_path("/tmp/db"), "/tmp/db/kv.meta");
}

#[test]
fn meta_copies() {
    let m = KvStoreMeta::from(KvMeta { uncompact_size: 5, db_dir: "/x".to_owned(), version: 2 });
    let p = m.clone_to_plain_meta();
    assert_eq!(p.uncompact_size, 5);
    assert_eq!(p.db_dir, "/x");
    assert_eq!(p.version, 2);
}

#[test]
fn stale_handles() {
    assert!(handle_is_stale(None, 0));
    assert!(handle_is_stale(Some(1), 2));
    assert!(!handle_is_stale(Some(2), 2));
}

#[test]
fn error_messages() {
    assert_eq!(KvStoreError::PathInvalid.message(), "Path is not a directory");
    assert_eq!(KvStoreError::KeyNotFound.message(), "Key not found");
    assert_eq!(KvStoreError::EngineNotMatch.message(), "Engine not match");
    assert_eq!(KvStoreError::Io("disk".to_owned()).message(), "disk");
    assert_eq!(KvStoreError::Rpc("far".to_owned()).message(), "far");
    assert_eq!(KvStoreError::Codec.message(), "Record could not be decoded");
}

#[test]
fn engine_choice() {
    assert_eq!(check_engine(None, None).unwrap(), "kvs");
    assert_eq!(check_engine(Some("sled".to_owned()), None).unwrap(), "sled");
    assert_eq!(check_engine(None, Some("kvs".to_owned())).unwrap(), "kvs");
    assert!(matches!(
        check_engine(Some("sled".to_owned()), Some("kvs".to_owned())),
        Err(KvStoreError::EngineNotMatch)
    ));
    assert!(matches!(check_engine(None, Some("sled".to_owned())), Err(KvStoreError::EngineNotMatch)));
}
