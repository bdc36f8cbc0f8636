use restate_partition::metadata_store::{MetadataStore, Precondition, VersionedValue};
use restate_partition::storage_codec::{decode_framed, encode_framed, StorageCodecKind, StorageDecodeError};
use restate_partition::version::Version;

#[test]
fn durable_storage() {
    let mut store = MetadataStore::new();
    for key in 1u32..=10 {
        let value = key.to_string();
        store
            .put(value.clone(), VersionedValue::new(Version::from(key), value.into_bytes()), Precondition::DoesNotExist)
            .unwrap();
    }
    // What a flush writes to disk, and what a restart reads back.
    let persisted: Vec<(Vec<u8>, Vec<u8>)> = store.records();
    drop(store);
    let restarted = MetadataStore::from_records(&persisted).unwrap();
    for key in 1u32..=10 {
        let value = restarted.get(&key.to_string()).unwrap();
        assert_eq!(value.version, Version::from(key));
        assert_eq!(value.value, key.to_string().into_bytes());
    }
}

#[test]
fn value_bytes_layout() {
    let v = VersionedValue::new(Version::from(0x01020304), vec![9, 8]);
    assert_eq!(v.encode(), vec![2, 0, 0, 0, 6, 1, 2, 3, 4, 9, 8]);
}

#[test]
fn frames_round_trip_and_reject_bad_input() {
    let payload = vec![5u8, 6, 7];
    let framed = encode_framed(StorageCodecKind::Protobuf, &payload);
    assert_eq!(framed, vec![1, 0, 0, 0, 3, 5, 6, 7]);
    assert_eq!(decode_framed(&framed), Ok((StorageCodecKind::Protobuf, payload)));
    assert_eq!(decode_framed(&vec![9, 0, 0, 0, 0]), Err(StorageDecodeError::UnsupportedCodecKind(9)));
    assert!(matches!(decode_framed(&vec![1, 0, 0]), Err(StorageDecodeError::DecodeValue(_))));
    assert!(matches!(decode_framed(&vec![1, 0, 0, 0, 2, 1]), Err(StorageDecodeError::DecodeValue(_))));
    assert!(matches!(
        VersionedValue::decode(&encode_framed(StorageCodecKind::LengthPrefixedRawBytes, &vec![1, 2])),
        Err(StorageDecodeError::DecodeValue(_))
    ));
    assert_eq!(
        VersionedValue::decode(&encode_framed(StorageCodecKind::Protobuf, &vec![0, 0, 0, 1])).err(),
        Some(StorageDecodeError::UnsupportedCodecKind(1))
    );
}

#[test]
fn keys_lists_each_key_once() {
    let mut store = MetadataStore::new();
    store.put("a".to_string(), VersionedValue::new(Version::min(), vec![]), Precondition::Unconditional).unwrap();
    store.put("b".to_string(), VersionedValue::new(Version::min(), vec![]), Precondition::Unconditional).unwrap();
    store.put("a".to_string(), VersionedValue::new(Version::from(2), vec![]), Precondition::Unconditional).unwrap();
    let mut keys = store.keys();
    keys.sort();
    assert_eq!(keys, vec!["a".to_string(), "b".to_string()]);
}

#[test]
fn corrupt_records_are_rejected() {
    assert!(MetadataStore::from_records(&vec![(vec![0xff], VersionedValue::new(Version::min(), vec![]).encode())]).is_err());
    assert!(MetadataStore::from_records(&vec![(b"k".to_vec(), vec![1, 2])]).is_err());
    let later = vec![
        (b"k".to_vec(), VersionedValue::new(Version::min(), vec![1]).encode()),
        (b"k".to_vec(), VersionedValue::new(Version::from(2), vec![2]).encode()),
    ];
    let store = MetadataStore::from_records(&later).unwrap();
    assert_eq!(store.get_version(&"k".to_string()), Some(Version::from(2)));
}
