use restate_partition::metadata_store::{MetadataStore, Precondition, VersionedValue, WriteError};
use restate_partition::version::Version;

fn value(version: Version, text: &str) -> VersionedValue {
    VersionedValue::new(version, text.as_bytes().to_vec())
}

fn same(a: &Option<VersionedValue>, b: &VersionedValue) -> bool {
    match a {
        Some(a) => a.version == b.version && a.value == b.value,
        None => false,
    }
}

/// Reads, bumps the version and writes back guarded by the version read; retries when the
/// precondition fails, as a concurrent writer does.
fn bump(store: &mut MetadataStore, key: &String) {
    loop {
        let result = match store.get(key) {
            Some(v) => {
                let previous = v.version();
                let next = VersionedValue::new(previous.next(), v.value.clone());
                store.put(key.clone(), next, Precondition::MatchesVersion(previous))
            }
            None => store.put(key.clone(), value(Version::min(), ""), Precondition::DoesNotExist),
        };
        match result {
            Ok(()) => return,
            Err(WriteError::FailedPrecondition(_)) => continue,
            Err(e) => panic!("unexpected error {:?}", e),
        }
    }
}

#[test]
fn basic_metadata_store_operations() {
    let mut store = MetadataStore::new();
    let key = "key".to_string();
    let test_value = value(Version::min(), "test_value");
    let next_value = value(Version::from(2), "next_value");
    let other_value = value(Version::min(), "other_value");

    assert!(store.get(&key).is_none());

    store.put(key.clone(), test_value.duplicate(), Precondition::Unconditional).unwrap();
    assert_eq!(store.get_version(&key), Some(test_value.version()));
    assert!(same(&store.get(&key), &test_value));

    assert!(matches!(
        store.put(key.clone(), other_value.duplicate(), Precondition::DoesNotExist),
        Err(WriteError::FailedPrecondition(_))
    ));
    assert!(matches!(
        store.put(key.clone(), other_value.duplicate(), Precondition::MatchesVersion(Version::invalid())),
        Err(WriteError::FailedPrecondition(_))
    ));

    store.put(key.clone(), next_value.duplicate(), Precondition::MatchesVersion(Version::min())).unwrap();
    assert!(same(&store.get(&key), &next_value));

    assert!(matches!(
        store.delete(&key, Precondition::MatchesVersion(Version::min())),
        Err(WriteError::FailedPrecondition(_))
    ));

    store.delete(&key, Precondition::MatchesVersion(Version::from(2))).unwrap();
    assert!(store.get(&key).is_none());

    store.put(key.clone(), other_value.duplicate(), Precondition::Unconditional).unwrap();
    store.delete(&key, Precondition::Unconditional).unwrap();
    assert!(store.get(&key).is_none());
}

#[test]
fn concurrent_operations() {
    let mut store = MetadataStore::new();
    for key in 1u32..=10 {
        for _instance in 0..key {
            bump(&mut store, &key.to_string());
        }
    }
    for key in 1u32..=10 {
        assert_eq!(store.get_version(&key.to_string()), Some(Version::from(key)));
    }
}

#[test]
fn basic_cas_scenario() {
    let mut store = MetadataStore::new();
    let k = "k".to_string();
    assert!(store.put(k.clone(), value(Version::from(1), "v1"), Precondition::DoesNotExist).is_ok());
    assert!(matches!(
        store.put(k.clone(), value(Version::from(1), "v1"), Precondition::DoesNotExist),
        Err(WriteError::FailedPrecondition(_))
    ));
    assert!(store.put(k.clone(), value(Version::from(2), "v2"), Precondition::MatchesVersion(Version::from(1))).is_ok());
    assert!(same(&store.get(&k), &value(Version::from(2), "v2")));
}

#[test]
fn version_grows_by_one_under_read_modify_write() {
    let mut store = MetadataStore::new();
    let k = "counter".to_string();
    bump(&mut store, &k);
    assert_eq!(store.get_version(&k), Some(Version::from(1)));
    bump(&mut store, &k);
    bump(&mut store, &k);
    assert_eq!(store.get_version(&k), Some(Version::from(3)));
}

#[test]
fn stale_write_fails_and_keeps_version() {
    let mut store = MetadataStore::new();
    let k = "k".to_string();
    store.put(k.clone(), value(Version::from(5), "a"), Precondition::Unconditional).unwrap();
    let r = store.put(k.clone(), value(Version::from(5), "b"), Precondition::MatchesVersion(Version::from(4)));
    assert!(matches!(r, Err(WriteError::FailedPrecondition(_))));
    assert_eq!(store.get_version(&k), Some(Version::from(5)));
}

#[test]
fn delete_missing_key() {
    let mut store = MetadataStore::new();
    let k = "absent".to_string();
    assert!(store.delete(&k, Precondition::Unconditional).is_ok());
    assert!(store.delete(&k, Precondition::DoesNotExist).is_ok());
    assert!(matches!(
        store.delete(&k, Precondition::MatchesVersion(Version::min())),
        Err(WriteError::FailedPrecondition(_))
    ));
}

#[test]
fn many_keys_are_independent() {
    let mut store = MetadataStore::new();
    for i in 1u32..=10 {
        store.put(i.to_string(), value(Version::from(i), &i.to_string()), Precondition::DoesNotExist).unwrap();
    }
    for i in 1u32..=10 {
        assert!(same(&store.get(&i.to_string()), &value(Version::from(i), &i.to_string())));
    }
}

#[test]
fn version_constants() {
    assert_eq!(Version::min().value, 1);
    assert_eq!(Version::invalid().value, 0);
    assert_eq!(Version::min().next(), Version::from(2));
    assert!(Version::min().is_valid());
    assert!(!Version::invalid().is_valid());
}

#[test]
fn interleaved_writers_each_bump_once() {
    // Every writer reads before any writes; all but one lose the race and retry.
    let mut store = MetadataStore::new();
    for key in 1u32..=10 {
        let k = key.to_string();
        let mut pending: Vec<u32> = (0..key).collect();
        while !pending.is_empty() {
            let reads: Vec<Option<Version>> = pending.iter().map(|_| store.get_version(&k)).collect();
            let mut lost = Vec::new();
            for (writer, read) in pending.iter().zip(reads) {
                let result = match read {
                    Some(v) => store.put(k.clone(), value(v.next(), "x"), Precondition::MatchesVersion(v)),
                    None => store.put(k.clone(), value(Version::min(), "x"), Precondition::DoesNotExist),
                };
                match result {
                    Ok(()) => {}
                    Err(WriteError::FailedPrecondition(_)) => lost.push(*writer),
                    Err(e) => panic!("unexpected error {:?}", e),
                }
            }
            assert_eq!(lost.len() + 1, pending.len());
            pending = lost;
        }
        assert_eq!(store.get_version(&k), Some(Version::from(key)));
    }
}
