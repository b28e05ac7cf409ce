use cosmwasm_std::testing::MockStorage;
use cosmwasm_std::Storage as _;
use cw_storage_plus::{IntKey, Key, PrimaryKey};
use shade_storage::{BorshMap, StoreError};

/// The parts of a key, as the key type of the storage library gives them.
fn parts<'a, K: PrimaryKey<'a>>(k: K) -> Vec<Vec<u8>> {
    k.key().iter().map(|part: &Key| part.as_ref().to_vec()).collect()
}

fn refs(parts: &[Vec<u8>]) -> Vec<&[u8]> {
    parts.iter().map(|part| part.as_slice()).collect()
}

fn people() -> BorshMap<'static, u64> {
    BorshMap::new("people")
}

fn allowance() -> BorshMap<'static, u64> {
    BorshMap::new("allow")
}

fn triple() -> BorshMap<'static, u64> {
    BorshMap::new("triple")
}

fn tuple() -> BorshMap<'static, u64> {
    BorshMap::new("tuple")
}

#[test]
fn save_and_load_tuple() {
    let mut store = MockStorage::new();
    let key = parts((11u128, 2u128));
    let key2 = parts((1u128, 12u128));
    tuple().save(&mut store, &refs(&key), &100u64).unwrap();
    tuple().save(&mut store, &refs(&key2), &200u64).unwrap();
    assert_eq!(tuple().load(&store, &refs(&key)).unwrap(), 100u64);
    assert_eq!(tuple().load(&store, &refs(&key2)).unwrap(), 200u64);
}

#[test]
fn create_path() {
    let john = parts(b"john".as_slice());
    let key = people().key(&refs(&john));
    // this should be prefixed(people) || john
    assert_eq!("people".len() + "john".len() + 2, key.len());
    assert_eq!(b"people".to_vec().as_slice(), &key[2..8]);
    assert_eq!(b"john".to_vec().as_slice(), &key[8..]);

    let pair = parts((b"john".as_slice(), b"maria".as_slice()));
    let key = allowance().key(&refs(&pair));
    // this should be prefixed(allow) || prefixed(john) || maria
    assert_eq!(
        "allow".len() + "john".len() + "maria".len() + 2 * 2,
        key.len()
    );
    assert_eq!(b"allow".to_vec().as_slice(), &key[2..7]);
    assert_eq!(b"john".to_vec().as_slice(), &key[9..13]);
    assert_eq!(b"maria".to_vec().as_slice(), &key[13..]);

    let three = parts((b"john".as_slice(), 8u8, "pedro"));
    let key = triple().key(&refs(&three));
    // this should be prefixed(allow) || prefixed(john) || maria
    assert_eq!(
        "triple".len() + "john".len() + 1 + "pedro".len() + 2 * 3,
        key.len()
    );
    assert_eq!(b"triple".to_vec().as_slice(), &key[2..8]);
    assert_eq!(b"john".to_vec().as_slice(), &key[10..14]);
    assert_eq!(8u8.to_cw_bytes(), &key[16..17]);
    assert_eq!(b"pedro".to_vec().as_slice(), &key[17..]);
}

#[test]
fn save_and_load() {
    let mut store = MockStorage::new();

    // save and load on one key
    let john = parts(b"john".as_slice());
    let data: u64 = 32;
    assert_eq!(None, people().may_load(&store, &refs(&john)).unwrap());
    people().save(&mut store, &refs(&john), &data).unwrap();
    assert_eq!(data, people().load(&store, &refs(&john)).unwrap());

    // nothing on another key
    let jack = parts(b"jack".as_slice());
    assert_eq!(None, people().may_load(&store, &refs(&jack)).unwrap());

    // same named path gets the data
    assert_eq!(data, people().load(&store, &[b"john".as_slice()]).unwrap());

    // removing leaves us empty
    people().remove(&mut store, &refs(&john));
    assert_eq!(None, people().may_load(&store, &refs(&john)).unwrap());
}

#[test]
fn existence() {
    let mut store = MockStorage::new();

    // set data in proper format
    let data: u64 = 32;
    people().save(&mut store, &[b"john".as_slice()], &data).unwrap();

    // set and remove it
    people()
        .save(&mut store, &[b"removed".as_slice()], &data)
        .unwrap();
    people().remove(&mut store, &[b"removed".as_slice()]);

    // invalid, but non-empty data
    store.set(&people().key(&[b"random".as_slice()]), b"random-data");

    // any data, including invalid or empty is returned as "has"
    assert!(people().has(&store, &[b"john".as_slice()]));
    assert!(people().has(&store, &[b"random".as_slice()]));

    // if nothing was written, it is false
    assert!(!people().has(&store, &[b"never-writen".as_slice()]));
    assert!(!people().has(&store, &[b"removed".as_slice()]));
}

#[test]
fn composite_keys() {
    let mut store = MockStorage::new();

    // save and load on a composite key
    let allow = parts((b"owner".as_slice(), b"spender".as_slice()));
    assert_eq!(None, allowance().may_load(&store, &refs(&allow)).unwrap());
    allowance().save(&mut store, &refs(&allow), &1234).unwrap();
    assert_eq!(1234, allowance().load(&store, &refs(&allow)).unwrap());

    // not under other key
    let other = parts((b"owners".as_slice(), b"pender".as_slice()));
    let different = allowance().may_load(&store, &refs(&other)).unwrap();
    assert_eq!(None, different);

    // matches under a proper copy
    let copy = parts((b"owner".as_slice(), b"spender".as_slice()));
    let same = allowance().load(&store, &refs(&copy)).unwrap();
    assert_eq!(1234, same);
}

#[test]
fn triple_keys() {
    let mut store = MockStorage::new();

    // save and load on a triple composite key
    let key = parts((b"owner".as_slice(), 10u8, "recipient"));
    assert_eq!(None, triple().may_load(&store, &refs(&key)).unwrap());
    triple().save(&mut store, &refs(&key), &1234).unwrap();
    assert_eq!(1234, triple().load(&store, &refs(&key)).unwrap());

    // not under other key
    let other = parts((b"owners".as_slice(), 10u8, "ecipient"));
    let different = triple().may_load(&store, &refs(&other)).unwrap();
    assert_eq!(None, different);

    // matches under a proper copy
    let copy = parts((b"owner".as_slice(), 10u8, "recipient"));
    let same = triple().load(&store, &refs(&copy)).unwrap();
    assert_eq!(1234, same);
}

#[test]
fn load_reports_what_is_missing_or_unreadable() {
    let mut store = MockStorage::new();
    let map = people();
    assert_eq!(map.namespace(), b"people");
    match map.load(&store, &[b"nobody".as_slice()]) {
        Err(StoreError::NotFound { kind }) => assert_eq!(kind, "u64"),
        other => panic!("unexpected {:?}", other),
    }
    store.set(&map.key(&[b"random".as_slice()]), b"random-data");
    assert!(matches!(
        map.load(&store, &[b"random".as_slice()]),
        Err(StoreError::Codec { .. })
    ));
    assert!(matches!(
        map.may_load(&store, &[b"random".as_slice()]),
        Err(StoreError::Codec { .. })
    ));
}

#[test]
fn update_writes_what_the_action_returns() {
    let mut store = MockStorage::new();
    let map = people();
    let key = [b"count".as_slice()];
    let bump = |old: Option<u64>| -> Result<u64, StoreError> { Ok(old.unwrap_or(0) + 1) };
    assert_eq!(map.update(&mut store, &key, bump), Ok(1));
    assert_eq!(map.update(&mut store, &key, bump), Ok(2));
    assert_eq!(map.load(&store, &key), Ok(2));
    let refuse = |_: Option<u64>| -> Result<u64, StoreError> { Err(StoreError::Bounds) };
    assert_eq!(map.update(&mut store, &key, refuse), Err(StoreError::Bounds));
    assert_eq!(map.load(&store, &key), Ok(2));
    store.set(&map.key(&key), b"xyz");
    assert!(matches!(
        map.update(&mut store, &key, bump),
        Err(StoreError::Codec { .. })
    ));
    assert_eq!(store.get(&map.key(&key)), Some(b"xyz".to_vec()));
}
