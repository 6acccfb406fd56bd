use content_store::backend::MemoryBackend;
use content_store::content::StoreError;
use content_store::hash::HasherFactory;
use content_store::store::Store;

use std::fmt::Debug;

fn store<T: content_store::content::Content>() -> Store<T, MemoryBackend> {
    Store::new(MemoryBackend::new(), HasherFactory::new())
}

fn put_get<T: content_store::content::Content + Debug + PartialEq>(t: T) {
    let mut store = store::<T>();
    let hash = store.put(&t).unwrap();
    assert_eq!(store.get(&hash).unwrap(), t);
}

#[test]
fn put_u8() {
    let mut store = store::<u8>();

    let hash = store.put(&42).unwrap();
    let hash2 = store.put(&43).unwrap();

    assert_eq!(store.get(&hash).unwrap(), 42);
    assert_eq!(store.get(&hash2).unwrap(), 43);
}

#[test]
fn std_impls_round_trip() {
    put_get(Some(46u64));
    put_get(None as Option<u64>);
    put_get(38u64);
}

#[test]
fn round_trip_integers() {
    put_get(0u8);
    put_get(255u8);
    put_get(0x0102u16);
    put_get(0xdeadbeefu32);
    put_get(0x0102030405060708u64);
    put_get(-2i16);
    put_get(-40000i32);
    put_get(i64::MIN);
    put_get(());
    put_get(Box::new(99u64));
    put_get(Some(Some(7u16)));
}

#[test]
fn distinct_values_distinct_digests() {
    let mut store = store::<u8>();
    let a = store.put(&42).unwrap();
    let b = store.put(&43).unwrap();
    assert_ne!(a, b);
    assert_eq!(store.get(&a).unwrap(), 42);
    assert_eq!(store.get(&b).unwrap(), 43);
}

#[test]
fn put_is_deterministic_and_idempotent() {
    let mut store = store::<u64>();
    let first = store.put(&46).unwrap();
    let second = store.put(&46).unwrap();
    assert_eq!(first, second);
    // The repeated insert corrupted nothing.
    assert_eq!(store.get(&first).unwrap(), 46);
}

#[test]
fn optional_digests_differ() {
    let mut store = store::<Option<u64>>();
    let present = store.put(&Some(46)).unwrap();
    let absent = store.put(&None).unwrap();
    assert_ne!(present, absent);
    assert_eq!(store.get(&present).unwrap(), Some(46));
    assert_eq!(store.get(&absent).unwrap(), None);
}

#[test]
fn get_unknown_digest_is_not_found() {
    let mut populated = store::<u8>();
    let foreign = populated.put(&42).unwrap();

    let mut empty = store::<u8>();
    assert_eq!(empty.get(&foreign).unwrap_err(), StoreError::NotFound);
}

#[test]
fn indirection_is_invisible_on_the_wire() {
    let mut boxed_store = store::<Box<u64>>();
    let mut plain_store = store::<u64>();
    let boxed = boxed_store.put(&Box::new(46)).unwrap();
    let plain = plain_store.put(&46).unwrap();
    assert_eq!(boxed, plain);
}

#[test]
fn digest_is_32_bytes_not_the_payload() {
    let mut store = store::<u8>();
    let d = store.put(&42).unwrap();
    assert_eq!(d.as_bytes().len(), 32);
    assert_ne!(*d.as_bytes(), vec![42u8]);
}
