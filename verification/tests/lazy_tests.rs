use content_store::backend::MemoryBackend;
use content_store::hash::HasherFactory;
use content_store::lazy::Lazy;
use content_store::store::Store;

fn store<T: content_store::content::Content>() -> Store<T, MemoryBackend> {
    Store::new(MemoryBackend::new(), HasherFactory::new())
}

#[test]
fn forcing_is_idempotent() {
    let mut store = store::<Lazy<u64>>();
    let mut wrapper = store.lazy(46u64);
    let first = store.force(&mut wrapper);
    let second = store.force(&mut wrapper);
    assert_eq!(first, second);
}

#[test]
fn forced_wrapper_shares_the_value_digest() {
    // The wrapper's cached digest is the digest of the child's own encoding.
    let mut lazy_store = store::<Lazy<u64>>();
    let mut plain_store = store::<u64>();
    let mut wrapper = lazy_store.lazy(46u64);
    let forced = lazy_store.force(&mut wrapper);
    let plain = plain_store.put(&46u64).unwrap();
    assert_eq!(forced, plain);
}

#[test]
fn embedded_wrapper_round_trips_through_the_backend() {
    let mut store = store::<Lazy<u64>>();
    let mut wrapper = store.lazy(46u64);
    store.force(&mut wrapper);

    let parent = store.put(&wrapper).unwrap();
    let decoded: Lazy<u64> = store.get(&parent).unwrap();
    // The decoded wrapper holds only the digest; loading it dereferences
    // through the shared backend.
    assert!(decoded.value().is_none());
    assert_eq!(store.load(&decoded).unwrap(), 46u64);
}

#[test]
fn unforced_wrapper_keeps_its_value_without_storage() {
    let store = store::<Lazy<u64>>();
    let wrapper = store.lazy(46u64);
    assert_eq!(*wrapper.value().unwrap(), 46u64);
}
