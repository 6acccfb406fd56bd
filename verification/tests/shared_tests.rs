use content_store::backend::MemoryBackend;
use content_store::hash::HasherFactory;
use content_store::shared::SharedStore;
use content_store::store::Store;

fn shared<T: content_store::content::Content>() -> SharedStore<T, MemoryBackend> {
    SharedStore::new(MemoryBackend::new(), HasherFactory::new())
}

#[test]
fn handles_share_one_backend() {
    let store = shared::<u8>();
    let other = store.clone_handle();

    let first = store.put(&42).unwrap();
    assert_eq!(other.get(&first).unwrap(), 42);

    let second = other.put(&43).unwrap();
    assert_eq!(store.get(&second).unwrap(), 43);
    assert_ne!(first, second);
}

#[test]
fn interleaved_puts_agree_with_a_single_threaded_run() {
    // Digests depend only on the value's canonical encoding, so handles
    // racing on one backend receive exactly the digests one thread would.
    let store = shared::<u64>();
    let a = store.clone_handle();
    let b = store.clone_handle();

    let da = a.put(&1).unwrap();
    let db = b.put(&2).unwrap();
    let da_again = b.put(&1).unwrap();

    let mut solo: Store<u64, MemoryBackend> =
        Store::new(MemoryBackend::new(), HasherFactory::new());
    assert_eq!(solo.put(&1).unwrap(), da);
    assert_eq!(solo.put(&2).unwrap(), db);
    assert_eq!(da, da_again);

    // No lost writes: everything stored through any handle is retrievable.
    assert_eq!(store.get(&da).unwrap(), 1);
    assert_eq!(store.get(&db).unwrap(), 2);
}

#[test]
fn shared_forcing_is_idempotent() {
    let store = shared::<content_store::lazy::Lazy<u64>>();
    let mut wrapper = store.lazy(46u64);
    let first = store.force(&mut wrapper);
    let second = store.force(&mut wrapper);
    assert_eq!(first, second);
    assert_eq!(store.get(&store.put(&wrapper).unwrap()).unwrap().value(), None);
}

