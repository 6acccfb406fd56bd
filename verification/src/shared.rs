//! Shared handles to one store: a single backend instance protected by one
//! reader-writer lock, distributed across threads by reference-counted
//! cloning. `put` holds the write lock for its whole call (nested stores
//! during an encode need write access too), so puts serialize against each
//! other and against any get; `get` holds the read lock for its whole call,
//! so gets proceed concurrently with each other. There is no timeout or
//! cancellation: a slow operation holds the lock for as long as it runs.

use std::sync::Arc;

use core::marker::PhantomData;

use vstd::prelude::*;
use vstd::rwlock::{RwLock, RwLockPredicate};

use crate::backend::Backend;
use crate::content::{Content, StoreError};
use crate::hash::{blake2s_of, Hash32, HasherFactory};
use crate::lazy::Lazy;
use crate::store::Store;

verus! {

/// Every key in the backend is the digest of the bytes stored under it.
/// `put` and `force` key each entry by the digest of its own bytes, so every
/// store reachable through shared handles maintains this.
pub open spec fn hash_consistent(m: Map<Seq<u8>, Seq<u8>>) -> bool {
    forall|k: Seq<u8>| m.contains_key(k) ==> blake2s_of(#[trigger] m[k]) == k
}

/// The invariant the lock maintains between operations: the store is
/// well-formed and its contents are keyed by their own digests.
pub struct StoreInv<T, B> {
    _values: PhantomData<T>,
    _backend: PhantomData<B>,
}

impl<T: Content, B: Backend> RwLockPredicate<Store<T, B>> for StoreInv<T, B> {
    open spec fn inv(self, s: Store<T, B>) -> bool {
        s.wf() && hash_consistent(s.contents())
    }
}

/// A cloneable handle to one store shared behind a reader-writer lock.
pub struct SharedStore<T: Content, B: Backend> {
    lock: Arc<RwLock<Store<T, B>, StoreInv<T, B>>>,
}

impl<T: Content, B: Backend> SharedStore<T, B> {
    /// Binds the backend and hashing factory behind a fresh lock.
    pub fn new(backend: B, hasher: HasherFactory) -> (s: Self)
        requires
            backend.wf(),
            hash_consistent(backend.contents()),
    {
        let store: Store<T, B> = Store::new(backend, hasher);
        let ghost pred = StoreInv::<T, B> { _values: PhantomData, _backend: PhantomData };
        SharedStore { lock: Arc::new(RwLock::new(store, Ghost(pred))) }
    }

    /// Wraps a value in a deferred reference; no hashing or storage happens
    /// until the wrapper is forced against this store.
    pub fn lazy<U: Content>(&self, inner: U) -> (l: Lazy<U>)
        requires
            inner.wf(),
        ensures
            l.inv(),
            l.value_spec() == Option::Some(inner),
            l.digest_spec() is None,
    {
        Lazy::new(inner)
    }

    /// Another handle to the same store, to hand to another thread.
    pub fn clone_handle(&self) -> (s: Self) {
        SharedStore { lock: self.lock.clone() }
    }

    /// Serializes the value and inserts its bytes under their digest, with
    /// the write lock held for the whole call. The digest depends on the
    /// value's canonical encoding alone — not on what the backend already
    /// holds — so concurrent puts receive exactly the digests a
    /// single-threaded run would produce.
    pub fn put(&self, t: &T) -> (r: Result<Hash32, StoreError>)
        requires
            t.wf(),
        ensures
            r matches Ok(d) ==> d.wf() && d@ == blake2s_of(t.encoding()),
            r is Ok,
    {
        let (mut store, write_handle) = self.lock.acquire_write();
        let res = store.put(t);
        proof {
            if res is Ok {
                assert forall|k: Seq<u8>| store.contents().contains_key(k) implies blake2s_of(
                    #[trigger] store.contents()[k],
                ) == k by {}
            }
        }
        write_handle.release_write(store);
        res
    }

    /// Forces a deferred reference against the shared backend, with the
    /// write lock held; the digest cached in the wrapper again depends only
    /// on the child's encoding.
    pub fn force<U: Content>(&self, l: &mut Lazy<U>) -> (r: Hash32)
        requires
            old(l).inv(),
        ensures
            final(l).inv(),
            r.wf(),
            final(l).value_spec() == old(l).value_spec(),
            final(l).digest_spec() is Some,
            r@ == final(l).digest_view(),
            old(l).digest_spec() is Some ==> *final(l) == *old(l) && r@ == old(l).digest_view(),
            old(l).digest_spec() is None ==> r@ == blake2s_of(
                old(l).value_spec().unwrap().encoding(),
            ),
    {
        let (mut store, write_handle) = self.lock.acquire_write();
        let digest = store.force(l);
        proof {
            assert forall|k: Seq<u8>| store.contents().contains_key(k) implies blake2s_of(
                #[trigger] store.contents()[k],
            ) == k by {}
        }
        write_handle.release_write(store);
        digest
    }

    /// Looks a digest up and decodes the bytes found, with the read lock
    /// held for the whole call. Whether an entry exists depends on what
    /// other handles have stored, but any value returned decodes from bytes
    /// whose digest is the requested one: the digest really identifies the
    /// content retrieved.
    pub fn get(&self, hash: &Hash32) -> (r: Result<T, StoreError>)
        requires
            hash.wf(),
        ensures
            r matches Ok(v) ==> v.wf() && exists|rest: Seq<u8>|
                blake2s_of(v.encoding() + rest) == hash@,
    {
        let read_handle = self.lock.acquire_read();
        let store_ref = read_handle.borrow();
        let res = store_ref.get(hash);
        proof {
            if res is Ok {
                let v = res->Ok_0;
                let stored = store_ref.contents()[hash@];
                let rest = stored.skip(v.encoding().len() as int);
                assert(v.encoding() + rest =~= stored);
            }
        }
        read_handle.release_read();
        res
    }
}

} // verus!
