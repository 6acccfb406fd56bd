//! The store façade: binds one backend instance and one hashing factory to a
//! declared value type, exposing `put` and `get`. The type parameter has no
//! runtime representation, so one physical backend can hold many logical
//! types keyed only by digest; callers must pair each digest with the type
//! that produced it.

use core::marker::PhantomData;

use vstd::prelude::*;

use crate::backend::Backend;
use crate::content::{is_prefix, Content, Sink, Source, StoreError};
use crate::hash::{blake2s_of, Hash32, HasherFactory};
use crate::lazy::Lazy;

verus! {

/// One backend and one hashing factory, bound to the value type `T`.
pub struct Store<T, B> {
    backend: B,
    hasher: HasherFactory,
    _values: PhantomData<T>,
}

impl<T: Content, B: Backend> Store<T, B> {
    pub closed spec fn wf(&self) -> bool {
        self.backend.wf()
    }

    /// The digest-indexed association the bound backend holds.
    pub closed spec fn contents(&self) -> Map<Seq<u8>, Seq<u8>> {
        self.backend.contents()
    }

    pub fn new(backend: B, hasher: HasherFactory) -> (s: Self)
        requires
            backend.wf(),
        ensures
            s.wf(),
            s.contents() == backend.contents(),
    {
        Store { backend, hasher, _values: PhantomData }
    }

    /// Wraps a value in a deferred reference bound to this store's protocol;
    /// no hashing or storage happens until the wrapper is forced.
    pub fn lazy<U: Content>(&self, inner: U) -> (l: Lazy<U>)
        requires
            inner.wf(),
        ensures
            l.inv(),
            l.value_spec() == Option::Some(inner),
            l.digest_spec() is None,
    {
        Lazy::new(inner)
    }

    /// Forces a deferred reference against this store's backend: commits the
    /// child's encoding and caches its digest, idempotently.
    pub fn force<U: Content>(&mut self, l: &mut Lazy<U>) -> (r: Hash32)
        requires
            old(self).wf(),
            old(l).inv(),
        ensures
            final(self).wf(),
            final(l).inv(),
            r.wf(),
            final(l).value_spec() == old(l).value_spec(),
            final(l).digest_spec() is Some,
            r@ == final(l).digest_view(),
            old(l).digest_spec() is Some ==> *final(l) == *old(l) && final(self).contents()
                == old(self).contents() && r@ == old(l).digest_view(),
            old(l).digest_spec() is None ==> r@ == blake2s_of(
                old(l).value_spec().unwrap().encoding(),
            ) && final(self).contents() == old(self).contents().insert(
                r@,
                old(l).value_spec().unwrap().encoding(),
            ),
    {
        l.force(&mut self.backend, &self.hasher)
    }

    /// Retrieves and decodes the value a (forced or decoded) deferred
    /// reference points to, reading from this store's backend.
    pub fn load<U: Content>(&self, l: &Lazy<U>) -> (r: Result<U, StoreError>)
        requires
            self.wf(),
            l.inv(),
            l.digest_spec() is Some,
        ensures
            match r {
                Ok(v) => v.wf() && self.contents().contains_key(l.digest_view()) && is_prefix(
                    v.encoding(),
                    self.contents()[l.digest_view()],
                ),
                Err(e) => match e {
                    StoreError::NotFound => !self.contents().contains_key(l.digest_view()),
                    _ => self.contents().contains_key(l.digest_view()) && forall|v: U|
                        v.wf() ==> !is_prefix(
                            #[trigger] v.encoding(),
                            self.contents()[l.digest_view()],
                        ),
                },
            },
    {
        l.load(&self.backend)
    }

    /// Serializes the value through a write-through hasher, then inserts the
    /// accumulated bytes under their finalized digest: the backend gains
    /// exactly the entry for this value's canonical encoding, and the
    /// returned digest is the digest of that encoding. Never fails against
    /// the reference interface.
    pub fn put(&mut self, t: &T) -> (r: Result<Hash32, StoreError>)
        requires
            old(self).wf(),
            t.wf(),
        ensures
            final(self).wf(),
            r matches Ok(d) ==> d.wf() && d@ == blake2s_of(t.encoding()) && final(self).contents()
                == old(self).contents().insert(d@, t.encoding()),
            r is Ok,
    {
        let mut sink = Sink::new(&self.hasher);
        match t.to_content(&mut sink) {
            Ok(()) => {},
            Err(e) => {
                return Err(e);
            },
        }
        let (digest, bytes) = sink.finalize();
        let key = digest.clone();
        self.backend.store(key, bytes);
        Ok(digest)
    }

    /// Looks the digest up and decodes the stored bytes: `NotFound` exactly
    /// when the digest has no entry; otherwise a well-formed value whose
    /// canonical encoding begins the stored bytes, or a decode error exactly
    /// when no well-formed value's encoding does.
    pub fn get(&self, hash: &Hash32) -> (r: Result<T, StoreError>)
        requires
            self.wf(),
            hash.wf(),
        ensures
            match r {
                Ok(v) => v.wf() && self.contents().contains_key(hash@) && is_prefix(
                    v.encoding(),
                    self.contents()[hash@],
                ),
                Err(e) => match e {
                    StoreError::NotFound => !self.contents().contains_key(hash@),
                    _ => self.contents().contains_key(hash@) && forall|v: T|
                        v.wf() ==> !is_prefix(
                            #[trigger] v.encoding(),
                            self.contents()[hash@],
                        ),
                },
            },
    {
        let bytes = match self.backend.request(hash) {
            Ok(b) => b,
            Err(e) => {
                return Err(e);
            },
        };
        let ghost stored = bytes@;
        let mut source = Source::new(bytes);
        let res = T::from_content(&mut source);
        proof {
            assert(stored.skip(0) =~= stored);
        }
        match res {
            Ok(v) => Ok(v),
            Err(e) => Err(e),
        }
    }
}

/// Law: a value decoded from the bytes that a `put` of `v` stored carries the
/// same canonical encoding as `v` — and is `v` itself whenever the protocol's
/// encoding is injective. `put` ensures the entry under the returned digest
/// is exactly `v.encoding()`, and `get` ensures the decoded value's encoding
/// begins that entry; prefix-freeness closes the gap.
pub proof fn lemma_round_trip<T: Content>(v: T, w: T)
    requires
        v.wf(),
        w.wf(),
        is_prefix(w.encoding(), v.encoding()),
    ensures
        w.encoding() == v.encoding(),
        T::injective() ==> w == v,
{
    let tail = v.encoding().skip(w.encoding().len() as int);
    assert(w.encoding() + tail =~= v.encoding() + Seq::<u8>::empty());
    T::lemma_prefix_free(w, v, tail, Seq::<u8>::empty());
    if T::injective() {
        T::lemma_injective(w, v);
    }
}

/// Law: `put` is deterministic and idempotent. Values with equal canonical
/// encodings receive equal digests — whatever the backend already holds, so
/// concurrent or repeated puts of equal values agree with a single-threaded
/// run — and the second of two equal puts leaves the contents exactly as the
/// first did, corrupting nothing.
pub proof fn lemma_put_deterministic<T: Content>(v: T, w: T, m: Map<Seq<u8>, Seq<u8>>)
    requires
        v.wf(),
        w.wf(),
        v.encoding() == w.encoding(),
    ensures
        blake2s_of(v.encoding()) == blake2s_of(w.encoding()),
        m.insert(blake2s_of(v.encoding()), v.encoding()).insert(
            blake2s_of(w.encoding()),
            w.encoding(),
        ) == m.insert(blake2s_of(v.encoding()), v.encoding()),
{
    let k = blake2s_of(v.encoding());
    assert(m.insert(k, v.encoding()).insert(k, w.encoding()) =~= m.insert(k, v.encoding()));
}

} // verus!
