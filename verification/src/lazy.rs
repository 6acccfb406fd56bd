//! The deferred reference: a wrapper holding a value whose hashing and
//! storage cost is postponed until the wrapper is forced. Embedded in a
//! parent value, it encodes as the 32-byte digest of the child's encoding, so
//! subtrees of a DAG are stored and retrieved incrementally.
//!
//! Forcing discipline: a wrapper is created unforced (value held, no digest);
//! forcing commits the child's bytes to the backend and caches the digest, so
//! repeated forcing neither re-hashes nor re-stores and always yields the
//! same digest. A wrapper must be forced before it (or a parent embedding it)
//! is encoded — `Content::wf` states exactly that — and decoding a parent
//! yields an unloaded wrapper holding only the digest, to be loaded from the
//! backend on demand.

use vstd::prelude::*;

use crate::backend::Backend;
use crate::content::{is_prefix, lemma_eq_len_prefixes, Content, Sink, Source, StoreError};
use crate::hash::{blake2s_of, Hash32, HasherFactory};

verus! {

/// A deferred reference to a `T`: an in-memory value not yet committed, a
/// cached digest once committed, or only a digest when it came out of a
/// parent's decoding.
pub struct Lazy<T> {
    value: Option<T>,
    digest: Option<Hash32>,
}

impl<T: Content> Lazy<T> {
    /// The held value, if the wrapper still carries one.
    pub closed spec fn value_spec(&self) -> Option<T> {
        self.value
    }

    /// The cached digest, present once the wrapper was forced or decoded.
    pub closed spec fn digest_spec(&self) -> Option<Hash32> {
        self.digest
    }

    /// The digest bytes standing for the child on the wire.
    pub open spec fn digest_view(&self) -> Seq<u8> {
        self.digest_spec().unwrap()@
    }

    /// A wrapper holds a well-formed value, a well-formed digest, or both —
    /// and when both, the digest is the digest of the value's encoding.
    pub open spec fn inv(&self) -> bool {
        match (self.value_spec(), self.digest_spec()) {
            (Option::None, Option::None) => false,
            (Option::Some(v), Option::None) => v.wf(),
            (Option::None, Option::Some(d)) => d.wf(),
            (Option::Some(v), Option::Some(d)) => v.wf() && d.wf() && d@ == blake2s_of(
                v.encoding(),
            ),
        }
    }

    pub(crate) fn new(inner: T) -> (l: Lazy<T>)
        requires
            inner.wf(),
        ensures
            l.inv(),
            l.value_spec() == Option::Some(inner),
            l.digest_spec() is None,
    {
        Lazy { value: Option::Some(inner), digest: Option::None }
    }

    /// A borrow of the held value, absent when the wrapper was decoded from a
    /// parent and not yet loaded.
    pub fn value(&self) -> (r: Option<&T>)
        ensures
            match r {
                Option::Some(v) => self.value_spec() == Option::Some(*v),
                Option::None => self.value_spec() is None,
            },
    {
        match &self.value {
            Option::Some(v) => Option::Some(v),
            Option::None => Option::None,
        }
    }

    /// Commits the held value to the backend and caches its digest. Forcing
    /// is idempotent: once a digest is cached, the wrapper and the backend
    /// are left untouched and the same digest is returned again.
    pub fn force<B: Backend>(&mut self, backend: &mut B, hasher: &HasherFactory) -> (r: Hash32)
        requires
            old(self).inv(),
            old(backend).wf(),
        ensures
            final(self).inv(),
            final(backend).wf(),
            r.wf(),
            final(self).value_spec() == old(self).value_spec(),
            final(self).digest_spec() is Some,
            r@ == final(self).digest_view(),
            old(self).digest_spec() is Some ==> *final(self) == *old(self) && *final(backend)
                == *old(backend) && r@ == old(self).digest_view(),
            old(self).digest_spec() is None ==> r@ == blake2s_of(
                old(self).value_spec().unwrap().encoding(),
            ) && final(backend).contents() == old(backend).contents().insert(
                r@,
                old(self).value_spec().unwrap().encoding(),
            ),
    {
        match &self.digest {
            Option::Some(d) => {
                return d.clone();
            },
            Option::None => {},
        }
        let (digest, bytes) = {
            let mut sink = Sink::new(hasher);
            match &self.value {
                Option::Some(v) => {
                    match v.to_content(&mut sink) {
                        Ok(()) => {},
                        Err(_) => {
                            proof {
                                assert(false);
                            }
                        },
                    }
                },
                Option::None => {
                    proof {
                        assert(false);
                    }
                },
            }
            sink.finalize()
        };
        backend.store(digest.clone(), bytes);
        let cached = digest.clone();
        self.digest = Option::Some(cached);
        digest
    }

    /// Retrieves and decodes the referred-to value from the backend. Decoding
    /// never writes, so the backend is only read.
    pub fn load<B: Backend>(&self, backend: &B) -> (r: Result<T, StoreError>)
        requires
            self.inv(),
            self.digest_spec() is Some,
            backend.wf(),
        ensures
            match r {
                Ok(v) => v.wf() && backend.contents().contains_key(self.digest_view())
                    && is_prefix(v.encoding(), backend.contents()[self.digest_view()]),
                Err(e) => match e {
                    StoreError::NotFound => !backend.contents().contains_key(self.digest_view()),
                    _ => backend.contents().contains_key(self.digest_view()) && forall|v: T|
                        v.wf() ==> !is_prefix(
                            #[trigger] v.encoding(),
                            backend.contents()[self.digest_view()],
                        ),
                },
            },
    {
        let digest = match &self.digest {
            Option::Some(d) => d,
            Option::None => {
                proof {
                    assert(false);
                }
                return Err(StoreError::NotFound);
            },
        };
        let bytes = match backend.request(digest) {
            Ok(b) => b,
            Err(e) => {
                return Err(e);
            },
        };
        let ghost stored = bytes@;
        let mut source = Source::new(bytes);
        match T::from_content(&mut source) {
            Ok(v) => {
                proof {
                    assert(stored.skip(0) =~= stored);
                    assert(is_prefix(v.encoding(), stored));
                }
                Ok(v)
            },
            Err(e) => {
                proof {
                    assert(stored.skip(0) =~= stored);
                }
                Err(e)
            },
        }
    }
}

impl<T: Content> Content for Lazy<T> {
    /// Ready to encode only once forced: the digest then stands for the
    /// child, whose bytes are already in the backend.
    open spec fn wf(&self) -> bool {
        self.inv() && self.digest_spec() is Some
    }

    open spec fn encoding(&self) -> Seq<u8> {
        self.digest_view()
    }

    open spec fn injective() -> bool {
        false
    }

    proof fn lemma_prefix_free(v: Self, w: Self, r1: Seq<u8>, r2: Seq<u8>) {
        lemma_eq_len_prefixes(v.encoding(), w.encoding(), r1, r2);
    }

    proof fn lemma_injective(v: Self, w: Self) {
    }

    fn to_content(&self, sink: &mut Sink) -> (r: Result<(), StoreError>) {
        match &self.digest {
            Option::Some(d) => {
                sink.write_bytes(d.as_bytes().as_slice());
                Ok(())
            },
            Option::None => {
                proof {
                    assert(false);
                }
                Err(StoreError::Io)
            },
        }
    }

    fn from_content(source: &mut Source) -> (r: Result<Self, StoreError>) {
        let ghost rem0 = source.remaining();
        match source.read_bytes(32) {
            Ok(raw) => {
                let digest = Hash32::from_vec(raw);
                let l = Lazy::<T> { value: Option::None, digest: Option::Some(digest) };
                proof {
                    assert(l.encoding() =~= rem0.take(32));
                }
                Ok(l)
            },
            Err(e) => {
                proof {
                    assert forall|v: Lazy<T>| v.wf() implies !is_prefix(
                        #[trigger] v.encoding(),
                        rem0,
                    ) by {
                        assert(v.encoding().len() == 32);
                    }
                }
                Err(e)
            },
        }
    }
}

} // verus!
