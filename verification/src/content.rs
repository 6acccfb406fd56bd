//! The encode/decode protocol: the error family, the write cursor (`Sink`),
//! the read cursor (`Source`), and the `Content` capability that a value type
//! implements to define its canonical byte representation.

use vstd::prelude::*;

use crate::hash::{blake2s_of, ContentHasher, Hash32, HasherFactory};

verus! {

/// Why a store or protocol operation failed. Storage-medium problems
/// (`NotFound`, `Io`) are kept distinct from data problems (`UnexpectedEnd`,
/// `InvalidTag`) so callers can tell the two families apart.
#[derive(Clone, Copy, Debug, PartialEq, Eq, Structural)]
pub enum StoreError {
    /// The requested digest has no entry in the backend.
    NotFound,
    /// Decoding ran past the end of the available bytes.
    UnexpectedEnd,
    /// A tag byte matched none of the expected variants.
    InvalidTag,
    /// The storage medium itself failed.
    Io,
}

/// `p` is an initial segment of `s`.
pub open spec fn is_prefix(p: Seq<u8>, s: Seq<u8>) -> bool {
    p.len() <= s.len() && s.take(p.len() as int) == p
}

/// Two equal-length sequences that begin the same stream are equal.
pub proof fn lemma_eq_len_prefixes(a: Seq<u8>, b: Seq<u8>, r1: Seq<u8>, r2: Seq<u8>)
    requires
        a.len() == b.len(),
        a + r1 == b + r2,
    ensures
        a == b,
{
    assert forall|i: int| 0 <= i < a.len() implies a[i] == b[i] by {
        assert((a + r1)[i] == a[i]);
        assert((b + r2)[i] == b[i]);
    }
    assert(a =~= b);
}

/// The write cursor: a byte sink whose writes feed a hashing-capability
/// accumulator, so the digest of everything written can be finalized in the
/// same pass that produced the bytes.
pub struct Sink {
    hasher: ContentHasher,
}

impl View for Sink {
    type V = Seq<u8>;

    closed spec fn view(&self) -> Seq<u8> {
        self.hasher.absorbed()
    }
}

impl Sink {
    /// A fresh sink with an accumulator obtained from `factory`.
    pub fn new(factory: &HasherFactory) -> (s: Sink)
        ensures
            s@ == Seq::<u8>::empty(),
    {
        Sink { hasher: factory.new_instance() }
    }

    pub fn write_byte(&mut self, b: u8)
        ensures
            final(self)@ == old(self)@.push(b),
    {
        self.hasher.absorb_byte(b);
    }

    pub fn write_bytes(&mut self, bytes: &[u8])
        ensures
            final(self)@ == old(self)@ + bytes@,
    {
        self.hasher.absorb(bytes);
    }

    /// Consumes the sink: the digest over everything written, and the written
    /// bytes themselves.
    pub fn finalize(self) -> (r: (Hash32, Vec<u8>))
        ensures
            r.0@ == blake2s_of(self@),
            r.0.wf(),
            r.1@ == self@,
    {
        self.hasher.finalize()
    }
}

/// The read cursor: a byte sequence and a position advancing through it.
pub struct Source {
    bytes: Vec<u8>,
    pos: usize,
}

impl Source {
    /// The whole underlying byte sequence.
    pub closed spec fn data(&self) -> Seq<u8> {
        self.bytes@
    }

    /// How many bytes have been consumed.
    pub closed spec fn pos(&self) -> int {
        self.pos as int
    }

    pub open spec fn wf(&self) -> bool {
        0 <= self.pos() <= self.data().len()
    }

    /// The bytes not yet consumed.
    pub open spec fn remaining(&self) -> Seq<u8> {
        self.data().skip(self.pos())
    }

    pub fn new(bytes: Vec<u8>) -> (s: Source)
        ensures
            s.wf(),
            s.data() == bytes@,
            s.pos() == 0,
    {
        Source { bytes, pos: 0 }
    }

    pub fn read_byte(&mut self) -> (r: Result<u8, StoreError>)
        requires
            old(self).wf(),
        ensures
            final(self).wf(),
            final(self).data() == old(self).data(),
            match r {
                Ok(b) => old(self).remaining().len() > 0 && b == old(self).remaining()[0]
                    && final(self).pos() == old(self).pos() + 1,
                Err(e) => e == StoreError::UnexpectedEnd && old(self).remaining().len() == 0
                    && final(self).pos() == old(self).pos(),
            },
    {
        if self.pos < self.bytes.len() {
            let b: u8 = self.bytes[self.pos];
            self.pos = self.pos + 1;
            Ok(b)
        } else {
            Err(StoreError::UnexpectedEnd)
        }
    }

    /// Reads exactly `n` bytes, or fails without advancing when fewer remain.
    pub fn read_bytes(&mut self, n: usize) -> (r: Result<Vec<u8>, StoreError>)
        requires
            old(self).wf(),
        ensures
            final(self).wf(),
            final(self).data() == old(self).data(),
            match r {
                Ok(v) => old(self).remaining().len() >= n
                    && v@ == old(self).remaining().take(n as int)
                    && final(self).pos() == old(self).pos() + n,
                Err(e) => e == StoreError::UnexpectedEnd && old(self).remaining().len() < n
                    && final(self).pos() == old(self).pos(),
            },
    {
        if n > self.bytes.len() - self.pos {
            return Err(StoreError::UnexpectedEnd);
        }
        let mut v: Vec<u8> = Vec::new();
        let mut i: usize = 0;
        while i < n
            invariant
                i <= n,
                n <= self.bytes.len() - self.pos,
                self == old(self),
                v@ == self.remaining().take(i as int),
            decreases n - i,
        {
            v.push(self.bytes[self.pos + i]);
            proof {
                assert(v@ =~= self.remaining().take(i + 1 as int));
            }
            i = i + 1;
        }
        self.pos = self.pos + n;
        Ok(v)
    }
}

/// The encode/decode capability. A type's `encoding` is its canonical byte
/// form; `to_content` produces it through a write cursor and `from_content`
/// consumes it from a read cursor.
///
/// Decoding is exact: it succeeds precisely when some well-formed value's
/// encoding begins the remaining input, consumes exactly that encoding, and
/// returns a value carrying it. Together with `lemma_prefix_free` this pins
/// the decoded encoding down to the one that was stored, and for protocols
/// with injective encodings (`injective()`) to the stored value itself.
pub trait Content: Sized {
    /// Whether the value is ready to be encoded. Plain values always are; a
    /// deferred reference is ready only once its digest is known.
    spec fn wf(&self) -> bool;

    /// The canonical byte encoding of this value.
    spec fn encoding(&self) -> Seq<u8>;

    /// Whether equal encodings imply equal values for this protocol.
    spec fn injective() -> bool;

    /// No well-formed encoding is a strict prefix of another: a decoder that
    /// stops at one cannot have missed a longer reading of the same stream.
    proof fn lemma_prefix_free(v: Self, w: Self, r1: Seq<u8>, r2: Seq<u8>)
        requires
            v.wf(),
            w.wf(),
            v.encoding() + r1 == w.encoding() + r2,
        ensures
            v.encoding() == w.encoding(),
    ;

    /// For injective protocols, the encoding determines the value.
    proof fn lemma_injective(v: Self, w: Self)
        requires
            Self::injective(),
            v.wf(),
            w.wf(),
            v.encoding() == w.encoding(),
        ensures
            v == w,
    ;

    /// Writes the canonical encoding; never fails against an in-memory sink.
    fn to_content(&self, sink: &mut Sink) -> (r: Result<(), StoreError>)
        requires
            self.wf(),
        ensures
            r == Ok::<(), StoreError>(()),
            final(sink)@ == old(sink)@ + self.encoding(),
    ;

    /// Reads one value's canonical encoding from the cursor.
    fn from_content(source: &mut Source) -> (r: Result<Self, StoreError>)
        requires
            old(source).wf(),
        ensures
            final(source).wf(),
            final(source).data() == old(source).data(),
            old(source).pos() <= final(source).pos(),
            match r {
                Ok(v) => v.wf()
                    && final(source).pos() == old(source).pos() + v.encoding().len()
                    && v.encoding() == old(source).remaining().take(v.encoding().len() as int),
                Err(e) => e != StoreError::NotFound && forall|v: Self|
                    v.wf() ==> !is_prefix(#[trigger] v.encoding(), old(source).remaining()),
            },
    ;
}

} // verus!
