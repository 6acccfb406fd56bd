//! Hashing: the 32-byte digest type, the blake2s-256 hashing capability, and
//! the factory that hands out fresh accumulator instances.

use vstd::prelude::*;

verus! {

/// The 32-byte blake2s digest of a byte sequence. The algorithm itself is an
/// external collaborator; this name stands for its (deterministic) result.
pub uninterp spec fn blake2s_of(bytes: Seq<u8>) -> Seq<u8>;

/// Relies on `blake2_rfc::blake2s::blake2s` with a 32-byte output length and
/// an empty key: the digest is a function of the input bytes alone, and
/// `as_bytes` returns exactly the 32 requested bytes.
#[verifier::external_body]
fn blake2s_256(bytes: &[u8]) -> (r: Vec<u8>)
    ensures
        r@ == blake2s_of(bytes@),
        r@.len() == 32,
{
    blake2_rfc::blake2s::blake2s(32, &[], bytes).as_bytes().to_vec()
}

/// A fixed-size digest identifying one canonical byte encoding. Values of
/// this type are produced only by finalizing an accumulator; callers never
/// assemble one from raw bytes.
#[derive(Debug)]
pub struct Hash32 {
    bytes: Vec<u8>,
}

impl View for Hash32 {
    type V = Seq<u8>;

    closed spec fn view(&self) -> Seq<u8> {
        self.bytes@
    }
}

impl Hash32 {
    /// A digest is well-formed when it holds exactly 32 bytes.
    pub open spec fn wf(&self) -> bool {
        self@.len() == 32
    }

    /// The raw digest bytes, as written into a parent's encoding.
    pub fn as_bytes(&self) -> (r: &Vec<u8>)
        ensures
            r@ == self@,
    {
        &self.bytes
    }

    pub(crate) fn from_vec(bytes: Vec<u8>) -> (r: Hash32)
        ensures
            r@ == bytes@,
    {
        Hash32 { bytes }
    }
}

impl Clone for Hash32 {
    fn clone(&self) -> (r: Self)
        ensures
            r@ == self@,
    {
        let mut copied: Vec<u8> = Vec::new();
        let mut i: usize = 0;
        while i < self.bytes.len()
            invariant
                i <= self.bytes.len(),
                copied@ == self.bytes@.take(i as int),
            decreases self.bytes.len() - i,
        {
            copied.push(self.bytes[i]);
            i = i + 1;
        }
        proof {
            assert(copied@ =~= self.bytes@);
        }
        Hash32 { bytes: copied }
    }
}

impl PartialEq for Hash32 {
    fn eq(&self, other: &Hash32) -> (r: bool) {
        if self.bytes.len() != other.bytes.len() {
            return false;
        }
        let mut i: usize = 0;
        while i < self.bytes.len()
            invariant
                i <= self.bytes.len(),
                self.bytes.len() == other.bytes.len(),
                forall|j: int| 0 <= j < i ==> self.bytes@[j] == other.bytes@[j],
            decreases self.bytes.len() - i,
        {
            if self.bytes[i] != other.bytes[i] {
                return false;
            }
            i = i + 1;
        }
        proof {
            assert(self.bytes@ =~= other.bytes@);
        }
        true
    }
}

impl vstd::std_specs::cmp::PartialEqSpecImpl for Hash32 {
    open spec fn obeys_eq_spec() -> bool {
        true
    }

    open spec fn eq_spec(&self, other: &Hash32) -> bool {
        self@ == other@
    }
}

impl Eq for Hash32 {}

/// An incremental digest accumulator: absorb bytes any number of times, then
/// finalize once to obtain the digest over everything absorbed. The absorbed
/// bytes double as the staging buffer, so hashing happens in the same single
/// pass that assembles the encoded payload.
pub struct ContentHasher {
    buf: Vec<u8>,
}

impl ContentHasher {
    /// Everything absorbed so far, in order.
    pub closed spec fn absorbed(&self) -> Seq<u8> {
        self.buf@
    }

    pub fn new() -> (h: ContentHasher)
        ensures
            h.absorbed() == Seq::<u8>::empty(),
    {
        ContentHasher { buf: Vec::new() }
    }

    pub fn absorb_byte(&mut self, b: u8)
        ensures
            final(self).absorbed() == old(self).absorbed().push(b),
    {
        self.buf.push(b);
    }

    pub fn absorb(&mut self, bytes: &[u8])
        ensures
            final(self).absorbed() == old(self).absorbed() + bytes@,
    {
        let mut i: usize = 0;
        while i < bytes.len()
            invariant
                i <= bytes.len(),
                self.buf@ == old(self).buf@ + bytes@.take(i as int),
            decreases bytes.len() - i,
        {
            let b: u8 = bytes[i];
            self.buf.push(b);
            proof {
                assert(self.buf@ =~= old(self).buf@ + bytes@.take(i + 1 as int));
            }
            i = i + 1;
        }
        proof {
            assert(self.buf@ =~= old(self).buf@ + bytes@);
        }
    }

    /// Consumes the accumulator: yields the digest over the absorbed bytes,
    /// together with those bytes themselves.
    pub fn finalize(self) -> (r: (Hash32, Vec<u8>))
        ensures
            r.0@ == blake2s_of(self.absorbed()),
            r.0.wf(),
            r.1@ == self.absorbed(),
    {
        let digest_bytes: Vec<u8> = blake2s_256(self.buf.as_slice());
        (Hash32::from_vec(digest_bytes), self.buf)
    }
}

/// Produces fresh, independent accumulator instances on demand; cheaply
/// cloneable so one factory can serve many concurrent operations.
pub struct HasherFactory {}

impl HasherFactory {
    pub fn new() -> (f: HasherFactory) {
        HasherFactory {}
    }

    pub fn new_instance(&self) -> (h: ContentHasher)
        ensures
            h.absorbed() == Seq::<u8>::empty(),
    {
        ContentHasher::new()
    }
}

impl Clone for HasherFactory {
    fn clone(&self) -> (r: Self) {
        HasherFactory {}
    }
}

} // verus!
