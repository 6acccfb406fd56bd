//! The storage-backend capability: a pluggable, digest-indexed medium with an
//! all-or-nothing insert and an explicit not-found condition, plus the
//! in-memory reference implementation.

use vstd::prelude::*;

use crate::content::StoreError;
use crate::hash::Hash32;

verus! {

/// A storage medium keyed by digest. Insert-only: nothing is ever deleted,
/// and a lookup of an unknown digest fails with `NotFound`, never with a
/// silent default. Any medium (in-memory, disk, network) plugging into a
/// store must meet this contract.
pub trait Backend: Sized {
    /// The association from digest bytes to stored bytes that the medium
    /// currently holds.
    spec fn contents(&self) -> Map<Seq<u8>, Seq<u8>>;

    /// The medium's own well-formedness invariant.
    spec fn wf(&self) -> bool;

    /// Associates `bytes` with `digest`: the complete entry is inserted, or
    /// nothing is (this reference interface cannot fail; a fallible medium
    /// must leave its contents unchanged on failure).
    fn store(&mut self, digest: Hash32, bytes: Vec<u8>)
        requires
            old(self).wf(),
            digest.wf(),
        ensures
            final(self).wf(),
            final(self).contents() == old(self).contents().insert(digest@, bytes@),
    ;

    /// Looks the digest up: the stored bytes, or `NotFound` exactly when the
    /// digest has no entry.
    fn request(&self, digest: &Hash32) -> (r: Result<Vec<u8>, StoreError>)
        requires
            self.wf(),
            digest.wf(),
        ensures
            match r {
                Ok(bytes) => self.contents().contains_key(digest@) && bytes@
                    == self.contents()[digest@],
                Err(e) => e == StoreError::NotFound && !self.contents().contains_key(digest@),
            },
    ;
}

/// The association that a sequence of (digest, bytes) entries denotes, later
/// entries shadowing earlier ones with the same key.
pub open spec fn map_of(entries: Seq<(Hash32, Vec<u8>)>) -> Map<Seq<u8>, Seq<u8>>
    decreases entries.len(),
{
    if entries.len() == 0 {
        Map::empty()
    } else {
        map_of(entries.drop_last()).insert(entries.last().0@, entries.last().1@)
    }
}

proof fn lemma_map_of_absent(entries: Seq<(Hash32, Vec<u8>)>, k: Seq<u8>)
    requires
        forall|i: int| 0 <= i < entries.len() ==> (#[trigger] entries[i]).0@ != k,
    ensures
        !map_of(entries).contains_key(k),
    decreases entries.len(),
{
    if entries.len() > 0 {
        lemma_map_of_absent(entries.drop_last(), k);
    }
}

proof fn lemma_map_of_found(entries: Seq<(Hash32, Vec<u8>)>, j: int)
    requires
        0 <= j < entries.len(),
        forall|i: int| j < i < entries.len() ==> (#[trigger] entries[i]).0@ != entries[j].0@,
    ensures
        map_of(entries).contains_key(entries[j].0@),
        map_of(entries)[entries[j].0@] == entries[j].1@,
    decreases entries.len(),
{
    if j < entries.len() - 1 {
        lemma_map_of_found(entries.drop_last(), j);
    }
}

fn copy_bytes(v: &Vec<u8>) -> (r: Vec<u8>)
    ensures
        r@ == v@,
{
    let mut copied: Vec<u8> = Vec::new();
    let mut i: usize = 0;
    while i < v.len()
        invariant
            i <= v.len(),
            copied@ == v@.take(i as int),
        decreases v.len() - i,
    {
        copied.push(v[i]);
        i = i + 1;
    }
    proof {
        assert(copied@ =~= v@);
    }
    copied
}

/// The reference backend: an in-memory, append-only digest-indexed map.
pub struct MemoryBackend {
    entries: Vec<(Hash32, Vec<u8>)>,
}

impl MemoryBackend {
    pub fn new() -> (b: MemoryBackend)
        ensures
            b.wf(),
            b.contents() == Map::<Seq<u8>, Seq<u8>>::empty(),
    {
        MemoryBackend { entries: Vec::new() }
    }
}

impl Backend for MemoryBackend {
    closed spec fn contents(&self) -> Map<Seq<u8>, Seq<u8>> {
        map_of(self.entries@)
    }

    /// Every key was produced by finalizing a hashing accumulator, so it is a
    /// well-formed 32-byte digest.
    closed spec fn wf(&self) -> bool {
        forall|i: int| 0 <= i < self.entries@.len() ==> (#[trigger] self.entries@[i]).0.wf()
    }

    fn store(&mut self, digest: Hash32, bytes: Vec<u8>) {
        let ghost entries0 = self.entries@;
        let ghost key = digest@;
        let ghost value = bytes@;
        self.entries.push((digest, bytes));
        proof {
            assert(self.entries@.drop_last() =~= entries0);
            assert(self.entries@.last().0@ == key);
            assert(map_of(self.entries@) == map_of(entries0).insert(key, value));
        }
    }

    fn request(&self, digest: &Hash32) -> (r: Result<Vec<u8>, StoreError>) {
        let mut i: usize = self.entries.len();
        while i > 0
            invariant
                i <= self.entries@.len(),
                forall|j: int| i <= j < self.entries@.len() ==> (#[trigger] self.entries@[j]).0@
                    != digest@,
            decreases i,
        {
            i = i - 1;
            let entry = &self.entries[i];
            if entry.0 == *digest {
                proof {
                    lemma_map_of_found(self.entries@, i as int);
                }
                return Ok(copy_bytes(&entry.1));
            }
        }
        proof {
            lemma_map_of_absent(self.entries@, digest@);
        }
        Err(StoreError::NotFound)
    }
}

} // verus!
