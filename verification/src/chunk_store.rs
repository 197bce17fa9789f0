//! A resizable ordered sequence of 32-byte chunks, the working storage of
//! the reducer: append, indexed overwrite, indexed read, truncation, and
//! flattening to bytes in index order.

use vstd::prelude::*;

verus! {

/// The chunks of `s` laid out one after the other, in index order; meant
/// for sequences whose every element is 32 bytes long.
pub open spec fn flat_bytes(s: Seq<Seq<u8>>) -> Seq<u8> {
    Seq::new(s.len() * 32, |j: int| s[j / 32][j % 32])
}

/// An ordered, zero-indexed sequence of 32-byte chunks.
pub struct ChunkStore {
    chunks: Vec<Vec<u8>>,
}

impl View for ChunkStore {
    type V = Seq<Seq<u8>>;

    closed spec fn view(&self) -> Seq<Seq<u8>> {
        self.chunks@.map_values(|c: Vec<u8>| c@)
    }
}

impl ChunkStore {
    /// Every stored chunk is exactly 32 bytes.
    pub open spec fn wf(&self) -> bool {
        forall|i: int| 0 <= i < self@.len() ==> (#[trigger] self@[i]).len() == 32
    }

    /// An empty store with room reserved for the given number of chunks.
    pub fn with_capacity(chunks: usize) -> (s: Self)
        ensures
            s@.len() == 0,
            s.wf(),
    {
        ChunkStore { chunks: Vec::with_capacity(chunks) }
    }

    /// The number of chunks presently stored.
    pub fn len(&self) -> (n: usize)
        ensures
            n == self@.len(),
    {
        self.chunks.len()
    }

    /// Appends a chunk at the end.
    pub fn push(&mut self, value: Vec<u8>)
        requires
            value@.len() == 32,
            old(self).wf(),
        ensures
            final(self)@ == old(self)@.push(value@),
            final(self).wf(),
    {
        self.chunks.push(value);
        assert(final(self)@ =~= old(self)@.push(value@));
    }

    /// Overwrites the chunk at index `i`; the index must be in range.
    pub fn set(&mut self, i: usize, value: Vec<u8>)
        requires
            i < old(self)@.len(),
            value@.len() == 32,
            old(self).wf(),
        ensures
            final(self)@ == old(self)@.update(i as int, value@),
            final(self).wf(),
    {
        self.chunks.set(i, value);
        assert(final(self)@ =~= old(self)@.update(i as int, value@));
    }

    /// Reads the chunk at index `i`; the index must be in range.
    pub fn get_slice(&self, i: usize) -> (r: &[u8])
        requires
            i < self@.len(),
        ensures
            r@ == self@[i as int],
    {
        self.chunks[i].as_slice()
    }

    /// Drops every chunk at index `num_chunks` or above.
    pub fn truncate(&mut self, num_chunks: usize)
        requires
            num_chunks <= old(self)@.len(),
            old(self).wf(),
        ensures
            final(self)@ == old(self)@.subrange(0, num_chunks as int),
            final(self).wf(),
    {
        self.chunks.truncate(num_chunks);
        assert(final(self)@ =~= old(self)@.subrange(0, num_chunks as int));
    }

    /// Consumes the store, concatenating all chunks in index order.
    pub fn into_vec(self) -> (r: Vec<u8>)
        requires
            self.wf(),
        ensures
            r@ == flat_bytes(self@),
    {
        let n = self.chunks.len();
        let mut r: Vec<u8> = Vec::new();
        let mut i: usize = 0;
        while i < n
            invariant
                n == self@.len(),
                i <= n,
                self.wf(),
                r@.len() == i * 32,
                forall|j: int| 0 <= j < i * 32 ==> r@[j] == self@[j / 32][j % 32],
            decreases n - i,
        {
            let chunk = &self.chunks[i];
            assert(chunk@ == self@[i as int]);
            r.extend_from_slice(chunk.as_slice());
            assert(r@.len() == i * 32 + 32);
            assert forall|j: int| 0 <= j < (i + 1) * 32 implies r@[j] == self@[j / 32][j % 32] by {
                if j >= i * 32 {
                    assert(j / 32 == i as int) by (nonlinear_arith)
                        requires i * 32 <= j < (i + 1) * 32;
                    assert(j % 32 == j - i * 32) by (nonlinear_arith)
                        requires i * 32 <= j < (i + 1) * 32;
                }
            }
            i = i + 1;
        }
        assert(r@ =~= flat_bytes(self@));
        r
    }
}

} // verus!
