//! The streaming front end: value bytes arrive in pushes of any size, are
//! cut into 32-byte windows (zero-padded per window when packing is off),
//! and collect in a two-chunk buffer that is hashed into one stored chunk
//! the moment it fills — so only the pair hashes, half the leaf count, are
//! ever held. A finishing step pads what remains and reduces the stored
//! chunks to the root.

use crate::bytes::spec_pad_chunk;
use crate::chunk_store::ChunkStore;
use crate::hashing::{hash, sha256_of};
use crate::reducer::{merkleize_chunks, spec_reduce, spec_reduce_capacity};
use crate::MAX_TREE_DEPTH;
use vstd::prelude::*;

verus! {

/// `b` cut into windows of at most 32 bytes, each full window kept as it
/// is and a final short window zero-padded to a chunk: what one unpacked
/// push contributes to the hashed stream.
pub open spec fn spec_padded_slices(b: Seq<u8>) -> Seq<u8>
    decreases b.len(),
{
    if b.len() == 0 {
        Seq::empty()
    } else if b.len() >= 32 {
        b.take(32) + spec_padded_slices(b.skip(32))
    } else {
        spec_pad_chunk(b)
    }
}

/// What one push of `b` appends to the hashed stream: the bytes themselves
/// when packing, the per-window padded form when not.
pub open spec fn spec_absorbed(b: Seq<u8>, should_pack: bool) -> Seq<u8> {
    if should_pack {
        b
    } else {
        spec_padded_slices(b)
    }
}

/// Splitting a window-aligned stream distributes over the padding of its
/// windows.
pub proof fn lemma_padded_slices_concat(x: Seq<u8>, y: Seq<u8>)
    requires
        x.len() % 32 == 0,
    ensures
        spec_padded_slices(x + y) == spec_padded_slices(x) + spec_padded_slices(y),
    decreases x.len(),
{
    if x.len() == 0 {
        assert(x + y =~= y);
        assert(spec_padded_slices(x) + spec_padded_slices(y) =~= spec_padded_slices(y));
    } else {
        assert(x.len() >= 32);
        if y.len() == 0 {
            assert(x + y =~= x);
            assert(spec_padded_slices(x) + spec_padded_slices(y) =~= spec_padded_slices(x));
        } else {
            assert((x + y).len() >= 32);
            assert((x + y).take(32) =~= x.take(32));
            assert((x + y).skip(32) =~= x.skip(32) + y);
            lemma_padded_slices_concat(x.skip(32), y);
            assert(spec_padded_slices(x + y) =~= spec_padded_slices(x) + spec_padded_slices(y));
        }
    }
}

/// The stream zero-padded up to the 64-byte block boundary, to at least
/// one block.
pub open spec fn spec_pad_to_block(p: Seq<u8>) -> Seq<u8> {
    if p.len() % 64 == 0 && p.len() > 0 {
        p
    } else {
        p + Seq::new((64 - p.len() % 64) as nat, |i: int| 0u8)
    }
}

/// The pair hash of each consecutive 64-byte block of `p`.
pub open spec fn spec_block_hashes(p: Seq<u8>) -> Seq<Seq<u8>> {
    Seq::new(p.len() / 64, |i: int| sha256_of(p.subrange(64 * i, 64 * i + 64)))
}

/// How many blocks the padded stream holds.
pub open spec fn spec_block_count(p: Seq<u8>) -> nat {
    spec_pad_to_block(p).len() / 64
}

/// The root a hasher of the given height yields after absorbing the hashed
/// stream `processed`, having been fed `fed` raw bytes in all: a single
/// zero-padded chunk, unhashed, when a height-1 tree's data fits in one
/// chunk; otherwise the reduction of the block pair-hashes of the padded
/// stream.
pub open spec fn spec_hasher_root(height: nat, fed: Seq<u8>, processed: Seq<u8>) -> Seq<u8> {
    if height == 1 && fed.len() <= 32 {
        spec_pad_chunk(fed)
    } else {
        spec_reduce(spec_block_hashes(spec_pad_to_block(processed)), height)
    }
}

/// The streaming hasher. `processed` is the ghost stream of bytes pushed
/// into pair hashing so far (with any per-window padding applied); `fed`
/// is the ghost stream of raw bytes received.
pub struct VecTreeHasher {
    height: usize,
    chunks: ChunkStore,
    buffer: Vec<u8>,
    first_chunk: Vec<u8>,
    first_chunk_active: bool,
    should_pack: bool,
    processed: Ghost<Seq<u8>>,
    fed: Ghost<Seq<u8>>,
}

impl VecTreeHasher {
    /// The hasher's target tree height.
    pub closed spec fn spec_height(&self) -> nat {
        self.height as nat
    }

    /// Whether values share chunks.
    pub closed spec fn spec_should_pack(&self) -> bool {
        self.should_pack
    }

    /// All raw bytes received so far.
    pub closed spec fn spec_fed(&self) -> Seq<u8> {
        self.fed@
    }

    /// The hashed stream absorbed so far.
    pub closed spec fn spec_processed(&self) -> Seq<u8> {
        self.processed@
    }

    /// The stored chunks are the pair hashes of the full blocks of the
    /// stream, and the buffer holds exactly the bytes past the last full
    /// block.
    spec fn buffer_inv(&self) -> bool {
        let p = self.processed@;
        let k = self.chunks@.len();
        &&& self.chunks.wf()
        &&& p.len() == 64 * k + self.buffer@.len()
        &&& self.buffer@ == p.subrange(64 * k as int, p.len() as int)
        &&& forall|i: int|
            0 <= i < k ==> self.chunks@[i] == sha256_of(
                #[trigger] p.subrange(64 * i, 64 * i + 64),
            )
        &&& self.buffer@.len() <= 64
    }

    /// Well-formed between operations: the buffer was flushed the moment it
    /// filled, the fast-path chunk mirrors the fed bytes exactly while they
    /// still fit in one chunk, and a packing hasher absorbs bytes verbatim.
    pub closed spec fn wf(&self) -> bool {
        &&& self.buffer_inv()
        &&& self.buffer@.len() < 64
        &&& self.first_chunk_active == (self.fed@.len() <= 32)
        &&& (self.first_chunk_active ==> self.first_chunk@ == self.fed@)
        &&& (self.should_pack ==> self.processed@ == self.fed@)
    }

    fn new(height: usize, should_pack: bool) -> (h: Self)
        ensures
            h.wf(),
            h.spec_height() == height,
            h.spec_should_pack() == should_pack,
            h.spec_fed() == Seq::<u8>::empty(),
            h.spec_processed() == Seq::<u8>::empty(),
    {
        let h = VecTreeHasher {
            height,
            chunks: ChunkStore::with_capacity(0),
            buffer: Vec::new(),
            first_chunk: Vec::new(),
            first_chunk_active: true,
            should_pack,
            processed: Ghost(Seq::empty()),
            fed: Ghost(Seq::empty()),
        };
        assert(h.buffer@ =~= h.processed@.subrange(0, 0));
        h
    }

    /// A hasher for values that share chunks.
    pub fn packed(height: usize) -> (h: Self)
        ensures
            h.wf(),
            h.spec_height() == height,
            h.spec_should_pack() == true,
            h.spec_fed() == Seq::<u8>::empty(),
            h.spec_processed() == Seq::<u8>::empty(),
    {
        Self::new(height, true)
    }

    /// A hasher for values that each fill their own zero-padded chunk.
    pub fn not_packed(height: usize) -> (h: Self)
        ensures
            h.wf(),
            h.spec_height() == height,
            h.spec_should_pack() == false,
            h.spec_fed() == Seq::<u8>::empty(),
            h.spec_processed() == Seq::<u8>::empty(),
    {
        Self::new(height, false)
    }

    /// Absorbs one window of at most 32 bytes (already padded when packing
    /// is off) into the two-chunk buffer, flushing whenever it fills.
    fn absorb(&mut self, piece: &Vec<u8>)
        requires
            old(self).buffer_inv(),
            old(self).buffer@.len() < 64,
            1 <= piece@.len() <= 32,
        ensures
            final(self).buffer_inv(),
            final(self).buffer@.len() < 64,
            final(self).processed@ == old(self).processed@ + piece@,
            final(self).height == old(self).height,
            final(self).should_pack == old(self).should_pack,
            final(self).first_chunk == old(self).first_chunk,
            final(self).first_chunk_active == old(self).first_chunk_active,
            final(self).fed == old(self).fed,
    {
        let ghost p_new = self.processed@ + piece@;
        let remaining = 64 - self.buffer.len();
        if piece.len() <= remaining {
            self.buffer.extend_from_slice(piece.as_slice());
            self.processed = Ghost(p_new);
            proof {
                let p = self.processed@;
                let k = self.chunks@.len();
                assert(self.buffer@ =~= p.subrange(64 * k as int, p.len() as int));
                assert forall|i: int| 0 <= i < k implies self.chunks@[i] == sha256_of(
                    #[trigger] p.subrange(64 * i, 64 * i + 64),
                ) by {
                    assert(p.subrange(64 * i, 64 * i + 64) =~= old(self).processed@.subrange(
                        64 * i,
                        64 * i + 64,
                    ));
                }
            }
        } else {
            let ghost p_mid = self.processed@ + piece@.take(remaining as int);
            self.buffer.extend_from_slice(&piece.as_slice()[0..remaining]);
            self.processed = Ghost(p_mid);
            proof {
                assert(self.buffer@.len() == 64);
                assert(self.buffer@ =~= p_mid.subrange(
                    64 * self.chunks@.len() as int,
                    p_mid.len() as int,
                ));
                assert forall|i: int| 0 <= i < self.chunks@.len() implies self.chunks@[i]
                    == sha256_of(#[trigger] p_mid.subrange(64 * i, 64 * i + 64)) by {
                    assert(p_mid.subrange(64 * i, 64 * i + 64) =~= old(self).processed@.subrange(
                        64 * i,
                        64 * i + 64,
                    ));
                }
            }
            flush_block(&mut self.chunks, &mut self.buffer, Ghost(p_mid));
            self.buffer.extend_from_slice(&piece.as_slice()[remaining..piece.len()]);
            self.processed = Ghost(p_new);
            proof {
                let p = self.processed@;
                let k = self.chunks@.len();
                assert(self.buffer@ =~= p.subrange(64 * k as int, p.len() as int));
                assert forall|i: int| 0 <= i < k implies self.chunks@[i] == sha256_of(
                    #[trigger] p.subrange(64 * i, 64 * i + 64),
                ) by {
                    assert(p.subrange(64 * i, 64 * i + 64) =~= p_mid.subrange(
                        64 * i,
                        64 * i + 64,
                    ));
                }
            }
        }
        if self.buffer.len() == 64 {
            flush_block(&mut self.chunks, &mut self.buffer, Ghost(self.processed@));
        }
    }

    /// Feeds bytes to the hasher. The fast-path chunk follows the raw
    /// bytes while they could still fit one chunk; the windows of the push
    /// stream into the buffer, padded per window when packing is off.
    pub fn update(&mut self, bytes: &[u8])
        requires
            old(self).wf(),
        ensures
            final(self).wf(),
            final(self).spec_height() == old(self).spec_height(),
            final(self).spec_should_pack() == old(self).spec_should_pack(),
            final(self).spec_fed() == old(self).spec_fed() + bytes@,
            final(self).spec_processed() == old(self).spec_processed() + spec_absorbed(
                bytes@,
                old(self).spec_should_pack(),
            ),
    {
        // Fast path bookkeeping: append while everything still fits one
        // chunk, deactivate for good the moment it no longer can.
        if self.first_chunk_active {
            if bytes.len() <= 32 && self.first_chunk.len() <= 32 - bytes.len() {
                self.first_chunk.extend_from_slice(bytes);
                assert(self.first_chunk@ =~= old(self).first_chunk@ + bytes@);
            } else {
                self.first_chunk_active = false;
            }
        }
        self.fed = Ghost(old(self).fed@ + bytes@);

        let ghost p0 = self.processed@;
        proof {
            assert(bytes@.take(0) =~= Seq::<u8>::empty());
            assert(spec_absorbed(bytes@.take(0), self.should_pack) =~= Seq::<u8>::empty());
            assert(self.processed@ =~= p0 + spec_absorbed(bytes@.take(0), self.should_pack));
        }
        let ghost pack = self.should_pack;
        let mut offset: usize = 0;
        while offset < bytes.len()
            invariant
                offset <= bytes@.len(),
                offset % 32 == 0 || offset == bytes@.len(),
                self.buffer_inv(),
                self.buffer@.len() < 64,
                self.processed@ == p0 + spec_absorbed(bytes@.take(offset as int), pack),
                self.height == old(self).height,
                self.should_pack == old(self).should_pack,
                pack == old(self).should_pack,
                self.fed@ == old(self).fed@ + bytes@,
                self.first_chunk_active == (self.fed@.len() <= 32),
                self.first_chunk_active ==> self.first_chunk@ == self.fed@,
            decreases bytes@.len() - offset,
        {
            let end = if bytes.len() - offset >= 32 {
                offset + 32
            } else {
                bytes.len()
            };
            let window = &bytes[offset..end];
            let mut piece: Vec<u8> = Vec::new();
            piece.extend_from_slice(window);
            assert(piece@ =~= bytes@.subrange(offset as int, end as int));
            if !self.should_pack {
                crate::bytes::pad_to_chunk(&mut piece);
            }
            proof {
                let b = bytes@;
                let x = b.take(offset as int);
                let w = b.subrange(offset as int, end as int);
                assert(b.take(end as int) =~= x + w);
                if pack {
                    assert(spec_absorbed(b.take(end as int), pack) =~= spec_absorbed(x, pack)
                        + w);
                } else {
                    lemma_padded_slices_concat(x, w);
                    if w.len() == 32 {
                        assert(w.take(32) =~= w);
                        assert(w.skip(32) =~= Seq::<u8>::empty());
                        assert(spec_padded_slices(w.skip(32)) =~= Seq::<u8>::empty());
                        assert(spec_padded_slices(w) =~= w);
                    } else {
                        assert(spec_padded_slices(w) == spec_pad_chunk(w));
                    }
                    assert(piece@ == spec_padded_slices(w));
                    assert(spec_absorbed(b.take(end as int), pack) =~= spec_absorbed(x, pack)
                        + piece@);
                }
            }
            self.absorb(&piece);
            proof {
                assert(self.processed@ =~= p0 + spec_absorbed(bytes@.take(end as int), pack));
            }
            offset = end;
        }
        proof {
            assert(bytes@.take(bytes@.len() as int) =~= bytes@);
        }
    }

    /// Consumes the hasher and yields the 32-byte root. A height-1 tree
    /// whose data fit one chunk is that chunk, zero-padded, with no hashing
    /// at all; otherwise the remainder of the stream is zero-padded to the
    /// block boundary (to at least one block) and the stored chunks are
    /// reduced. The stream must fit the declared height.
    pub fn finish(self) -> (r: Vec<u8>)
        requires
            self.wf(),
            1 <= self.spec_height() <= MAX_TREE_DEPTH,
            (self.spec_height() == 1 && self.spec_fed().len() <= 32) || spec_block_count(
                self.spec_processed(),
            ) <= spec_reduce_capacity(self.spec_height()),
        ensures
            r@ == spec_hasher_root(self.spec_height(), self.spec_fed(), self.spec_processed()),
            r@.len() == 32,
    {
        let VecTreeHasher {
            height,
            mut chunks,
            mut buffer,
            first_chunk,
            first_chunk_active,
            should_pack: _,
            processed,
            fed,
        } = self;
        let ghost p0 = processed@;

        if height == 1 && first_chunk_active {
            let mut root = first_chunk;
            crate::bytes::pad_to_chunk(&mut root);
            return root;
        }

        if buffer.len() > 0 || chunks.len() == 0 {
            let ghost k = chunks@.len();
            let ghost b0 = buffer@;
            while buffer.len() < 64
                invariant
                    b0.len() <= buffer@.len() <= 64,
                    buffer@.subrange(0, b0.len() as int) == b0,
                    forall|j: int| b0.len() <= j < buffer@.len() ==> buffer@[j] == 0u8,
                decreases 64 - buffer@.len(),
            {
                buffer.push(0u8);
                assert(buffer@.subrange(0, b0.len() as int) =~= b0);
            }
            let ghost p1 = spec_pad_to_block(p0);
            proof {
                assert(p0.len() % 64 == b0.len()) by (nonlinear_arith)
                    requires
                        p0.len() == 64 * k + b0.len(),
                        0 <= b0.len() < 64,
                        k >= 0,
                ;
                assert(b0 == p0.subrange(64 * k as int, p0.len() as int));
                assert(p1 =~= p0 + Seq::new((64 - p0.len() % 64) as nat, |i: int| 0u8));
                assert(p1.len() == 64 * k + 64);
                assert forall|j: int| 0 <= j < 64 implies buffer@[j] == p1[64 * k + j] by {
                    if j < b0.len() {
                        assert(buffer@[j] == buffer@.subrange(0, b0.len() as int)[j]);
                        assert(b0[j] == p0[64 * k + j]);
                    }
                }
                assert(buffer@ =~= p1.subrange(64 * k as int, p1.len() as int));
                assert forall|i: int| 0 <= i < k implies chunks@[i] == sha256_of(
                    #[trigger] p1.subrange(64 * i, 64 * i + 64),
                ) by {
                    assert(p1.subrange(64 * i, 64 * i + 64) =~= p0.subrange(64 * i, 64 * i + 64));
                }
            }
            flush_block(&mut chunks, &mut buffer, Ghost(p1));
        }

        let ghost padded = spec_pad_to_block(p0);
        proof {
            if p0.len() % 64 == 0 && p0.len() > 0 {
                assert(padded =~= p0);
            }
            assert(chunks@ =~= spec_block_hashes(padded));
        }
        let root = merkleize_chunks(chunks, height);
        root
    }
}

/// Streaming invariance for a packing hasher: one `update` of `a + b`
/// advances the hashed stream exactly as an `update` of `a` followed by
/// one of `b`, and by induction any way of splitting a byte sequence
/// across pushes. Since `finish`'s root is a function of that stream (and
/// of the raw bytes, which concatenate the same way), the root does not
/// depend on the split. Without packing this fails: each push pads its
/// last short window, so pushing one byte twice differs from pushing two
/// bytes at once.
pub proof fn lemma_streaming_split(p: Seq<u8>, a: Seq<u8>, b: Seq<u8>)
    ensures
        (p + spec_absorbed(a, true)) + spec_absorbed(b, true) == p + spec_absorbed(a + b, true),
{
    assert((p + spec_absorbed(a, true)) + spec_absorbed(b, true) =~= p + spec_absorbed(
        a + b,
        true,
    ));
}

/// The block pair-hashes of a block-aligned stream are exactly one
/// combining round over its 32-byte leaf chunks: the eager pair hashing
/// of the streaming front end computes the tree's first level.
pub proof fn lemma_block_hashes_are_pairs(q: Seq<u8>, level: nat)
    requires
        q.len() % 64 == 0,
    ensures
        spec_block_hashes(q) =~= crate::reducer::spec_combine(spec_leaf_chunks(q), level),
{
    let leaves = spec_leaf_chunks(q);
    assert(q.len() % 32 == 0) by (nonlinear_arith)
        requires
            q.len() % 64 == 0,
    ;
    assert(leaves.len() == 2 * (q.len() / 64)) by (nonlinear_arith)
        requires
            q.len() % 64 == 0,
            leaves.len() == q.len() / 32,
    ;
    let c = crate::reducer::spec_combine(leaves, level);
    assert forall|i: int| 0 <= i < spec_block_hashes(q).len() implies spec_block_hashes(q)[i]
        == c[i] by {
        assert(leaves[2 * i] == q.subrange(64 * i, 64 * i + 32));
        assert(leaves[2 * i + 1] == q.subrange(64 * i + 32, 64 * i + 64));
        assert(q.subrange(64 * i, 64 * i + 64) =~= leaves[2 * i] + leaves[2 * i + 1]);
    }
}

/// The consecutive 32-byte leaf chunks of a chunk-aligned stream.
pub open spec fn spec_leaf_chunks(q: Seq<u8>) -> Seq<Seq<u8>> {
    Seq::new(q.len() / 32, |i: int| q.subrange(32 * i, 32 * i + 32))
}

/// The stream zero-padded up to the 32-byte chunk boundary; an empty
/// stream has no chunks.
pub open spec fn spec_pad_to_chunks(b: Seq<u8>) -> Seq<u8> {
    if b.len() % 32 == 0 {
        b
    } else {
        b + Seq::new((32 - b.len() % 32) as nat, |i: int| 0u8)
    }
}

/// A stream that fits the leaf chunks of a tree fits its reduction: `n`
/// leaves of 32 bytes make at most the block count the reducer can bring
/// down to a root at a height that holds `n` leaves.
pub proof fn lemma_block_capacity(p: Seq<u8>, n: nat, h: nat)
    requires
        p.len() <= 32 * n,
        n <= vstd::arithmetic::power2::pow2((h - 1) as nat),
        1 <= h,
    ensures
        spec_block_count(p) <= spec_reduce_capacity(h),
{
    let len = p.len();
    if h <= 2 {
        vstd::arithmetic::power2::lemma2_to64();
        assert(len <= 64);
        if len % 64 == 0 && len > 0 {
            assert(len == 64);
        }
        assert(spec_pad_to_block(p).len() == 64);
    } else {
        let c = vstd::arithmetic::power2::pow2((h - 2) as nat);
        vstd::arithmetic::power2::lemma_pow2_pos((h - 2) as nat);
        vstd::arithmetic::power2::lemma_pow2_unfold((h - 1) as nat);
        assert(len <= 64 * c);
        if len % 64 == 0 && len > 0 {
            assert(len / 64 <= c) by (nonlinear_arith)
                requires
                    len <= 64 * c,
                    0 <= len,
                    0 <= c,
            ;
        } else {
            let padded = (len + (64 - len % 64)) as nat;
            assert(spec_pad_to_block(p).len() == padded);
            assert(padded / 64 <= c) by (nonlinear_arith)
                requires
                    len <= 64 * c,
                    len % 64 != 0 || len == 0,
                    padded == len + (64 - len % 64),
                    0 <= len,
                    1 <= c,
            ;
        }
    }
}

/// Hashes a full 64-byte buffer into one stored chunk and empties the
/// buffer. The ghost `p` is the stream the pair came from: its last block
/// is exactly the buffer.
fn flush_block(chunks: &mut ChunkStore, buffer: &mut Vec<u8>, Ghost(p): Ghost<Seq<u8>>)
    requires
        old(buffer)@.len() == 64,
        old(chunks).wf(),
        p.len() == 64 * old(chunks)@.len() + 64,
        old(buffer)@ == p.subrange(64 * old(chunks)@.len() as int, p.len() as int),
        forall|i: int|
            0 <= i < old(chunks)@.len() ==> old(chunks)@[i] == sha256_of(
                #[trigger] p.subrange(64 * i, 64 * i + 64),
            ),
    ensures
        final(chunks).wf(),
        final(chunks)@.len() == old(chunks)@.len() + 1,
        p.len() == 64 * final(chunks)@.len(),
        final(buffer)@.len() == 0,
        forall|i: int|
            0 <= i < final(chunks)@.len() ==> final(chunks)@[i] == sha256_of(
                #[trigger] p.subrange(64 * i, 64 * i + 64),
            ),
        final(buffer)@ == p.subrange(64 * final(chunks)@.len() as int, p.len() as int),
{
    let digest = hash(buffer.as_slice());
    proof {
        let k = old(chunks)@.len() as int;
        assert(p.subrange(64 * k, 64 * k + 64) == old(buffer)@);
    }
    chunks.push(digest);
    buffer.clear();
    assert(final(buffer)@ =~= p.subrange(64 * final(chunks)@.len() as int, p.len() as int));
}

} // verus!
