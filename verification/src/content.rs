//! The per-chunk verdict of the streaming content comparison.

use vstd::prelude::*;

verus! {

/// Size in bytes of each scratch buffer: one chunk of the streaming
/// comparison.
pub const CHUNK_BYTES: usize = 131072;

/// A pair of scratch buffers for the streaming comparison, owned by one
/// worker; the reader fills a prefix of each buffer per chunk.
#[derive(Debug)]
pub struct ThreadLocalBuffers {
    pub buffer1: Vec<u8>,
    pub buffer2: Vec<u8>,
}

fn zeroed_chunk() -> (buf: Vec<u8>)
    ensures
        buf@.len() == CHUNK_BYTES,
        forall|i: int| 0 <= i < buf@.len() ==> buf@[i] == 0u8,
{
    let mut buf: Vec<u8> = Vec::new();
    while buf.len() < CHUNK_BYTES
        invariant
            buf@.len() <= CHUNK_BYTES,
            forall|i: int| 0 <= i < buf@.len() ==> buf@[i] == 0u8,
        decreases CHUNK_BYTES - buf@.len(),
    {
        buf.push(0u8);
    }
    buf
}

impl ThreadLocalBuffers {
    /// Two fresh zeroed chunk-sized buffers.
    pub fn new() -> (r: Self)
        ensures
            r.buffer1@.len() == CHUNK_BYTES,
            r.buffer2@.len() == CHUNK_BYTES,
            forall|i: int| 0 <= i < r.buffer1@.len() ==> r.buffer1@[i] == 0u8,
            forall|i: int| 0 <= i < r.buffer2@.len() ==> r.buffer2@[i] == 0u8,
    {
        ThreadLocalBuffers { buffer1: zeroed_chunk(), buffer2: zeroed_chunk() }
    }
}

/// What one chunk of the streaming comparison decides.
#[derive(Clone, Copy, Debug, PartialEq, Eq, Structural)]
pub enum StepVerdict {
    /// The chunks differ in length or content: the files differ, and no
    /// further chunk need be read.
    Mismatch,
    /// Both files ended at once with every chunk matched: the files are
    /// identical.
    Done,
    /// The chunks match and are not empty: read the next pair of chunks.
    Advance,
}

/// The verdict for one pair of chunks: unequal chunks are conclusive
/// `Mismatch`, two empty chunks mean both files ended together, and equal
/// non-empty chunks leave the comparison open.
pub open spec fn step_spec(c1: Seq<u8>, c2: Seq<u8>) -> StepVerdict {
    if c1 != c2 {
        StepVerdict::Mismatch
    } else if c1.len() == 0 {
        StepVerdict::Done
    } else {
        StepVerdict::Advance
    }
}

/// Law: a chunk held against an identical chunk never mismatches: streamed
/// against an exact copy of itself, a file advances chunk by chunk and ends
/// in `Done`, never in a reported difference.
pub proof fn lemma_step_identical(c: Seq<u8>)
    ensures
        step_spec(c, c) != StepVerdict::Mismatch,
        c.len() == 0 ==> step_spec(c, c) == StepVerdict::Done,
        c.len() > 0 ==> step_spec(c, c) == StepVerdict::Advance,
{
}

/// Decides one step of the streaming comparison, where the current chunks
/// are the first `n1` bytes of `buffer1` and the first `n2` bytes of
/// `buffer2`.
pub fn stream_step(bufs: &ThreadLocalBuffers, n1: usize, n2: usize) -> (v: StepVerdict)
    requires
        n1 <= bufs.buffer1@.len(),
        n2 <= bufs.buffer2@.len(),
    ensures
        v == step_spec(bufs.buffer1@.take(n1 as int), bufs.buffer2@.take(n2 as int)),
{
    let ghost c1 = bufs.buffer1@.take(n1 as int);
    let ghost c2 = bufs.buffer2@.take(n2 as int);
    if n1 != n2 {
        proof {
            assert(c1.len() != c2.len());
        }
        return StepVerdict::Mismatch;
    }
    let mut i: usize = 0;
    while i < n1
        invariant
            i <= n1,
            n1 == n2,
            n1 <= bufs.buffer1@.len(),
            n2 <= bufs.buffer2@.len(),
            c1 == bufs.buffer1@.take(n1 as int),
            c2 == bufs.buffer2@.take(n2 as int),
            forall|k: int| 0 <= k < i ==> c1[k] == c2[k],
        decreases n1 - i,
    {
        if bufs.buffer1[i] != bufs.buffer2[i] {
            proof {
                assert(c1[i as int] != c2[i as int]);
            }
            return StepVerdict::Mismatch;
        }
        i = i + 1;
    }
    proof {
        assert(c1 =~= c2);
    }
    if n1 == 0 {
        StepVerdict::Done
    } else {
        StepVerdict::Advance
    }
}

} // verus!
