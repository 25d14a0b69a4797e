//! Pipe blocks: a buffer is cut into vector-sized chunks, each pushed through a
//! set of OpenCL pipes.
use vstd::prelude::*;
use crate::ocl_v1::{consumer_source, producer_source};
use crate::ocl_v7::{decode_output, decoded_output, lemma_decode_prepared, prepare_input, prepared_input};

verus! {

/// One kibibyte.
pub const KB_1: usize = 1024;

/// Elements per vector.
pub const KB_N: usize = 1024;

/// Elements per vector.
pub const LIST_SIZE: usize = 1024;

/// Packets each pipe holds.
pub const PIPE_MAX_PACKETS: usize = 1024;

/// Number of pipe blocks.
pub const PIPE_BLOCKS: usize = 1;

/// Bytes a pipe block holds.
pub const PIPE_MAX_CAP: usize = 1048576;

/// Shape of a pipe block.
#[derive(Debug, Clone, Copy, PartialEq, Eq, Structural)]
pub struct BlockConfig {
    pub buffer_size: usize,
    pub pipes: usize,
    pub pipe_max_packets: usize,
}

/// The producer kernel over `pipes` pipes.
pub fn generate_producer_source(pipes: usize) -> (s: String)
    ensures
        s@ == producer_source(pipes as nat),
{
    crate::ocl_v1::generate_producer_source(pipes)
}

/// The consumer kernel over `pipes` pipes.
pub fn generate_consumer_source(pipes: usize) -> (s: String)
    ensures
        s@ == consumer_source(pipes as nat),
{
    crate::ocl_v1::generate_consumer_source(pipes)
}

/// Number of chunks of at most `size` bytes that `len` bytes fall into.
pub open spec fn chunk_count(len: nat, size: nat) -> nat {
    if len == 0 {
        0
    } else {
        ((len - 1) as nat / size + 1) as nat
    }
}

/// Chunk `k` of `buf`, cut every `size` bytes.
pub open spec fn chunk(buf: Seq<u8>, size: nat, k: nat) -> Seq<u8> {
    let start: int = (k * size) as int;
    let stop: int = if start + size < buf.len() { start + size } else { buf.len() as int };
    buf.subrange(start, stop)
}

/// The inputs the producer kernel receives for `buf`: one vector of
/// [`LIST_SIZE`] elements per chunk of [`LIST_SIZE`] bytes.
pub fn chunk_inputs(buf: &[u8]) -> (inputs: Vec<Vec<i32>>)
    ensures
        inputs@.len() == chunk_count(buf@.len(), LIST_SIZE as nat),
        forall|k: int|
            0 <= k < inputs@.len() ==> (#[trigger] inputs@[k])@ == prepared_input(
                chunk(buf@, LIST_SIZE as nat, k as nat),
                LIST_SIZE as nat,
            ),
{
    let mut inputs: Vec<Vec<i32>> = Vec::new();
    let mut start: usize = 0;
    while start < buf.len()
        invariant
            start <= buf@.len(),
            start < buf@.len() ==> start == inputs@.len() * LIST_SIZE && inputs@.len()
                == chunk_count(start as nat, LIST_SIZE as nat),
            start == buf@.len() ==> inputs@.len() == chunk_count(buf@.len(), LIST_SIZE as nat),
            forall|k: int|
                0 <= k < inputs@.len() ==> (#[trigger] inputs@[k])@ == prepared_input(
                    chunk(buf@, LIST_SIZE as nat, k as nat),
                    LIST_SIZE as nat,
                ),
        decreases buf@.len() - start,
    {
        let stop = if buf.len() - start > LIST_SIZE { start + LIST_SIZE } else { buf.len() };
        let mut piece: Vec<u8> = Vec::new();
        let mut i: usize = start;
        while i < stop
            invariant
                start <= i <= stop <= buf@.len(),
                piece@ == buf@.subrange(start as int, i as int),
            decreases stop - i,
        {
            piece.push(buf[i]);
            assert(buf@.subrange(start as int, i as int).push(buf@[i as int]) =~= buf@.subrange(
                start as int,
                i + 1,
            ));
            i = i + 1;
        }
        let ghost k = inputs@.len();
        assert(start == k * LIST_SIZE);
        assert(piece@ == chunk(buf@, LIST_SIZE as nat, k as nat));
        inputs.push(prepare_input(piece.as_slice(), LIST_SIZE));
        start = stop;
        proof {
            if stop < buf@.len() {
                assert(start == inputs@.len() * LIST_SIZE) by (nonlinear_arith)
                    requires start == stop, stop == (inputs@.len() - 1) * 1024 + 1024;
                assert(chunk_count(start as nat, LIST_SIZE as nat) == inputs@.len()) by (nonlinear_arith)
                    requires start == inputs@.len() * 1024, inputs@.len() >= 1, start > 0;
            } else {
                assert(chunk_count(buf@.len(), LIST_SIZE as nat) == inputs@.len()) by (nonlinear_arith)
                    requires
                        buf@.len() > (inputs@.len() - 1) * 1024,
                        (inputs@.len() - 1) * 1024 >= 0,
                        buf@.len() <= inputs@.len() * 1024,
                        inputs@.len() >= 1;
            }
        }
    }
    inputs
}

/// The bytes decoded from each of `outs`, one after the other.
pub open spec fn decoded_outputs(outs: Seq<Seq<i32>>) -> Seq<u8>
    decreases outs.len(),
{
    if outs.len() == 0 {
        Seq::empty()
    } else {
        decoded_outputs(outs.drop_last()) + decoded_output(outs.last())
    }
}

/// The vectors the producer kernel receives for `buf`, one per chunk.
pub open spec fn chunk_vectors(buf: Seq<u8>) -> Seq<Seq<i32>> {
    Seq::new(
        chunk_count(buf.len(), LIST_SIZE as nat),
        |k: int| prepared_input(chunk(buf, LIST_SIZE as nat, k as nat), LIST_SIZE as nat),
    )
}

/// Decodes every output of the consumer kernel and joins the bytes in order.
pub fn decode_outputs(outputs: &Vec<Vec<i32>>) -> (bytes: Vec<u8>)
    ensures
        bytes@ == decoded_outputs(outputs@.map_values(|o: Vec<i32>| o@)),
{
    let ghost outs = outputs@.map_values(|o: Vec<i32>| o@);
    let mut bytes: Vec<u8> = Vec::new();
    let mut i: usize = 0;
    while i < outputs.len()
        invariant
            i <= outputs@.len(),
            outs == outputs@.map_values(|o: Vec<i32>| o@),
            bytes@ == decoded_outputs(outs.take(i as int)),
        decreases outputs@.len() - i,
    {
        let part = decode_output(outputs[i].as_slice());
        proof {
            assert(outs.take(i + 1).drop_last() =~= outs.take(i as int));
            assert(outs.take(i + 1).last() == outputs@[i as int]@);
        }
        let mut j: usize = 0;
        let ghost before = bytes@;
        while j < part.len()
            invariant
                j <= part@.len(),
                bytes@ == before + part@.take(j as int),
            decreases part@.len() - j,
        {
            bytes.push(part[j]);
            assert(part@.take(j + 1) =~= part@.take(j as int).push(part@[j as int]));
            j = j + 1;
        }
        assert(part@.take(part@.len() as int) =~= part@);
        i = i + 1;
    }
    assert(outs.take(outputs@.len() as int) =~= outs);
    bytes
}

/// Bookkeeping of a pipe block: its shape and how many packets were pushed
/// and not yet drained.
#[derive(Debug, Clone, Copy, PartialEq, Eq, Structural)]
pub struct PipeBlockState {
    pub config: BlockConfig,
    pub saved_index: u64,
}

impl PipeBlockState {
    /// A block of shape `config` with nothing pushed.
    pub fn new(config: BlockConfig) -> (b: Self)
        ensures
            b.config == config,
            b.saved_index == 0,
    {
        PipeBlockState { config, saved_index: 0 }
    }

    /// The vectors `buf` is pushed as, one per chunk, each counted as saved.
    pub fn enqueue_inputs(&mut self, buf: &[u8]) -> (inputs: Vec<Vec<i32>>)
        requires
            old(self).saved_index + chunk_count(buf@.len(), LIST_SIZE as nat) <= u64::MAX,
        ensures
            inputs@.map_values(|v: Vec<i32>| v@) == chunk_vectors(buf@),
            final(self).saved_index == old(self).saved_index + inputs@.len(),
            final(self).config == old(self).config,
    {
        let inputs = chunk_inputs(buf);
        assert(inputs@.map_values(|v: Vec<i32>| v@) =~= chunk_vectors(buf@));
        self.saved_index = self.saved_index + inputs.len() as u64;
        inputs
    }

    /// How many packets to drain; nothing is left saved afterwards.
    pub fn take_saved(&mut self) -> (n: u64)
        ensures
            n == old(self).saved_index,
            final(self).saved_index == 0,
            final(self).config == old(self).config,
    {
        let n = self.saved_index;
        self.saved_index = 0;
        n
    }
}

/// One item of the drained stream: none once a drain comes back empty.
pub fn next_item(v: Vec<u8>) -> (r: Option<Vec<u8>>)
    ensures
        r == if v@.len() == 0 {
            None::<Vec<u8>>
        } else {
            Some(v)
        },
{
    if v.len() == 0 {
        return None;
    }
    Some(v)
}

/// Draining the vectors a buffer was pushed as gives the buffer back.
pub proof fn lemma_pipe_round_trip(buf: Seq<u8>)
    ensures
        decoded_outputs(chunk_vectors(buf)) == buf,
{
    let n = chunk_count(buf.len(), LIST_SIZE as nat);
    lemma_chunks_decode(buf, n);
    assert(chunk_vectors(buf).take(n as int) =~= chunk_vectors(buf));
    if buf.len() == 0 {
        assert(buf.take(0) =~= buf);
    } else {
        assert(n * LIST_SIZE >= buf.len()) by (nonlinear_arith)
            requires
                n == (buf.len() - 1) as nat / 1024 + 1,
                buf.len() > 0,
        {
        }
        assert(buf.take(buf.len() as int) =~= buf);
    }
}

/// Decoding the first `k` chunk vectors of `buf` gives the bytes those chunks cover.
proof fn lemma_chunks_decode(buf: Seq<u8>, k: nat)
    requires
        k <= chunk_count(buf.len(), LIST_SIZE as nat),
    ensures
        decoded_outputs(chunk_vectors(buf).take(k as int)) == buf.take(
            if k * LIST_SIZE < buf.len() { (k * LIST_SIZE) as int } else { buf.len() as int },
        ),
    decreases k,
{
    let vs = chunk_vectors(buf);
    if k == 0 {
        assert(vs.take(0) =~= Seq::<Seq<i32>>::empty());
        assert(buf.take(0) =~= Seq::<u8>::empty());
    } else {
        lemma_chunks_decode(buf, (k - 1) as nat);
        assert(vs.take(k as int).drop_last() =~= vs.take(k - 1));
        let j = (k - 1) as nat;
        let c = chunk(buf, LIST_SIZE as nat, j);
        lemma_decode_prepared(c, LIST_SIZE as nat);
        assert(j * LIST_SIZE < buf.len()) by (nonlinear_arith)
            requires
                j < chunk_count(buf.len(), LIST_SIZE as nat),
                chunk_count(buf.len(), LIST_SIZE as nat) == if buf.len() == 0 {
                    0
                } else {
                    ((buf.len() - 1) as nat / 1024 + 1) as nat
                },
        {
        }
        assert(k * LIST_SIZE == j * LIST_SIZE + LIST_SIZE) by (nonlinear_arith)
            requires k == j + 1;
        assert(c.len() <= LIST_SIZE);
        assert(c.take(c.len() as int) =~= c);
        let lo = (j * LIST_SIZE) as int;
        let hi = if k * LIST_SIZE < buf.len() { (k * LIST_SIZE) as int } else { buf.len() as int };
        assert(buf.take(lo) + c =~= buf.take(hi));
    }
}

} // verus!
