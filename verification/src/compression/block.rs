use vstd::prelude::*;

verus! {

/// A raw (uncompressed) block of data with its index in the global
/// compression order.
pub struct RawBlock {
    pub data: Vec<u8>,
    pub block_index: usize,
}

/// A compressed block with metadata tying it back to its raw block.
pub struct CompressedBlock {
    pub compressed_data: Vec<u8>,
    pub uncompressed_size: u64,
    pub compressed_size: u64,
    pub uncompressed_crc: u32,
    pub block_index: usize,
}

/// Consecutive slices of `data`, each exactly `block_size` bytes except
/// possibly the last, which carries the remainder. Empty data yields no
/// chunk.
pub open spec fn chunks_of(data: Seq<u8>, block_size: int) -> Seq<Seq<u8>>
    decreases data.len(),
{
    if block_size <= 0 {
        seq![]
    } else if data.len() == 0 {
        seq![]
    } else if data.len() <= block_size {
        seq![data]
    } else {
        seq![data.take(block_size)] + chunks_of(data.skip(block_size), block_size)
    }
}

/// The data buffers of a sequence of raw blocks, in order.
pub open spec fn block_datas(blocks: Seq<RawBlock>) -> Seq<Seq<u8>> {
    blocks.map_values(|b: RawBlock| b.data@)
}

/// The indices of `blocks` are dense from `0` to `blocks.len() - 1`.
pub open spec fn indices_dense(blocks: Seq<RawBlock>) -> bool {
    forall|i: int| 0 <= i < blocks.len() ==> #[trigger] blocks[i].block_index == i
}

/// Appends `s` to `out` byte for byte.
pub(crate) fn push_bytes(out: &mut Vec<u8>, s: &[u8])
    ensures
        final(out)@ == old(out)@ + s@,
{
    let mut i: usize = 0;
    while i < s.len()
        invariant
            i <= s@.len(),
            out@ =~= old(out)@ + s@.take(i as int),
        decreases s@.len() - i,
    {
        out.push(s[i]);
        i = i + 1;
        assert(out@ =~= old(out)@ + s@.take(i as int));
    }
    assert(out@ =~= old(out)@ + s@);
}

/// Splits data into blocks of at most `block_size` bytes, indexed from 0.
#[verifier::loop_isolation(false)]
pub fn split_into_blocks(data: &[u8], block_size: usize) -> (blocks: Vec<RawBlock>)
    requires
        block_size >= 1,
    ensures
        block_datas(blocks@) == chunks_of(data@, block_size as int),
        indices_dense(blocks@),
{
    let mut blocks: Vec<RawBlock> = Vec::new();
    let mut off: usize = 0;
    proof {
        assert(data@.skip(0) =~= data@);
        assert(block_datas(blocks@) =~= Seq::<Seq<u8>>::empty());
    }
    while off < data.len()
        invariant
            off <= data@.len(),
            indices_dense(blocks@),
            block_datas(blocks@) + chunks_of(data@.skip(off as int), block_size as int)
                =~= chunks_of(data@, block_size as int),
        decreases data@.len() - off,
    {
        let rem: usize = data.len() - off;
        let len: usize = if rem <= block_size {
            rem
        } else {
            block_size
        };
        let mut chunk: Vec<u8> = Vec::new();
        push_bytes(&mut chunk, &data[off..off + len]);
        let ghost prev = blocks@;
        blocks.push(RawBlock { data: chunk, block_index: blocks.len() });
        proof {
            let bs = block_size as int;
            let pre = data@.skip(off as int);
            assert(chunk@ =~= pre.take(len as int));
            if pre.len() <= bs {
                assert(chunks_of(pre, bs) =~= seq![pre]);
                assert(pre.take(len as int) =~= pre);
                assert(data@.skip((off + len) as int).len() == 0);
            } else {
                assert(pre.skip(bs) =~= data@.skip((off + len) as int));
            }
            assert(block_datas(blocks@) =~= block_datas(prev).push(chunk@));
        }
        off = off + len;
    }
    proof {
        assert(data@.skip(off as int).len() == 0);
        assert(chunks_of(data@.skip(off as int), block_size as int) =~= Seq::<Seq<u8>>::empty());
        assert(block_datas(blocks@) =~= chunks_of(data@, block_size as int));
    }
    blocks
}

} // verus!
