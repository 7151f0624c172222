use vstd::prelude::*;

use crate::checksum::{crc32, crc32_of};
use crate::compression::block::{CompressedBlock, RawBlock};
use crate::compression::lzma2::{
    compress_block, effective_dict_size_spec, ends_with_marker, lzma2_stream_of,
    valid_dict_override, Lzma2Config,
};
use crate::error::SevenZipError;

verus! {

/// `c` is the compression of `b` under the given preset and dictionary
/// size: its payload is the encoder's self-terminated stream, its metadata
/// records the raw block's size, checksum and index.
pub open spec fn is_compressed_of(c: CompressedBlock, b: RawBlock, preset: u32, dict: u32) -> bool {
    &&& c.compressed_data@ == lzma2_stream_of(b.data@, preset, dict)
    &&& ends_with_marker(c.compressed_data@)
    &&& c.uncompressed_size == b.data@.len()
    &&& c.compressed_size == c.compressed_data@.len()
    &&& c.uncompressed_crc == crc32_of(b.data@)
    &&& c.block_index == b.block_index
}

/// Compresses a single raw block with LZMA2 and computes its CRC-32.
pub fn compress_raw_block(block: RawBlock, config: &Lzma2Config) -> (r: Result<
    CompressedBlock,
    SevenZipError,
>)
    requires
        valid_dict_override(*config),
    ensures
        r is Ok ==> is_compressed_of(
            r->Ok_0,
            block,
            config.preset,
            effective_dict_size_spec(*config),
        ),
        r is Err ==> r->Err_0 is Compression,
{
    let uncompressed_size = block.data.len() as u64;
    let uncompressed_crc = crc32(block.data.as_slice());
    let compressed_data = match compress_block(block.data.as_slice(), config) {
        Ok(d) => d,
        Err(e) => {
            return Err(e);
        },
    };
    let compressed_size = compressed_data.len() as u64;
    Ok(
        CompressedBlock {
            compressed_data,
            uncompressed_size,
            compressed_size,
            uncompressed_crc,
            block_index: block.block_index,
        },
    )
}

} // verus!
