use vstd::prelude::*;

use rayon::iter::{IntoParallelIterator, ParallelIterator};

use crate::compression::block::{indices_dense, CompressedBlock, RawBlock};
use crate::compression::lzma2::{effective_dict_size_spec, valid_dict_override, Lzma2Config};
use crate::error::SevenZipError;
use crate::threading::worker::{compress_raw_block, is_compressed_of};

verus! {

/// Relies on rayon: ThreadPoolBuilder::num_threads (0 meaning rayon's
/// default pool size), pool.install, and collect over an indexed parallel
/// map, which yields the results in the order of the input items; each item
/// is compressed by the verified `compress_raw_block`, and a failed build
/// of the pool is reported as a threading error.
#[verifier::external_body]
fn par_compress(blocks: Vec<RawBlock>, config: &Lzma2Config, num_threads: usize) -> (r: Result<
    Vec<CompressedBlock>,
    SevenZipError,
>)
    requires
        valid_dict_override(*config),
    ensures
        r is Ok ==> r->Ok_0@.len() == blocks@.len(),
        r is Ok ==> forall|i: int|
            0 <= i < blocks@.len() ==> is_compressed_of(
                #[trigger] r->Ok_0@[i],
                blocks@[i],
                config.preset,
                effective_dict_size_spec(*config),
            ),
        r is Err ==> (r->Err_0 is Threading || r->Err_0 is Compression),
{
    let pool = rayon::ThreadPoolBuilder::new()
        .num_threads(num_threads)
        .build()
        .map_err(|e| SevenZipError::Threading(format!("failed to build thread pool: {e}")))?;
    pool.install(|| {
        blocks
            .into_par_iter()
            .map(|block| compress_raw_block(block, config))
            .collect()
    })
}

/// Compresses multiple blocks in parallel using a dedicated thread pool,
/// returning them in ascending block-index order regardless of completion
/// order. A batch follows the block model: its indices are dense from 0 to
/// N-1. If `num_threads` is `None`, the pool sizes itself to the number of
/// available logical CPUs.
pub fn compress_blocks_parallel(
    blocks: Vec<RawBlock>,
    config: &Lzma2Config,
    num_threads: Option<usize>,
) -> (r: Result<Vec<CompressedBlock>, SevenZipError>)
    requires
        indices_dense(blocks@),
        valid_dict_override(*config),
    ensures
        r is Ok ==> r->Ok_0@.len() == blocks@.len(),
        r is Ok ==> forall|i: int|
            0 <= i < blocks@.len() ==> is_compressed_of(
                #[trigger] r->Ok_0@[i],
                blocks@[i],
                config.preset,
                effective_dict_size_spec(*config),
            ),
        r is Ok ==> forall|i: int|
            0 <= i < r->Ok_0@.len() ==> #[trigger] r->Ok_0@[i].block_index == i,
        r is Err ==> (r->Err_0 is Threading || r->Err_0 is Compression),
{
    let threads: usize = match num_threads {
        Option::Some(n) => n,
        Option::None => 0,
    };
    par_compress(blocks, config, threads)
}

} // verus!
