use sevenzip_mt::compression::block::RawBlock;
use sevenzip_mt::threading::scheduler::compress_blocks_parallel;
use sevenzip_mt::threading::worker::compress_raw_block;
use sevenzip_mt::Lzma2Config;

#[test]
fn test_compress_parallel_ordering() {
    let blocks: Vec<RawBlock> = (0..4)
        .map(|i| RawBlock {
            data: format!("block {i} data with some content").into_bytes(),
            block_index: i,
        })
        .collect();

    let config = Lzma2Config::default();
    let results = compress_blocks_parallel(blocks, &config, None).unwrap();

    assert_eq!(results.len(), 4);
    for (i, block) in results.iter().enumerate() {
        assert_eq!(block.block_index, i);
    }
}

#[test]
fn test_compress_parallel_with_explicit_threads() {
    let blocks: Vec<RawBlock> = (0..4)
        .map(|i| RawBlock { data: format!("block {i} content").into_bytes(), block_index: i })
        .collect();

    let config = Lzma2Config::default();
    let results = compress_blocks_parallel(blocks, &config, Some(2)).unwrap();

    assert_eq!(results.len(), 4);
    for (i, block) in results.iter().enumerate() {
        assert_eq!(block.block_index, i);
    }
}

#[test]
fn test_compress_raw_block() {
    let block = RawBlock { data: b"Hello, World!".to_vec(), block_index: 0 };
    let config = Lzma2Config::default();
    let result = compress_raw_block(block, &config).unwrap();
    assert_eq!(result.uncompressed_size, 13);
    assert_eq!(result.block_index, 0);
    assert_eq!(result.compressed_size, result.compressed_data.len() as u64);
    assert_eq!(result.uncompressed_crc, crc32fast::hash(b"Hello, World!"));
}
