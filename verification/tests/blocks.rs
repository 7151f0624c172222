use sevenzip_mt::compression::block::split_into_blocks;
use sevenzip_mt::io::seek::CountingWriter;

#[test]
fn test_split_exact() {
    let data: Vec<u8> = vec![1, 2, 3, 4, 5, 6];
    let blocks = split_into_blocks(&data, 3);
    assert_eq!(blocks.len(), 2);
    assert_eq!(blocks[0].data, vec![1, 2, 3]);
    assert_eq!(blocks[0].block_index, 0);
    assert_eq!(blocks[1].data, vec![4, 5, 6]);
    assert_eq!(blocks[1].block_index, 1);
}

#[test]
fn test_split_remainder() {
    let data: Vec<u8> = vec![1, 2, 3, 4, 5];
    let blocks = split_into_blocks(&data, 3);
    assert_eq!(blocks.len(), 2);
    assert_eq!(blocks[1].data, vec![4, 5]);
}

#[test]
fn test_split_single_block() {
    let data: Vec<u8> = vec![1, 2, 3];
    let blocks = split_into_blocks(&data, 10);
    assert_eq!(blocks.len(), 1);
    assert_eq!(blocks[0].data, vec![1, 2, 3]);
}

#[test]
fn test_split_empty() {
    let data: Vec<u8> = vec![];
    let blocks = split_into_blocks(&data, 10);
    assert_eq!(blocks.len(), 0);
}

#[test]
fn test_counting_writer() {
    let mut cw = CountingWriter::new(Vec::new());
    cw.write(b"hello");
    assert_eq!(cw.bytes_written(), 5);
    cw.write(b" world");
    assert_eq!(cw.bytes_written(), 11);
    assert_eq!(cw.into_inner(), b"hello world");
}
