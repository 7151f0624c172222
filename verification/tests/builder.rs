use sevenzip_mt::Lzma2Config;
use sevenzip_mt::SevenZipWriter;

/// The next-header offset stored in the signature header, which equals the
/// length of the packed data.
fn packed_len(archive: &[u8]) -> usize {
    let mut bytes: [u8; 8] = [0; 8];
    bytes.copy_from_slice(&archive[12..20]);
    u64::from_le_bytes(bytes) as usize
}

fn header_len(archive: &[u8]) -> usize {
    let mut bytes: [u8; 8] = [0; 8];
    bytes.copy_from_slice(&archive[20..28]);
    u64::from_le_bytes(bytes) as usize
}

fn check_signature(archive: &[u8]) {
    assert!(archive.len() >= 32);
    assert_eq!(&archive[0..6], &[b'7', b'z', 0xBC, 0xAF, 0x27, 0x1C]);
    assert_eq!(archive[6], 0);
    assert_eq!(archive[7], 4);
    let stored = u32::from_le_bytes([archive[8], archive[9], archive[10], archive[11]]);
    assert_eq!(stored, crc32fast::hash(&archive[12..32]));
    let header_crc = u32::from_le_bytes([archive[28], archive[29], archive[30], archive[31]]);
    let start: usize = 32 + packed_len(archive);
    let end: usize = start + header_len(archive);
    assert_eq!(archive.len(), end);
    assert_eq!(header_crc, crc32fast::hash(&archive[start..end]));
}

fn read_lzma2(compressed: &[u8], dict_size: u32) -> Vec<u8> {
    let mut reader = lzma_rust2::Lzma2Reader::new(compressed, dict_size, None);
    let mut out: Vec<u8> = Vec::new();
    std::io::Read::read_to_end(&mut reader, &mut out).expect("LZMA2 decode failed");
    out
}

fn contains_subslice(haystack: &[u8], needle: &[u8]) -> bool {
    haystack.windows(needle.len()).any(|w| w == needle)
}

#[test]
fn test_finish_without_entries() {
    let writer = SevenZipWriter::new();
    let archive = writer.finish().unwrap();
    check_signature(&archive);
    // No packed data; the metadata header is just the open and close tags.
    assert_eq!(packed_len(&archive), 0);
    assert_eq!(&archive[32..], &[0x01, 0x00]);
}

#[test]
fn test_finish_with_only_empty_entries() {
    // No data to compress, so assembly cannot fail; the archive carries
    // only the file table.
    let mut writer = SevenZipWriter::new();
    writer.add_bytes("empty_a.txt", b"").unwrap();
    writer.add_bytes("empty_b.txt", b"").unwrap();
    let archive = writer.finish().unwrap();
    check_signature(&archive);
    assert_eq!(packed_len(&archive), 0);
}

#[test]
fn test_single_entry_archive() {
    let content: Vec<u8> =
        b"Hello, 7-Zip! This is a test file with some content for compression.".to_vec();
    assert_eq!(content.len(), 68);

    let mut writer = SevenZipWriter::new();
    writer.add_bytes("hello.txt", &content).unwrap();
    let config = writer.config;
    let archive = writer.finish().unwrap();

    check_signature(&archive);
    let packed = &archive[32..32 + packed_len(&archive)];
    let decoded = read_lzma2(packed, config.effective_dict_size());
    assert_eq!(decoded, content);
}

#[test]
fn test_multi_file_archive() {
    let mut writer = SevenZipWriter::new();
    writer.add_bytes("file1.txt", b"First file content").unwrap();
    writer.add_bytes("file2.bin", &vec![0u8; 1024]).unwrap();
    writer
        .add_bytes("subdir/file3.txt", "Third file with unicode: \u{00e9}\u{00e8}\u{00ea}".as_bytes())
        .unwrap();
    let archive = writer.finish().unwrap();

    check_signature(&archive);
    // The metadata header opens with the kHeader tag.
    let start: usize = 32 + packed_len(&archive);
    assert_eq!(archive[start], 0x01);
    // Entry checksums appear in the header as little-endian words.
    let header = &archive[start..];
    assert!(contains_subslice(header, &crc32fast::hash(b"First file content").to_le_bytes()));
    assert!(contains_subslice(header, &crc32fast::hash(&vec![0u8; 1024]).to_le_bytes()));
}

#[test]
fn test_empty_file_in_archive() {
    let mut writer = SevenZipWriter::new();
    writer.add_bytes("nonempty.txt", b"some data").unwrap();
    writer.add_bytes("empty.txt", b"").unwrap();
    let config = writer.config;
    let archive = writer.finish().unwrap();

    check_signature(&archive);
    // The header carries both the empty-stream and the empty-file masks.
    let start: usize = 32 + packed_len(&archive);
    let header = &archive[start..];
    assert!(contains_subslice(header, &[0x0E, 0x01, 0x40, 0x0F, 0x01, 0x80]));
    // The single folder still decompresses to the non-empty entry.
    let packed = &archive[32..start];
    let decoded = read_lzma2(packed, config.effective_dict_size());
    assert_eq!(decoded, b"some data");
}

#[test]
fn test_large_file_compression() {
    let data: Vec<u8> = (0..1_048_576u32).map(|i| (i % 251) as u8).collect();
    let mut writer = SevenZipWriter::new();
    writer.add_bytes("large.bin", &data).unwrap();
    let config = writer.config;
    let archive = writer.finish().unwrap();

    check_signature(&archive);
    assert!(
        archive.len() < 1_048_576,
        "archive ({}) should be smaller than original (1048576)",
        archive.len()
    );
    let packed = &archive[32..32 + packed_len(&archive)];
    let decoded = read_lzma2(packed, config.effective_dict_size());
    assert_eq!(decoded, data);
}

#[test]
fn test_intra_file_block_splitting() {
    let data: Vec<u8> = (0..102_400u32).map(|i| (i % 251) as u8).collect();
    let mut writer = SevenZipWriter::new();
    let config = Lzma2Config { preset: 6, dict_size: None, block_size: Some(16_384) };
    writer.set_config(config);
    writer.add_bytes("split.bin", &data).unwrap();
    let archive = writer.finish().unwrap();

    check_signature(&archive);
    // 102400 bytes at a 16384-byte chunk size force seven blocks, stitched
    // back into one stream that must decompress to the original bytes.
    let packed = &archive[32..32 + packed_len(&archive)];
    let decoded = read_lzma2(packed, config.effective_dict_size());
    assert_eq!(decoded, data);
}

#[test]
fn test_whole_entry_crc_independent_of_chunking() {
    let data: Vec<u8> = (0..50_000u32).map(|i| (i % 157) as u8).collect();
    let expected = crc32fast::hash(&data).to_le_bytes();
    for chunk in [4096usize, 50_000] {
        let mut writer = SevenZipWriter::new();
        writer.set_config(Lzma2Config { preset: 1, dict_size: None, block_size: Some(chunk) });
        writer.add_bytes("data.bin", &data).unwrap();
        let archive = writer.finish().unwrap();
        let start: usize = 32 + packed_len(&archive);
        let header = &archive[start..];
        assert!(contains_subslice(header, &expected), "crc missing for chunk size {chunk}");
    }
}

#[test]
fn test_names_encoded_utf16le_with_forward_slashes() {
    let mut writer = SevenZipWriter::new();
    writer.add_bytes("dir\\file1.txt", b"x").unwrap();
    let archive = writer.finish().unwrap();
    let start: usize = 32 + packed_len(&archive);
    let header = &archive[start..];
    // The name appears UTF-16LE encoded, backslash turned into a slash,
    // with its two-byte terminator.
    let encoded: Vec<u8> = "dir/file1.txt"
        .encode_utf16()
        .flat_map(|u| u.to_le_bytes())
        .chain([0u8, 0u8])
        .collect();
    assert!(contains_subslice(header, &encoded));
    let unreplaced: Vec<u8> = "dir\\file1.txt"
        .encode_utf16()
        .flat_map(|u| u.to_le_bytes())
        .collect();
    assert!(!contains_subslice(header, &unreplaced));
}

#[test]
fn test_mtime_in_header() {
    let mut writer = SevenZipWriter::new();
    let ft: u64 = 116_444_736_000_000_000;
    writer.add_entry("stamped.txt", b"dated content".to_vec(), Some(ft));
    let archive = writer.finish().unwrap();
    check_signature(&archive);
    let start: usize = 32 + packed_len(&archive);
    let header = &archive[start..];
    assert!(contains_subslice(header, &ft.to_le_bytes()));
}
