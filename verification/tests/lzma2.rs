use sevenzip_mt::compression::lzma2::{
    compress_block, concatenate_lzma2_streams, decode_dict_size, encode_properties_byte,
};
use sevenzip_mt::Lzma2Config;

fn read_lzma2(compressed: &[u8], dict_size: u32) -> Vec<u8> {
    let mut reader = lzma_rust2::Lzma2Reader::new(compressed, dict_size, None);
    let mut out: Vec<u8> = Vec::new();
    std::io::Read::read_to_end(&mut reader, &mut out).expect("LZMA2 decode failed");
    out
}

#[test]
fn test_encode_properties_byte_small() {
    assert_eq!(encode_properties_byte(4096), 0);
    assert_eq!(encode_properties_byte(1024), 0);
}

#[test]
fn test_encode_properties_byte_known() {
    assert_eq!(decode_dict_size(2), 8192);
    assert_eq!(encode_properties_byte(8192), 2);

    assert_eq!(decode_dict_size(24), 16_777_216);

    assert_eq!(decode_dict_size(22), 8_388_608);
    assert_eq!(encode_properties_byte(8_388_608), 22);
}

#[test]
fn test_decode_dict_size_roundtrip() {
    for prop in 0..=40u8 {
        let size = decode_dict_size(prop);
        let encoded = encode_properties_byte(size);
        assert_eq!(encoded, prop, "roundtrip failed for prop={prop}, size={size}");
    }
}

#[test]
fn test_properties_byte_clamps_at_forty() {
    assert_eq!(decode_dict_size(40), u32::MAX);
    assert_eq!(decode_dict_size(41), u32::MAX);
    assert_eq!(encode_properties_byte(u32::MAX), 40);
    assert_eq!(encode_properties_byte(0xC000_0001), 40);
}

#[test]
fn test_encode_properties_byte_monotonic() {
    let mut previous: u8 = 0;
    let sizes: [u32; 8] = [1, 4096, 4097, 8192, 65536, 1 << 20, 1 << 26, u32::MAX];
    for &d in sizes.iter() {
        let p = encode_properties_byte(d);
        assert!(p >= previous, "properties byte decreased at {d}");
        assert!(decode_dict_size(p) >= d, "decoded size falls short at {d}");
        previous = p;
    }
}

#[test]
fn test_compress_block_basic() {
    let data = b"Hello, World! This is a test of LZMA2 compression.";
    let config = Lzma2Config::default();
    let compressed = compress_block(data, &config).unwrap();
    assert!(!compressed.is_empty());
}

#[test]
fn test_compress_block_empty() {
    let data = b"";
    let config = Lzma2Config::default();
    let compressed = compress_block(data, &config).unwrap();
    assert!(!compressed.is_empty());
}

#[test]
fn test_compress_block_ends_with_marker() {
    let config = Lzma2Config::default();
    let compressed = compress_block(b"some bytes to squeeze", &config).unwrap();
    assert_eq!(*compressed.last().unwrap(), 0x00);
}

#[test]
fn test_compress_block_roundtrip() {
    let data = b"Round and round the stream goes.";
    let config = Lzma2Config::default();
    let compressed = compress_block(data, &config).unwrap();
    let decoded = read_lzma2(&compressed, config.effective_dict_size());
    assert_eq!(decoded, data);
}

#[test]
fn test_concatenate_single_stream() {
    let config = Lzma2Config::default();
    let stream = compress_block(b"hello", &config).unwrap();
    let original = stream.clone();
    let result = concatenate_lzma2_streams(vec![stream]).unwrap();
    assert_eq!(result, original);
}

#[test]
fn test_concatenate_multiple_streams() {
    let config = Lzma2Config::default();
    let s1 = compress_block(b"hello ", &config).unwrap();
    let s2 = compress_block(b"world", &config).unwrap();

    assert_eq!(*s1.last().unwrap(), 0x00);
    assert_eq!(*s2.last().unwrap(), 0x00);

    let concatenated = concatenate_lzma2_streams(vec![s1.clone(), s2.clone()]).unwrap();

    let expected_len = s1.len() - 1 + s2.len();
    assert_eq!(concatenated.len(), expected_len);
    assert_eq!(*concatenated.last().unwrap(), 0x00);
}

#[test]
fn test_concatenated_streams_decompress() {
    let config = Lzma2Config::default();
    let s1 = compress_block(b"hello ", &config).unwrap();
    let s2 = compress_block(b"world", &config).unwrap();
    let concatenated = concatenate_lzma2_streams(vec![s1, s2]).unwrap();
    let decoded = read_lzma2(&concatenated, config.effective_dict_size());
    assert_eq!(decoded, b"hello world");
}

#[test]
fn test_concatenate_empty_input() {
    let result = concatenate_lzma2_streams(vec![]).unwrap();
    assert_eq!(result, vec![0x00]);
}

#[test]
fn test_concatenate_invalid_stream() {
    let result = concatenate_lzma2_streams(vec![vec![0xFF]]);
    assert!(result.is_err());
}

#[test]
fn test_effective_dict_size_presets() {
    // The per-preset dictionary sizes of the encoder, and the explicit
    // override taking precedence.
    let expected: [u32; 10] = [
        1 << 18,
        1 << 20,
        1 << 21,
        1 << 22,
        1 << 22,
        1 << 23,
        1 << 23,
        1 << 24,
        1 << 25,
        1 << 26,
    ];
    for (preset, &dict) in expected.iter().enumerate() {
        let config = Lzma2Config { preset: preset as u32, dict_size: None, block_size: None };
        assert_eq!(config.effective_dict_size(), dict, "wrong dictionary for preset {preset}");
    }
    let config = Lzma2Config { preset: 3, dict_size: Some(12345), block_size: None };
    assert_eq!(config.effective_dict_size(), 12345);
}

#[test]
fn test_effective_block_size_default() {
    let config = Lzma2Config::default();
    let dict = config.effective_dict_size() as usize;
    assert_eq!(config.effective_block_size(), 2 * dict);
}

#[test]
fn test_effective_block_size_custom() {
    let config = Lzma2Config { preset: 6, dict_size: None, block_size: Some(4096) };
    assert_eq!(config.effective_block_size(), 4096);
}

#[test]
fn test_effective_block_size_minimum() {
    let config = Lzma2Config { preset: 0, dict_size: Some(4096), block_size: None };
    assert!(config.effective_block_size() >= 1 << 20);
}
