use sevenzip_mt::io::writer::{
    write_bool_vector, write_number, write_u32_le, write_u64_le, write_utf16le_string,
};

fn encode_number(value: u64) -> Vec<u8> {
    let mut buf: Vec<u8> = Vec::new();
    write_number(&mut buf, value);
    buf
}

/// Reads back a 7z variable-length NUMBER, mirroring its documented layout.
fn decode_number(bytes: &[u8]) -> u64 {
    let first: u8 = bytes[0];
    let mut k: usize = 0;
    while k < 8 && (first & (0x80 >> k)) != 0 {
        k += 1;
    }
    let mut value: u64 = 0;
    let mut i: usize = k;
    while i > 0 {
        value = (value << 8) | bytes[i] as u64;
        i -= 1;
    }
    if k < 8 {
        let mask: u8 = 0xFF >> (k + 1);
        value |= ((first & mask) as u64) << (8 * k);
    }
    value
}

#[test]
fn test_number_single_byte() {
    assert_eq!(encode_number(0), vec![0x00]);
    assert_eq!(encode_number(1), vec![0x01]);
    assert_eq!(encode_number(0x7F), vec![0x7F]);
}

#[test]
fn test_number_two_bytes() {
    assert_eq!(encode_number(128), vec![0x80, 0x80]);
    assert_eq!(encode_number(0x3FFF), vec![0xBF, 0xFF]);
}

#[test]
fn test_number_three_bytes() {
    assert_eq!(encode_number(0x4000), vec![0xC0, 0x00, 0x40]);
}

#[test]
fn test_number_nine_bytes() {
    let val: u64 = u64::MAX;
    let result = encode_number(val);
    assert_eq!(result.len(), 9);
    assert_eq!(result[0], 0xFF);
}

#[test]
fn test_number_roundtrip_values() {
    let values: [u64; 7] = [0, 0x7F, 0x80, 0x3FFF, 0x4000, u32::MAX as u64, u64::MAX];
    for &v in values.iter() {
        let encoded = encode_number(v);
        assert_eq!(decode_number(&encoded), v, "roundtrip failed for {v}");
    }
    // Pseudo-random samples from a fixed linear congruential generator.
    let mut x: u64 = 0x243F_6A88_85A3_08D3;
    for _ in 0..200 {
        x = x.wrapping_mul(6364136223846793005).wrapping_add(1442695040888963407);
        let encoded = encode_number(x);
        assert_eq!(decode_number(&encoded), x, "roundtrip failed for {x}");
    }
}

#[test]
fn test_u32_u64_le() {
    let mut buf: Vec<u8> = Vec::new();
    write_u32_le(&mut buf, 0x0403_0201);
    assert_eq!(buf, vec![0x01, 0x02, 0x03, 0x04]);
    let mut buf: Vec<u8> = Vec::new();
    write_u64_le(&mut buf, 0x0807_0605_0403_0201);
    assert_eq!(buf, vec![0x01, 0x02, 0x03, 0x04, 0x05, 0x06, 0x07, 0x08]);
}

#[test]
fn test_utf16le_string() {
    let mut buf: Vec<u8> = Vec::new();
    write_utf16le_string(&mut buf, "a");
    assert_eq!(buf, vec![0x61, 0x00, 0x00, 0x00]);
}

#[test]
fn test_utf16le_string_surrogate_pair() {
    let mut buf: Vec<u8> = Vec::new();
    // U+1F600 encodes as the surrogate pair D83D DE00.
    write_utf16le_string(&mut buf, "\u{1F600}");
    assert_eq!(buf, vec![0x3D, 0xD8, 0x00, 0xDE, 0x00, 0x00]);
}

#[test]
fn test_bool_vector() {
    let mut buf: Vec<u8> = Vec::new();
    write_bool_vector(&mut buf, &[true, false, true, false, false, false, false, false]);
    assert_eq!(buf, vec![0b10100000]);

    let mut buf: Vec<u8> = Vec::new();
    write_bool_vector(&mut buf, &[true, true]);
    assert_eq!(buf, vec![0b11000000]);
}

#[test]
fn test_bool_vector_multibyte() {
    let mut buf: Vec<u8> = Vec::new();
    let bits: Vec<bool> = (0..9).map(|i| i % 2 == 0).collect();
    write_bool_vector(&mut buf, &bits);
    assert_eq!(buf, vec![0b10101010, 0b10000000]);
}
