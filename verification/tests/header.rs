use sevenzip_mt::archive::header::{
    unix_to_filetime, ArchiveHeader, FileEntry, FolderInfo, K_END, K_HEADER, K_MAIN_STREAMS_INFO,
};
use sevenzip_mt::archive::writer::write_signature_header;

#[test]
fn test_unix_to_filetime() {
    let ft = unix_to_filetime(0);
    assert_eq!(ft, 116_444_736_000_000_000);
}

#[test]
fn test_serialize_empty_archive() {
    let header = ArchiveHeader { folders: vec![], files: vec![], pack_position: 0 };
    let data = header.serialize().unwrap();
    assert_eq!(data, vec![K_HEADER, K_END]);
}

#[test]
fn test_serialize_header_with_one_file() {
    let header = ArchiveHeader {
        folders: vec![
            FolderInfo {
                compressed_size: 100,
                uncompressed_size: 200,
                uncompressed_crc: 0x12345678,
                lzma2_properties_byte: 23,
            },
        ],
        files: vec![
            FileEntry {
                name: "test.txt".to_string(),
                uncompressed_size: 200,
                compressed_size: 100,
                crc: 0x12345678,
                has_data: true,
                modified_time: None,
            },
        ],
        pack_position: 0,
    };
    let data = header.serialize().unwrap();
    assert_eq!(data[0], K_HEADER);
    assert_eq!(data[1], K_MAIN_STREAMS_INFO);
    assert_eq!(*data.last().unwrap(), K_END);
}

#[test]
fn test_signature_header_size() {
    let mut buf: Vec<u8> = Vec::new();
    write_signature_header(&mut buf, 0, 0, 0);
    assert_eq!(buf.len(), 32);
}

#[test]
fn test_signature_header_starts_with_signature() {
    let mut buf: Vec<u8> = Vec::new();
    write_signature_header(&mut buf, 100, 50, 0xDEADBEEF);
    assert_eq!(&buf[0..6], &[b'7', b'z', 0xBC, 0xAF, 0x27, 0x1C]);
    assert_eq!(buf[6], 0);
    assert_eq!(buf[7], 4);
}

#[test]
fn test_signature_header_crc_covers_20_bytes() {
    let mut buf: Vec<u8> = Vec::new();
    write_signature_header(&mut buf, 100, 50, 0xAABBCCDD);

    let start_header_crc = u32::from_le_bytes([buf[8], buf[9], buf[10], buf[11]]);
    let computed_crc = crc32fast::hash(&buf[12..32]);
    assert_eq!(start_header_crc, computed_crc);
}
