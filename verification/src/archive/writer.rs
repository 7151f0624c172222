use vstd::prelude::*;

use crate::checksum::{crc32, crc32_of};
use crate::io::writer::{u32_le_bytes, u64_le_bytes, write_u32_le, write_u64_le};

verus! {

/// Size of the signature header in bytes.
pub const SIGNATURE_HEADER_SIZE: u64 = 32;

/// The twenty bytes that the start-header CRC covers: next-header offset,
/// size and CRC, each little-endian.
pub open spec fn start_header_bytes(
    next_header_offset: u64,
    next_header_size: u64,
    next_header_crc: u32,
) -> Seq<u8> {
    u64_le_bytes(next_header_offset) + u64_le_bytes(next_header_size) + u32_le_bytes(
        next_header_crc,
    )
}

/// The full 32-byte signature header: the six signature bytes, the version
/// (major 0, minor 4), the CRC of the following twenty bytes, then those
/// bytes themselves.
pub open spec fn signature_header_bytes(
    next_header_offset: u64,
    next_header_size: u64,
    next_header_crc: u32,
) -> Seq<u8> {
    let start = start_header_bytes(next_header_offset, next_header_size, next_header_crc);
    seq![0x37u8, 0x7Au8, 0xBCu8, 0xAFu8, 0x27u8, 0x1Cu8, 0x00u8, 0x04u8] + u32_le_bytes(
        crc32_of(start),
    ) + start
}

/// The signature header's CRC field at offset 8 is the CRC-32 of its bytes
/// 12 to 32, for every combination of header fields.
pub proof fn lemma_signature_header_crc(
    next_header_offset: u64,
    next_header_size: u64,
    next_header_crc: u32,
)
    ensures
        ({
            let sig = signature_header_bytes(next_header_offset, next_header_size, next_header_crc);
            sig.len() == 32 && sig.subrange(8, 12) == u32_le_bytes(
                crc32_of(sig.subrange(12, 32)),
            )
        }),
{
    let start = start_header_bytes(next_header_offset, next_header_size, next_header_crc);
    let sig = signature_header_bytes(next_header_offset, next_header_size, next_header_crc);
    assert(start.len() == 20);
    assert(sig.subrange(12, 32) =~= start);
    assert(sig.subrange(8, 12) =~= u32_le_bytes(crc32_of(start)));
}

/// Appends the 32-byte signature header. Its CRC field covers exactly the
/// twenty bytes that follow it.
pub fn write_signature_header(
    w: &mut Vec<u8>,
    next_header_offset: u64,
    next_header_size: u64,
    next_header_crc: u32,
)
    ensures
        final(w)@ == old(w)@ + signature_header_bytes(
            next_header_offset,
            next_header_size,
            next_header_crc,
        ),
        final(w)@.len() == old(w)@.len() + 32,
{
    let ghost entry_len = w@.len();
    let mut start_header_data: Vec<u8> = Vec::new();
    write_u64_le(&mut start_header_data, next_header_offset);
    write_u64_le(&mut start_header_data, next_header_size);
    write_u32_le(&mut start_header_data, next_header_crc);
    proof {
        assert(start_header_data@ =~= start_header_bytes(
            next_header_offset,
            next_header_size,
            next_header_crc,
        ));
    }
    let start_header_crc = crc32(start_header_data.as_slice());
    w.push(0x37);
    w.push(0x7A);
    w.push(0xBC);
    w.push(0xAF);
    w.push(0x27);
    w.push(0x1C);
    w.push(0x00);
    w.push(0x04);
    write_u32_le(w, start_header_crc);
    crate::compression::block::push_bytes(w, start_header_data.as_slice());
    proof {
        assert(w@ =~= old(w)@ + signature_header_bytes(
            next_header_offset,
            next_header_size,
            next_header_crc,
        ));
        assert(w@.len() == entry_len + 32);
    }
}

} // verus!
