use vstd::prelude::*;

verus! {

// ---------------------------------------------------------------------------
// Little-endian byte strings
// ---------------------------------------------------------------------------

/// The first `n` bytes of `v` in little-endian order.
pub open spec fn le_bytes(v: u64, n: int) -> Seq<u8> {
    Seq::new(n as nat, |i: int| (v >> ((8 * i) as u64)) as u8)
}

pub open spec fn u16_le_bytes(v: u16) -> Seq<u8> {
    le_bytes(v as u64, 2)
}

pub open spec fn u32_le_bytes(v: u32) -> Seq<u8> {
    le_bytes(v as u64, 4)
}

pub open spec fn u64_le_bytes(v: u64) -> Seq<u8> {
    le_bytes(v, 8)
}

/// Appends the two little-endian bytes of `value`.
pub fn write_u16_le(w: &mut Vec<u8>, value: u16)
    ensures
        final(w)@ == old(w)@ + u16_le_bytes(value),
{
    let v: u64 = value as u64;
    for i in 0..2u64
        invariant
            w@ =~= old(w)@ + le_bytes(v, i as int),
    {
        w.push((v >> (8 * i)) as u8);
        assert(w@ =~= old(w)@ + le_bytes(v, i + 1));
    }
    assert(w@ =~= old(w)@ + u16_le_bytes(value));
}

/// Appends the four little-endian bytes of `value`.
pub fn write_u32_le(w: &mut Vec<u8>, value: u32)
    ensures
        final(w)@ == old(w)@ + u32_le_bytes(value),
{
    let v: u64 = value as u64;
    for i in 0..4u64
        invariant
            w@ =~= old(w)@ + le_bytes(v, i as int),
    {
        w.push((v >> (8 * i)) as u8);
        assert(w@ =~= old(w)@ + le_bytes(v, i + 1));
    }
    assert(w@ =~= old(w)@ + u32_le_bytes(value));
}

/// Appends the eight little-endian bytes of `value`.
pub fn write_u64_le(w: &mut Vec<u8>, value: u64)
    ensures
        final(w)@ == old(w)@ + u64_le_bytes(value),
{
    for i in 0..8u64
        invariant
            w@ =~= old(w)@ + le_bytes(value, i as int),
    {
        w.push((value >> (8 * i)) as u8);
        assert(w@ =~= old(w)@ + le_bytes(value, i + 1));
    }
    assert(w@ =~= old(w)@ + u64_le_bytes(value));
}

// ---------------------------------------------------------------------------
// 7z variable-length NUMBER encoding
//
// The first byte's leading 1-bits give the count of tail bytes; the remaining
// low bits of the first byte are the most significant bits of the value; the
// tail bytes carry the low bits in little-endian order.
// ---------------------------------------------------------------------------

/// How many tail bytes the encoding of `v` uses: the smallest `k` such that
/// `v` fits in `7 - k` first-byte bits plus `8 * k` tail bits.
pub open spec fn number_tail_count(v: u64) -> int {
    if v < 0x80 {
        0
    } else if v < 0x4000 {
        1
    } else if v < 0x20_0000 {
        2
    } else if v < 0x1000_0000 {
        3
    } else if v < 0x8_0000_0000 {
        4
    } else if v < 0x400_0000_0000 {
        5
    } else if v < 0x2_0000_0000_0000 {
        6
    } else if v < 0x100_0000_0000_0000 {
        7
    } else {
        8
    }
}

/// The `k` leading 1-bits of the first byte, followed by a 0 bit.
pub open spec fn number_first_mask(k: int) -> u8 {
    if k == 1 {
        0x80
    } else if k == 2 {
        0xC0
    } else if k == 3 {
        0xE0
    } else if k == 4 {
        0xF0
    } else if k == 5 {
        0xF8
    } else if k == 6 {
        0xFC
    } else {
        0xFE
    }
}

/// The NUMBER encoding of `v`: one byte for small values, otherwise a first
/// byte holding the tail count and the high bits, then the low bytes in
/// little-endian order; values at or above 2^56 use 0xFF plus all eight bytes.
pub open spec fn number_bytes(v: u64) -> Seq<u8> {
    let k = number_tail_count(v);
    if k == 0 {
        seq![v as u8]
    } else if k == 8 {
        seq![0xFFu8] + le_bytes(v, 8)
    } else {
        seq![number_first_mask(k) | (v >> ((8 * k) as u64)) as u8] + le_bytes(v, k)
    }
}

/// Appends the 7z variable-length NUMBER encoding of `value`.
#[verifier::loop_isolation(false)]
pub fn write_number(w: &mut Vec<u8>, value: u64)
    ensures
        final(w)@ == old(w)@ + number_bytes(value),
{
    if value < 0x80 {
        w.push(value as u8);
        assert(w@ =~= old(w)@ + number_bytes(value));
        return ;
    }
    let k: u64 = if value < 0x4000 {
        1
    } else if value < 0x20_0000 {
        2
    } else if value < 0x1000_0000 {
        3
    } else if value < 0x8_0000_0000 {
        4
    } else if value < 0x400_0000_0000 {
        5
    } else if value < 0x2_0000_0000_0000 {
        6
    } else if value < 0x100_0000_0000_0000 {
        7
    } else {
        8
    };
    if k == 8 {
        w.push(0xFF);
    } else {
        let mask: u8 = if k == 1 {
            0x80
        } else if k == 2 {
            0xC0
        } else if k == 3 {
            0xE0
        } else if k == 4 {
            0xF0
        } else if k == 5 {
            0xF8
        } else if k == 6 {
            0xFC
        } else {
            0xFE
        };
        assert(mask == number_first_mask(k as int));
        w.push(mask | (value >> (8 * k)) as u8);
    }
    let ghost first = w@.last();
    let tail_len: u64 = if k == 8 {
        8
    } else {
        k
    };
    for i in 0..tail_len
        invariant
            w@ =~= old(w)@ + seq![first] + le_bytes(value, i as int),
    {
        w.push((value >> (8 * i)) as u8);
        assert(w@ =~= old(w)@ + seq![first] + le_bytes(value, i + 1));
    }
    assert(w@ =~= old(w)@ + number_bytes(value));
}

// ---------------------------------------------------------------------------
// Reading a NUMBER back: the encoding round-trips for every value.
// ---------------------------------------------------------------------------

/// The count of tail bytes that a first byte announces through its leading
/// 1-bits.
pub open spec fn number_tail_count_of_first(f: u8) -> int {
    if f < 0x80 {
        0
    } else if f < 0xC0 {
        1
    } else if f < 0xE0 {
        2
    } else if f < 0xF0 {
        3
    } else if f < 0xF8 {
        4
    } else if f < 0xFC {
        5
    } else if f < 0xFE {
        6
    } else if f == 0xFE {
        7
    } else {
        8
    }
}

/// The first-byte bits that carry value bits when `k` tail bytes follow.
pub open spec fn number_first_value_mask(k: int) -> u8 {
    if k == 1 {
        0x3F
    } else if k == 2 {
        0x1F
    } else if k == 3 {
        0x0F
    } else if k == 4 {
        0x07
    } else if k == 5 {
        0x03
    } else if k == 6 {
        0x01
    } else {
        0x00
    }
}

pub open spec fn pow256(k: int) -> int {
    if k <= 0 {
        1
    } else if k == 1 {
        0x100
    } else if k == 2 {
        0x1_0000
    } else if k == 3 {
        0x100_0000
    } else if k == 4 {
        0x1_0000_0000
    } else if k == 5 {
        0x100_0000_0000
    } else if k == 6 {
        0x1_0000_0000_0000
    } else if k == 7 {
        0x100_0000_0000_0000
    } else {
        0x1_0000_0000_0000_0000
    }
}

/// The value of a little-endian byte string.
pub open spec fn le_value(bytes: Seq<u8>) -> int
    decreases bytes.len(),
{
    if bytes.len() == 0 {
        0
    } else {
        le_value(bytes.drop_last()) + (bytes.last() as int) * pow256(bytes.len() - 1)
    }
}

/// The value a NUMBER encoding denotes: the tail bytes little-endian, plus
/// the first byte's value bits as the most significant part.
pub open spec fn number_value(b: Seq<u8>) -> int {
    if b.len() == 0 {
        0
    } else {
        let f = b[0];
        let k = number_tail_count_of_first(f);
        if k == 0 {
            f as int
        } else if k == 8 {
            le_value(b.skip(1))
        } else {
            le_value(b.skip(1)) + ((f & number_first_value_mask(k)) as int) * pow256(k)
        }
    }
}

/// The little-endian bytes of `v` reassemble to `v` modulo the range they
/// cover.
proof fn lemma_le_value_of_le_bytes(v: u64, k: int)
    requires
        0 <= k <= 8,
    ensures
        le_value(le_bytes(v, k)) == v as int % pow256(k),
    decreases k,
{
    if k == 0 {
        assert(le_bytes(v, 0).len() == 0);
    } else {
        lemma_le_value_of_le_bytes(v, k - 1);
        assert(le_bytes(v, k).drop_last() =~= le_bytes(v, k - 1));
        assert(le_bytes(v, k).last() == (v >> ((8 * (k - 1)) as u64)) as u8);
        if k == 1 {
            assert(v as int % 1 + (((v >> 0u64) as u8) as int) * 1 == v as int % 0x100) by (
            bit_vector);
        } else if k == 2 {
            assert(v as int % 0x100 + (((v >> 8u64) as u8) as int) * 0x100 == v as int
                % 0x1_0000) by (bit_vector);
        } else if k == 3 {
            assert(v as int % 0x1_0000 + (((v >> 16u64) as u8) as int) * 0x1_0000 == v as int
                % 0x100_0000) by (bit_vector);
        } else if k == 4 {
            assert(v as int % 0x100_0000 + (((v >> 24u64) as u8) as int) * 0x100_0000 == v as int
                % 0x1_0000_0000) by (bit_vector);
        } else if k == 5 {
            assert(v as int % 0x1_0000_0000 + (((v >> 32u64) as u8) as int) * 0x1_0000_0000
                == v as int % 0x100_0000_0000) by (bit_vector);
        } else if k == 6 {
            assert(v as int % 0x100_0000_0000 + (((v >> 40u64) as u8) as int) * 0x100_0000_0000
                == v as int % 0x1_0000_0000_0000) by (bit_vector);
        } else if k == 7 {
            assert(v as int % 0x1_0000_0000_0000 + (((v >> 48u64) as u8) as int)
                * 0x1_0000_0000_0000 == v as int % 0x100_0000_0000_0000) by (bit_vector);
        } else {
            assert(v as int % 0x100_0000_0000_0000 + (((v >> 56u64) as u8) as int)
                * 0x100_0000_0000_0000 == v as int) by (bit_vector);
            assert(v as int % 0x1_0000_0000_0000_0000 == v as int);
        }
    }
}

/// The NUMBER encoding round-trips: decoding the encoding of any value
/// gives the value back.
pub proof fn lemma_number_roundtrip(v: u64)
    ensures
        number_value(number_bytes(v)) == v as int,
{
    let k = number_tail_count(v);
    let b = number_bytes(v);
    if k == 0 {
        assert(v < 0x80 ==> ((v as u8) as int == v as int && (v as u8) < 0x80)) by (bit_vector);
    } else if k == 8 {
        assert(b[0] == 0xFF);
        assert(b.skip(1) =~= le_bytes(v, 8));
        lemma_le_value_of_le_bytes(v, 8);
    } else {
        let f = number_first_mask(k) | (v >> ((8 * k) as u64)) as u8;
        assert(b[0] == f);
        assert(b.skip(1) =~= le_bytes(v, k));
        lemma_le_value_of_le_bytes(v, k);
        if k == 1 {
            assert((0x80u8 | ((v >> 8u64) as u8)) >= 0x80 && (0x80u8 | ((v >> 8u64) as u8)) < 0xC0
                && (((0x80u8 | ((v >> 8u64) as u8)) & 0x3F) as int) * 0x100 + v as int % 0x100
                == v as int) by (bit_vector)
                requires
                    0x80 <= v < 0x4000,
            ;
        } else if k == 2 {
            assert((0xC0u8 | ((v >> 16u64) as u8)) >= 0xC0 && (0xC0u8 | ((v >> 16u64) as u8))
                < 0xE0 && (((0xC0u8 | ((v >> 16u64) as u8)) & 0x1F) as int) * 0x1_0000 + v as int
                % 0x1_0000 == v as int) by (bit_vector)
                requires
                    0x4000 <= v < 0x20_0000,
            ;
        } else if k == 3 {
            assert((0xE0u8 | ((v >> 24u64) as u8)) >= 0xE0 && (0xE0u8 | ((v >> 24u64) as u8))
                < 0xF0 && (((0xE0u8 | ((v >> 24u64) as u8)) & 0x0F) as int) * 0x100_0000 + v as int
                % 0x100_0000 == v as int) by (bit_vector)
                requires
                    0x20_0000 <= v < 0x1000_0000,
            ;
        } else if k == 4 {
            assert((0xF0u8 | ((v >> 32u64) as u8)) >= 0xF0 && (0xF0u8 | ((v >> 32u64) as u8))
                < 0xF8 && (((0xF0u8 | ((v >> 32u64) as u8)) & 0x07) as int) * 0x1_0000_0000
                + v as int % 0x1_0000_0000 == v as int) by (bit_vector)
                requires
                    0x1000_0000 <= v < 0x8_0000_0000,
            ;
        } else if k == 5 {
            assert((0xF8u8 | ((v >> 40u64) as u8)) >= 0xF8 && (0xF8u8 | ((v >> 40u64) as u8))
                < 0xFC && (((0xF8u8 | ((v >> 40u64) as u8)) & 0x03) as int) * 0x100_0000_0000
                + v as int % 0x100_0000_0000 == v as int) by (bit_vector)
                requires
                    0x8_0000_0000 <= v < 0x400_0000_0000,
            ;
        } else if k == 6 {
            assert((0xFCu8 | ((v >> 48u64) as u8)) >= 0xFC && (0xFCu8 | ((v >> 48u64) as u8))
                < 0xFE && (((0xFCu8 | ((v >> 48u64) as u8)) & 0x01) as int) * 0x1_0000_0000_0000
                + v as int % 0x1_0000_0000_0000 == v as int) by (bit_vector)
                requires
                    0x400_0000_0000 <= v < 0x2_0000_0000_0000,
            ;
        } else {
            assert((0xFEu8 | ((v >> 56u64) as u8)) == 0xFE && (((0xFEu8 | ((v >> 56u64) as u8))
                & 0x00) as int) * 0x100_0000_0000_0000 + v as int % 0x100_0000_0000_0000
                == v as int) by (bit_vector)
                requires
                    0x2_0000_0000_0000 <= v < 0x100_0000_0000_0000,
            ;
        }
    }
}

// ---------------------------------------------------------------------------
// Bit vectors: booleans packed MSB-first, the final partial byte zero-padded
// in its low bits.
// ---------------------------------------------------------------------------

/// Whether bit `i` of the vector is set; bits past the end count as unset.
pub open spec fn bit_at(bits: Seq<bool>, i: int) -> bool {
    0 <= i < bits.len() && bits[i]
}

/// The MSB-first weight of bit position `j` within a byte.
pub open spec fn bit_weight(j: int) -> u8 {
    if j == 0 {
        0x80
    } else if j == 1 {
        0x40
    } else if j == 2 {
        0x20
    } else if j == 3 {
        0x10
    } else if j == 4 {
        0x08
    } else if j == 5 {
        0x04
    } else if j == 6 {
        0x02
    } else {
        0x01
    }
}

/// The byte packing the `m` bits starting at `start`, MSB-first.
pub open spec fn packed_bits(bits: Seq<bool>, start: int, m: int) -> int
    decreases m,
{
    if m <= 0 {
        0
    } else {
        packed_bits(bits, start, m - 1) + if bit_at(bits, start + m - 1) {
            bit_weight(m - 1) as int
        } else {
            0
        }
    }
}

/// The largest value `m` packed bits can reach: the sum of the first `m`
/// weights.
pub open spec fn packed_bits_bound(m: int) -> int {
    if m <= 0 {
        0
    } else if m == 1 {
        0x80
    } else if m == 2 {
        0xC0
    } else if m == 3 {
        0xE0
    } else if m == 4 {
        0xF0
    } else if m == 5 {
        0xF8
    } else if m == 6 {
        0xFC
    } else if m == 7 {
        0xFE
    } else {
        0xFF
    }
}

pub proof fn lemma_packed_bits_bound(bits: Seq<bool>, start: int, m: int)
    requires
        0 <= m <= 8,
    ensures
        0 <= packed_bits(bits, start, m) <= packed_bits_bound(m),
    decreases m,
{
    if m > 0 {
        lemma_packed_bits_bound(bits, start, m - 1);
    }
}

/// Bits past the end of the vector contribute nothing to the packed byte.
pub proof fn lemma_packed_bits_pad(bits: Seq<bool>, start: int, m: int)
    requires
        0 <= m <= 8,
        bits.len() <= start + m,
    ensures
        packed_bits(bits, start, 8) == packed_bits(bits, start, m),
    decreases 8 - m,
{
    if m < 8 {
        assert(!bit_at(bits, start + m));
        lemma_packed_bits_pad(bits, start, m + 1);
    }
}

/// The bit vector packed into bytes MSB-first, the last byte zero-padded.
pub open spec fn bool_vector_bytes(bits: Seq<bool>) -> Seq<u8> {
    Seq::new(((bits.len() + 7) / 8) as nat, |i: int| packed_bits(bits, 8 * i, 8) as u8)
}

fn bit_weight_at(j: u8) -> (r: u8)
    requires
        j < 8,
    ensures
        r == bit_weight(j as int),
{
    if j == 0 {
        0x80
    } else if j == 1 {
        0x40
    } else if j == 2 {
        0x20
    } else if j == 3 {
        0x10
    } else if j == 4 {
        0x08
    } else if j == 5 {
        0x04
    } else if j == 6 {
        0x02
    } else {
        0x01
    }
}

/// Appends a bit vector: each bool maps to one bit, packed into bytes
/// MSB-first, padding bits in the last byte left zero.
#[verifier::loop_isolation(false)]
pub fn write_bool_vector(w: &mut Vec<u8>, bools: &[bool])
    ensures
        final(w)@ == old(w)@ + bool_vector_bytes(bools@),
{
    let mut current_byte: u8 = 0;
    let mut bit_index: u8 = 0;
    let mut i: usize = 0;
    while i < bools.len()
        invariant
            i <= bools@.len(),
            bit_index as int == i as int % 8,
            current_byte as int == packed_bits(bools@, 8 * (i as int / 8), bit_index as int),
            w@ =~= old(w)@ + Seq::new(
                (i as int / 8) as nat,
                |j: int| packed_bits(bools@, 8 * j, 8) as u8,
            ),
        decreases bools@.len() - i,
    {
        let b = bools[i];
        proof {
            lemma_packed_bits_bound(bools@, 8 * (i as int / 8), bit_index as int);
        }
        if b {
            current_byte = current_byte + bit_weight_at(bit_index);
        }
        assert(current_byte as int == packed_bits(
            bools@,
            8 * (i as int / 8),
            bit_index as int + 1,
        ));
        bit_index = bit_index + 1;
        i = i + 1;
        if bit_index == 8 {
            assert(i as int % 8 == 0 && i as int / 8 == (i - 1) as int / 8 + 1) by (nonlinear_arith)
                requires
                    i >= 1,
                    (i - 1) as int % 8 == 7,
            ;
            w.push(current_byte);
            current_byte = 0;
            bit_index = 0;
            assert(w@ =~= old(w)@ + Seq::new(
                (i as int / 8) as nat,
                |j: int| packed_bits(bools@, 8 * j, 8) as u8,
            ));
        } else {
            assert(i as int % 8 == bit_index as int && i as int / 8 == (i - 1) as int / 8) by (
            nonlinear_arith)
                requires
                    i >= 1,
                    bit_index < 8,
                    (i - 1) as int % 8 + 1 == bit_index as int,
            ;
        }
    }
    if bit_index > 0 {
        proof {
            lemma_packed_bits_pad(bools@, 8 * (i as int / 8), bit_index as int);
            assert((bools@.len() + 7) / 8 == i as int / 8 + 1) by (nonlinear_arith)
                requires
                    i == bools@.len(),
                    i as int % 8 == bit_index as int,
                    0 < bit_index < 8,
            ;
        }
        w.push(current_byte);
    } else {
        proof {
            assert((bools@.len() + 7) / 8 == i as int / 8) by (nonlinear_arith)
                requires
                    i == bools@.len(),
                    i as int % 8 == 0,
            ;
        }
    }
    assert(w@ =~= old(w)@ + bool_vector_bytes(bools@));
}

// ---------------------------------------------------------------------------
// UTF-16LE strings
// ---------------------------------------------------------------------------

/// The UTF-16 code units of one character: a single unit below 0x10000,
/// otherwise a surrogate pair.
pub open spec fn char_utf16_units(c: char) -> Seq<u16> {
    let v = c as u32;
    if v < 0x10000 {
        seq![v as u16]
    } else {
        seq![
            (0xD800 + (v - 0x10000) / 0x400) as u16,
            (0xDC00 + (v - 0x10000) % 0x400) as u16,
        ]
    }
}

/// The UTF-16 code units of a character sequence.
pub open spec fn utf16_units(s: Seq<char>) -> Seq<u16>
    decreases s.len(),
{
    if s.len() == 0 {
        seq![]
    } else {
        char_utf16_units(s[0]) + utf16_units(s.drop_first())
    }
}

/// The little-endian bytes of a sequence of UTF-16 code units.
pub open spec fn utf16le_bytes(units: Seq<u16>) -> Seq<u8>
    decreases units.len(),
{
    if units.len() == 0 {
        seq![]
    } else {
        u16_le_bytes(units[0]) + utf16le_bytes(units.drop_first())
    }
}

/// A UTF-16LE string with its 0x0000 terminator.
pub open spec fn utf16le_string_bytes(s: Seq<char>) -> Seq<u8> {
    utf16le_bytes(utf16_units(s)) + seq![0u8, 0u8]
}

pub proof fn lemma_utf16le_bytes_concat(a: Seq<u16>, b: Seq<u16>)
    ensures
        utf16le_bytes(a + b) == utf16le_bytes(a) + utf16le_bytes(b),
    decreases a.len(),
{
    if a.len() == 0 {
        assert(a + b =~= b);
        assert(utf16le_bytes(a) =~= Seq::<u8>::empty());
        assert(utf16le_bytes(a) + utf16le_bytes(b) =~= utf16le_bytes(b));
    } else {
        lemma_utf16le_bytes_concat(a.drop_first(), b);
        assert((a + b).drop_first() =~= a.drop_first() + b);
        assert((a + b)[0] == a[0]);
        assert(utf16le_bytes(a + b) =~= utf16le_bytes(a) + utf16le_bytes(b));
    }
}

pub proof fn lemma_utf16_units_push(s: Seq<char>, c: char)
    ensures
        utf16_units(s.push(c)) == utf16_units(s) + char_utf16_units(c),
    decreases s.len(),
{
    if s.len() == 0 {
        assert(s.push(c)[0] == c);
        assert(s.push(c).drop_first() =~= Seq::<char>::empty());
        assert(utf16_units(Seq::<char>::empty()) == Seq::<u16>::empty());
        assert(utf16_units(s.push(c)) =~= char_utf16_units(c));
        assert(utf16_units(s) =~= Seq::<u16>::empty());
        assert(utf16_units(s) + char_utf16_units(c) =~= char_utf16_units(c));
    } else {
        lemma_utf16_units_push(s.drop_first(), c);
        assert(s.push(c).drop_first() =~= s.drop_first().push(c));
        assert(s.push(c)[0] == s[0]);
        assert(utf16_units(s.push(c)) =~= utf16_units(s) + char_utf16_units(c));
    }
}

/// Appends the little-endian UTF-16 code units of one character.
pub fn write_char_utf16le(w: &mut Vec<u8>, c: char)
    ensures
        final(w)@ == old(w)@ + utf16le_bytes(char_utf16_units(c)),
{
    let v = c as u32;
    if v < 0x10000 {
        write_u16_le(w, v as u16);
        proof {
            assert(char_utf16_units(c).drop_first() =~= Seq::<u16>::empty());
            assert(utf16le_bytes(Seq::<u16>::empty()) == Seq::<u8>::empty());
            assert(utf16le_bytes(char_utf16_units(c)) =~= u16_le_bytes(v as u16));
        }
    } else {
        let hi: u16 = (0xD800 + (v - 0x10000) / 0x400) as u16;
        let lo: u16 = (0xDC00 + (v - 0x10000) % 0x400) as u16;
        write_u16_le(w, hi);
        write_u16_le(w, lo);
        proof {
            let units = char_utf16_units(c);
            assert(units[0] == hi && units[1] == lo);
            assert(units.drop_first() =~= seq![lo]);
            assert(utf16le_bytes(Seq::<u16>::empty()) == Seq::<u8>::empty());
            assert(seq![lo].drop_first() =~= Seq::<u16>::empty());
            assert(utf16le_bytes(seq![lo]) =~= u16_le_bytes(lo));
            assert(utf16le_bytes(units) =~= u16_le_bytes(hi) + u16_le_bytes(lo));
            assert(w@ =~= old(w)@ + utf16le_bytes(units));
        }
    }
}

/// Appends a UTF-16LE encoded string with its null terminator.
#[verifier::loop_isolation(false)]
pub fn write_utf16le_string(w: &mut Vec<u8>, s: &str)
    ensures
        final(w)@ == old(w)@ + utf16le_string_bytes(s@),
{
    for c in it: s.chars()
        invariant
            it.seq() == s@,
            w@ =~= old(w)@ + utf16le_bytes(utf16_units(it.seq().take(it.index() as int))),
    {
        write_char_utf16le(w, c);
        proof {
            let prefix = it.seq().take(it.index() as int);
            assert(it.seq().take(it.index() as int + 1) =~= prefix.push(c));
            lemma_utf16_units_push(prefix, c);
            lemma_utf16le_bytes_concat(utf16_units(prefix), char_utf16_units(c));
        }
    }
    proof {
        assert(s@.take(s@.len() as int) =~= s@);
    }
    w.push(0);
    w.push(0);
    assert(w@ =~= old(w)@ + utf16le_string_bytes(s@));
}

} // verus!
