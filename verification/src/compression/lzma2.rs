use vstd::prelude::*;

use crate::error::SevenZipError;

verus! {

/// LZMA2 end-of-stream marker byte.
pub const LZMA2_END_MARKER: u8 = 0x00;

/// Configuration for LZMA2 compression.
#[derive(Debug, Clone, Copy)]
pub struct Lzma2Config {
    /// Compression preset level (0-9). Higher = better compression, slower.
    pub preset: u32,
    /// Dictionary size in bytes. If `None`, uses the default for the preset.
    pub dict_size: Option<u32>,
    /// Block size for intra-file parallel compression. If `None`, defaults
    /// to twice the dictionary size, with a floor of 1 MiB.
    pub block_size: Option<usize>,
}

impl Default for Lzma2Config {
    fn default() -> (r: Self)
        ensures
            r.preset == 6,
            r.dict_size is None,
            r.block_size is None,
    {
        Self { preset: 6, dict_size: None, block_size: None }
    }
}

/// The dictionary size that lzma-rust2 assigns to each preset, presets past
/// 9 clamping to 9: 256 KiB, 1 MiB, 2 MiB, 4 MiB, 4 MiB, 8 MiB, 8 MiB,
/// 16 MiB, 32 MiB, 64 MiB.
pub open spec fn preset_dict_size_spec(preset: u32) -> u32 {
    if preset == 0 {
        0x4_0000
    } else if preset == 1 {
        0x10_0000
    } else if preset == 2 {
        0x20_0000
    } else if preset == 3 {
        0x40_0000
    } else if preset == 4 {
        0x40_0000
    } else if preset == 5 {
        0x80_0000
    } else if preset == 6 {
        0x80_0000
    } else if preset == 7 {
        0x100_0000
    } else if preset == 8 {
        0x200_0000
    } else {
        0x400_0000
    }
}

/// Relies on lzma_rust2::LzmaOptions::with_preset: it fills the options from
/// a fixed per-preset table whose dictionary sizes are the ones in
/// `preset_dict_size_spec`, clamping presets past 9 down to 9.
#[verifier::external_body]
fn preset_dict_size(preset: u32) -> (r: u32)
    ensures
        r == preset_dict_size_spec(preset),
{
    lzma_rust2::LzmaOptions::with_preset(preset).dict_size
}

/// The dictionary-size overrides the encoder takes without panicking: at
/// least its minimum of 4096 (below it, the match-finder hash tables
/// underflow on `dict_size - 1`), and at most 1 GiB (above it, the binary
/// tree match finders wrap their 32-bit position arithmetic). The
/// per-preset defaults all lie inside this range.
pub open spec fn valid_dict_override(c: Lzma2Config) -> bool {
    match c.dict_size {
        Option::Some(d) => 4096 <= d <= 0x4000_0000,
        Option::None => true,
    }
}

/// The dictionary size `c` selects: the explicit override, or the preset's
/// default.
pub open spec fn effective_dict_size_spec(c: Lzma2Config) -> u32 {
    match c.dict_size {
        Option::Some(d) => d,
        Option::None => preset_dict_size_spec(c.preset),
    }
}

/// The block size `c` selects: the explicit override, or twice the effective
/// dictionary size with a floor of 1 MiB, clamped to what a `usize` holds.
pub open spec fn effective_block_size_spec(c: Lzma2Config) -> int {
    match c.block_size {
        Option::Some(b) => b as int,
        Option::None => {
            let doubled = 2 * effective_dict_size_spec(c) as int;
            let floored = if doubled < 0x10_0000 {
                0x10_0000
            } else {
                doubled
            };
            if floored > usize::MAX {
                usize::MAX as int
            } else {
                floored
            }
        },
    }
}

impl Lzma2Config {
    /// Returns the effective dictionary size for this config.
    pub fn effective_dict_size(&self) -> (r: u32)
        ensures
            r == effective_dict_size_spec(*self),
    {
        match self.dict_size {
            Option::Some(d) => d,
            Option::None => preset_dict_size(self.preset),
        }
    }

    /// Returns the effective block size for intra-file splitting.
    pub fn effective_block_size(&self) -> (r: usize)
        ensures
            r as int == effective_block_size_spec(*self),
    {
        match self.block_size {
            Option::Some(b) => b,
            Option::None => {
                let doubled: u64 = 2 * (self.effective_dict_size() as u64);
                let floored: u64 = if doubled < 0x10_0000 {
                    0x10_0000
                } else {
                    doubled
                };
                if floored > usize::MAX as u64 {
                    usize::MAX
                } else {
                    floored as usize
                }
            },
        }
    }
}

// ---------------------------------------------------------------------------
// Properties byte: the one-byte dictionary-size encoding of the 7z header,
// with a 1-bit mantissa and a 5-bit exponent.
// ---------------------------------------------------------------------------

/// The dictionary size denoted by properties byte `prop`:
/// `(2 | (prop & 1)) << (prop / 2 + 11)`, saturating at the `u32` maximum;
/// bytes past 40 also saturate.
pub open spec fn decoded_dict_size(prop: u8) -> u32 {
    if prop > 40 {
        0xFFFF_FFFFu32
    } else {
        let size = (2u64 | ((prop as u64) & 1)) << ((prop / 2 + 11) as u64);
        if size > 0xFFFF_FFFF {
            0xFFFF_FFFFu32
        } else {
            size as u32
        }
    }
}

/// Decodes a properties byte back into the dictionary size it denotes.
pub fn decode_dict_size(prop: u8) -> (r: u32)
    ensures
        r == decoded_dict_size(prop),
{
    if prop > 40 {
        return 0xFFFF_FFFFu32;
    }
    let mantissa: u64 = 2u64 | ((prop as u64) & 1);
    let exponent: u64 = (prop / 2 + 11) as u64;
    let size: u64 = mantissa << exponent;
    if size > 0xFFFF_FFFF {
        0xFFFF_FFFFu32
    } else {
        size as u32
    }
}

/// The smallest properties byte at or above `p` whose decoded size reaches
/// `dict_size`, clamped to 40.
pub open spec fn props_byte_from(dict_size: u32, p: u8) -> u8
    decreases 40 - p,
{
    if p >= 40 {
        40
    } else if decoded_dict_size(p) >= dict_size {
        p
    } else {
        props_byte_from(dict_size, (p + 1) as u8)
    }
}

/// The properties byte encoding `dict_size`: the smallest byte whose decoded
/// size covers it, clamped to 40; sizes at or below 4096 encode as 0.
pub open spec fn properties_byte_spec(dict_size: u32) -> u8 {
    if dict_size <= 4096 {
        0
    } else {
        props_byte_from(dict_size, 1)
    }
}

/// Encodes a dictionary size into the LZMA2 properties byte used in the 7z
/// header.
#[verifier::loop_isolation(false)]
pub fn encode_properties_byte(dict_size: u32) -> (r: u8)
    ensures
        r == properties_byte_spec(dict_size),
{
    if dict_size <= 4096 {
        return 0;
    }
    let mut prop: u8 = 1;
    while prop < 40
        invariant
            1 <= prop <= 40,
            props_byte_from(dict_size, 1) == props_byte_from(dict_size, prop),
        decreases 40 - prop,
    {
        let decoded = decode_dict_size(prop);
        if decoded >= dict_size {
            return prop;
        }
        prop = prop + 1;
    }
    40
}

/// The dictionary sizes before clamping, as bit-vector facts: they stay
/// below the clamp up to byte 39, grow strictly from one byte to the next,
/// and byte 39 decodes to exactly 3 GiB.
proof fn lemma_decoded_raw_facts()
    by (bit_vector)
    ensures
        forall|p: u8|
            p <= 39 ==> #[trigger] ((2u64 | ((p as u64) & 1)) << ((p / 2 + 11) as u64))
                <= 0xC000_0000u64,
        forall|p: u8|
            p <= 38 ==> #[trigger] ((2u64 | ((p as u64) & 1)) << ((p / 2 + 11) as u64)) < ((2u64
                | ((((p + 1) as u8) as u64) & 1)) << ((((p + 1) as u8) / 2 + 11) as u64)),
        ((2u64 | ((39u8 as u64) & 1)) << ((39u8 / 2 + 11) as u64)) == 0xC000_0000u64,
        ((2u64 | ((40u8 as u64) & 1)) << ((40u8 / 2 + 11) as u64)) == 0x1_0000_0000u64,
        ((2u64 | ((0u8 as u64) & 1)) << ((0u8 / 2 + 11) as u64)) == 4096u64,
{
}

/// Decoded dictionary sizes grow strictly with the properties byte, up
/// to 40.
pub proof fn lemma_decoded_strictly_increasing(p1: u8, p2: u8)
    requires
        p1 < p2 <= 40,
    ensures
        decoded_dict_size(p1) < decoded_dict_size(p2),
    decreases p2 - p1,
{
    lemma_decoded_raw_facts();
    if p2 == p1 + 1 {
        if p2 == 40 {
            assert(decoded_dict_size(p1) <= 0xC000_0000u32);
            assert(decoded_dict_size(40) == 0xFFFF_FFFFu32);
        } else {
            assert(decoded_dict_size(p1) < decoded_dict_size(p2));
        }
    } else {
        lemma_decoded_strictly_increasing(p1, (p2 - 1) as u8);
        lemma_decoded_strictly_increasing((p2 - 1) as u8, p2);
    }
}

/// The search from `p` returns the smallest byte at or past `p` whose
/// decoded size covers `dict_size`; every byte it skips falls short.
proof fn lemma_props_byte_from_correct(dict_size: u32, p: u8)
    requires
        1 <= p <= 40,
    ensures
        p <= props_byte_from(dict_size, p) <= 40,
        decoded_dict_size(props_byte_from(dict_size, p)) >= dict_size,
        forall|q: u8| p <= q < props_byte_from(dict_size, p) ==> decoded_dict_size(q) < dict_size,
    decreases 40 - p,
{
    lemma_decoded_raw_facts();
    assert(decoded_dict_size(40) == 0xFFFF_FFFFu32);
    if p >= 40 || decoded_dict_size(p) >= dict_size {
    } else {
        lemma_props_byte_from_correct(dict_size, (p + 1) as u8);
    }
}

/// The properties byte always decodes to a size at least the one encoded,
/// and never exceeds 40.
pub proof fn lemma_properties_byte_covers(dict_size: u32)
    ensures
        properties_byte_spec(dict_size) <= 40,
        decoded_dict_size(properties_byte_spec(dict_size)) >= dict_size,
{
    lemma_decoded_raw_facts();
    if dict_size <= 4096 {
        assert(decoded_dict_size(0) == 4096u32);
    } else {
        lemma_props_byte_from_correct(dict_size, 1);
    }
}

/// No properties byte below the encoded one covers the dictionary size:
/// the encoding is minimal.
pub proof fn lemma_properties_byte_minimal(dict_size: u32, q: u8)
    requires
        q <= 40,
        decoded_dict_size(q) >= dict_size,
    ensures
        properties_byte_spec(dict_size) <= q,
{
    lemma_decoded_raw_facts();
    if dict_size > 4096 {
        lemma_props_byte_from_correct(dict_size, 1);
        let r = props_byte_from(dict_size, 1);
        if q < r {
            if q == 0 {
                assert(decoded_dict_size(0) == 4096u32);
                assert(false);
            } else {
                assert(decoded_dict_size(q) < dict_size);
                assert(false);
            }
        }
    }
}

/// The properties byte is monotonic, non-decreasing in the dictionary
/// size.
pub proof fn lemma_properties_byte_monotonic(d1: u32, d2: u32)
    requires
        d1 <= d2,
    ensures
        properties_byte_spec(d1) <= properties_byte_spec(d2),
{
    lemma_properties_byte_covers(d2);
    lemma_properties_byte_minimal(d1, properties_byte_spec(d2));
}

/// Encoding the size a byte decodes to gives that byte back, for every
/// byte up to 40.
pub proof fn lemma_properties_byte_roundtrip(p: u8)
    requires
        p <= 40,
    ensures
        properties_byte_spec(decoded_dict_size(p)) == p,
{
    let d = decoded_dict_size(p);
    lemma_properties_byte_minimal(d, p);
    lemma_properties_byte_covers(d);
    if properties_byte_spec(d) < p {
        lemma_decoded_strictly_increasing(properties_byte_spec(d), p);
        assert(false);
    }
}

// ---------------------------------------------------------------------------
// Stream stitching
// ---------------------------------------------------------------------------

/// The stitching of several LZMA2 streams: every stream but the last loses
/// its final byte (the end-of-stream marker) and the results are
/// concatenated, leaving a single terminated stream.
pub open spec fn stitched(streams: Seq<Seq<u8>>) -> Seq<u8>
    decreases streams.len(),
{
    if streams.len() == 0 {
        seq![]
    } else if streams.len() == 1 {
        streams[0]
    } else {
        streams[0].drop_last() + stitched(streams.drop_first())
    }
}

/// The stream is non-empty and its last byte is the end-of-stream marker.
pub open spec fn ends_with_marker(s: Seq<u8>) -> bool {
    s.len() >= 1 && s.last() == 0u8
}

pub open spec fn all_end_with_marker(ss: Seq<Seq<u8>>) -> bool {
    forall|i: int| 0 <= i < ss.len() ==> ends_with_marker(#[trigger] ss[i])
}

/// The concatenation of the marker-stripped prefixes of the first `n`
/// streams.
pub open spec fn stripped_prefix(ss: Seq<Seq<u8>>, n: int) -> Seq<u8>
    decreases n,
{
    if n <= 0 {
        seq![]
    } else {
        stripped_prefix(ss, n - 1) + ss[n - 1].drop_last()
    }
}

/// Stitching is the stripped prefix of all streams but the last, followed by
/// the last stream kept whole.
pub proof fn lemma_stitched_is_stripped_prefix(ss: Seq<Seq<u8>>)
    requires
        ss.len() >= 1,
    ensures
        stitched(ss) == stripped_prefix(ss, ss.len() - 1) + ss.last(),
    decreases ss.len(),
{
    if ss.len() == 1 {
        assert(stripped_prefix(ss, 0) =~= Seq::<u8>::empty());
        assert(stitched(ss) =~= stripped_prefix(ss, 0) + ss.last());
    } else {
        let tail = ss.drop_first();
        lemma_stitched_is_stripped_prefix(tail);
        lemma_stripped_prefix_shift(ss, ss.len() - 2);
        assert(tail.last() == ss.last());
        assert(stitched(ss) =~= stripped_prefix(ss, ss.len() - 1) + ss.last());
    }
}

/// Shifting a stripped prefix across a dropped head stream.
pub proof fn lemma_stripped_prefix_shift(ss: Seq<Seq<u8>>, n: int)
    requires
        ss.len() >= 1,
        0 <= n <= ss.len() - 1,
    ensures
        stripped_prefix(ss, n + 1) == ss[0].drop_last() + stripped_prefix(ss.drop_first(), n),
    decreases n,
{
    if n == 0 {
        assert(stripped_prefix(ss, 0) =~= Seq::<u8>::empty());
        assert(stripped_prefix(ss.drop_first(), 0) =~= Seq::<u8>::empty());
        assert(stripped_prefix(ss, 1) =~= ss[0].drop_last() + stripped_prefix(ss.drop_first(), 0));
    } else {
        lemma_stripped_prefix_shift(ss, n - 1);
        assert(ss.drop_first()[n - 1] == ss[n]);
        assert(stripped_prefix(ss, n + 1) =~= ss[0].drop_last() + stripped_prefix(
            ss.drop_first(),
            n,
        ));
    }
}

/// Concatenates multiple independently-compressed LZMA2 streams into a
/// single valid LZMA2 stream by stripping intermediate end-of-stream
/// markers. Fails when some input stream does not end with the marker; an
/// empty input yields the trivial terminated stream.
#[verifier::loop_isolation(false)]
pub fn concatenate_lzma2_streams(streams: Vec<Vec<u8>>) -> (r: Result<Vec<u8>, SevenZipError>)
    ensures
        streams@.len() == 0 ==> r is Ok && r->Ok_0@ == seq![0u8],
        streams@.len() > 0 ==> ((r is Ok <==> all_end_with_marker(
            streams@.map_values(|v: Vec<u8>| v@),
        )) && (r is Ok ==> r->Ok_0@ == stitched(streams@.map_values(|v: Vec<u8>| v@)))),
        r is Err ==> r->Err_0 is Compression,
{
    let ghost deep = streams@.map_values(|v: Vec<u8>| v@);
    let n = streams.len();
    if n == 0 {
        let mut out: Vec<u8> = Vec::new();
        out.push(LZMA2_END_MARKER);
        return Ok(out);
    }
    let mut i: usize = 0;
    while i < n
        invariant
            n == streams@.len(),
            deep == streams@.map_values(|v: Vec<u8>| v@),
            i <= n,
            forall|j: int| 0 <= j < i ==> ends_with_marker(#[trigger] deep[j]),
        decreases n - i,
    {
        let s = &streams[i];
        proof {
            assert(deep[i as int] == streams@[i as int]@);
        }
        if s.len() == 0 || s[s.len() - 1] != LZMA2_END_MARKER {
            proof {
                assert(!ends_with_marker(deep[i as int]));
                assert(!all_end_with_marker(deep));
            }
            return Err(
                SevenZipError::Compression(
                    "invalid LZMA2 stream: missing end-of-stream marker".to_string(),
                ),
            );
        }
        assert(ends_with_marker(deep[i as int]));
        i = i + 1;
    }
    let mut out: Vec<u8> = Vec::new();
    let mut j: usize = 0;
    while j < n - 1
        invariant
            n == streams@.len(),
            n >= 1,
            deep == streams@.map_values(|v: Vec<u8>| v@),
            all_end_with_marker(deep),
            j <= n - 1,
            out@ == stripped_prefix(deep, j as int),
        decreases n - j,
    {
        let s = &streams[j];
        proof {
            assert(deep[j as int] == streams@[j as int]@);
            assert(ends_with_marker(deep[j as int]));
        }
        crate::compression::block::push_bytes(&mut out, &s[0..s.len() - 1]);
        proof {
            assert(deep[j as int].len() >= 1);
            assert(streams@[j as int]@.subrange(0, streams@[j as int]@.len() - 1) =~= deep[
                j as int
            ].drop_last());
            assert(out@ =~= stripped_prefix(deep, j as int) + deep[j as int].drop_last());
        }
        j = j + 1;
    }
    let s = &streams[n - 1];
    crate::compression::block::push_bytes(&mut out, &s[0..s.len()]);
    proof {
        assert(streams@[n - 1]@.subrange(0, streams@[n - 1]@.len() as int) =~= deep[n - 1]);
        lemma_stitched_is_stripped_prefix(deep);
        assert(out@ =~= stitched(deep));
    }
    Ok(out)
}

// ---------------------------------------------------------------------------
// LZMA2 encoding facade
// ---------------------------------------------------------------------------

/// The LZMA2 stream that the lzma-rust2 encoder produces for `data` under a
/// given preset and dictionary size. The encoding is a deterministic
/// function of these inputs alone, so it gets a name rather than a
/// reproduction of the algorithm.
pub uninterp spec fn lzma2_stream_of(data: Seq<u8>, preset: u32, dict_size: u32) -> Seq<u8>;

/// Compresses a data block into a self-terminated LZMA2 stream.
///
/// Relies on lzma_rust2::Lzma2Writer: writing into a `Vec` sink and calling
/// `finish` produces the encoder's stream for these options, whose final
/// byte is the 0x00 end-of-stream marker that `finish` appends. Dictionary
/// overrides outside `valid_dict_override` make the encoder's match
/// finders panic, so they are excluded here.
#[verifier::external_body]
pub fn compress_block(data: &[u8], config: &Lzma2Config) -> (r: Result<Vec<u8>, SevenZipError>)
    requires
        valid_dict_override(*config),
    ensures
        r is Ok ==> r->Ok_0@ == lzma2_stream_of(
            data@,
            config.preset,
            effective_dict_size_spec(*config),
        ),
        r is Ok ==> ends_with_marker(r->Ok_0@),
        r is Err ==> r->Err_0 is Compression,
{
    let mut options = lzma_rust2::Lzma2Options::with_preset(config.preset);
    if let Some(ds) = config.dict_size {
        options.lzma_options.dict_size = ds;
    }
    let mut writer = lzma_rust2::Lzma2Writer::new(Vec::new(), options);
    std::io::Write::write_all(&mut writer, data)
        .map_err(|e| SevenZipError::Compression(format!("LZMA2 write failed: {e}")))?;
    writer
        .finish()
        .map_err(|e| SevenZipError::Compression(format!("LZMA2 finish failed: {e}")))
}

} // verus!
