use vstd::prelude::*;

use crate::archive::header::{
    file_views, header_bytes, ArchiveHeader, FileEntry, FileEntryV, FolderInfo,
};
use crate::archive::writer::{signature_header_bytes, write_signature_header};
use crate::checksum::{crc32, crc32_of};
use crate::compression::block::{
    block_datas, chunks_of, indices_dense, push_bytes, CompressedBlock, RawBlock,
};
use crate::compression::lzma2::{
    effective_block_size_spec, effective_dict_size_spec, encode_properties_byte, ends_with_marker,
    lemma_stitched_is_stripped_prefix, lzma2_stream_of, properties_byte_spec, stitched,
    stripped_prefix, valid_dict_override, Lzma2Config,
};
use crate::error::SevenZipError;
use crate::seqs::{
    concat_map, lemma_concat_map_push, lemma_concat_map_segment, lemma_concat_map_take_succ,
    lemma_matching_all, lemma_matching_push, matching,
};
use crate::threading::scheduler::compress_blocks_parallel;
use crate::threading::worker::is_compressed_of;

verus! {

/// An input entry queued for inclusion in the archive: in-memory bytes with
/// an archive-relative name and an optional modification time (a Windows
/// FILETIME).
pub struct PendingEntry {
    pub archive_name: String,
    pub data: Vec<u8>,
    pub mtime: Option<u64>,
}

/// The mathematical view of a queued entry.
pub ghost struct PendingEntryV {
    pub name: Seq<char>,
    pub data: Seq<u8>,
    pub mtime: Option<u64>,
}

impl View for PendingEntry {
    type V = PendingEntryV;

    open spec fn view(&self) -> PendingEntryV {
        PendingEntryV { name: self.archive_name@, data: self.data@, mtime: self.mtime }
    }
}

/// Creates valid 7z archives with LZMA2 compression and multi-threaded
/// block compression. Entries are queued in memory; `finish` assembles the
/// complete archive byte stream.
pub struct SevenZipWriter {
    pub entries: Vec<PendingEntry>,
    pub config: Lzma2Config,
    pub num_threads: Option<usize>,
}

impl SevenZipWriter {
    /// Creates a new archive writer with an empty queue and the default
    /// configuration.
    pub fn new() -> (r: Self)
        ensures
            r.entries@.len() == 0,
            r.config.preset == 6,
            r.config.dict_size is None,
            r.config.block_size is None,
            r.num_threads is None,
    {
        Self { entries: Vec::new(), config: Lzma2Config::default(), num_threads: None }
    }

    /// Sets the LZMA2 compression configuration.
    pub fn set_config(&mut self, config: Lzma2Config)
        ensures
            final(self).config == config,
            final(self).entries == old(self).entries,
            final(self).num_threads == old(self).num_threads,
    {
        self.config = config;
    }

    /// Sets the number of threads for parallel compression. If `None` (the
    /// default), uses the number of available logical CPUs.
    pub fn set_num_threads(&mut self, num_threads: Option<usize>)
        ensures
            final(self).num_threads == num_threads,
            final(self).entries == old(self).entries,
            final(self).config == old(self).config,
    {
        self.num_threads = num_threads;
    }

    /// Queues in-memory data for inclusion in the archive.
    pub fn add_bytes(&mut self, archive_name: &str, data: &[u8]) -> (r: Result<(), SevenZipError>)
        ensures
            r is Ok,
            final(self).entries@.len() == old(self).entries@.len() + 1,
            final(self).entries@.take(old(self).entries@.len() as int) == old(self).entries@,
            final(self).entries@.last()@ == (PendingEntryV {
                name: archive_name@,
                data: data@,
                mtime: None,
            }),
            final(self).config == old(self).config,
            final(self).num_threads == old(self).num_threads,
    {
        let entry = PendingEntry {
            archive_name: archive_name.to_owned(),
            data: slice_to_vec_u8(data),
            mtime: None,
        };
        self.entries.push(entry);
        proof {
            assert(self.entries@.take(old(self).entries@.len() as int) =~= old(self).entries@);
        }
        Ok(())
    }

    /// Queues in-memory data together with a modification time, as the
    /// disk-backed front end provides it.
    pub fn add_entry(&mut self, archive_name: &str, data: Vec<u8>, mtime: Option<u64>)
        ensures
            final(self).entries@.len() == old(self).entries@.len() + 1,
            final(self).entries@.take(old(self).entries@.len() as int) == old(self).entries@,
            final(self).entries@.last()@ == (PendingEntryV {
                name: archive_name@,
                data: data@,
                mtime: mtime,
            }),
            final(self).config == old(self).config,
            final(self).num_threads == old(self).num_threads,
    {
        let entry = PendingEntry { archive_name: archive_name.to_owned(), data, mtime };
        self.entries.push(entry);
        proof {
            assert(self.entries@.take(old(self).entries@.len() as int) =~= old(self).entries@);
        }
    }
}

/// Copies a byte slice into an owned vector.
fn slice_to_vec_u8(data: &[u8]) -> (r: Vec<u8>)
    ensures
        r@ == data@,
{
    let mut out: Vec<u8> = Vec::new();
    crate::compression::block::push_bytes(&mut out, data);
    out
}

// ---------------------------------------------------------------------------
// The archive's byte layout as a function of the queued entries.
// ---------------------------------------------------------------------------

pub open spec fn entry_views(entries: Seq<PendingEntry>) -> Seq<PendingEntryV> {
    entries.map_values(|e: PendingEntry| e@)
}

/// The queued entries that carry data, in insertion order.
pub open spec fn nonempty_entries(es: Seq<PendingEntryV>) -> Seq<PendingEntryV> {
    matching(es, |e: PendingEntryV| e.data.len() != 0)
}

/// The queued entries without data, in insertion order.
pub open spec fn empty_entries(es: Seq<PendingEntryV>) -> Seq<PendingEntryV> {
    matching(es, |e: PendingEntryV| e.data.len() == 0)
}

/// One entry's packed stream: its chunks compressed independently, the
/// streams stitched into a single terminated LZMA2 stream.
pub open spec fn folder_stream(data: Seq<u8>, preset: u32, dict: u32, bs: int) -> Seq<u8> {
    stitched(chunks_of(data, bs).map_values(|c: Seq<u8>| lzma2_stream_of(c, preset, dict)))
}

/// The packed data: the folder streams of the non-empty entries, in order.
pub open spec fn packed_bytes(nes: Seq<PendingEntryV>, preset: u32, dict: u32, bs: int) -> Seq<
    u8,
> {
    concat_map(nes, |e: PendingEntryV| folder_stream(e.data, preset, dict, bs))
}

/// The folder record of one non-empty entry.
pub open spec fn folder_of(e: PendingEntryV, preset: u32, dict: u32, bs: int) -> FolderInfo {
    FolderInfo {
        compressed_size: folder_stream(e.data, preset, dict, bs).len() as u64,
        uncompressed_size: e.data.len() as u64,
        uncompressed_crc: crc32_of(e.data),
        lzma2_properties_byte: properties_byte_spec(dict),
    }
}

pub open spec fn folders_of(nes: Seq<PendingEntryV>, preset: u32, dict: u32, bs: int) -> Seq<
    FolderInfo,
> {
    nes.map_values(|e: PendingEntryV| folder_of(e, preset, dict, bs))
}

pub open spec fn file_of_nonempty(e: PendingEntryV, preset: u32, dict: u32, bs: int) -> FileEntryV {
    FileEntryV {
        name: e.name,
        uncompressed_size: e.data.len() as u64,
        compressed_size: folder_stream(e.data, preset, dict, bs).len() as u64,
        crc: crc32_of(e.data),
        has_data: true,
        modified_time: e.mtime,
    }
}

pub open spec fn file_of_empty(e: PendingEntryV) -> FileEntryV {
    FileEntryV {
        name: e.name,
        uncompressed_size: 0,
        compressed_size: 0,
        crc: 0,
        has_data: false,
        modified_time: e.mtime,
    }
}

/// The file table: non-empty entries first, then the empty ones.
pub open spec fn files_of(es: Seq<PendingEntryV>, preset: u32, dict: u32, bs: int) -> Seq<
    FileEntryV,
> {
    nonempty_entries(es).map_values(|e: PendingEntryV| file_of_nonempty(e, preset, dict, bs))
        + empty_entries(es).map_values(|e: PendingEntryV| file_of_empty(e))
}

/// The whole-entry checksum in the folder and file records is the CRC-32
/// of the entry's original bytes, independent of the block size the entry
/// was chunked with.
pub proof fn lemma_entry_crc_independent_of_chunking(
    e: PendingEntryV,
    preset: u32,
    dict: u32,
    bs1: int,
    bs2: int,
)
    ensures
        folder_of(e, preset, dict, bs1).uncompressed_crc == crc32_of(e.data),
        folder_of(e, preset, dict, bs1).uncompressed_crc == folder_of(
            e,
            preset,
            dict,
            bs2,
        ).uncompressed_crc,
        file_of_nonempty(e, preset, dict, bs1).crc == crc32_of(e.data),
{
}

/// The complete archive: the signature header whose fields describe the
/// metadata header, then the packed folder streams, then that header.
pub open spec fn archive_bytes(es: Seq<PendingEntryV>, config: Lzma2Config) -> Seq<u8> {
    let preset = config.preset;
    let dict = effective_dict_size_spec(config);
    let bs = effective_block_size_spec(config);
    let nes = nonempty_entries(es);
    let packed = packed_bytes(nes, preset, dict, bs);
    let hdr = header_bytes(
        folders_of(nes, preset, dict, bs),
        files_of(es, preset, dict, bs),
        0,
    );
    signature_header_bytes(packed.len() as u64, hdr.len() as u64, crc32_of(hdr)) + packed + hdr
}

// ---------------------------------------------------------------------------
// Assembly
// ---------------------------------------------------------------------------

/// Per-entry accounting produced during chunking, separated from the raw
/// data so the data can move into raw blocks without cloning.
struct FileMeta {
    name: String,
    mtime: Option<u64>,
    uncompressed_size: u64,
    crc: u32,
    /// Number of compressed blocks belonging to this file.
    block_count: usize,
}

ghost struct FileMetaV {
    name: Seq<char>,
    mtime: Option<u64>,
    uncompressed_size: u64,
    crc: u32,
    block_count: int,
}

impl View for FileMeta {
    type V = FileMetaV;

    closed spec fn view(&self) -> FileMetaV {
        FileMetaV {
            name: self.name@,
            mtime: self.mtime,
            uncompressed_size: self.uncompressed_size,
            crc: self.crc,
            block_count: self.block_count as int,
        }
    }
}

/// The accounting record that chunking a non-empty entry produces.
spec fn meta_of(e: PendingEntryV, bs: int) -> FileMetaV {
    FileMetaV {
        name: e.name,
        mtime: e.mtime,
        uncompressed_size: e.data.len() as u64,
        crc: crc32_of(e.data),
        block_count: chunks_of(e.data, bs).len() as int,
    }
}

spec fn meta_views(ms: Seq<FileMeta>) -> Seq<FileMetaV> {
    ms.map_values(|m: FileMeta| m@)
}

/// The compressed payloads of `count` blocks starting at `start`.
pub open spec fn stream_seq(blocks: Seq<CompressedBlock>, start: int, count: int) -> Seq<Seq<u8>> {
    blocks.subrange(start, start + count).map_values(|c: CompressedBlock| c.compressed_data@)
}

/// Splits one queued entry into raw blocks with fresh global indices,
/// recording its accounting; an empty entry is only listed, producing no
/// block and no record. The whole-entry CRC is taken over the original
/// bytes, whatever the chunking.
#[verifier::loop_isolation(false)]
fn split_bytes_into_blocks(
    archive_name: String,
    data: Vec<u8>,
    mtime: Option<u64>,
    block_size: usize,
    file_metas: &mut Vec<FileMeta>,
    raw_blocks: &mut Vec<RawBlock>,
    empty_files: &mut Vec<(String, Option<u64>)>,
)
    requires
        block_size >= 1,
        indices_dense(old(raw_blocks)@),
    ensures
        indices_dense(final(raw_blocks)@),
        data@.len() == 0 ==> final(file_metas)@ == old(file_metas)@ && final(raw_blocks)@ == old(
            raw_blocks,
        )@ && final(empty_files)@ == old(empty_files)@.push((archive_name, mtime)),
        data@.len() > 0 ==> meta_views(final(file_metas)@) == meta_views(old(file_metas)@).push(
            FileMetaV {
                name: archive_name@,
                mtime: mtime,
                uncompressed_size: data@.len() as u64,
                crc: crc32_of(data@),
                block_count: chunks_of(data@, block_size as int).len() as int,
            },
        ) && block_datas(final(raw_blocks)@) == block_datas(old(raw_blocks)@) + chunks_of(
            data@,
            block_size as int,
        ) && final(empty_files)@ == old(empty_files)@,
{
    if data.len() == 0 {
        empty_files.push((archive_name, mtime));
        return ;
    }
    let uncompressed_size = data.len() as u64;
    let crc = crc32(data.as_slice());
    let first_block = raw_blocks.len();
    let ghost entry_raws = raw_blocks@;

    if data.len() <= block_size {
        // Single-block data moves directly, without copying.
        proof {
            assert(chunks_of(data@, block_size as int) =~= seq![data@]);
        }
        let idx = raw_blocks.len();
        let ghost d = data@;
        raw_blocks.push(RawBlock { data, block_index: idx });
        proof {
            assert(block_datas(raw_blocks@) =~= block_datas(entry_raws).push(d));
            assert(block_datas(raw_blocks@) =~= block_datas(entry_raws) + chunks_of(
                d,
                block_size as int,
            ));
        }
    } else {
        let mut off: usize = 0;
        proof {
            assert(data@.skip(0) =~= data@);
        }
        while off < data.len()
            invariant
                off <= data@.len(),
                indices_dense(raw_blocks@),
                block_datas(raw_blocks@) + chunks_of(data@.skip(off as int), block_size as int)
                    =~= block_datas(entry_raws) + chunks_of(data@, block_size as int),
            decreases data@.len() - off,
        {
            let rem: usize = data.len() - off;
            let len: usize = if rem <= block_size {
                rem
            } else {
                block_size
            };
            let mut chunk: Vec<u8> = Vec::new();
            push_bytes(&mut chunk, &data[off..off + len]);
            let ghost prev = raw_blocks@;
            let idx = raw_blocks.len();
            raw_blocks.push(RawBlock { data: chunk, block_index: idx });
            proof {
                let bs = block_size as int;
                let pre = data@.skip(off as int);
                assert(chunk@ =~= pre.take(len as int));
                if pre.len() <= bs {
                    assert(chunks_of(pre, bs) =~= seq![pre]);
                    assert(pre.take(len as int) =~= pre);
                    assert(data@.skip((off + len) as int).len() == 0);
                } else {
                    assert(pre.skip(bs) =~= data@.skip((off + len) as int));
                }
                assert(block_datas(raw_blocks@) =~= block_datas(prev).push(chunk@));
            }
            off = off + len;
        }
        proof {
            assert(chunks_of(data@.skip(off as int), block_size as int) =~= Seq::<
                Seq<u8>,
            >::empty());
            assert(block_datas(raw_blocks@) =~= block_datas(entry_raws) + chunks_of(
                data@,
                block_size as int,
            ));
        }
    }

    let block_count = raw_blocks.len() - first_block;
    let ghost prev_metas = file_metas@;
    file_metas.push(
        FileMeta { name: archive_name, mtime, uncompressed_size, crc, block_count },
    );
    proof {
        assert(meta_views(file_metas@) =~= meta_views(prev_metas).push(file_metas@.last()@));
    }
}

/// Writes one file's compressed blocks into the output, stripping the
/// end-of-stream marker of every block but the last, and returns the total
/// number of bytes written. The blocks all end with the marker, so the
/// stream check never fails.
#[verifier::loop_isolation(false)]
fn write_file_blocks(
    out: &mut Vec<u8>,
    blocks: &Vec<CompressedBlock>,
    start: usize,
    count: usize,
) -> (r: Result<u64, SevenZipError>)
    requires
        1 <= count,
        start + count <= blocks@.len(),
        forall|i: int|
            start <= i < start + count ==> ends_with_marker(
                (#[trigger] blocks@[i]).compressed_data@,
            ),
    ensures
        r is Ok,
        final(out)@ == old(out)@ + stitched(stream_seq(blocks@, start as int, count as int)),
        r->Ok_0 as int == stitched(stream_seq(blocks@, start as int, count as int)).len(),
{
    let ghost streams = stream_seq(blocks@, start as int, count as int);
    let blocks_len = blocks.len();
    proof {
        assert(blocks_len == blocks@.len());
        assert(streams.len() == count);
        assert forall|k: int| 0 <= k < count implies ends_with_marker(#[trigger] streams[k]) by {
            assert(streams[k] == blocks@[start + k].compressed_data@);
        }
    }
    let base = out.len();
    let mut i: usize = 0;
    proof {
        assert(stripped_prefix(streams, 0) =~= Seq::<u8>::empty());
    }
    while i < count - 1
        invariant
            i <= count - 1,
            out@ =~= old(out)@ + stripped_prefix(streams, i as int),
        decreases count - i,
    {
        let b = &blocks[start + i];
        proof {
            assert(streams[i as int] == blocks@[(start + i) as int].compressed_data@);
            assert(ends_with_marker(streams[i as int]));
        }
        if b.compressed_data.len() == 0 || b.compressed_data[b.compressed_data.len() - 1] != 0x00 {
            return Err(
                SevenZipError::Compression(
                    "invalid LZMA2 stream: missing end-of-stream marker".to_string(),
                ),
            );
        }
        push_bytes(out, &b.compressed_data[0..b.compressed_data.len() - 1]);
        proof {
            assert(b.compressed_data@.subrange(0, b.compressed_data@.len() - 1) =~= streams[
                i as int
            ].drop_last());
            assert(out@ =~= old(out)@ + stripped_prefix(streams, i as int + 1));
        }
        i = i + 1;
    }
    let b = &blocks[start + count - 1];
    proof {
        assert(streams[count - 1] == blocks@[(start + count - 1) as int].compressed_data@);
    }
    push_bytes(out, b.compressed_data.as_slice());
    proof {
        lemma_stitched_is_stripped_prefix(streams);
        assert(out@ =~= old(out)@ + stitched(streams));
    }
    let written = out.len() - base;
    Ok(written as u64)
}

impl SevenZipWriter {
    /// Finalizes the archive: chunks the queued entries, compresses all
    /// blocks in one parallel batch, stitches each entry's blocks into one
    /// LZMA2 stream, serializes the metadata header, and returns the
    /// complete archive byte stream. Failure can only come from the
    /// compression batch, so a queue without data to compress always
    /// succeeds.
    #[verifier::loop_isolation(false)]
    pub fn finish(self) -> (r: Result<Vec<u8>, SevenZipError>)
        requires
            effective_block_size_spec(self.config) >= 1,
            valid_dict_override(self.config),
        ensures
            r is Ok ==> r->Ok_0@ == archive_bytes(entry_views(self.entries@), self.config),
            nonempty_entries(entry_views(self.entries@)).len() == 0 ==> r is Ok,
            r is Err ==> (r->Err_0 is Compression || r->Err_0 is Threading),
    {
        let SevenZipWriter { entries, config, num_threads } = self;
        let ghost evs = entry_views(entries@);
        let ghost preset = config.preset;
        let ghost dict = effective_dict_size_spec(config);
        let block_size = config.effective_block_size();
        let ghost bs = block_size as int;
        let ghost pne = |e: PendingEntryV| e.data.len() != 0;
        let ghost pem = |e: PendingEntryV| e.data.len() == 0;
        let ghost chunkfn = |e: PendingEntryV| chunks_of(e.data, bs);

        // 1. Build raw blocks from all entries; empty entries are set aside.
        let mut file_metas: Vec<FileMeta> = Vec::new();
        let mut raw_blocks: Vec<RawBlock> = Vec::new();
        let mut empty_files: Vec<(String, Option<u64>)> = Vec::new();

        for entry in it: entries.into_iter()
            invariant
                it.seq() == entries@,
                indices_dense(raw_blocks@),
                meta_views(file_metas@) =~= nonempty_entries(
                    entry_views(it.seq().take(it.index() as int)),
                ).map_values(|e: PendingEntryV| meta_of(e, bs)),
                block_datas(raw_blocks@) =~= concat_map(
                    nonempty_entries(entry_views(it.seq().take(it.index() as int))),
                    chunkfn,
                ),
                empty_files@.map_values(|t: (String, Option<u64>)| (t.0@, t.1)) =~= empty_entries(
                    entry_views(it.seq().take(it.index() as int)),
                ).map_values(|e: PendingEntryV| (e.name, e.mtime)),
        {
            let ghost processed = entry_views(it.seq().take(it.index() as int));
            let ghost ev = entry@;
            proof {
                assert(entry_views(it.seq().take(it.index() as int + 1)) =~= processed.push(ev));
                lemma_matching_push(processed, pne, ev);
                lemma_matching_push(processed, pem, ev);
                if ev.data.len() != 0 {
                    lemma_concat_map_push(nonempty_entries(processed), chunkfn, ev);
                }
            }
            let PendingEntry { archive_name, data, mtime } = entry;
            let ghost prev_empties = empty_files@;
            split_bytes_into_blocks(
                archive_name,
                data,
                mtime,
                block_size,
                &mut file_metas,
                &mut raw_blocks,
                &mut empty_files,
            );
            proof {
                let tup = |t: (String, Option<u64>)| (t.0@, t.1);
                if ev.data.len() == 0 {
                    assert(empty_files@.map_values(tup) =~= prev_empties.map_values(tup).push(
                        (ev.name, ev.mtime),
                    ));
                    assert(empty_files@.map_values(tup) =~= empty_entries(
                        processed.push(ev),
                    ).map_values(|e: PendingEntryV| (e.name, e.mtime)));
                } else {
                    assert(empty_files@.map_values(tup) =~= empty_entries(
                        processed.push(ev),
                    ).map_values(|e: PendingEntryV| (e.name, e.mtime)));
                }
            }
        }
        let ghost nes = nonempty_entries(evs);
        let ghost ems = empty_entries(evs);
        proof {
            assert(entry_views(entries@.take(entries@.len() as int)) =~= evs);
        }

        // 2. Compress all blocks in one parallel batch.
        let ghost raws = raw_blocks@;
        let compressed: Vec<CompressedBlock> = if raw_blocks.len() == 0 {
            Vec::new()
        } else {
            match compress_blocks_parallel(raw_blocks, &config, num_threads) {
                Ok(c) => c,
                Err(e) => {
                    proof {
                        // The batch was non-empty, so some entry carried data.
                        if nes.len() == 0 {
                            assert(concat_map(nes, chunkfn) =~= Seq::<Seq<u8>>::empty());
                            assert(false);
                        }
                    }
                    return Err(e);
                },
            }
        };
        proof {
            assert(compressed@.len() == raws.len());
            assert(forall|i: int|
                0 <= i < raws.len() ==> is_compressed_of(
                    #[trigger] compressed@[i],
                    raws[i],
                    preset,
                    dict,
                ));
        }

        // 3. Write compressed data one file at a time, stripping intermediate
        //    end-of-stream markers, and build the folder and file tables.
        let mut packed: Vec<u8> = Vec::new();
        let mut folders: Vec<FolderInfo> = Vec::new();
        let mut file_entries: Vec<FileEntry> = Vec::new();
        let properties_byte = encode_properties_byte(config.effective_dict_size());
        let ghost streamfn = |e: PendingEntryV| folder_stream(e.data, preset, dict, bs);
        let ghost fnne = |e: PendingEntryV| file_of_nonempty(e, preset, dict, bs);
        let mut cursor: usize = 0;
        let mut j: usize = 0;
        proof {
            lemma_matching_all(evs, pne);
        }
        while j < file_metas.len()
            invariant
                j <= file_metas@.len(),
                cursor as int == concat_map(nes.take(j as int), chunkfn).len(),
                packed@ =~= concat_map(nes.take(j as int), streamfn),
                folders@ =~= nes.take(j as int).map_values(
                    |e: PendingEntryV| folder_of(e, preset, dict, bs),
                ),
                file_views(file_entries@) =~= nes.take(j as int).map_values(fnne),
            decreases file_metas@.len() - j,
        {
            let ghost jj = j as int;
            proof {
                assert(meta_views(file_metas@)[jj] == meta_of(nes[jj], bs));
                lemma_concat_map_segment(nes, chunkfn, jj);
                assert(block_datas(raws) == concat_map(nes, chunkfn));
                assert(pne(nes[jj]));
                assert(nes[jj].data.len() != 0);
                assert(chunks_of(nes[jj].data, bs).len() >= 1);
            }
            let meta = &file_metas[j];
            let cnt = meta.block_count;
            let ghost chunks = chunks_of(nes[jj].data, bs);
            proof {
                assert(cnt as int == chunks.len());
                assert(cursor + cnt <= raws.len());
                assert forall|i: int| cursor <= i < cursor + cnt implies ends_with_marker(
                    (#[trigger] compressed@[i]).compressed_data@,
                ) by {
                    assert(is_compressed_of(compressed@[i], raws[i], preset, dict));
                }
                assert forall|k: int| 0 <= k < cnt implies #[trigger] stream_seq(
                    compressed@,
                    cursor as int,
                    cnt as int,
                )[k] == chunks.map_values(|c: Seq<u8>| lzma2_stream_of(c, preset, dict))[k] by {
                    let i = cursor + k;
                    assert(is_compressed_of(compressed@[i], raws[i], preset, dict));
                    assert(block_datas(raws)[i] == raws[i].data@);
                    assert(concat_map(nes, chunkfn).subrange(
                        cursor as int,
                        cursor as int + chunks.len(),
                    ) == chunks);
                    assert(raws[i].data@ == chunks[k]);
                }
                assert(stream_seq(compressed@, cursor as int, cnt as int) =~= chunks.map_values(
                    |c: Seq<u8>| lzma2_stream_of(c, preset, dict),
                ));
            }
            let compressed_size = match write_file_blocks(&mut packed, &compressed, cursor, cnt) {
                Ok(n) => n,
                Err(e) => {
                    return Err(e);
                },
            };
            proof {
                assert(stitched(stream_seq(compressed@, cursor as int, cnt as int))
                    == folder_stream(nes[jj].data, preset, dict, bs));
                lemma_concat_map_take_succ(nes, chunkfn, jj);
                lemma_concat_map_take_succ(nes, streamfn, jj);
            }
            cursor = cursor + cnt;
            let ghost prev_folders = folders@;
            let ghost prev_files = file_entries@;
            folders.push(
                FolderInfo {
                    compressed_size,
                    uncompressed_size: meta.uncompressed_size,
                    uncompressed_crc: meta.crc,
                    lzma2_properties_byte: properties_byte,
                },
            );
            file_entries.push(
                FileEntry {
                    name: meta.name.clone(),
                    uncompressed_size: meta.uncompressed_size,
                    compressed_size,
                    crc: meta.crc,
                    has_data: true,
                    modified_time: meta.mtime,
                },
            );
            proof {
                assert(nes.take(jj + 1) =~= nes.take(jj).push(nes[jj]));
                assert(folders@.last() == folder_of(nes[jj], preset, dict, bs));
                assert(folders@ =~= prev_folders.push(folders@.last()));
                assert(file_entries@.last()@ == file_of_nonempty(nes[jj], preset, dict, bs));
                assert(file_views(file_entries@) =~= file_views(prev_files).push(
                    file_entries@.last()@,
                ));
            }
            j = j + 1;
        }
        proof {
            assert(meta_views(file_metas@).len() == nes.len());
            assert(nes.take(nes.len() as int) =~= nes);
        }

        // 4. Append the empty entries to the file table, with zero sizes.
        let ghost fnem = |e: PendingEntryV| file_of_empty(e);
        for pair in it2: empty_files.into_iter()
            invariant
                it2.seq().map_values(|t: (String, Option<u64>)| (t.0@, t.1)) =~= ems.map_values(
                    |e: PendingEntryV| (e.name, e.mtime),
                ),
                file_views(file_entries@) =~= nes.map_values(fnne) + ems.take(
                    it2.index() as int,
                ).map_values(fnem),
        {
            let ghost k = it2.index() as int;
            let ghost prev_files = file_entries@;
            let (name, mtime) = pair;
            file_entries.push(
                FileEntry {
                    name,
                    uncompressed_size: 0,
                    compressed_size: 0,
                    crc: 0,
                    has_data: false,
                    modified_time: mtime,
                },
            );
            proof {
                assert(it2.seq().map_values(|t: (String, Option<u64>)| (t.0@, t.1))[k] == (
                    ems[k].name,
                    ems[k].mtime,
                ));
                assert(file_entries@.last()@ == file_of_empty(ems[k]));
                assert(ems.take(k + 1) =~= ems.take(k).push(ems[k]));
                assert(file_views(file_entries@) =~= file_views(prev_files).push(
                    file_entries@.last()@,
                ));
            }
        }
        proof {
            assert(ems.take(ems.len() as int) =~= ems);
            assert(file_views(file_entries@) =~= files_of(evs, preset, dict, bs));
        }

        // 5. Serialize the metadata header and compute its checksum.
        let header = ArchiveHeader { folders, files: file_entries, pack_position: 0 };
        let header_buf = match header.serialize() {
            Ok(b) => b,
            Err(e) => {
                return Err(e);
            },
        };
        let header_crc = crc32(header_buf.as_slice());

        // 6. Assemble: signature header, packed data, metadata header.
        let mut archive: Vec<u8> = Vec::new();
        write_signature_header(
            &mut archive,
            packed.len() as u64,
            header_buf.len() as u64,
            header_crc,
        );
        push_bytes(&mut archive, packed.as_slice());
        push_bytes(&mut archive, header_buf.as_slice());
        proof {
            assert(packed@ == packed_bytes(nes, preset, dict, bs));
            assert(header_buf@ == header_bytes(
                folders_of(nes, preset, dict, bs),
                files_of(evs, preset, dict, bs),
                0,
            ));
            assert(archive@ =~= archive_bytes(evs, config));
        }
        Ok(archive)
    }
}

} // verus!
