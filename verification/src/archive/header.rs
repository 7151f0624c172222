use vstd::prelude::*;

use crate::error::SevenZipError;
use crate::io::writer::{
    bool_vector_bytes, char_utf16_units, lemma_utf16_units_push, lemma_utf16le_bytes_concat,
    number_bytes, u32_le_bytes, u64_le_bytes, utf16_units, utf16le_bytes, utf16le_string_bytes,
    write_bool_vector, write_char_utf16le, write_number, write_u32_le, write_u64_le,
};
use crate::seqs::{concat_map, count_matching, lemma_concat_map_push, lemma_count_matching_push};

verus! {

// 7z property IDs
pub const K_END: u8 = 0x00;

pub const K_HEADER: u8 = 0x01;

pub const K_MAIN_STREAMS_INFO: u8 = 0x04;

pub const K_FILES_INFO: u8 = 0x05;

pub const K_PACK_INFO: u8 = 0x06;

pub const K_UNPACK_INFO: u8 = 0x07;

pub const K_SUB_STREAMS_INFO: u8 = 0x08;

pub const K_SIZE: u8 = 0x09;

pub const K_CRC: u8 = 0x0A;

pub const K_FOLDER: u8 = 0x0B;

pub const K_CODERS_UNPACK_SIZE: u8 = 0x0C;

pub const K_EMPTY_STREAM: u8 = 0x0E;

pub const K_EMPTY_FILE: u8 = 0x0F;

pub const K_NAME: u8 = 0x11;

pub const K_M_TIME: u8 = 0x14;

/// LZMA2 coder ID in the 7z format.
pub const LZMA2_CODER_ID: u8 = 0x21;

/// Metadata for a file entry in the archive.
pub struct FileEntry {
    pub name: String,
    pub uncompressed_size: u64,
    pub compressed_size: u64,
    pub crc: u32,
    pub has_data: bool,
    /// Windows FILETIME.
    pub modified_time: Option<u64>,
}

/// The mathematical view of a file entry: the name as its characters.
pub ghost struct FileEntryV {
    pub name: Seq<char>,
    pub uncompressed_size: u64,
    pub compressed_size: u64,
    pub crc: u32,
    pub has_data: bool,
    pub modified_time: Option<u64>,
}

impl View for FileEntry {
    type V = FileEntryV;

    open spec fn view(&self) -> FileEntryV {
        FileEntryV {
            name: self.name@,
            uncompressed_size: self.uncompressed_size,
            compressed_size: self.compressed_size,
            crc: self.crc,
            has_data: self.has_data,
            modified_time: self.modified_time,
        }
    }
}

pub open spec fn file_views(files: Seq<FileEntry>) -> Seq<FileEntryV> {
    files.map_values(|f: FileEntry| f@)
}

/// Metadata for a folder: one per file-with-data in the non-solid layout.
pub struct FolderInfo {
    pub compressed_size: u64,
    pub uncompressed_size: u64,
    pub uncompressed_crc: u32,
    pub lzma2_properties_byte: u8,
}

/// The archive header, built after all compressed data is written.
pub struct ArchiveHeader {
    pub folders: Vec<FolderInfo>,
    pub files: Vec<FileEntry>,
    /// Offset from end of the signature header to the start of packed data.
    pub pack_position: u64,
}

// ---------------------------------------------------------------------------
// The header's byte layout, part by part.
// ---------------------------------------------------------------------------

/// Archive names use forward slashes: backslashes are replaced.
pub open spec fn slashed(name: Seq<char>) -> Seq<char> {
    name.map_values(
        |c: char|
            if c == '\\' {
                '/'
            } else {
                c
            },
    )
}

/// PackInfo: pack position, stream count, and each folder's compressed size.
pub open spec fn pack_info_bytes(folders: Seq<FolderInfo>, pack_position: u64) -> Seq<u8> {
    seq![K_PACK_INFO] + number_bytes(pack_position) + number_bytes(folders.len() as u64)
        + seq![K_SIZE] + concat_map(folders, |f: FolderInfo| number_bytes(f.compressed_size))
        + seq![K_END]
}

/// One folder's coder record: a single LZMA2 coder with its one-byte
/// dictionary-size attribute. The flag byte 0x21 says: one-byte codec id,
/// not complex, has attributes.
pub open spec fn coder_bytes(f: FolderInfo) -> Seq<u8> {
    number_bytes(1) + seq![0x21u8, LZMA2_CODER_ID] + number_bytes(1)
        + seq![f.lzma2_properties_byte]
}

/// UnPackInfo: the folder records and each folder's uncompressed size.
pub open spec fn coders_info_bytes(folders: Seq<FolderInfo>) -> Seq<u8> {
    seq![K_UNPACK_INFO, K_FOLDER] + number_bytes(folders.len() as u64) + seq![0u8] + concat_map(
        folders,
        |f: FolderInfo| coder_bytes(f),
    ) + seq![K_CODERS_UNPACK_SIZE] + concat_map(
        folders,
        |f: FolderInfo| number_bytes(f.uncompressed_size),
    ) + seq![K_END]
}

/// SubStreamsInfo: every stream's CRC, all defined.
pub open spec fn sub_streams_info_bytes(folders: Seq<FolderInfo>) -> Seq<u8> {
    seq![K_SUB_STREAMS_INFO, K_CRC, 1u8] + concat_map(
        folders,
        |f: FolderInfo| u32_le_bytes(f.uncompressed_crc),
    ) + seq![K_END]
}

pub open spec fn main_streams_info_bytes(folders: Seq<FolderInfo>, pack_position: u64) -> Seq<u8> {
    seq![K_MAIN_STREAMS_INFO] + pack_info_bytes(folders, pack_position) + coders_info_bytes(
        folders,
    ) + sub_streams_info_bytes(folders) + seq![K_END]
}

/// The names data: the external marker, then each name in UTF-16LE with its
/// terminator, backslashes replaced by forward slashes.
pub open spec fn names_data_bytes(files: Seq<FileEntryV>) -> Seq<u8> {
    seq![0u8] + concat_map(files, |f: FileEntryV| utf16le_string_bytes(slashed(f.name)))
}

pub open spec fn names_property_bytes(files: Seq<FileEntryV>) -> Seq<u8> {
    seq![K_NAME] + number_bytes(names_data_bytes(files).len() as u64) + names_data_bytes(files)
}

pub open spec fn empty_stream_flags(files: Seq<FileEntryV>) -> Seq<bool> {
    files.map_values(|f: FileEntryV| !f.has_data)
}

pub open spec fn any_empty(files: Seq<FileEntryV>) -> bool {
    exists|i: int| 0 <= i < files.len() && !(#[trigger] files[i]).has_data
}

pub open spec fn num_empty(files: Seq<FileEntryV>) -> int {
    count_matching(files, |f: FileEntryV| !f.has_data)
}

pub open spec fn empty_stream_property_bytes(files: Seq<FileEntryV>) -> Seq<u8> {
    let data = bool_vector_bytes(empty_stream_flags(files));
    seq![K_EMPTY_STREAM] + number_bytes(data.len() as u64) + data
}

/// Every empty-stream entry is marked as an empty file.
pub open spec fn empty_file_property_bytes(files: Seq<FileEntryV>) -> Seq<u8> {
    let data = bool_vector_bytes(Seq::new(num_empty(files) as nat, |i: int| true));
    seq![K_EMPTY_FILE] + number_bytes(data.len() as u64) + data
}

pub open spec fn mtime_defined_flags(files: Seq<FileEntryV>) -> Seq<bool> {
    files.map_values(|f: FileEntryV| f.modified_time is Some)
}

pub open spec fn any_mtime(files: Seq<FileEntryV>) -> bool {
    exists|i: int| 0 <= i < files.len() && (#[trigger] files[i]).modified_time is Some
}

pub open spec fn all_mtime(files: Seq<FileEntryV>) -> bool {
    forall|i: int| 0 <= i < files.len() ==> (#[trigger] files[i]).modified_time is Some
}

pub open spec fn mtimes_bytes(files: Seq<FileEntryV>) -> Seq<u8> {
    concat_map(
        files,
        |f: FileEntryV|
            match f.modified_time {
                Option::Some(t) => u64_le_bytes(t),
                Option::None => seq![],
            },
    )
}

pub open spec fn mtime_data_bytes(files: Seq<FileEntryV>) -> Seq<u8> {
    (if all_mtime(files) {
        seq![1u8]
    } else {
        seq![0u8] + bool_vector_bytes(mtime_defined_flags(files))
    }) + seq![0u8] + mtimes_bytes(files)
}

pub open spec fn mtime_property_bytes(files: Seq<FileEntryV>) -> Seq<u8> {
    seq![K_M_TIME] + number_bytes(mtime_data_bytes(files).len() as u64) + mtime_data_bytes(files)
}

/// FilesInfo: the file count, the names, the empty-stream and empty-file
/// masks when some entry is empty, and the timestamps when some entry has
/// one.
pub open spec fn files_info_bytes(files: Seq<FileEntryV>) -> Seq<u8> {
    seq![K_FILES_INFO] + number_bytes(files.len() as u64) + names_property_bytes(files) + (
    if any_empty(files) {
        empty_stream_property_bytes(files) + empty_file_property_bytes(files)
    } else {
        seq![]
    }) + (if any_mtime(files) {
        mtime_property_bytes(files)
    } else {
        seq![]
    }) + seq![K_END]
}

/// The complete header: MainStreamsInfo when at least one folder exists,
/// FilesInfo when at least one file exists.
pub open spec fn header_bytes(
    folders: Seq<FolderInfo>,
    files: Seq<FileEntryV>,
    pack_position: u64,
) -> Seq<u8> {
    seq![K_HEADER] + (if folders.len() > 0 {
        main_streams_info_bytes(folders, pack_position)
    } else {
        seq![]
    }) + (if files.len() > 0 {
        files_info_bytes(files)
    } else {
        seq![]
    }) + seq![K_END]
}

// ---------------------------------------------------------------------------
// Serialization
// ---------------------------------------------------------------------------

/// Appends a UTF-16LE encoded name with its null terminator, replacing
/// backslashes with forward slashes.
#[verifier::loop_isolation(false)]
fn write_utf16le_name(w: &mut Vec<u8>, s: &str)
    ensures
        final(w)@ == old(w)@ + utf16le_string_bytes(slashed(s@)),
{
    for c in it: s.chars()
        invariant
            it.seq() == s@,
            w@ =~= old(w)@ + utf16le_bytes(utf16_units(slashed(it.seq().take(it.index() as int)))),
    {
        let c2: char = if c == '\\' {
            '/'
        } else {
            c
        };
        write_char_utf16le(w, c2);
        proof {
            let prefix = it.seq().take(it.index() as int);
            assert(it.seq().take(it.index() as int + 1) =~= prefix.push(c));
            assert(slashed(prefix.push(c)) =~= slashed(prefix).push(c2));
            lemma_utf16_units_push(slashed(prefix), c2);
            lemma_utf16le_bytes_concat(utf16_units(slashed(prefix)), char_utf16_units(c2));
        }
    }
    proof {
        assert(s@.take(s@.len() as int) =~= s@);
    }
    w.push(0);
    w.push(0);
    assert(w@ =~= old(w)@ + utf16le_string_bytes(slashed(s@)));
}

impl ArchiveHeader {
    /// Serializes the complete header to bytes.
    pub fn serialize(&self) -> (r: Result<Vec<u8>, SevenZipError>)
        ensures
            r is Ok,
            r->Ok_0@ == header_bytes(self.folders@, file_views(self.files@), self.pack_position),
    {
        let mut buf: Vec<u8> = Vec::new();
        buf.push(K_HEADER);
        if self.folders.len() > 0 {
            self.write_main_streams_info(&mut buf);
        }
        if self.files.len() > 0 {
            self.write_files_info(&mut buf);
        }
        buf.push(K_END);
        proof {
            assert(buf@ =~= header_bytes(
                self.folders@,
                file_views(self.files@),
                self.pack_position,
            ));
        }
        Ok(buf)
    }

    fn write_main_streams_info(&self, w: &mut Vec<u8>)
        ensures
            final(w)@ == old(w)@ + main_streams_info_bytes(self.folders@, self.pack_position),
    {
        w.push(K_MAIN_STREAMS_INFO);
        self.write_pack_info(w);
        self.write_coders_info(w);
        self.write_sub_streams_info(w);
        w.push(K_END);
        assert(w@ =~= old(w)@ + main_streams_info_bytes(self.folders@, self.pack_position));
    }

    #[verifier::loop_isolation(false)]
    fn write_pack_info(&self, w: &mut Vec<u8>)
        ensures
            final(w)@ == old(w)@ + pack_info_bytes(self.folders@, self.pack_position),
    {
        w.push(K_PACK_INFO);
        write_number(w, self.pack_position);
        write_number(w, self.folders.len() as u64);
        w.push(K_SIZE);
        let ghost head = w@;
        let mut i: usize = 0;
        while i < self.folders.len()
            invariant
                i <= self.folders@.len(),
                w@ =~= head + concat_map(
                    self.folders@.take(i as int),
                    |f: FolderInfo| number_bytes(f.compressed_size),
                ),
            decreases self.folders@.len() - i,
        {
            proof {
                assert(self.folders@.take(i as int + 1) =~= self.folders@.take(i as int).push(
                    self.folders@[i as int],
                ));
                lemma_concat_map_push(
                    self.folders@.take(i as int),
                    |f: FolderInfo| number_bytes(f.compressed_size),
                    self.folders@[i as int],
                );
            }
            write_number(w, self.folders[i].compressed_size);
            i = i + 1;
        }
        proof {
            assert(self.folders@.take(self.folders@.len() as int) =~= self.folders@);
        }
        w.push(K_END);
        assert(w@ =~= old(w)@ + pack_info_bytes(self.folders@, self.pack_position));
    }

    #[verifier::loop_isolation(false)]
    fn write_coders_info(&self, w: &mut Vec<u8>)
        ensures
            final(w)@ == old(w)@ + coders_info_bytes(self.folders@),
    {
        w.push(K_UNPACK_INFO);
        w.push(K_FOLDER);
        write_number(w, self.folders.len() as u64);
        // External = 0 (not external)
        w.push(0x00);
        let ghost head = w@;
        let mut i: usize = 0;
        while i < self.folders.len()
            invariant
                i <= self.folders@.len(),
                w@ =~= head + concat_map(
                    self.folders@.take(i as int),
                    |f: FolderInfo| coder_bytes(f),
                ),
            decreases self.folders@.len() - i,
        {
            proof {
                assert(self.folders@.take(i as int + 1) =~= self.folders@.take(i as int).push(
                    self.folders@[i as int],
                ));
                lemma_concat_map_push(
                    self.folders@.take(i as int),
                    |f: FolderInfo| coder_bytes(f),
                    self.folders@[i as int],
                );
            }
            // NumCoders = 1
            write_number(w, 1);
            // Flag: one-byte codec id, not complex, has attributes
            w.push(0x21);
            w.push(LZMA2_CODER_ID);
            // PropertiesSize = 1, then the dictionary-size byte
            write_number(w, 1);
            w.push(self.folders[i].lzma2_properties_byte);
            proof {
                assert(w@ =~= head + concat_map(
                    self.folders@.take(i as int),
                    |f: FolderInfo| coder_bytes(f),
                ) + coder_bytes(self.folders@[i as int]));
            }
            i = i + 1;
        }
        proof {
            assert(self.folders@.take(self.folders@.len() as int) =~= self.folders@);
        }
        w.push(K_CODERS_UNPACK_SIZE);
        let ghost head2 = w@;
        let mut i: usize = 0;
        while i < self.folders.len()
            invariant
                i <= self.folders@.len(),
                w@ =~= head2 + concat_map(
                    self.folders@.take(i as int),
                    |f: FolderInfo| number_bytes(f.uncompressed_size),
                ),
            decreases self.folders@.len() - i,
        {
            proof {
                assert(self.folders@.take(i as int + 1) =~= self.folders@.take(i as int).push(
                    self.folders@[i as int],
                ));
                lemma_concat_map_push(
                    self.folders@.take(i as int),
                    |f: FolderInfo| number_bytes(f.uncompressed_size),
                    self.folders@[i as int],
                );
            }
            write_number(w, self.folders[i].uncompressed_size);
            i = i + 1;
        }
        proof {
            assert(self.folders@.take(self.folders@.len() as int) =~= self.folders@);
        }
        w.push(K_END);
        assert(w@ =~= old(w)@ + coders_info_bytes(self.folders@));
    }

    #[verifier::loop_isolation(false)]
    fn write_sub_streams_info(&self, w: &mut Vec<u8>)
        ensures
            final(w)@ == old(w)@ + sub_streams_info_bytes(self.folders@),
    {
        w.push(K_SUB_STREAMS_INFO);
        w.push(K_CRC);
        // AllAreDefined = 1
        w.push(0x01);
        let ghost head = w@;
        let mut i: usize = 0;
        while i < self.folders.len()
            invariant
                i <= self.folders@.len(),
                w@ =~= head + concat_map(
                    self.folders@.take(i as int),
                    |f: FolderInfo| u32_le_bytes(f.uncompressed_crc),
                ),
            decreases self.folders@.len() - i,
        {
            proof {
                assert(self.folders@.take(i as int + 1) =~= self.folders@.take(i as int).push(
                    self.folders@[i as int],
                ));
                lemma_concat_map_push(
                    self.folders@.take(i as int),
                    |f: FolderInfo| u32_le_bytes(f.uncompressed_crc),
                    self.folders@[i as int],
                );
            }
            write_u32_le(w, self.folders[i].uncompressed_crc);
            i = i + 1;
        }
        proof {
            assert(self.folders@.take(self.folders@.len() as int) =~= self.folders@);
        }
        w.push(K_END);
        assert(w@ =~= old(w)@ + sub_streams_info_bytes(self.folders@));
    }

    #[verifier::loop_isolation(false)]
    #[verifier::rlimit(50)]
    fn write_files_info(&self, w: &mut Vec<u8>)
        ensures
            final(w)@ == old(w)@ + files_info_bytes(file_views(self.files@)),
    {
        let ghost fv = file_views(self.files@);
        w.push(K_FILES_INFO);
        write_number(w, self.files.len() as u64);
        self.write_names_property(w);

        // Which entries carry no stream, and whether any does.
        let mut empty_stream: Vec<bool> = Vec::new();
        let mut has_empty = false;
        let mut i: usize = 0;
        while i < self.files.len()
            invariant
                i <= self.files@.len(),
                fv == file_views(self.files@),
                empty_stream@ =~= empty_stream_flags(fv).take(i as int),
                has_empty <==> exists|j: int| 0 <= j < i && !(#[trigger] fv[j]).has_data,
            decreases self.files@.len() - i,
        {
            let e = !self.files[i].has_data;
            empty_stream.push(e);
            if e {
                has_empty = true;
            }
            proof {
                assert(fv[i as int] == self.files@[i as int]@);
                assert(empty_stream@ =~= empty_stream_flags(fv).take(i as int + 1));
            }
            i = i + 1;
        }
        proof {
            assert(empty_stream_flags(fv).take(fv.len() as int) =~= empty_stream_flags(fv));
            assert(has_empty == any_empty(fv));
        }
        if has_empty {
            self.write_empty_stream_property(w, &empty_stream);

            // Among empty-stream entries, all are empty files.
            let mut empty_file: Vec<bool> = Vec::new();
            let mut j: usize = 0;
            while j < self.files.len()
                invariant
                    j <= self.files@.len(),
                    fv == file_views(self.files@),
                    empty_file@.len() == count_matching(
                        fv.take(j as int),
                        |f: FileEntryV| !f.has_data,
                    ),
                    forall|k: int| 0 <= k < empty_file@.len() ==> #[trigger] empty_file@[k] == true,
                decreases self.files@.len() - j,
            {
                proof {
                    assert(fv.take(j as int + 1) =~= fv.take(j as int).push(fv[j as int]));
                    lemma_count_matching_push(
                        fv.take(j as int),
                        |f: FileEntryV| !f.has_data,
                        fv[j as int],
                    );
                    assert(fv[j as int] == self.files@[j as int]@);
                }
                if !self.files[j].has_data {
                    empty_file.push(true);
                }
                j = j + 1;
            }
            proof {
                assert(fv.take(fv.len() as int) =~= fv);
                assert(empty_file@ =~= Seq::new(num_empty(fv) as nat, |i: int| true));
            }
            self.write_empty_file_property(w, &empty_file);
        }

        // Whether any entry carries a modification time.
        let mut has_mtime = false;
        let mut m: usize = 0;
        while m < self.files.len()
            invariant
                m <= self.files@.len(),
                fv == file_views(self.files@),
                has_mtime <==> exists|j: int|
                    0 <= j < m && (#[trigger] fv[j]).modified_time is Some,
            decreases self.files@.len() - m,
        {
            if self.files[m].modified_time.is_some() {
                has_mtime = true;
            }
            proof {
                assert(fv[m as int] == self.files@[m as int]@);
            }
            m = m + 1;
        }
        proof {
            assert(has_mtime == any_mtime(fv));
        }
        if has_mtime {
            self.write_mtime_property(w);
        }
        w.push(K_END);
        assert(w@ =~= old(w)@ + files_info_bytes(fv));
    }

    #[verifier::loop_isolation(false)]
    fn write_names_property(&self, w: &mut Vec<u8>)
        ensures
            final(w)@ == old(w)@ + names_property_bytes(file_views(self.files@)),
    {
        let ghost fv = file_views(self.files@);
        w.push(K_NAME);
        let mut names_buf: Vec<u8> = Vec::new();
        // External = 0
        names_buf.push(0x00);
        let mut i: usize = 0;
        while i < self.files.len()
            invariant
                i <= self.files@.len(),
                fv == file_views(self.files@),
                names_buf@ =~= seq![0u8] + concat_map(
                    fv.take(i as int),
                    |f: FileEntryV| utf16le_string_bytes(slashed(f.name)),
                ),
            decreases self.files@.len() - i,
        {
            proof {
                assert(fv.take(i as int + 1) =~= fv.take(i as int).push(fv[i as int]));
                lemma_concat_map_push(
                    fv.take(i as int),
                    |f: FileEntryV| utf16le_string_bytes(slashed(f.name)),
                    fv[i as int],
                );
                assert(fv[i as int] == self.files@[i as int]@);
            }
            write_utf16le_name(&mut names_buf, self.files[i].name.as_str());
            i = i + 1;
        }
        proof {
            assert(fv.take(fv.len() as int) =~= fv);
            assert(names_buf@ =~= names_data_bytes(fv));
        }
        write_number(w, names_buf.len() as u64);
        crate::compression::block::push_bytes(w, names_buf.as_slice());
        assert(w@ =~= old(w)@ + names_property_bytes(fv));
    }

    fn write_empty_stream_property(&self, w: &mut Vec<u8>, empty_stream: &Vec<bool>)
        requires
            empty_stream@ == empty_stream_flags(file_views(self.files@)),
        ensures
            final(w)@ == old(w)@ + empty_stream_property_bytes(file_views(self.files@)),
    {
        w.push(K_EMPTY_STREAM);
        let mut data: Vec<u8> = Vec::new();
        write_bool_vector(&mut data, empty_stream.as_slice());
        write_number(w, data.len() as u64);
        crate::compression::block::push_bytes(w, data.as_slice());
        assert(w@ =~= old(w)@ + empty_stream_property_bytes(file_views(self.files@)));
    }

    fn write_empty_file_property(&self, w: &mut Vec<u8>, empty_file: &Vec<bool>)
        requires
            empty_file@ == Seq::new(num_empty(file_views(self.files@)) as nat, |i: int| true),
        ensures
            final(w)@ == old(w)@ + empty_file_property_bytes(file_views(self.files@)),
    {
        w.push(K_EMPTY_FILE);
        let mut data: Vec<u8> = Vec::new();
        write_bool_vector(&mut data, empty_file.as_slice());
        write_number(w, data.len() as u64);
        crate::compression::block::push_bytes(w, data.as_slice());
        assert(w@ =~= old(w)@ + empty_file_property_bytes(file_views(self.files@)));
    }

    #[verifier::loop_isolation(false)]
    fn write_mtime_property(&self, w: &mut Vec<u8>)
        ensures
            final(w)@ == old(w)@ + mtime_property_bytes(file_views(self.files@)),
    {
        let ghost fv = file_views(self.files@);
        w.push(K_M_TIME);
        let mut data: Vec<u8> = Vec::new();

        // Which files have a defined modification time.
        let mut defined: Vec<bool> = Vec::new();
        let mut all_defined = true;
        let mut i: usize = 0;
        while i < self.files.len()
            invariant
                i <= self.files@.len(),
                fv == file_views(self.files@),
                defined@ =~= mtime_defined_flags(fv).take(i as int),
                all_defined <==> forall|j: int|
                    0 <= j < i ==> (#[trigger] fv[j]).modified_time is Some,
            decreases self.files@.len() - i,
        {
            let d = self.files[i].modified_time.is_some();
            defined.push(d);
            if !d {
                all_defined = false;
            }
            proof {
                assert(fv[i as int] == self.files@[i as int]@);
                assert(defined@ =~= mtime_defined_flags(fv).take(i as int + 1));
            }
            i = i + 1;
        }
        proof {
            assert(mtime_defined_flags(fv).take(fv.len() as int) =~= mtime_defined_flags(fv));
            assert(all_defined == all_mtime(fv));
        }
        if all_defined {
            data.push(0x01);
        } else {
            data.push(0x00);
            write_bool_vector(&mut data, defined.as_slice());
        }
        // External = 0
        data.push(0x00);
        let ghost head = data@;

        let mut m: usize = 0;
        while m < self.files.len()
            invariant
                m <= self.files@.len(),
                fv == file_views(self.files@),
                data@ =~= head + concat_map(
                    fv.take(m as int),
                    |f: FileEntryV|
                        match f.modified_time {
                            Option::Some(t) => u64_le_bytes(t),
                            Option::None => seq![],
                        },
                ),
            decreases self.files@.len() - m,
        {
            proof {
                assert(fv.take(m as int + 1) =~= fv.take(m as int).push(fv[m as int]));
                lemma_concat_map_push(
                    fv.take(m as int),
                    |f: FileEntryV|
                        match f.modified_time {
                            Option::Some(t) => u64_le_bytes(t),
                            Option::None => seq![],
                        },
                    fv[m as int],
                );
                assert(fv[m as int] == self.files@[m as int]@);
            }
            match self.files[m].modified_time {
                Option::Some(ft) => {
                    write_u64_le(&mut data, ft);
                },
                Option::None => {
                    proof {
                        assert(data@ =~= head + concat_map(
                            fv.take(m as int + 1),
                            |f: FileEntryV|
                                match f.modified_time {
                                    Option::Some(t) => u64_le_bytes(t),
                                    Option::None => seq![],
                                },
                        ));
                    }
                },
            }
            m = m + 1;
        }
        proof {
            assert(fv.take(fv.len() as int) =~= fv);
            assert(data@ =~= mtime_data_bytes(fv));
        }
        write_number(w, data.len() as u64);
        crate::compression::block::push_bytes(w, data.as_slice());
        assert(w@ =~= old(w)@ + mtime_property_bytes(fv));
    }
}

/// Converts a Unix timestamp (seconds since epoch) to a Windows FILETIME.
pub fn unix_to_filetime(unix_secs: u64) -> (r: u64)
    requires
        (unix_secs + 11_644_473_600) * 10_000_000 <= u64::MAX,
    ensures
        r == (unix_secs + 11_644_473_600) * 10_000_000,
{
    (unix_secs + 11_644_473_600) * 10_000_000
}

} // verus!
