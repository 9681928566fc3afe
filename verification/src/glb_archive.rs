//! The archive and its directory: the file allocation table that names
//! every payload, its place in the archive and whether it is encrypted.

use crate::bytes::Bytes;
use crate::error::GlbError;
use crate::extracted::{
    classify, kind_of, mode_after, next_mode, CollectionMode, EntryKind, Extracted, ExtractedView,
};
use crate::file::{
    map_of, palette_of, payload_of, pic_of, text_of, tile_of, File, FileView, UntypedFile,
};
use crate::utils::{decrypted, initial_cursor, le_u32, utf8_text};
use vstd::prelude::*;
use vstd::slice::{slice_subrange, slice_to_vec};
use vstd::string::StringSliceAdditionalSpecFns;
use vstd::utf8::{decode_utf8, encode_utf8_decode_utf8, valid_utf8};

verus! {

/// The key of this archive format version.
pub const ENCRYPTION_KEY: &'static [u8; 8] = &[51, 50, 55, 54, 56, 71, 76, 66];

/// Length of one directory chunk. Each chunk is an independent unit of the
/// cipher.
pub const CHUNK_SIZE: usize = 28;

/// Whether a payload is stored in the clear or encrypted.
#[derive(Debug, Clone, Copy, PartialEq, Eq, Structural)]
pub enum Flag {
    Normal,
    Encrypted,
}

/// One entry of the directory.
#[derive(Debug, PartialEq, Clone)]
pub struct FatEntry {
    pub filename: String,
    pub flag: Flag,
    pub offset: u32,
    pub length: u32,
}

/// What a directory entry says, with its name as a sequence of characters.
pub struct FatEntryView {
    pub filename: Seq<char>,
    pub flag: Flag,
    pub offset: u32,
    pub length: u32,
}

impl View for FatEntry {
    type V = FatEntryView;

    open spec fn view(&self) -> FatEntryView {
        FatEntryView {
            filename: self.filename@,
            flag: self.flag,
            offset: self.offset,
            length: self.length,
        }
    }
}

/// The directory of an archive, in the order of its chunks.
#[derive(Debug, PartialEq, Clone)]
pub struct FileAllocationTable {
    pub entries: Vec<FatEntry>,
}

impl View for FileAllocationTable {
    type V = Seq<FatEntryView>;

    open spec fn view(&self) -> Seq<FatEntryView> {
        Seq::new(self.entries@.len(), |i: int| self.entries@[i]@)
    }
}

/// A whole archive, held in memory.
#[derive(Debug, PartialEq)]
pub struct GlbArchive {
    pub bytes: Vec<u8>,
}

impl View for GlbArchive {
    type V = Seq<u8>;

    open spec fn view(&self) -> Seq<u8> {
        self.bytes@
    }
}

/// First position at or after `from` that holds a zero byte, or the length
/// of `field` if there is none.
pub open spec fn name_end(field: Seq<u8>, from: int) -> int
    decreases field.len() - from,
{
    if from < 0 || from >= field.len() || field[from] == 0 {
        from
    } else {
        name_end(field, from + 1)
    }
}

/// The name bytes of a decrypted chunk: its last 16 bytes, cut at the first
/// zero byte.
pub open spec fn name_bytes(plain: Seq<u8>) -> Seq<u8> {
    let field = plain.subrange(12, 28);
    field.subrange(0, name_end(field, 0))
}

/// What one encrypted directory chunk parses to.
#[verifier::opaque]
pub open spec fn parsed_entry(chunk: Seq<u8>) -> Result<FatEntryView, GlbError> {
    if chunk.len() != 28 {
        Err(GlbError::ChunkSizeMismatch)
    } else {
        let plain = decrypted(chunk, ENCRYPTION_KEY@, initial_cursor(8));
        let flag = le_u32(plain, 0);
        if flag != 0 && flag != 1 {
            Err(GlbError::UnknownFlag)
        } else if !valid_utf8(name_bytes(plain)) {
            Err(GlbError::InvalidText)
        } else {
            Ok(
                FatEntryView {
                    filename: decode_utf8(name_bytes(plain)),
                    flag: if flag == 0 {
                        Flag::Normal
                    } else {
                        Flag::Encrypted
                    },
                    offset: le_u32(plain, 4) as u32,
                    length: le_u32(plain, 8) as u32,
                },
            )
        }
    }
}

/// The `index`-th 28-byte chunk of the archive; chunk 0 is the header.
pub open spec fn chunk(archive: Seq<u8>, index: int) -> Seq<u8> {
    archive.subrange(28 * index, 28 * index + 28)
}

/// The entries that chunks 1 to `count` parse to, or the error of the first
/// chunk among them that does not parse.
pub open spec fn entries_of(archive: Seq<u8>, count: int) -> Result<Seq<FatEntryView>, GlbError>
    decreases count,
{
    if count <= 0 {
        Ok(Seq::empty())
    } else {
        match entries_of(archive, count - 1) {
            Err(e) => Err(e),
            Ok(prefix) => match parsed_entry(chunk(archive, count)) {
                Err(e) => Err(e),
                Ok(entry) => Ok(prefix.push(entry)),
            },
        }
    }
}

/// The directory that an archive holds: the header chunk gives the number
/// of entries in its offset field, and the chunks after it give the entries.
pub open spec fn directory_of(archive: Seq<u8>) -> Result<Seq<FatEntryView>, GlbError> {
    if archive.len() < 28 {
        Err(GlbError::ChunkSizeMismatch)
    } else {
        match parsed_entry(chunk(archive, 0)) {
            Err(e) => Err(e),
            Ok(header) => if 28 * (header.offset + 1) > archive.len() {
                Err(GlbError::ChunkSizeMismatch)
            } else {
                entries_of(archive, header.offset as int)
            },
        }
    }
}

/// The mode of the tile collection and the resources gathered so far.
pub struct ExtractState {
    pub mode: CollectionMode,
    pub files: ExtractedView,
}

/// The named resource that an entry of the given kind decodes to.
pub open spec fn decoded(kind: EntryKind, bytes: Seq<u8>, name: Seq<char>) -> Result<
    FileView,
    GlbError,
> {
    match kind {
        EntryKind::Text => match text_of(bytes, name) {
            Ok(text) => Ok(FileView::Text(text)),
            Err(e) => Err(e),
        },
        EntryKind::Palette => match palette_of(bytes, name) {
            Ok(palette) => Ok(FileView::Palette(palette)),
            Err(e) => Err(e),
        },
        EntryKind::Sprite => match pic_of(bytes, name) {
            Ok(pic) => Ok(FileView::Pic(pic)),
            Err(e) => Err(e),
        },
        EntryKind::TileMap => match map_of(bytes, name) {
            Ok(map) => Ok(FileView::TileMap(map)),
            Err(e) => Err(e),
        },
        _ => Err(GlbError::UnknownEntryKind),
    }
}

/// The state after the entry at `index` has been handled. Its payload is
/// read first; an entry that cannot be read, decoded or classified is
/// reported and leaves everything else as it was. The entries that begin
/// and end the tile set switch the mode; an entry without a name is a tile
/// while tiles are collected; a named resource is filed under its name.
pub open spec fn extract_step(
    state: ExtractState,
    archive: Seq<u8>,
    entry: FatEntryView,
    index: int,
) -> ExtractState {
    match payload_of(archive, entry) {
        Err(e) => ExtractState { files: state.files.with_failure(index, e), ..state },
        Ok(bytes) => {
            let kind = kind_of(entry.filename);
            match kind {
                EntryKind::BeginTiles | EntryKind::EndTiles => ExtractState {
                    mode: mode_after(state.mode, kind),
                    ..state
                },
                EntryKind::Anonymous => if state.mode == CollectionMode::Collecting {
                    match tile_of(bytes, entry.filename) {
                        Ok(tile) => ExtractState { files: state.files.with_tile(tile), ..state },
                        Err(e) => ExtractState {
                            files: state.files.with_failure(index, e),
                            ..state
                        },
                    }
                } else {
                    ExtractState {
                        files: state.files.with_failure(index, GlbError::UnknownEntryKind),
                        ..state
                    }
                },
                _ => match decoded(kind, bytes, entry.filename) {
                    Ok(file) => ExtractState {
                        files: state.files.with_file(entry.filename, file),
                        ..state
                    },
                    Err(e) => ExtractState { files: state.files.with_failure(index, e), ..state },
                },
            }
        },
    }
}

/// The state after the first `n` entries of the directory have been handled
/// in directory order, starting idle and with nothing gathered.
pub open spec fn extraction_of(archive: Seq<u8>, entries: Seq<FatEntryView>, n: int) -> ExtractState
    decreases n,
{
    if n <= 0 {
        ExtractState { mode: CollectionMode::Idle, files: ExtractedView::empty() }
    } else {
        extract_step(extraction_of(archive, entries, n - 1), archive, entries[n - 1], n - 1)
    }
}

/// The number of entries that the header chunk of an archive announces.
pub open spec fn header_count(archive: Seq<u8>) -> int {
    parsed_entry(chunk(archive, 0))->Ok_0.offset as int
}

/// Whether the payload that `entry` designates lies within an archive of
/// `archive_len` bytes.
pub open spec fn entry_in_bounds(entry: FatEntryView, archive_len: int) -> bool {
    entry.offset + entry.length <= archive_len
}

/// A directory is valid for an archive where it is the directory that the
/// archive holds and each of its entries lies within the archive.
pub open spec fn valid_directory(entries: Seq<FatEntryView>, archive: Seq<u8>) -> bool {
    &&& directory_of(archive) == Ok::<Seq<FatEntryView>, GlbError>(entries)
    &&& forall|i: int|
        0 <= i < entries.len() ==> entry_in_bounds(#[trigger] entries[i], archive.len() as int)
}

/// A valid directory has as many entries as its header announces, each of
/// its entries ends within the archive, and the payload of each can be read.
pub proof fn lemma_valid_directory(archive: Seq<u8>, entries: Seq<FatEntryView>)
    requires
        valid_directory(entries, archive),
    ensures
        entries.len() == header_count(archive),
        forall|i: int|
            0 <= i < entries.len() ==> (#[trigger] entries[i]).offset + entries[i].length
                <= archive.len(),
        forall|i: int| 0 <= i < entries.len() ==> payload_of(archive, #[trigger] entries[i]) is Ok,
{
    lemma_entries_of_len(archive, header_count(archive));
}

/// The directory that an archive holds has as many entries as the header
/// of the archive announces.
pub proof fn lemma_directory_len(archive: Seq<u8>)
    requires
        directory_of(archive) is Ok,
    ensures
        directory_of(archive)->Ok_0.len() == header_count(archive),
{
    lemma_entries_of_len(archive, header_count(archive));
}

/// Whatever the entries hold, the names of the resources gathered are
/// listed once each, and only entries of the directory are reported.
pub proof fn lemma_extraction_wf(archive: Seq<u8>, entries: Seq<FatEntryView>, n: int)
    requires
        0 <= n <= entries.len(),
    ensures
        extraction_of(archive, entries, n).files.names_wf(),
        extraction_of(archive, entries, n).files.failures.len() <= n,
        forall|k: int|
            0 <= k < extraction_of(archive, entries, n).files.failures.len() ==> 0 <= (
            #[trigger] extraction_of(archive, entries, n).files.failures[k]).index < n,
    decreases n,
{
    if n > 0 {
        lemma_extraction_wf(archive, entries, n - 1);
        let before = extraction_of(archive, entries, n - 1).files;
        let after = extraction_of(archive, entries, n).files;
        let name = entries[n - 1].filename;
        if after.names != before.names {
            assert(after.names == before.names.push(name));
            assert(!before.named_files.contains_key(name));
            assert forall|key: Seq<char>| after.named_files.contains_key(key) implies exists|
                i: int,
            |
                0 <= i < after.names.len() && #[trigger] after.names[i] == key by {
                if key == name {
                    assert(after.names[after.names.len() - 1] == key);
                } else {
                    assert(before.named_files.contains_key(key));
                    let i = choose|i: int| 0 <= i < before.names.len() && before.names[i] == key;
                    assert(after.names[i] == key);
                }
            }
        } else if after.named_files != before.named_files {
            assert forall|key: Seq<char>| after.named_files.contains_key(key) implies exists|
                i: int,
            |
                0 <= i < after.names.len() && #[trigger] after.names[i] == key by {
                assert(before.named_files.contains_key(key));
            }
        }
    }
}

/// `name_end` is the one position that has no zero byte before it and
/// either a zero byte or the end of the field at it.
pub proof fn lemma_name_end(field: Seq<u8>, from: int, end: int)
    requires
        0 <= from <= end <= field.len(),
        forall|j: int| from <= j < end ==> field[j] != 0,
        end == field.len() || field[end] == 0,
    ensures
        name_end(field, from) == end,
    decreases end - from,
{
    if from < end {
        lemma_name_end(field, from + 1, end);
    }
}

/// Once a chunk fails to parse after a prefix that parsed, every longer
/// run of chunks fails with the same error.
pub proof fn lemma_entries_of_first_error(archive: Seq<u8>, bad: int, count: int, e: GlbError)
    requires
        1 <= bad <= count,
        entries_of(archive, bad - 1) is Ok,
        parsed_entry(chunk(archive, bad)) == Err::<FatEntryView, GlbError>(e),
    ensures
        entries_of(archive, count) == Err::<Seq<FatEntryView>, GlbError>(e),
    decreases count - bad,
{
    if bad < count {
        lemma_entries_of_first_error(archive, bad, count - 1, e);
    }
}

/// A run of chunks that parses has one entry per chunk.
pub proof fn lemma_entries_of_len(archive: Seq<u8>, count: int)
    requires
        0 <= count,
        entries_of(archive, count) is Ok,
    ensures
        entries_of(archive, count)->Ok_0.len() == count,
    decreases count,
{
    if count > 0 {
        lemma_entries_of_len(archive, count - 1);
    }
}

/// Parses a single 28-byte directory chunk.
pub fn parse_fat_entry(encrypted_bytes: &[u8]) -> (result: Result<FatEntry, GlbError>)
    ensures
        match result {
            Ok(entry) => parsed_entry(encrypted_bytes@) == Ok::<FatEntryView, GlbError>(entry@),
            Err(e) => parsed_entry(encrypted_bytes@) == Err::<FatEntryView, GlbError>(e),
        },
{
    reveal(parsed_entry);
    if encrypted_bytes.len() != CHUNK_SIZE {
        return Err(GlbError::ChunkSizeMismatch);
    }
    let mut decrypted_bytes: Bytes = Bytes::from(slice_to_vec(encrypted_bytes));
    decrypted_bytes.decrypt(vstd::array::array_as_slice(ENCRYPTION_KEY));
    let ghost field: Seq<u8> = decrypted_bytes@.subrange(12, 28);
    let mut offset: usize = 0;
    let flag: Flag = match decrypted_bytes.read_u32(&mut offset) {
        0 => Flag::Normal,
        1 => Flag::Encrypted,
        _ => {
            return Err(GlbError::UnknownFlag);
        },
    };
    let file_offset: u32 = decrypted_bytes.read_u32(&mut offset);
    let length: u32 = decrypted_bytes.read_u32(&mut offset);
    let mut end: usize = 12;
    while end < 28 && decrypted_bytes.get(end) != 0
        invariant
            12 <= end <= 28,
            decrypted_bytes@.len() == 28,
            field == decrypted_bytes@.subrange(12, 28),
            forall|j: int| 0 <= j < end - 12 ==> field[j] != 0,
        decreases 28 - end,
    {
        end = end + 1;
    }
    proof {
        lemma_name_end(field, 0, end - 12);
        assert(decrypted_bytes@.subrange(12, end as int) == name_bytes(decrypted_bytes@));
    }
    let filename: &[u8] = slice_subrange(decrypted_bytes.as_slice(), 12, end);
    match utf8_text(filename) {
        None => Err(GlbError::InvalidText),
        Some(text) => {
            proof {
                encode_utf8_decode_utf8(text@);
            }
            Ok(FatEntry { filename: text.to_owned(), flag, offset: file_offset, length })
        },
    }
}

/// Parses the first chunk of an archive as its header: the offset field of
/// the chunk is the number of entries that follow.
pub fn parse_header(encrypted_bytes: &[u8]) -> (result: Result<usize, GlbError>)
    ensures
        match result {
            Ok(count) => parsed_entry(encrypted_bytes@) is Ok && count == parsed_entry(
                encrypted_bytes@,
            )->Ok_0.offset,
            Err(e) => parsed_entry(encrypted_bytes@) == Err::<FatEntryView, GlbError>(e),
        },
{
    match parse_fat_entry(encrypted_bytes) {
        Ok(entry) => Ok(entry.offset as usize),
        Err(e) => Err(e),
    }
}

impl FileAllocationTable {
    /// Tells whether every entry lies within an archive of `archive_len`
    /// bytes.
    pub fn fits(&self, archive_len: usize) -> (fits: bool)
        ensures
            fits == forall|i: int|
                0 <= i < self@.len() ==> entry_in_bounds(#[trigger] self@[i], archive_len as int),
    {
        let mut index: usize = 0;
        while index < self.entries.len()
            invariant
                index <= self.entries@.len(),
                forall|i: int|
                    0 <= i < index ==> entry_in_bounds(#[trigger] self@[i], archive_len as int),
            decreases self.entries@.len() - index,
        {
            let entry: &FatEntry = &self.entries[index];
            if entry.offset as u64 + entry.length as u64 > archive_len as u64 {
                assert(!entry_in_bounds(self@[index as int], archive_len as int));
                return false;
            }
            assert(entry_in_bounds(self@[index as int], archive_len as int));
            index = index + 1;
        }
        true
    }
}

impl GlbArchive {
    /// Parses the directory of the archive.
    pub fn parse_fat(&self) -> (result: Result<FileAllocationTable, GlbError>)
        ensures
            match result {
                Ok(fat) => directory_of(self@) == Ok::<Seq<FatEntryView>, GlbError>(fat@),
                Err(e) => directory_of(self@) == Err::<Seq<FatEntryView>, GlbError>(e),
            },
            result matches Ok(fat) ==> fat.entries@.len() == header_count(self@),
    {
        let bytes: &[u8] = self.bytes.as_slice();
        if bytes.len() < CHUNK_SIZE {
            return Err(GlbError::ChunkSizeMismatch);
        }
        assert(bytes@.subrange(0, 28) == chunk(self@, 0));
        let fat_entries_count: usize = match parse_header(slice_subrange(bytes, 0, CHUNK_SIZE)) {
            Ok(count) => count,
            Err(e) => {
                return Err(e);
            },
        };
        if 28u64 * (fat_entries_count as u64 + 1) > bytes.len() as u64 {
            return Err(GlbError::ChunkSizeMismatch);
        }
        let mut entries: Vec<FatEntry> = Vec::new();
        let mut parsed: usize = 0;
        let mut offset: usize = CHUNK_SIZE;
        let total: usize = bytes.len();
        assert(Seq::new(entries@.len(), |i: int| entries@[i]@) == Seq::<FatEntryView>::empty());
        while parsed < fat_entries_count
            invariant
                parsed <= fat_entries_count,
                bytes@ == self@,
                total == bytes@.len(),
                parsed_entry(chunk(self@, 0)) is Ok,
                parsed_entry(chunk(self@, 0))->Ok_0.offset == fat_entries_count,
                28 * (fat_entries_count + 1) <= bytes@.len(),
                offset == 28 * (parsed + 1),
                entries@.len() == parsed,
                entries_of(self@, parsed as int) == Ok::<Seq<FatEntryView>, GlbError>(
                    Seq::new(entries@.len(), |i: int| entries@[i]@),
                ),
            decreases fat_entries_count - parsed,
        {
            let ghost before: Seq<FatEntryView> = Seq::new(entries@.len(), |i: int| entries@[i]@);
            assert(bytes@.subrange(offset as int, offset + 28) == chunk(self@, parsed + 1));
            match parse_fat_entry(slice_subrange(bytes, offset, offset + CHUNK_SIZE)) {
                Ok(entry) => {
                    entries.push(entry);
                    assert(Seq::new(entries@.len(), |i: int| entries@[i]@) == before.push(
                        entry@,
                    ));
                },
                Err(e) => {
                    proof {
                        lemma_entries_of_first_error(
                            self@,
                            parsed + 1,
                            fat_entries_count as int,
                            e,
                        );
                    }
                    return Err(e);
                },
            }
            parsed = parsed + 1;
            offset = offset + CHUNK_SIZE;
        }
        proof {
            lemma_entries_of_len(self@, fat_entries_count as int);
        }
        Ok(FileAllocationTable { entries })
    }

    /// Handles the entry at `index`: reads its payload, decodes it as its
    /// name asks, and files the resource in `extracted` or reports why the
    /// entry was left out. Returns the mode for the entries that follow.
    pub fn extract_entry(
        &self,
        entry: &FatEntry,
        index: usize,
        mode: CollectionMode,
        extracted: &mut Extracted,
    ) -> (next: CollectionMode)
        ensures
            (ExtractState { mode: next, files: final(extracted)@ }) == extract_step(
                (ExtractState { mode, files: old(extracted)@ }),
                self@,
                entry@,
                index as int,
            ),
    {
        let untyped_file: UntypedFile = match UntypedFile::read_file(self, entry) {
            Ok(file) => file,
            Err(e) => {
                extracted.report(index, e);
                return mode;
            },
        };
        let kind: EntryKind = classify(untyped_file.name());
        match kind {
            EntryKind::Text => match untyped_file.get_txt() {
                Ok(t) => extracted.insert(untyped_file.name().to_owned(), File::Text(t)),
                Err(e) => extracted.report(index, e),
            },
            EntryKind::Palette => match untyped_file.get_dat() {
                Ok(p) => extracted.insert(untyped_file.name().to_owned(), File::Palette(p)),
                Err(e) => extracted.report(index, e),
            },
            EntryKind::Sprite => match untyped_file.get_pic() {
                Ok(p) => extracted.insert(untyped_file.name().to_owned(), File::Pic(p)),
                Err(e) => extracted.report(index, e),
            },
            EntryKind::TileMap => match untyped_file.get_map() {
                Ok(m) => extracted.insert(untyped_file.name().to_owned(), File::TileMap(m)),
                Err(e) => extracted.report(index, e),
            },
            EntryKind::Anonymous => match mode {
                CollectionMode::Collecting => match untyped_file.get_tile() {
                    Ok(p) => extracted.push_tile(p),
                    Err(e) => extracted.report(index, e),
                },
                CollectionMode::Idle => extracted.report(index, GlbError::UnknownEntryKind),
            },
            EntryKind::Unknown => extracted.report(index, GlbError::UnknownEntryKind),
            EntryKind::BeginTiles | EntryKind::EndTiles => {},
        }
        next_mode(mode, kind)
    }

    /// Decodes every entry of the directory, in directory order.
    pub fn extract_files(&self, fat: &FileAllocationTable) -> (extracted: Extracted)
        ensures
            extracted@ == extraction_of(self@, fat@, fat@.len() as int).files,
            extracted@.names_wf(),
    {
        proof {
            lemma_extraction_wf(self@, fat@, fat@.len() as int);
        }
        let mut extracted: Extracted = Extracted::new();
        let mut mode: CollectionMode = CollectionMode::Idle;
        let mut index: usize = 0;
        while index < fat.entries.len()
            invariant
                index <= fat.entries@.len(),
                (ExtractState { mode, files: extracted@ }) == extraction_of(
                    self@,
                    fat@,
                    index as int,
                ),
            decreases fat.entries@.len() - index,
        {
            mode = self.extract_entry(&fat.entries[index], index, mode, &mut extracted);
            index = index + 1;
        }
        extracted
    }
}

} // verus!
