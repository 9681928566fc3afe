//! What an extraction yields, and the rules by which an entry's name
//! decides what becomes of the entry.

use crate::error::GlbError;
use crate::file::{File, FileView, Pic, PicView, Tiles};
use crate::utils::{str_ends_with, str_starts_with};
use vstd::hash_map::StringHashMap;
use vstd::prelude::*;

verus! {

/// What the name of an entry says the entry is.
#[derive(Debug, Clone, Copy, PartialEq, Eq, Structural)]
pub enum EntryKind {
    /// A text resource: the name ends with `TXT`.
    Text,
    /// A palette: the name ends with `_DAT`.
    Palette,
    /// A sprite: the name ends with `_PIC`, `_PIC//` or `_BLK`.
    Sprite,
    /// A tile map: the name ends with `_MAP`.
    TileMap,
    /// The entry before the first tile: the name starts with `STARTG`.
    BeginTiles,
    /// An entry without a name; a tile where tiles are being collected.
    Anonymous,
    /// The entry after the last tile: the name starts with `ENDG`.
    EndTiles,
    /// None of the above.
    Unknown,
}

/// Whether the entries that are met belong to the tile set.
#[derive(Debug, Clone, Copy, PartialEq, Eq, Structural)]
pub enum CollectionMode {
    Idle,
    Collecting,
}

/// An entry that was left out of the result, and why.
#[derive(Debug, Clone, Copy, PartialEq, Eq, Structural)]
pub struct EntryFailure {
    /// Position of the entry in the directory.
    pub index: usize,
    pub error: GlbError,
}

/// The kind that a name stands for. The rules are tried in this order, and
/// the first that matches decides.
pub open spec fn kind_of(name: Seq<char>) -> EntryKind {
    if "TXT"@.is_suffix_of(name) {
        EntryKind::Text
    } else if "_DAT"@.is_suffix_of(name) {
        EntryKind::Palette
    } else if "_PIC"@.is_suffix_of(name) || "_PIC//"@.is_suffix_of(name) || "_BLK"@.is_suffix_of(
        name,
    ) {
        EntryKind::Sprite
    } else if "_MAP"@.is_suffix_of(name) {
        EntryKind::TileMap
    } else if "STARTG"@.is_prefix_of(name) {
        EntryKind::BeginTiles
    } else if name.len() == 0 {
        EntryKind::Anonymous
    } else if "ENDG"@.is_prefix_of(name) {
        EntryKind::EndTiles
    } else {
        EntryKind::Unknown
    }
}

/// The mode after an entry of the given kind has been met.
pub open spec fn mode_after(mode: CollectionMode, kind: EntryKind) -> CollectionMode {
    match kind {
        EntryKind::BeginTiles => CollectionMode::Collecting,
        EntryKind::EndTiles => CollectionMode::Idle,
        _ => mode,
    }
}

/// Tells what the name of an entry says the entry is.
pub fn classify(name: &str) -> (kind: EntryKind)
    ensures
        kind == kind_of(name@),
{
    if str_ends_with(name, "TXT") {
        EntryKind::Text
    } else if str_ends_with(name, "_DAT") {
        EntryKind::Palette
    } else if str_ends_with(name, "_PIC") || str_ends_with(name, "_PIC//") || str_ends_with(
        name,
        "_BLK",
    ) {
        EntryKind::Sprite
    } else if str_ends_with(name, "_MAP") {
        EntryKind::TileMap
    } else if str_starts_with(name, "STARTG") {
        EntryKind::BeginTiles
    } else if name.is_empty() {
        EntryKind::Anonymous
    } else if str_starts_with(name, "ENDG") {
        EntryKind::EndTiles
    } else {
        EntryKind::Unknown
    }
}

/// Steps the tile-collection mode over an entry of the given kind.
pub fn next_mode(mode: CollectionMode, kind: EntryKind) -> (next: CollectionMode)
    ensures
        next == mode_after(mode, kind),
{
    match kind {
        EntryKind::BeginTiles => CollectionMode::Collecting,
        EntryKind::EndTiles => CollectionMode::Idle,
        _ => mode,
    }
}

/// The resources of one archive.
pub struct Extracted {
    /// The named resources, by entry name.
    pub named_files: StringHashMap<File>,
    /// The names that `named_files` holds, each once, in the order in which
    /// they were first filed.
    pub names: Vec<String>,
    /// The tile set.
    pub tiles: Tiles,
    /// The entries that were left out, in directory order.
    pub failures: Vec<EntryFailure>,
}

/// The resources of one archive over sequences and maps.
pub struct ExtractedView {
    pub named_files: Map<Seq<char>, FileView>,
    pub names: Seq<Seq<char>>,
    pub tiles: Seq<PicView>,
    pub failures: Seq<EntryFailure>,
}

impl View for Extracted {
    type V = ExtractedView;

    open spec fn view(&self) -> ExtractedView {
        ExtractedView {
            named_files: Map::new(
                |name: Seq<char>| self.named_files@.contains_key(name),
                |name: Seq<char>| self.named_files@[name]@,
            ),
            names: Seq::new(self.names@.len(), |i: int| self.names@[i]@),
            tiles: self.tiles@,
            failures: self.failures@,
        }
    }
}

impl ExtractedView {
    /// The result that holds nothing.
    pub open spec fn empty() -> ExtractedView {
        ExtractedView {
            named_files: Map::empty(),
            names: Seq::empty(),
            tiles: Seq::empty(),
            failures: Seq::empty(),
        }
    }

    /// The result with `file` filed under `name`, in place of what was filed
    /// under that name before.
    pub open spec fn with_file(self, name: Seq<char>, file: FileView) -> ExtractedView {
        ExtractedView {
            named_files: self.named_files.insert(name, file),
            names: if self.named_files.contains_key(name) {
                self.names
            } else {
                self.names.push(name)
            },
            ..self
        }
    }

    /// The result with `tile` appended to the tile set.
    pub open spec fn with_tile(self, tile: PicView) -> ExtractedView {
        ExtractedView { tiles: self.tiles.push(tile), ..self }
    }

    /// The result with one more entry reported as left out.
    pub open spec fn with_failure(self, index: int, error: GlbError) -> ExtractedView {
        ExtractedView {
            failures: self.failures.push(EntryFailure { index: index as usize, error }),
            ..self
        }
    }

    /// `names` lists the names of the named resources, each once.
    pub open spec fn names_wf(self) -> bool {
        &&& forall|i: int|
            0 <= i < self.names.len() ==> self.named_files.contains_key(#[trigger] self.names[i])
        &&& forall|name: Seq<char>|
            self.named_files.contains_key(name) ==> exists|i: int|
                0 <= i < self.names.len() && #[trigger] self.names[i] == name
        &&& forall|i: int, j: int|
            0 <= i < j < self.names.len() ==> #[trigger] self.names[i] != #[trigger] self.names[j]
    }
}

impl Extracted {
    /// A result that holds nothing yet.
    pub fn new() -> (extracted: Extracted)
        ensures
            extracted@ == ExtractedView::empty(),
    {
        let extracted: Extracted = Extracted {
            named_files: StringHashMap::new(),
            names: Vec::new(),
            tiles: Tiles { tiles: Vec::new() },
            failures: Vec::new(),
        };
        assert(extracted@.named_files =~= Map::empty());
        assert(extracted@.names =~= Seq::empty());
        assert(extracted@.tiles =~= Seq::empty());
        extracted
    }

    /// The resource filed under `name`, if there is one.
    pub fn get(&self, name: &str) -> (file: Option<&File>)
        ensures
            file is Some <==> self@.named_files.contains_key(name@),
            file matches Some(f) ==> f@ == self@.named_files[name@],
    {
        self.named_files.get(name)
    }

    /// Files `file` under `name`, in place of what was filed under that
    /// name before.
    pub fn insert(&mut self, name: String, file: File)
        ensures
            final(self)@ == old(self)@.with_file(name@, file@),
    {
        if !self.named_files.contains_key(name.as_str()) {
            self.names.push(name.clone());
        }
        self.named_files.insert(name, file);
        assert(final(self)@.named_files =~= old(self)@.named_files.insert(name@, file@));
        assert(final(self)@.names =~= old(self)@.with_file(name@, file@).names);
    }

    /// Appends `tile` to the tile set.
    pub fn push_tile(&mut self, tile: Pic)
        ensures
            final(self)@ == old(self)@.with_tile(tile@),
    {
        self.tiles.tiles.push(tile);
        assert(final(self)@.tiles =~= old(self)@.tiles.push(tile@));
        assert(final(self)@.named_files =~= old(self)@.named_files);
        assert(final(self)@.names =~= old(self)@.names);
    }

    /// Reports the entry at `index` as left out because of `error`.
    pub fn report(&mut self, index: usize, error: GlbError)
        ensures
            final(self)@ == old(self)@.with_failure(index as int, error),
    {
        self.failures.push(EntryFailure { index, error });
        assert(final(self)@.named_files =~= old(self)@.named_files);
        assert(final(self)@.names =~= old(self)@.names);
        assert(final(self)@.tiles =~= old(self)@.tiles);
    }
}

} // verus!
