//! The typed resources of an archive and the decoders that produce them
//! from the bytes of one entry.

use crate::bytes::Bytes;
use crate::error::GlbError;
use crate::glb_archive::{FatEntry, FatEntryView, Flag, GlbArchive, ENCRYPTION_KEY};
use crate::utils::{decrypt, decrypted, initial_cursor, le_u16, le_u32};
use vstd::prelude::*;
use vstd::slice::slice_subrange;
use vstd::utf8::{decode_utf8, valid_utf8};

verus! {

/// Columns of every tile map.
pub const MAP_WIDTH: usize = 9;

/// Rows of every tile map.
pub const MAP_HEIGHT: usize = 150;

/// A text resource, stored verbatim.
#[derive(Debug, PartialEq, Clone)]
pub struct Text {
    pub filename: String,
    pub text: String,
}

/// A text resource over sequences of characters.
pub struct TextView {
    pub filename: Seq<char>,
    pub text: Seq<char>,
}

impl View for Text {
    type V = TextView;

    open spec fn view(&self) -> TextView {
        TextView { filename: self.filename@, text: self.text@ }
    }
}

/// One colour with its opacity.
#[derive(Debug, PartialEq, Eq, Clone, Copy, Structural)]
pub struct ArgbPixel {
    pub alpha: u8,
    pub red: u8,
    pub green: u8,
    pub blue: u8,
}

/// An ordered list of colours that sprite pixels index into.
#[derive(Debug, PartialEq, Clone)]
pub struct Palette {
    pub filename: String,
    pub palette: Vec<ArgbPixel>,
}

/// A palette over sequences.
pub struct PaletteView {
    pub filename: Seq<char>,
    pub palette: Seq<ArgbPixel>,
}

impl View for Palette {
    type V = PaletteView;

    open spec fn view(&self) -> PaletteView {
        PaletteView { filename: self.filename@, palette: self.palette@ }
    }
}

/// A rectangular image whose cells are palette indices, or `None` where
/// the image is transparent. Rows are stored one after another.
#[derive(Debug, PartialEq, Clone)]
pub struct Pic {
    pub filename: String,
    pub width: usize,
    pub height: usize,
    pub pixels: Vec<Option<u8>>,
}

/// A sprite over sequences.
pub struct PicView {
    pub filename: Seq<char>,
    pub width: nat,
    pub height: nat,
    pub pixels: Seq<Option<u8>>,
}

impl View for Pic {
    type V = PicView;

    open spec fn view(&self) -> PicView {
        PicView {
            filename: self.filename@,
            width: self.width as nat,
            height: self.height as nat,
            pixels: self.pixels@,
        }
    }
}

impl PicView {
    /// The pixel grid holds exactly one cell for each position.
    pub open spec fn wf(self) -> bool {
        self.pixels.len() == self.width * self.height
    }
}

/// A level layout: a grid of indices into the tile set.
#[derive(Debug, PartialEq, Clone)]
pub struct TileMap {
    pub filename: String,
    pub width: usize,
    pub height: usize,
    pub actor_count: u32,
    pub tiles: [[u16; 9]; 150],
}

/// A tile map over sequences: `tiles[y][x]` is the tile of row `y`, column `x`.
pub struct TileMapView {
    pub filename: Seq<char>,
    pub width: nat,
    pub height: nat,
    pub actor_count: u32,
    pub tiles: Seq<Seq<u16>>,
}

impl View for TileMap {
    type V = TileMapView;

    open spec fn view(&self) -> TileMapView {
        TileMapView {
            filename: self.filename@,
            width: self.width as nat,
            height: self.height as nat,
            actor_count: self.actor_count,
            tiles: Seq::new(150, |y: int| self.tiles@[y]@),
        }
    }
}

impl TileMapView {
    /// The grid has 150 rows of 9 columns each.
    pub open spec fn wf(self) -> bool {
        &&& self.width == 9
        &&& self.height == 150
        &&& self.tiles.len() == 150
        &&& forall|y: int| 0 <= y < 150 ==> (#[trigger] self.tiles[y]).len() == 9
    }
}

/// The tile set of an archive, in directory order.
#[derive(Debug, PartialEq, Clone)]
pub struct Tiles {
    pub tiles: Vec<Pic>,
}

impl View for Tiles {
    type V = Seq<PicView>;

    open spec fn view(&self) -> Seq<PicView> {
        Seq::new(self.tiles@.len(), |i: int| self.tiles@[i]@)
    }
}

/// A decoded resource.
#[derive(Debug, PartialEq, Clone)]
pub enum File {
    Text(Text),
    Palette(Palette),
    Pic(Pic),
    TileMap(TileMap),
    Tiles(Tiles),
}

/// A decoded resource over sequences.
pub enum FileView {
    Text(TextView),
    Palette(PaletteView),
    Pic(PicView),
    TileMap(TileMapView),
    Tiles(Seq<PicView>),
}

impl View for File {
    type V = FileView;

    open spec fn view(&self) -> FileView {
        match *self {
            File::Text(t) => FileView::Text(t@),
            File::Palette(p) => FileView::Palette(p@),
            File::Pic(p) => FileView::Pic(p@),
            File::TileMap(m) => FileView::TileMap(m@),
            File::Tiles(t) => FileView::Tiles(t@),
        }
    }
}

/// The bytes of one entry, decrypted where the entry asks for it, together
/// with the entry's name.
#[derive(Debug, PartialEq, Clone)]
pub struct UntypedFile {
    bytes: Bytes,
    pub filename: String,
}

/// An entry's payload and name over sequences.
pub struct UntypedFileView {
    pub bytes: Seq<u8>,
    pub filename: Seq<char>,
}

impl View for UntypedFile {
    type V = UntypedFileView;

    closed spec fn view(&self) -> UntypedFileView {
        UntypedFileView { bytes: self.bytes@, filename: self.filename@ }
    }
}

/// The payload that `entry` designates in `archive`, decrypted as one
/// cipher unit where the entry is flagged as encrypted.
pub open spec fn payload_of(archive: Seq<u8>, entry: FatEntryView) -> Result<Seq<u8>, GlbError> {
    if entry.offset + entry.length > archive.len() {
        Err(GlbError::OutOfBounds)
    } else {
        let raw = archive.subrange(entry.offset as int, entry.offset + entry.length);
        if entry.flag == Flag::Encrypted {
            Ok(decrypted(raw, ENCRYPTION_KEY@, initial_cursor(8)))
        } else {
            Ok(raw)
        }
    }
}

/// The text resource that a payload holds.
pub open spec fn text_of(bytes: Seq<u8>, filename: Seq<char>) -> Result<TextView, GlbError> {
    if valid_utf8(bytes) {
        Ok(TextView { filename, text: decode_utf8(bytes) })
    } else {
        Err(GlbError::InvalidText)
    }
}

/// A 6-bit VGA channel value scaled to 8 bits. Values above 63 are not
/// VGA values; their scaled value is kept modulo 256.
pub open spec fn vga_to_8bit(channel: u8) -> u8 {
    ((channel * 255 / 63) % 256) as u8
}

/// The `i`-th colour of a palette payload.
pub open spec fn palette_color(bytes: Seq<u8>, i: int) -> ArgbPixel {
    ArgbPixel {
        alpha: 255,
        red: vga_to_8bit(bytes[3 * i]),
        green: vga_to_8bit(bytes[3 * i + 1]),
        blue: vga_to_8bit(bytes[3 * i + 2]),
    }
}

/// The palette that a payload holds: one opaque colour for each group of
/// three bytes. A payload that ends inside a group is not a palette.
pub open spec fn palette_of(bytes: Seq<u8>, filename: Seq<char>) -> Result<PaletteView, GlbError> {
    if bytes.len() % 3 != 0 {
        Err(GlbError::OutOfBounds)
    } else {
        Ok(
            PaletteView {
                filename,
                palette: Seq::new(bytes.len() / 3, |i: int| palette_color(bytes, i)),
            },
        )
    }
}

/// A grid of `n` transparent cells.
pub open spec fn transparent(n: nat) -> Seq<Option<u8>> {
    Seq::new(n, |i: int| None::<u8>)
}

/// The first `n` bytes after the 20-byte sprite header, each as the palette
/// index of one cell.
pub open spec fn raw_pixels(bytes: Seq<u8>, n: nat) -> Seq<Option<u8>> {
    Seq::new(n, |i: int| Some(bytes[20 + i]))
}

/// The grid after `data` has been written to consecutive cells from `start`.
pub open spec fn write_span(grid: Seq<Option<u8>>, start: int, data: Seq<u8>) -> Seq<Option<u8>> {
    Seq::new(
        grid.len(),
        |i: int|
            if start <= i < start + data.len() {
                Some(data[i - start])
            } else {
                grid[i]
            },
    )
}

/// The grid after all the span records that begin at `at` have been written
/// to `grid`, up to the sentinel record. A record is its column, its row,
/// its linear offset and its count, then as many bytes as the count says;
/// it writes them from cell `row * width + column`.
pub open spec fn spans_of(bytes: Seq<u8>, at: int, width: int, grid: Seq<Option<u8>>) -> Result<
    Seq<Option<u8>>,
    GlbError,
>
    decreases bytes.len() - at,
{
    if at < 0 || at + 16 > bytes.len() {
        Err(GlbError::OutOfBounds)
    } else {
        let count = le_u32(bytes, at + 12);
        let start = le_u32(bytes, at + 4) * width + le_u32(bytes, at);
        if le_u32(bytes, at + 8) == 0xFFFF_FFFF && count == 0xFFFF_FFFF {
            Ok(grid)
        } else if start + count > grid.len() {
            Err(GlbError::SpriteOverflow)
        } else if at + 16 + count > bytes.len() {
            Err(GlbError::OutOfBounds)
        } else {
            spans_of(
                bytes,
                at + 16 + count,
                width,
                write_span(grid, start, bytes.subrange(at + 16, at + 16 + count)),
            )
        }
    }
}

/// The sprite that a payload of raw cells holds: a 20-byte header whose
/// last two fields are the width and the height, then one byte for each
/// cell, row after row. Bytes after the last cell are ignored.
pub open spec fn tile_of(bytes: Seq<u8>, filename: Seq<char>) -> Result<PicView, GlbError> {
    if bytes.len() < 20 {
        Err(GlbError::OutOfBounds)
    } else {
        let width = le_u32(bytes, 12);
        let height = le_u32(bytes, 16);
        if width * height > bytes.len() - 20 {
            Err(GlbError::OutOfBounds)
        } else {
            Ok(
                PicView {
                    filename,
                    width: width as nat,
                    height: height as nat,
                    pixels: raw_pixels(bytes, (width * height) as nat),
                },
            )
        }
    }
}

/// The sprite that a payload holds. Where the third header field is zero
/// the cells follow raw; otherwise span records follow, and the cells that
/// no span writes stay transparent. A grid with more cells than `usize` can
/// count is out of bounds.
pub open spec fn pic_of(bytes: Seq<u8>, filename: Seq<char>) -> Result<PicView, GlbError> {
    if bytes.len() < 20 {
        Err(GlbError::OutOfBounds)
    } else if le_u32(bytes, 8) == 0 {
        tile_of(bytes, filename)
    } else {
        let width = le_u32(bytes, 12);
        let height = le_u32(bytes, 16);
        if width * height > usize::MAX {
            Err(GlbError::OutOfBounds)
        } else {
            match spans_of(bytes, 20, width, transparent((width * height) as nat)) {
                Ok(pixels) => Ok(
                    PicView { filename, width: width as nat, height: height as nat, pixels },
                ),
                Err(e) => Err(e),
            }
        }
    }
}

/// The tile index of the cell in column `x` of row `y` of a tile-map payload.
pub open spec fn map_tile(bytes: Seq<u8>, x: int, y: int) -> u16 {
    le_u16(bytes, 16 + 4 * (9 * y + x)) as u16
}

/// The tile map that a payload holds: a 16-byte header whose third field is
/// the actor count, then 150 rows of 9 cells, each cell a tile index and a
/// tile-set index of 16 bits.
pub open spec fn map_of(bytes: Seq<u8>, filename: Seq<char>) -> Result<TileMapView, GlbError> {
    if bytes.len() < 16 + 4 * 9 * 150 {
        Err(GlbError::OutOfBounds)
    } else {
        Ok(
            TileMapView {
                filename,
                width: 9,
                height: 150,
                actor_count: le_u32(bytes, 8) as u32,
                tiles: Seq::new(150, |y: int| Seq::new(9, |x: int| map_tile(bytes, x, y))),
            },
        )
    }
}

/// The colour of one cell: the palette colour under its index, or fully
/// transparent black where the cell holds no index.
pub open spec fn argb_of(pixel: Option<u8>, palette: Seq<ArgbPixel>) -> ArgbPixel {
    match pixel {
        None => ArgbPixel { alpha: 0, red: 0, green: 0, blue: 0 },
        Some(ix) => palette[ix as int],
    }
}

/// Span records keep the number of cells of the grid.
pub proof fn lemma_spans_keep_len(bytes: Seq<u8>, at: int, width: int, grid: Seq<Option<u8>>)
    requires
        spans_of(bytes, at, width, grid) is Ok,
    ensures
        spans_of(bytes, at, width, grid)->Ok_0.len() == grid.len(),
    decreases bytes.len() - at,
{
    if at < 0 || at + 16 > bytes.len() {
    } else {
        let count = le_u32(bytes, at + 12);
        let start = le_u32(bytes, at + 4) * width + le_u32(bytes, at);
        if le_u32(bytes, at + 8) == 0xFFFF_FFFF && count == 0xFFFF_FFFF {
        } else {
            lemma_spans_keep_len(
                bytes,
                at + 16 + count,
                width,
                write_span(grid, start, bytes.subrange(at + 16, at + 16 + count)),
            );
        }
    }
}

/// A span record that would write past the last cell of the grid is
/// refused: nothing is written, and the sprite does not decode.
pub proof fn lemma_span_overflow(bytes: Seq<u8>, at: int, width: int, grid: Seq<Option<u8>>)
    requires
        0 <= at,
        at + 16 <= bytes.len(),
        !(le_u32(bytes, at + 8) == 0xFFFF_FFFF && le_u32(bytes, at + 12) == 0xFFFF_FFFF),
        le_u32(bytes, at + 4) * width + le_u32(bytes, at) + le_u32(bytes, at + 12) > grid.len(),
    ensures
        spans_of(bytes, at, width, grid) == Err::<Seq<Option<u8>>, GlbError>(
            GlbError::SpriteOverflow,
        ),
{
}

/// A span writes its bytes to the cells from its first cell on, and leaves
/// every other cell of the grid as it was.
pub proof fn lemma_write_span(grid: Seq<Option<u8>>, start: int, data: Seq<u8>, i: int)
    requires
        0 <= start,
        start + data.len() <= grid.len(),
        0 <= i < grid.len(),
    ensures
        write_span(grid, start, data).len() == grid.len(),
        start <= i < start + data.len() ==> write_span(grid, start, data)[i] == Some(
            data[i - start],
        ),
        !(start <= i < start + data.len()) ==> write_span(grid, start, data)[i] == grid[i],
{
}

/// Every sprite that decodes has exactly one cell for each position of its
/// grid, whether its cells were stored raw or as spans.
pub proof fn lemma_pic_grid_size(bytes: Seq<u8>, filename: Seq<char>)
    ensures
        pic_of(bytes, filename) matches Ok(pic) ==> pic.wf(),
        tile_of(bytes, filename) matches Ok(pic) ==> pic.wf(),
{
    if bytes.len() >= 20 && le_u32(bytes, 8) != 0 {
        let width = le_u32(bytes, 12);
        let height = le_u32(bytes, 16);
        if width * height <= usize::MAX {
            let blank = transparent((width * height) as nat);
            if spans_of(bytes, 20, width, blank) is Ok {
                lemma_spans_keep_len(bytes, 20, width, blank);
            }
        }
    }
}

/// Every tile map that decodes has 150 rows of 9 columns.
pub proof fn lemma_map_grid_size(bytes: Seq<u8>, filename: Seq<char>)
    ensures
        map_of(bytes, filename) matches Ok(map) ==> map.wf(),
{
}

/// Scales a 6-bit VGA channel value to 8 bits.
pub fn scale_channel(channel: u8) -> (scaled: u8)
    ensures
        scaled == vga_to_8bit(channel),
{
    ((channel as u32 * 255 / 63) % 256) as u8
}

/// Scaling sends 0 to 0 and 63 to 255, keeps every 6-bit value within eight
/// bits without wrapping, and preserves the order of 6-bit values.
pub proof fn lemma_vga_scaling(a: u8, b: u8)
    requires
        a <= b <= 63,
    ensures
        vga_to_8bit(0) == 0,
        vga_to_8bit(63) == 255,
        vga_to_8bit(a) == a * 255 / 63,
        0 <= vga_to_8bit(a) <= vga_to_8bit(b) <= 255,
{
}

impl UntypedFile {
    /// Pairs the bytes of a payload with the name of its entry.
    pub fn new(bytes: Vec<u8>, filename: String) -> (file: UntypedFile)
        ensures
            file@.bytes == bytes@,
            file@.filename == filename@,
    {
        UntypedFile { bytes: Bytes::from(bytes), filename }
    }

    /// The name of the entry that the bytes belong to.
    pub fn name(&self) -> (name: &str)
        ensures
            name@ == self@.filename,
    {
        self.filename.as_str()
    }

    /// The bytes of the payload.
    pub fn bytes(&self) -> (bytes: &Bytes)
        ensures
            bytes@ == self@.bytes,
    {
        &self.bytes
    }

    /// Copies the bytes of one entry out of the archive, and decrypts them
    /// if the entry is flagged as encrypted.
    pub fn read_file(archive: &GlbArchive, entry: &FatEntry) -> (result: Result<
        UntypedFile,
        GlbError,
    >)
        ensures
            match result {
                Ok(file) => payload_of(archive@, entry@) == Ok::<Seq<u8>, GlbError>(file@.bytes)
                    && file@.filename == entry@.filename,
                Err(e) => payload_of(archive@, entry@) == Err::<Seq<u8>, GlbError>(e),
            },
    {
        let length: usize = entry.length as usize;
        let offset: usize = entry.offset as usize;
        let total: usize = archive.bytes.len();
        if offset > total || length > total - offset {
            return Err(GlbError::OutOfBounds);
        }
        let raw: &[u8] = slice_subrange(archive.bytes.as_slice(), offset, offset + length);
        let file: Vec<u8> = match entry.flag {
            Flag::Encrypted => {
                decrypt(raw, vstd::array::array_as_slice(ENCRYPTION_KEY))
            },
            Flag::Normal => vstd::slice::slice_to_vec(raw),
        };
        Ok(UntypedFile::new(file, entry.filename.clone()))
    }

    /// The payload as a text resource.
    pub fn get_txt(&self) -> (result: Result<Text, GlbError>)
        ensures
            match result {
                Ok(text) => text_of(self@.bytes, self@.filename) == Ok::<TextView, GlbError>(text@),
                Err(e) => text_of(self@.bytes, self@.filename) == Err::<TextView, GlbError>(e),
            },
    {
        match self.bytes.as_text() {
            Some(s) => Ok(Text { filename: self.filename.clone(), text: s.to_owned() }),
            None => Err(GlbError::InvalidText),
        }
    }

    /// The payload as a VGA palette.
    pub fn get_dat(&self) -> (result: Result<Palette, GlbError>)
        ensures
            match result {
                Ok(palette) => palette_of(self@.bytes, self@.filename) == Ok::<
                    PaletteView,
                    GlbError,
                >(palette@),
                Err(e) => palette_of(self@.bytes, self@.filename) == Err::<PaletteView, GlbError>(
                    e,
                ),
            },
    {
        let total: usize = self.bytes.len();
        if total % 3 != 0 {
            return Err(GlbError::OutOfBounds);
        }
        let mut palette: Vec<ArgbPixel> = Vec::with_capacity(total / 3);
        let mut ix: usize = 0;
        while ix < total
            invariant
                total == self.bytes@.len(),
                total % 3 == 0,
                ix % 3 == 0,
                ix <= total,
                palette@.len() == ix / 3,
                forall|i: int| 0 <= i < palette@.len() ==> palette@[i] == palette_color(self.bytes@, i),
            decreases total - ix,
        {
            let red: u8 = scale_channel(self.bytes.get(ix));
            let green: u8 = scale_channel(self.bytes.get(ix + 1));
            let blue: u8 = scale_channel(self.bytes.get(ix + 2));
            palette.push(ArgbPixel { alpha: 255, red, green, blue });
            ix = ix + 3;
        }
        assert(palette@ == Seq::new(self.bytes@.len() / 3, |i: int| palette_color(self.bytes@, i)));
        Ok(Palette { filename: self.filename.clone(), palette })
    }

    /// The payload as a sprite, stored raw or as span records.
    pub fn get_pic(&self) -> (result: Result<Pic, GlbError>)
        ensures
            match result {
                Ok(pic) => pic_of(self@.bytes, self@.filename) == Ok::<PicView, GlbError>(pic@)
                    && pic@.wf(),
                Err(e) => pic_of(self@.bytes, self@.filename) == Err::<PicView, GlbError>(e),
            },
    {
        let total: usize = self.bytes.len();
        if total < 20 {
            return Err(GlbError::OutOfBounds);
        }
        let mut offset: usize = 0;
        let _unknown_1: u32 = self.bytes.read_u32(&mut offset);
        let _unknown_2: u32 = self.bytes.read_u32(&mut offset);
        let i_line_count: u32 = self.bytes.read_u32(&mut offset);
        let width: u32 = self.bytes.read_u32(&mut offset);
        let height: u32 = self.bytes.read_u32(&mut offset);
        if i_line_count == 0 {
            return self.get_tile();
        }
        assert(width as int * height as int <= 0xFFFF_FFFF * 0xFFFF_FFFF) by (nonlinear_arith)
            requires
                0 <= width <= 0xFFFF_FFFF,
                0 <= height <= 0xFFFF_FFFF,
        ;
        let cells: u64 = width as u64 * height as u64;
        if cells > usize::MAX as u64 {
            return Err(GlbError::OutOfBounds);
        }
        let mut pixels: Vec<Option<u8>> = blank_grid(cells as usize);
        let ghost blank: Seq<Option<u8>> = pixels@;
        loop
            invariant
                total == self.bytes@.len(),
                20 <= offset <= total,
                cells == width * height,
                cells <= usize::MAX,
                width as int == le_u32(self.bytes@, 12),
                height as int == le_u32(self.bytes@, 16),
                le_u32(self.bytes@, 8) != 0,
                blank == transparent(cells as nat),
                pixels@.len() == cells,
                spans_of(self.bytes@, 20, width as int, blank) == spans_of(
                    self.bytes@,
                    offset as int,
                    width as int,
                    pixels@,
                ),
            decreases total - offset,
        {
            if total - offset < 16 {
                return Err(GlbError::OutOfBounds);
            }
            let ghost record: int = offset as int;
            let i_pos_x: u32 = self.bytes.read_u32(&mut offset);
            let i_pos_y: u32 = self.bytes.read_u32(&mut offset);
            let i_linear_offset: u32 = self.bytes.read_u32(&mut offset);
            let i_count: u32 = self.bytes.read_u32(&mut offset);
            if i_linear_offset == 0xFFFF_FFFF && i_count == 0xFFFF_FFFF {
                proof {
                    lemma_spans_keep_len(self.bytes@, 20, width as int, blank);
                }
                return Ok(Pic {
                    filename: self.filename.clone(),
                    width: width as usize,
                    height: height as usize,
                    pixels,
                });
            }
            assert(i_pos_y as int * width as int <= 0xFFFF_FFFF * 0xFFFF_FFFF) by (nonlinear_arith)
                requires
                    0 <= width <= 0xFFFF_FFFF,
                    0 <= i_pos_y <= 0xFFFF_FFFF,
            ;
            let start: u128 = i_pos_y as u128 * width as u128 + i_pos_x as u128;
            if start + i_count as u128 > cells as u128 {
                return Err(GlbError::SpriteOverflow);
            }
            if i_count as usize > total - offset {
                return Err(GlbError::OutOfBounds);
            }
            let first: usize = start as usize;
            let count: usize = i_count as usize;
            let ghost before: Seq<Option<u8>> = pixels@;
            let ghost data: Seq<u8> = self.bytes@.subrange(record + 16, record + 16 + count);
            let mut pass: usize = 0;
            while pass < count
                invariant
                    total == self.bytes@.len(),
                    offset + count <= total,
                    offset == record + 16,
                    first + count <= pixels@.len(),
                    first + count <= usize::MAX,
                    pass <= count,
                    pixels@.len() == before.len(),
                    data == self.bytes@.subrange(record + 16, record + 16 + count),
                    forall|i: int|
                        0 <= i < pixels@.len() ==> pixels@[i] == if first <= i < first + pass {
                            Some(data[i - first])
                        } else {
                            before[i]
                        },
                decreases count - pass,
            {
                let palette_ix: u8 = self.bytes.get(offset + pass);
                pixels[first + pass] = Some(palette_ix);
                pass = pass + 1;
            }
            assert(pixels@ == write_span(before, first as int, data));
            offset = offset + count;
        }
    }

    /// The payload as a tile map.
    pub fn get_map(&self) -> (result: Result<TileMap, GlbError>)
        ensures
            match result {
                Ok(map) => map_of(self@.bytes, self@.filename) == Ok::<TileMapView, GlbError>(
                    map@,
                ) && map@.wf(),
                Err(e) => map_of(self@.bytes, self@.filename) == Err::<TileMapView, GlbError>(e),
            },
    {
        let total: usize = self.bytes.len();
        if total < 16 + 4 * MAP_WIDTH * MAP_HEIGHT {
            return Err(GlbError::OutOfBounds);
        }
        let filename: String = self.filename.clone();
        let mut offset: usize = 0;
        let _file_size: u32 = self.bytes.read_u32(&mut offset);
        let _actor_offset: u32 = self.bytes.read_u32(&mut offset);
        let actor_count: u32 = self.bytes.read_u32(&mut offset);
        let _tile_data: u32 = self.bytes.read_u32(&mut offset);
        let mut tiles: [[u16; 9]; 150] = [[0u16; 9]; 150];
        let mut y: usize = 0;
        while y < MAP_HEIGHT
            invariant
                total == self.bytes@.len(),
                total >= 16 + 4 * 9 * 150,
                y <= 150,
                offset == 16 + 4 * (9 * y),
                forall|yy: int, xx: int|
                    0 <= yy < y && 0 <= xx < 9 ==> #[trigger] tiles@[yy]@[xx] == map_tile(
                        self.bytes@,
                        xx,
                        yy,
                    ),
            decreases 150 - y,
        {
            let mut row: [u16; 9] = [0u16; 9];
            let mut x: usize = 0;
            while x < MAP_WIDTH
                invariant
                    total == self.bytes@.len(),
                    total >= 16 + 4 * 9 * 150,
                    y < 150,
                    x <= 9,
                    offset == 16 + 4 * (9 * y + x),
                    forall|xx: int|
                        0 <= xx < x ==> #[trigger] row@[xx] == map_tile(self.bytes@, xx, y as int),
                decreases 9 - x,
            {
                let tile_number: u16 = self.bytes.read_u16(&mut offset);
                let _tileset_number: u16 = self.bytes.read_u16(&mut offset);
                row[x] = tile_number;
                x = x + 1;
            }
            tiles[y] = row;
            y = y + 1;
        }
        let map: TileMap = TileMap {
            width: MAP_WIDTH,
            height: MAP_HEIGHT,
            filename,
            actor_count,
            tiles,
        };
        assert(map@.tiles =~~= Seq::new(
            150,
            |y: int| Seq::new(9, |x: int| map_tile(self.bytes@, x, y)),
        ));
        Ok(map)
    }

    /// The payload as a tile: a sprite whose cells are always stored raw.
    pub fn get_tile(&self) -> (result: Result<Pic, GlbError>)
        ensures
            match result {
                Ok(pic) => tile_of(self@.bytes, self@.filename) == Ok::<PicView, GlbError>(pic@)
                    && pic@.wf(),
                Err(e) => tile_of(self@.bytes, self@.filename) == Err::<PicView, GlbError>(e),
            },
    {
        let total: usize = self.bytes.len();
        if total < 20 {
            return Err(GlbError::OutOfBounds);
        }
        let filename: String = self.filename.clone();
        let mut offset: usize = 0;
        let _unknown_1: u32 = self.bytes.read_u32(&mut offset);
        let _unknown_2: u32 = self.bytes.read_u32(&mut offset);
        let _unknown_3: u32 = self.bytes.read_u32(&mut offset);
        let width: u32 = self.bytes.read_u32(&mut offset);
        let height: u32 = self.bytes.read_u32(&mut offset);
        assert(width as int * height as int <= 0xFFFF_FFFF * 0xFFFF_FFFF) by (nonlinear_arith)
            requires
                0 <= width <= 0xFFFF_FFFF,
                0 <= height <= 0xFFFF_FFFF,
        ;
        let cells: u64 = width as u64 * height as u64;
        if cells > (total - 20) as u64 {
            return Err(GlbError::OutOfBounds);
        }
        let count: usize = cells as usize;
        let mut pixels: Vec<Option<u8>> = Vec::with_capacity(count);
        let mut ix: usize = 0;
        while ix < count
            invariant
                total == self.bytes@.len(),
                20 + count <= total,
                ix <= count,
                pixels@.len() == ix,
                forall|i: int| 0 <= i < ix ==> pixels@[i] == Some(self.bytes@[20 + i]),
            decreases count - ix,
        {
            pixels.push(Some(self.bytes.get(20 + ix)));
            ix = ix + 1;
        }
        assert(pixels@ == raw_pixels(self.bytes@, count as nat));
        Ok(Pic { filename, width: width as usize, height: height as usize, pixels })
    }
}

/// A grid of `cells` cells, all transparent.
pub fn blank_grid(cells: usize) -> (grid: Vec<Option<u8>>)
    ensures
        grid@ == transparent(cells as nat),
{
    let mut grid: Vec<Option<u8>> = Vec::with_capacity(cells);
    let mut ix: usize = 0;
    while ix < cells
        invariant
            ix <= cells,
            grid@.len() == ix,
            forall|i: int| 0 <= i < ix ==> grid@[i] == None::<u8>,
        decreases cells - ix,
    {
        grid.push(None);
        ix = ix + 1;
    }
    assert(grid@ == transparent(cells as nat));
    grid
}

impl Pic {
    /// Whether every cell that holds an index holds one below `colors`.
    pub open spec fn indexes_below(&self, colors: int) -> bool {
        forall|i: int|
            0 <= i < self.pixels@.len() ==> (#[trigger] self.pixels@[i] matches Some(ix) ==> ix
                < colors)
    }

    /// Tells whether every cell that holds an index holds one that
    /// `palette` has a colour for.
    pub fn fits_palette(&self, palette: &Palette) -> (fits: bool)
        ensures
            fits == self.indexes_below(palette.palette@.len() as int),
    {
        let colors: usize = palette.palette.len();
        let mut ix: usize = 0;
        while ix < self.pixels.len()
            invariant
                colors == palette.palette@.len(),
                ix <= self.pixels@.len(),
                forall|i: int|
                    0 <= i < ix ==> (#[trigger] self.pixels@[i] matches Some(p) ==> p < colors),
            decreases self.pixels@.len() - ix,
        {
            match self.pixels[ix] {
                Some(palette_ix) => {
                    if palette_ix as usize >= colors {
                        return false;
                    }
                },
                None => {},
            }
            ix = ix + 1;
        }
        true
    }

    /// The colour of every cell, row after row.
    pub fn get_argb(&self, palette: &Palette) -> (argb_pixels: Vec<ArgbPixel>)
        requires
            self.indexes_below(palette.palette@.len() as int),
        ensures
            argb_pixels@ == Seq::new(
                self.pixels@.len(),
                |i: int| argb_of(self.pixels@[i], palette.palette@),
            ),
    {
        let mut argb_pixels: Vec<ArgbPixel> = Vec::with_capacity(self.pixels.len());
        let mut ix: usize = 0;
        while ix < self.pixels.len()
            invariant
                self.indexes_below(palette.palette@.len() as int),
                ix <= self.pixels@.len(),
                argb_pixels@.len() == ix,
                forall|i: int|
                    0 <= i < ix ==> argb_pixels@[i] == argb_of(self.pixels@[i], palette.palette@),
            decreases self.pixels@.len() - ix,
        {
            match self.pixels[ix] {
                None => argb_pixels.push(ArgbPixel { alpha: 0, red: 0, green: 0, blue: 0 }),
                Some(palette_ix) => {
                    argb_pixels.push(palette.palette[palette_ix as usize]);
                },
            }
            ix = ix + 1;
        }
        argb_pixels
    }
}

} // verus!
