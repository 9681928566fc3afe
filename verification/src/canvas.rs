//! Sprites as RGBA images of the `image` crate.

use crate::file::{argb_of, ArgbPixel, Palette, Pic, TileMap, Tiles};
use vstd::prelude::*;

verus! {

/// An RGBA image with eight bits per channel, held by the `image` crate.
/// What it holds is known only through `canvas_samples` and
/// `canvas_dimensions`.
#[verifier::external_body]
pub struct RgbaCanvas {
    pub image: image::RgbaImage,
}

/// The channel values that the image holds: red, green, blue and alpha of
/// each pixel, row after row from the top, each row from the left.
pub uninterp spec fn canvas_samples(canvas: RgbaCanvas) -> Seq<u8>;

/// The width and the height of the image, in pixels.
pub uninterp spec fn canvas_dimensions(canvas: RgbaCanvas) -> (u32, u32);

/// The image holds four channel values for each of its pixels.
pub open spec fn canvas_wf(canvas: RgbaCanvas) -> bool {
    canvas_samples(canvas).len() == 4 * canvas_dimensions(canvas).0 * canvas_dimensions(canvas).1
}

/// One channel of a colour, in the order red, green, blue, alpha.
pub open spec fn channel_of(pixel: ArgbPixel, channel: int) -> u8 {
    if channel == 0 {
        pixel.red
    } else if channel == 1 {
        pixel.green
    } else if channel == 2 {
        pixel.blue
    } else {
        pixel.alpha
    }
}

/// The channel values after the pixel at position `cell` has been set to
/// `pixel`.
pub open spec fn with_pixel(samples: Seq<u8>, cell: int, pixel: ArgbPixel) -> Seq<u8> {
    Seq::new(
        samples.len(),
        |i: int|
            if 4 * cell <= i < 4 * cell + 4 {
                channel_of(pixel, i - 4 * cell)
            } else {
                samples[i]
            },
    )
}

/// The channel values of an image of `cells` pixels whose first pixels have
/// the colours `colors`, in order, and whose other pixels are all zero.
pub open spec fn painted(colors: Seq<ArgbPixel>, cells: int) -> Seq<u8> {
    Seq::new(
        (4 * cells) as nat,
        |i: int|
            if i / 4 < colors.len() {
                channel_of(colors[i / 4], i % 4)
            } else {
                0u8
            },
    )
}

/// A new image through `ImageBuffer::new`: it has the given width and
/// height, and every channel of every pixel is zero. The call panics where
/// the channel values of one row, or of all rows, outnumber what `usize`
/// can count, which `requires` leaves out.
#[verifier::external_body]
pub(crate) fn new_canvas(width: u32, height: u32) -> (canvas: RgbaCanvas)
    requires
        4 * width <= usize::MAX,
        4 * width * height <= usize::MAX,
    ensures
        canvas_dimensions(canvas) == (width, height),
        canvas_samples(canvas) == Seq::new((4 * width * height) as nat, |i: int| 0u8),
{
    RgbaCanvas { image: image::ImageBuffer::new(width, height) }
}

/// Sets one pixel through `ImageBuffer::put_pixel`: the four channel values
/// of the pixel in column `x` of row `y` become those of `pixel`, and
/// nothing else changes. The call panics where the position lies outside
/// the image, which `requires` leaves out.
#[verifier::external_body]
pub(crate) fn put_pixel(canvas: &mut RgbaCanvas, x: u32, y: u32, pixel: ArgbPixel)
    requires
        canvas_wf(*old(canvas)),
        x < canvas_dimensions(*old(canvas)).0,
        y < canvas_dimensions(*old(canvas)).1,
    ensures
        canvas_dimensions(*final(canvas)) == canvas_dimensions(*old(canvas)),
        canvas_samples(*final(canvas)) == with_pixel(
            canvas_samples(*old(canvas)),
            y * canvas_dimensions(*old(canvas)).0 + x,
            pixel,
        ),
{
    canvas.image.put_pixel(x, y, image::Rgba([pixel.red, pixel.green, pixel.blue, pixel.alpha]));
}

/// The channel values of an image after another image has been laid over
/// it with its top left corner in column `x` of row `y`, as
/// `image::imageops::overlay` blends them. Each image is given by its
/// channel values, its width and its height.
pub uninterp spec fn overlaid(
    bottom: Seq<u8>,
    bottom_width: u32,
    bottom_height: u32,
    top: Seq<u8>,
    top_width: u32,
    top_height: u32,
    x: u32,
    y: u32,
) -> Seq<u8>;

/// Lays `top` over `bottom` through `image::imageops::overlay`, with the
/// top left corner of `top` in column `x` of row `y` of `bottom`. The part
/// of `top` that falls outside `bottom` is cut off. `bottom` keeps its
/// width and height; what its pixels become is a function of the two
/// images and the position alone, which the contract names.
#[verifier::external_body]
pub(crate) fn overlay(bottom: &mut RgbaCanvas, top: &RgbaCanvas, x: u32, y: u32)
    ensures
        canvas_dimensions(*final(bottom)) == canvas_dimensions(*old(bottom)),
        canvas_samples(*final(bottom)) == overlaid(
            canvas_samples(*old(bottom)),
            canvas_dimensions(*old(bottom)).0,
            canvas_dimensions(*old(bottom)).1,
            canvas_samples(*top),
            canvas_dimensions(*top).0,
            canvas_dimensions(*top).1,
            x,
            y,
        ),
{
    image::imageops::overlay(&mut bottom.image, &top.image, x, y);
}

/// Side of the square that one tile takes in the picture of a tile map.
pub const TILE_SIZE: u32 = 32;

/// The picture of a tile map after its first `n` cells have been handled,
/// row after row: the picture starts with every channel zero, and each cell
/// whose tile index the tile set holds lays the image of that tile over the
/// picture, 32 pixels to the right for each column and 32 pixels down for
/// each row. A cell whose tile index the tile set does not hold leaves the
/// picture as it is.
pub open spec fn map_picture(map: TileMap, tiles: Tiles, palette: Palette, n: int) -> Seq<u8>
    decreases n,
{
    if n <= 0 {
        Seq::new((4 * 288 * 4800) as nat, |i: int| 0u8)
    } else {
        let before = map_picture(map, tiles, palette, n - 1);
        let row = (n - 1) / 9;
        let column = (n - 1) % 9;
        let tile_ix = map.tiles@[row]@[column] as int;
        if tile_ix >= tiles.tiles@.len() {
            before
        } else {
            let tile = tiles.tiles@[tile_ix];
            overlaid(
                before,
                288,
                4800,
                tile.image_samples(&palette),
                tile.width as u32,
                tile.height as u32,
                (32 * column) as u32,
                (32 * row) as u32,
            )
        }
    }
}

impl TileMap {
    /// Whether the picture of the map can be drawn: the map has 9 columns
    /// and 150 rows, and every tile that a cell of the map refers to can be
    /// drawn with `palette`.
    pub open spec fn drawable(&self, tiles: &Tiles, palette: &Palette) -> bool {
        &&& self.width == 9
        &&& self.height == 150
        &&& forall|y: int, x: int|
            0 <= y < 150 && 0 <= x < 9 && (#[trigger] self.tiles@[y]@[x]) < tiles.tiles@.len()
                ==> tiles.tiles@[self.tiles@[y]@[x] as int].drawable(palette)
    }

    /// Tells whether the picture of the map can be drawn.
    pub fn can_draw(&self, tiles: &Tiles, palette: &Palette) -> (can: bool)
        ensures
            can == self.drawable(tiles, palette),
    {
        if self.width != 9 || self.height != 150 {
            return false;
        }
        let mut y: usize = 0;
        while y < 150
            invariant
                y <= 150,
                forall|yy: int, xx: int|
                    0 <= yy < y && 0 <= xx < 9 && (#[trigger] self.tiles@[yy]@[xx])
                        < tiles.tiles@.len() ==> tiles.tiles@[self.tiles@[yy]@[xx] as int].drawable(
                        palette,
                    ),
            decreases 150 - y,
        {
            let mut x: usize = 0;
            while x < 9
                invariant
                    y < 150,
                    x <= 9,
                    forall|yy: int, xx: int|
                        0 <= yy < y && 0 <= xx < 9 && (#[trigger] self.tiles@[yy]@[xx])
                            < tiles.tiles@.len()
                            ==> tiles.tiles@[self.tiles@[yy]@[xx] as int].drawable(palette),
                    forall|xx: int|
                        0 <= xx < x && (#[trigger] self.tiles@[y as int]@[xx]) < tiles.tiles@.len()
                            ==> tiles.tiles@[self.tiles@[y as int]@[xx] as int].drawable(palette),
                decreases 9 - x,
            {
                let tile_ix: usize = self.tiles[y][x] as usize;
                if tile_ix < tiles.tiles.len() {
                    if !tiles.tiles[tile_ix].can_draw(palette) {
                        return false;
                    }
                }
                x = x + 1;
            }
            y = y + 1;
        }
        true
    }

    /// Draws the picture of the map: an image of 288 by 4800 pixels on
    /// which the tile of each cell is laid at the place of the cell.
    pub fn draw(&self, tiles: &Tiles, palette: &Palette) -> (canvas: RgbaCanvas)
        requires
            self.drawable(tiles, palette),
        ensures
            canvas_dimensions(canvas) == (288u32, 4800u32),
            canvas_samples(canvas) == map_picture(*self, *tiles, *palette, 1350),
    {
        let mut img: RgbaCanvas = new_canvas(9 * TILE_SIZE, 150 * TILE_SIZE);
        let mut y: usize = 0;
        while y < 150
            invariant
                y <= 150,
                self.drawable(tiles, palette),
                canvas_dimensions(img) == (288u32, 4800u32),
                canvas_samples(img) == map_picture(*self, *tiles, *palette, 9 * y as int),
            decreases 150 - y,
        {
            let mut x: usize = 0;
            while x < 9
                invariant
                    y < 150,
                    x <= 9,
                    self.drawable(tiles, palette),
                    canvas_dimensions(img) == (288u32, 4800u32),
                    canvas_samples(img) == map_picture(*self, *tiles, *palette, 9 * y as int + x as int),
                decreases 9 - x,
            {
                let tile_ix: usize = self.tiles[y][x] as usize;
                assert((9 * y + x) / 9 == y && (9 * y + x) % 9 == x);
                if tile_ix < tiles.tiles.len() {
                    let on_top: RgbaCanvas = tiles.tiles[tile_ix].to_imagebuffer(palette);
                    let image_x: u32 = x as u32 * TILE_SIZE;
                    let image_y: u32 = y as u32 * TILE_SIZE;
                    overlay(&mut img, &on_top, image_x, image_y);
                }
                x = x + 1;
            }
            y = y + 1;
        }
        img
    }
}

impl Pic {
    /// The channel values of the image of the sprite: the colours of the
    /// cells in order, and zero for pixels beyond the last cell.
    pub open spec fn image_samples(&self, palette: &Palette) -> Seq<u8> {
        painted(
            Seq::new(self.pixels@.len(), |i: int| argb_of(self.pixels@[i], palette.palette@)),
            self.width * self.height,
        )
    }

    /// Whether the sprite can be drawn with `palette`: its width and its
    /// height fit in 32 bits, the channel values of one row and of the
    /// whole image can be counted in `usize`, and the palette has a colour
    /// for every index.
    pub open spec fn drawable(&self, palette: &Palette) -> bool {
        &&& self.width <= u32::MAX
        &&& self.height <= u32::MAX
        &&& 4 * self.width <= usize::MAX
        &&& 4 * self.width * self.height <= usize::MAX
        &&& self.indexes_below(palette.palette@.len() as int)
    }

    /// Tells whether the sprite can be drawn with `palette`.
    pub fn can_draw(&self, palette: &Palette) -> (can: bool)
        ensures
            can == self.drawable(palette),
    {
        if self.width > u32::MAX as usize || self.height > u32::MAX as usize {
            return false;
        }
        assert(self.width as int * self.height as int <= 0xFFFF_FFFF * 0xFFFF_FFFF)
            by (nonlinear_arith)
            requires
                0 <= self.width <= 0xFFFF_FFFF,
                0 <= self.height <= 0xFFFF_FFFF,
        ;
        let samples: u128 = 4 * (self.width as u128 * self.height as u128);
        assert(samples == 4 * self.width * self.height) by (nonlinear_arith)
            requires
                samples == 4 * (self.width * self.height),
        ;
        if 4 * self.width as u128 > usize::MAX as u128 || samples > usize::MAX as u128 {
            return false;
        }
        self.fits_palette(palette)
    }

    /// Draws the sprite as an image of its width and height: the pixels
    /// take, row after row, the colours of the cells in order; pixels
    /// beyond the last cell stay zero.
    pub fn to_imagebuffer(&self, palette: &Palette) -> (canvas: RgbaCanvas)
        requires
            self.drawable(palette),
        ensures
            canvas_dimensions(canvas) == (self.width as u32, self.height as u32),
            canvas_samples(canvas) == self.image_samples(palette),
    {
        let width: u32 = self.width as u32;
        let height: u32 = self.height as u32;
        let pixels: Vec<ArgbPixel> = self.get_argb(palette);
        let mut img: RgbaCanvas = new_canvas(width, height);
        let ghost cells: int = width * height;
        assert(4 * width * height == 4 * cells) by (nonlinear_arith)
            requires
                cells == width * height,
        ;
        let mut next: usize = 0;
        let mut y: u32 = 0;
        assert(canvas_samples(img) == painted(pixels@.subrange(0, 0), cells));
        while y < height
            invariant
                y <= height,
                cells == width * height,
                canvas_dimensions(img) == (width, height),
                canvas_samples(img).len() == 4 * cells,
                next <= pixels@.len(),
                next <= y * width,
                next < pixels@.len() ==> next == y * width,
                canvas_samples(img) == painted(pixels@.subrange(0, next as int), cells),
            decreases height - y,
        {
            let mut x: u32 = 0;
            while x < width
                invariant
                    y < height,
                    x <= width,
                    cells == width * height,
                    canvas_dimensions(img) == (width, height),
                    canvas_samples(img).len() == 4 * cells,
                    next <= pixels@.len(),
                    next <= y * width + x,
                    next < pixels@.len() ==> next == y * width + x,
                    canvas_samples(img) == painted(pixels@.subrange(0, next as int), cells),
                decreases width - x,
            {
                if next < pixels.len() {
                    let ghost before: Seq<u8> = canvas_samples(img);
                    assert(y * width + x < cells) by (nonlinear_arith)
                        requires
                            cells == width * height,
                            x < width,
                            y < height,
                    ;
                    assert(4 * width * height == 4 * cells) by (nonlinear_arith)
                        requires
                            cells == width * height,
                    ;
                    put_pixel(&mut img, x, y, pixels[next]);
                    assert(canvas_samples(img) == painted(
                        pixels@.subrange(0, next + 1),
                        cells,
                    )) by {
                        let after: Seq<u8> = with_pixel(before, next as int, pixels@[next as int]);
                        let goal: Seq<u8> = painted(pixels@.subrange(0, next + 1), cells);
                        assert forall|i: int| 0 <= i < after.len() implies after[i] == goal[i] by {
                            if 4 * next <= i < 4 * next + 4 {
                                assert(i / 4 == next);
                                assert(i % 4 == i - 4 * next);
                            } else if i < 4 * next {
                                assert(i / 4 < next);
                            } else {
                                assert(i / 4 > next);
                            }
                        }
                        assert(after =~= goal);
                    }
                    next = next + 1;
                }
                x = x + 1;
            }
            assert((y + 1) * width == y * width + width) by (nonlinear_arith);
            y = y + 1;
        }
        assert(painted(pixels@.subrange(0, next as int), cells) =~= painted(pixels@, cells)) by {
            if next == pixels@.len() {
                assert(pixels@.subrange(0, next as int) =~= pixels@);
            } else {
                assert(height * width == width * height) by (nonlinear_arith);
                let shown: Seq<u8> = painted(pixels@.subrange(0, next as int), cells);
                let whole: Seq<u8> = painted(pixels@, cells);
                assert forall|i: int| 0 <= i < shown.len() implies shown[i] == whole[i] by {
                    assert(i / 4 < next);
                }
            }
        }
        img
    }
}

} // verus!
