//! Data representation for decoded images, palettes, tiles and the fixed
//! 32x32 tilemap byte grids.

use vstd::prelude::*;

verus! {

/// A truecolor pixel, 8 bits per channel.
#[derive(Clone, Copy, PartialEq, Eq, Structural, Debug, Hash)]
pub struct PixelColor {
    pub red: u8,
    pub green: u8,
    pub blue: u8,
}

/// A decoded truecolor image: `width * height` pixels in row-major order,
/// the pixel at `(x, y)` stored at index `y * width + x`.
pub struct Image {
    pub width: u32,
    pub height: u32,
    pub pixels: Vec<PixelColor>,
}

impl Image {
    /// The pixel buffer holds exactly one pixel per coordinate.
    pub open spec fn wf(&self) -> bool {
        self.pixels@.len() == self.width * self.height
    }

    /// The pixel at absolute coordinates `(x, y)`.
    pub open spec fn spec_pixel(&self, x: int, y: int) -> PixelColor {
        self.pixels@[y * self.width + x]
    }

    pub fn get_pixel(&self, x: u32, y: u32) -> (r: PixelColor)
        requires
            self.wf(),
            x < self.width,
            y < self.height,
        ensures
            r == self.spec_pixel(x as int, y as int),
    {
        proof {
            assert(self.pixels.len() == self.pixels@.len());
            assert(y * self.width + x < self.width * self.height) by (nonlinear_arith)
                requires
                    x < self.width,
                    y < self.height,
            ;
        }
        let index: usize = (y as usize) * (self.width as usize) + (x as usize);
        self.pixels[index]
    }
}

/// An ordered sequence of exactly 4 truecolor values; the position in the
/// sequence is the 2-bit palette index.
#[derive(Clone, Debug)]
pub struct ColorPalette {
    colors: Vec<PixelColor>,
}

impl View for ColorPalette {
    type V = Seq<PixelColor>;

    closed spec fn view(&self) -> Seq<PixelColor> {
        self.colors@
    }
}

impl ColorPalette {
    /// The palette holds exactly 4 entries.
    pub open spec fn wf(&self) -> bool {
        self@.len() == 4
    }

    pub fn new(c0: PixelColor, c1: PixelColor, c2: PixelColor, c3: PixelColor) -> (r: Self)
        ensures
            r.wf(),
            r@ == seq![c0, c1, c2, c3],
    {
        let mut colors: Vec<PixelColor> = Vec::new();
        colors.push(c0);
        colors.push(c1);
        colors.push(c2);
        colors.push(c3);
        proof {
            assert(colors@ =~= seq![c0, c1, c2, c3]);
        }
        ColorPalette { colors }
    }

    pub fn color(&self, i: usize) -> (r: PixelColor)
        requires
            self.wf(),
            i < 4,
        ensures
            r == self@[i as int],
    {
        self.colors[i]
    }
}

/// A fixed-size two-dimensional grid of bytes, stored row-major: the cell in
/// column `x` of row `y` sits at index `y * COLS + x` of the view.
#[derive(Clone, PartialEq, Eq, Hash, Debug)]
pub struct Array2d<const ROWS: usize, const COLS: usize> {
    data: Vec<u8>,
}

impl<const ROWS: usize, const COLS: usize> View for Array2d<ROWS, COLS> {
    type V = Seq<u8>;

    closed spec fn view(&self) -> Seq<u8> {
        self.data@
    }
}

impl<const ROWS: usize, const COLS: usize> Array2d<ROWS, COLS> {
    /// The grid holds exactly one byte per cell.
    pub open spec fn wf(&self) -> bool {
        self@.len() == ROWS * COLS
    }

    /// The byte in column `x` of row `y`.
    pub open spec fn spec_get(&self, x: int, y: int) -> u8 {
        self@[y * COLS + x]
    }

    /// A grid with every cell set to zero.
    pub fn new() -> (r: Self)
        requires
            ROWS * COLS <= usize::MAX,
        ensures
            r.wf(),
            r@ == Seq::new((ROWS * COLS) as nat, |i: int| 0u8),
    {
        let total: usize = ROWS * COLS;
        let mut data: Vec<u8> = Vec::new();
        let mut i: usize = 0;
        while i < total
            invariant
                i <= total,
                total == ROWS * COLS,
                data@.len() == i,
                forall|j: int| 0 <= j < i ==> data@[j] == 0u8,
            decreases total - i,
        {
            data.push(0u8);
            i = i + 1;
        }
        proof {
            assert(data@ =~= Seq::new((ROWS * COLS) as nat, |i: int| 0u8));
        }
        Array2d { data }
    }

    /// Whether `(column_index, row_index)` lies inside the grid.
    pub fn boundary_check(column_index: usize, row_index: usize) -> (r: bool)
        ensures
            r == (column_index < COLS && row_index < ROWS),
    {
        column_index < COLS && row_index < ROWS
    }

    pub fn assign(&mut self, column_index: usize, row_index: usize, value: u8)
        requires
            old(self).wf(),
            column_index < COLS,
            row_index < ROWS,
        ensures
            final(self).wf(),
            final(self)@ == old(self)@.update(row_index * COLS + column_index, value),
    {
        proof {
            assert(self.data.len() == self.data@.len());
            assert(row_index * COLS + column_index < ROWS * COLS) by (nonlinear_arith)
                requires
                    column_index < COLS,
                    row_index < ROWS,
            ;
        }
        let index: usize = row_index * COLS + column_index;
        self.data[index] = value;
    }

    pub fn get(&self, column_index: usize, row_index: usize) -> (r: u8)
        requires
            self.wf(),
            column_index < COLS,
            row_index < ROWS,
        ensures
            r == self.spec_get(column_index as int, row_index as int),
    {
        proof {
            assert(self.data.len() == self.data@.len());
            assert(row_index * COLS + column_index < ROWS * COLS) by (nonlinear_arith)
                requires
                    column_index < COLS,
                    row_index < ROWS,
            ;
        }
        let index: usize = row_index * COLS + column_index;
        self.data[index]
    }

    /// Exact content equality of two grids.
    pub fn content_equals(&self, other: &Self) -> (r: bool)
        ensures
            r == (self@ =~= other@),
    {
        let r = self.data == other.data;
        proof {
            if r {
                assert(self@ =~= other@);
            }
        }
        r
    }
}

/// An 8x8 grid of 2-bit palette indices, the pixel content of one tile.
#[derive(Clone, PartialEq, Eq, Hash, Debug)]
pub struct TileColorArray(pub Array2d<8, 8>);

impl View for TileColorArray {
    type V = Seq<u8>;

    open spec fn view(&self) -> Seq<u8> {
        self.0@
    }
}

impl TileColorArray {
    /// 64 cells, each a 2-bit value.
    pub open spec fn wf(&self) -> bool {
        &&& self@.len() == 64
        &&& forall|i: int| 0 <= i < 64 ==> self@[i] < 4
    }

    /// The palette index of the pixel in column `x` of row `y`.
    pub open spec fn cell(&self, x: int, y: int) -> u8 {
        self@[y * 8 + x]
    }

    /// A tile with every cell set to palette index zero.
    pub fn new() -> (r: Self)
        ensures
            r.wf(),
            forall|i: int| 0 <= i < 64 ==> r@[i] == 0u8,
    {
        TileColorArray(Array2d::new())
    }

    pub fn get(&self, x: usize, y: usize) -> (r: u8)
        requires
            self.wf(),
            x < 8,
            y < 8,
        ensures
            r == self.cell(x as int, y as int),
    {
        self.0.get(x, y)
    }

    pub fn assign(&mut self, x: usize, y: usize, value: u8)
        requires
            old(self).wf(),
            x < 8,
            y < 8,
            value < 4,
        ensures
            final(self).wf(),
            final(self)@ == old(self)@.update(y * 8 + x, value),
            final(self).cell(x as int, y as int) == value,
            forall|xo: int, yo: int|
                0 <= xo < 8 && 0 <= yo < 8 && !(xo == x && yo == y)
                    ==> final(self).cell(xo, yo) == old(self).cell(xo, yo),
    {
        self.0.assign(x, y, value);
        proof {
            assert forall|xo: int, yo: int|
                0 <= xo < 8 && 0 <= yo < 8 && !(xo == x && yo == y)
                    implies final(self).cell(xo, yo) == old(self).cell(xo, yo) by {
                assert(yo * 8 + xo != y * 8 + x);
            }
        }
    }

    /// Exact content equality of two tiles.
    pub fn content_equals(&self, other: &Self) -> (r: bool)
        ensures
            r == (self@ =~= other@),
    {
        self.0.content_equals(&other.0)
    }
}

/// A 32x32 grid of bytes, the shape of the hardware tilemap memory.
#[derive(Clone, PartialEq, Eq, Debug)]
pub struct TilemapByteArray(pub Array2d<32, 32>);

impl View for TilemapByteArray {
    type V = Seq<u8>;

    open spec fn view(&self) -> Seq<u8> {
        self.0@
    }
}

impl TilemapByteArray {
    pub open spec fn wf(&self) -> bool {
        self.0.wf()
    }

    pub open spec fn cell(&self, x: int, y: int) -> u8 {
        self@[y * 32 + x]
    }

    pub fn new() -> (r: Self)
        ensures
            r.wf(),
            forall|i: int| 0 <= i < 1024 ==> r@[i] == 0u8,
    {
        TilemapByteArray(Array2d::new())
    }

    pub fn get(&self, x: usize, y: usize) -> (r: u8)
        requires
            self.wf(),
            x < 32,
            y < 32,
        ensures
            r == self.cell(x as int, y as int),
    {
        self.0.get(x, y)
    }

    pub fn assign(&mut self, x: usize, y: usize, value: u8)
        requires
            old(self).wf(),
            x < 32,
            y < 32,
        ensures
            final(self).wf(),
            final(self)@ == old(self)@.update(y * 32 + x, value),
            final(self).cell(x as int, y as int) == value,
            forall|xo: int, yo: int|
                0 <= xo < 32 && 0 <= yo < 32 && !(xo == x && yo == y)
                    ==> final(self).cell(xo, yo) == old(self).cell(xo, yo),
    {
        self.0.assign(x, y, value);
        proof {
            assert forall|xo: int, yo: int|
                0 <= xo < 32 && 0 <= yo < 32 && !(xo == x && yo == y)
                    implies final(self).cell(xo, yo) == old(self).cell(xo, yo) by {
                assert(yo * 32 + xo != y * 32 + x);
            }
        }
    }
}

/// A 32x32 grid of tile indices, one tilemap output.
#[derive(Clone, PartialEq, Eq, Debug)]
pub struct TileIndexArray(pub TilemapByteArray);

/// A 32x32 grid of attribute bytes, produced only in attribute mode.
#[derive(Clone, PartialEq, Eq, Debug)]
pub struct AttributeByteArray(pub TilemapByteArray);

/// The pixel content of one reference tile together with its optional
/// symbolic name.
#[derive(Clone, Debug)]
pub struct TileInfo {
    pub color_array: TileColorArray,
    pub name: Option<String>,
}

/// One failure condition of tileset reading or tilemap resolution.  Every
/// coordinate-carrying variant reports where in the input the failure was
/// found.
#[derive(Clone, Copy, PartialEq, Eq, Structural, Debug)]
pub enum TileError {
    /// An image's pixel width or height is not a multiple of the tile size.
    DimensionNotTileAligned { width: u32, height: u32 },
    /// The reference tileset holds fewer than 2 tiles in total.
    TilesetTooSmall { tile_count: u64 },
    /// The reference tileset holds more than 256 data tiles.
    TilesetTooLarge { tile_count: u64 },
    /// A reference tile supplied as its own image is not exactly 8x8 pixels.
    NotSingleTile { width: u32, height: u32 },
    /// The tilemap exceeds the 32x32 hardware tilemap limit.
    TilemapTooLarge { width_tiles: u32, height_tiles: u32 },
    /// A pixel's color is not one of the 4 palette entries; coordinates give
    /// the tile and the absolute pixel position of the first such pixel.
    ColorNotInPalette { tile_x: u32, tile_y: u32, pixel_x: u32, pixel_y: u32 },
    /// A tilemap tile matches no reference tile, original or flipped.
    UnrecognizedTile { tile_x: u32, tile_y: u32 },
    /// A tilemap tile matches only a flipped reference tile while attribute
    /// mode is disabled.
    FlippedTileWithoutAttributes { tile_x: u32, tile_y: u32 },
}

} // verus!
