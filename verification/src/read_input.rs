//! The tile canonicalization and resolution engine: palette mapping, 8x8
//! tile extraction, flip variants, the tile searchmap, and tilemap
//! resolution.

use vstd::prelude::*;
use vstd::string::StrSliceExecFns;

use crate::input_data_representation_types::{
    AttributeByteArray, ColorPalette, Image, PixelColor, TileColorArray, TileError, TileIndexArray,
    TileInfo, TilemapByteArray,
};

verus! {

// ---------------------------------------------------------------------------
// Palette mapping
// ---------------------------------------------------------------------------

/// The 2-bit palette index of `pixel`: the position of the first palette
/// entry that exactly equals it, or `None` when no entry matches.
pub open spec fn spec_palette_index(palette: Seq<PixelColor>, pixel: PixelColor) -> Option<u8> {
    if palette[0] == pixel {
        Some(0u8)
    } else if palette[1] == pixel {
        Some(1u8)
    } else if palette[2] == pixel {
        Some(2u8)
    } else if palette[3] == pixel {
        Some(3u8)
    } else {
        None
    }
}

/// Maps a truecolor pixel to its 2-bit palette index by exact color
/// equality, preferring the lowest matching index.
pub fn palette_index_of(color_palette: &ColorPalette, pixel: PixelColor) -> (r: Option<u8>)
    requires
        color_palette.wf(),
    ensures
        r == spec_palette_index(color_palette@, pixel),
{
    if color_palette.color(0) == pixel {
        Some(0u8)
    } else if color_palette.color(1) == pixel {
        Some(1u8)
    } else if color_palette.color(2) == pixel {
        Some(2u8)
    } else if color_palette.color(3) == pixel {
        Some(3u8)
    } else {
        None
    }
}

// ---------------------------------------------------------------------------
// Tile extraction
// ---------------------------------------------------------------------------

/// The pixel of `image` at position `(x, y)` inside the 8x8 block at tile
/// coordinates `(tile_x, tile_y)`.
pub open spec fn spec_tile_pixel(image: Image, tile_x: int, tile_y: int, x: int, y: int) -> PixelColor {
    image.spec_pixel(tile_x * 8 + x, tile_y * 8 + y)
}

/// Whether the pixel at `(x, y)` of the tile block matches some palette
/// entry.
pub open spec fn tile_cell_ok(
    image: Image,
    palette: Seq<PixelColor>,
    tile_x: int,
    tile_y: int,
    x: int,
    y: int,
) -> bool {
    spec_palette_index(palette, spec_tile_pixel(image, tile_x, tile_y, x, y)) is Some
}

/// Whether every pixel of the tile block matches some palette entry.
pub open spec fn tile_extract_ok(image: Image, palette: Seq<PixelColor>, tile_x: int, tile_y: int) -> bool {
    forall|x: int, y: int|
        0 <= x < 8 && 0 <= y < 8 ==> #[trigger] tile_cell_ok(image, palette, tile_x, tile_y, x, y)
}

/// The extracted 2-bit value of the pixel at `(x, y)` of the tile block.
pub open spec fn spec_extracted_cell(
    image: Image,
    palette: Seq<PixelColor>,
    tile_x: int,
    tile_y: int,
    x: int,
    y: int,
) -> u8 {
    spec_palette_index(palette, spec_tile_pixel(image, tile_x, tile_y, x, y))->0
}

/// The whole extracted tile as a flat row-major grid of 2-bit values.
pub open spec fn spec_extracted_tile(
    image: Image,
    palette: Seq<PixelColor>,
    tile_x: int,
    tile_y: int,
) -> Seq<u8> {
    Seq::new(64, |i: int| spec_extracted_cell(image, palette, tile_x, tile_y, i % 8, i / 8))
}

/// Row-major cell indices decompose uniquely into coordinates.
pub proof fn lemma_grid_index(x: int, y: int)
    requires
        0 <= x < 8,
        0 <= y < 8,
    ensures
        (y * 8 + x) % 8 == x,
        (y * 8 + x) / 8 == y,
{
    assert((y * 8 + x) % 8 == x && (y * 8 + x) / 8 == y) by (nonlinear_arith)
        requires
            0 <= x < 8 && 0 <= y < 8,
    ;
}

/// Reads the 8x8 pixel block at tile coordinates `(tile_index_x,
/// tile_index_y)` and maps each pixel to its 2-bit palette index, in
/// row-major order.  Fails on the first pixel whose color is not in the
/// palette, reporting the tile and the absolute pixel coordinates.
pub fn read_tile_from_image(
    tile_index_x: u32,
    tile_index_y: u32,
    image: &Image,
    color_palette: &ColorPalette,
) -> (r: Result<TileColorArray, TileError>)
    requires
        image.wf(),
        color_palette.wf(),
        (tile_index_x + 1) * 8 <= image.width,
        (tile_index_y + 1) * 8 <= image.height,
    ensures
        r is Ok <==> tile_extract_ok(*image, color_palette@, tile_index_x as int, tile_index_y as int),
        match r {
            Ok(t) => {
                &&& t.wf()
                &&& t@ == spec_extracted_tile(
                    *image,
                    color_palette@,
                    tile_index_x as int,
                    tile_index_y as int,
                )
            },
            Err(e) => match e {
                TileError::ColorNotInPalette { tile_x, tile_y, pixel_x, pixel_y } => {
                    &&& tile_x == tile_index_x
                    &&& tile_y == tile_index_y
                    &&& tile_index_x * 8 <= pixel_x < tile_index_x * 8 + 8
                    &&& tile_index_y * 8 <= pixel_y < tile_index_y * 8 + 8
                    &&& !tile_cell_ok(
                        *image,
                        color_palette@,
                        tile_index_x as int,
                        tile_index_y as int,
                        pixel_x - tile_index_x * 8,
                        pixel_y - tile_index_y * 8,
                    )
                    &&& forall|x: int, y: int|
                        0 <= x < 8 && 0 <= y < 8 && (y < pixel_y - tile_index_y * 8 || (y
                            == pixel_y - tile_index_y * 8 && x < pixel_x - tile_index_x * 8))
                            ==> #[trigger] tile_cell_ok(
                            *image,
                            color_palette@,
                            tile_index_x as int,
                            tile_index_y as int,
                            x,
                            y,
                        )
                },
                _ => false,
            },
        },
{
    let mut tile_color_array = TileColorArray::new();
    let mut y: usize = 0;
    while y < 8
        invariant
            image.wf(),
            color_palette.wf(),
            (tile_index_x + 1) * 8 <= image.width,
            (tile_index_y + 1) * 8 <= image.height,
            y <= 8,
            tile_color_array.wf(),
            forall|xp: int, yp: int|
                0 <= xp < 8 && 0 <= yp < y ==> #[trigger] tile_cell_ok(
                    *image,
                    color_palette@,
                    tile_index_x as int,
                    tile_index_y as int,
                    xp,
                    yp,
                ),
            forall|xp: int, yp: int|
                0 <= xp < 8 && 0 <= yp < y ==> tile_color_array.cell(xp, yp)
                    == spec_extracted_cell(
                    *image,
                    color_palette@,
                    tile_index_x as int,
                    tile_index_y as int,
                    xp,
                    yp,
                ),
        decreases 8 - y,
    {
        let mut x: usize = 0;
        while x < 8
            invariant
                image.wf(),
                color_palette.wf(),
                (tile_index_x + 1) * 8 <= image.width,
                (tile_index_y + 1) * 8 <= image.height,
                y < 8,
                x <= 8,
                tile_color_array.wf(),
                forall|xp: int, yp: int|
                    0 <= xp < 8 && (0 <= yp < y || (yp == y && 0 <= xp < x)) ==> #[trigger] tile_cell_ok(
                        *image,
                        color_palette@,
                        tile_index_x as int,
                        tile_index_y as int,
                        xp,
                        yp,
                    ),
                forall|xp: int, yp: int|
                    0 <= xp < 8 && (0 <= yp < y || (yp == y && 0 <= xp < x))
                        ==> tile_color_array.cell(xp, yp) == spec_extracted_cell(
                        *image,
                        color_palette@,
                        tile_index_x as int,
                        tile_index_y as int,
                        xp,
                        yp,
                    ),
            decreases 8 - x,
        {
            let cur_pixel_x: u32 = tile_index_x * 8 + (x as u32);
            let cur_pixel_y: u32 = tile_index_y * 8 + (y as u32);
            let cur_pixel = image.get_pixel(cur_pixel_x, cur_pixel_y);
            match palette_index_of(color_palette, cur_pixel) {
                Some(palette_index) => {
                    tile_color_array.assign(x, y, palette_index);
                },
                None => {
                    proof {
                        assert(cur_pixel_x as int == tile_index_x * 8 + x);
                        assert(cur_pixel_y as int == tile_index_y * 8 + y);
                        assert(!tile_cell_ok(
                            *image,
                            color_palette@,
                            tile_index_x as int,
                            tile_index_y as int,
                            x as int,
                            y as int,
                        ));
                    }
                    return Err(
                        TileError::ColorNotInPalette {
                            tile_x: tile_index_x,
                            tile_y: tile_index_y,
                            pixel_x: cur_pixel_x,
                            pixel_y: cur_pixel_y,
                        },
                    );
                },
            }
            x = x + 1;
        }
        y = y + 1;
    }
    proof {
        assert forall|i: int| 0 <= i < 64 implies tile_color_array@[i] == spec_extracted_tile(
            *image,
            color_palette@,
            tile_index_x as int,
            tile_index_y as int,
        )[i] by {
            lemma_grid_index(i % 8, i / 8);
            assert(tile_color_array.cell(i % 8, i / 8) == spec_extracted_cell(
                *image,
                color_palette@,
                tile_index_x as int,
                tile_index_y as int,
                i % 8,
                i / 8,
            ));
        }
        assert(tile_color_array@ =~= spec_extracted_tile(
            *image,
            color_palette@,
            tile_index_x as int,
            tile_index_y as int,
        ));
    }
    Ok(tile_color_array)
}

// ---------------------------------------------------------------------------
// Flip variants
// ---------------------------------------------------------------------------

/// Reflects a coordinate inside an 8-pixel tile when `flip` is set.
pub open spec fn flip_coord(v: int, flip: bool) -> int {
    if flip {
        7 - v
    } else {
        v
    }
}

/// The tile grid reflected horizontally (`x_flip`) and/or vertically
/// (`y_flip`): the cell at `(x, y)` of the result is the cell of `t` at the
/// reflected coordinates.
pub open spec fn spec_flip_tile(t: Seq<u8>, x_flip: bool, y_flip: bool) -> Seq<u8> {
    Seq::new(64, |i: int| t[flip_coord(i / 8, y_flip) * 8 + flip_coord(i % 8, x_flip)])
}

/// Computes a flip variant of a tile.
pub fn flip_tile(tile: &TileColorArray, x_flip: bool, y_flip: bool) -> (r: TileColorArray)
    requires
        tile.wf(),
    ensures
        r.wf(),
        r@ == spec_flip_tile(tile@, x_flip, y_flip),
        forall|x: int, y: int|
            0 <= x < 8 && 0 <= y < 8 ==> #[trigger] r.cell(x, y) == tile.cell(
                flip_coord(x, x_flip),
                flip_coord(y, y_flip),
            ),
{
    let mut modified_tile_data = TileColorArray::new();
    let mut x: usize = 0;
    while x < 8
        invariant
            tile.wf(),
            x <= 8,
            modified_tile_data.wf(),
            forall|xp: int, yp: int|
                0 <= xp < x && 0 <= yp < 8 ==> #[trigger] modified_tile_data.cell(
                    flip_coord(xp, x_flip),
                    flip_coord(yp, y_flip),
                ) == tile.cell(xp, yp),
        decreases 8 - x,
    {
        let mut y: usize = 0;
        while y < 8
            invariant
                tile.wf(),
                x < 8,
                y <= 8,
                modified_tile_data.wf(),
                forall|xp: int, yp: int|
                    (0 <= xp < x && 0 <= yp < 8) || (xp == x && 0 <= yp < y)
                        ==> #[trigger] modified_tile_data.cell(
                        flip_coord(xp, x_flip),
                        flip_coord(yp, y_flip),
                    ) == tile.cell(xp, yp),
            decreases 8 - y,
        {
            let new_x: usize = if x_flip {
                7 - x
            } else {
                x
            };
            let new_y: usize = if y_flip {
                7 - y
            } else {
                y
            };
            let value = tile.get(x, y);
            modified_tile_data.assign(new_x, new_y, value);
            y = y + 1;
        }
        x = x + 1;
    }
    proof {
        assert forall|x: int, y: int| 0 <= x < 8 && 0 <= y < 8 implies #[trigger] modified_tile_data.cell(
            x,
            y,
        ) == tile.cell(flip_coord(x, x_flip), flip_coord(y, y_flip)) by {
            let xs = flip_coord(x, x_flip);
            let ys = flip_coord(y, y_flip);
            assert(flip_coord(xs, x_flip) == x);
            assert(flip_coord(ys, y_flip) == y);
            assert(modified_tile_data.cell(flip_coord(xs, x_flip), flip_coord(ys, y_flip))
                == tile.cell(xs, ys));
        }
        assert forall|i: int| 0 <= i < 64 implies modified_tile_data@[i] == spec_flip_tile(
            tile@,
            x_flip,
            y_flip,
        )[i] by {
            lemma_grid_index(i % 8, i / 8);
            assert(modified_tile_data.cell(i % 8, i / 8) == tile.cell(
                flip_coord(i % 8, x_flip),
                flip_coord(i / 8, y_flip),
            ));
        }
        assert(modified_tile_data@ =~= spec_flip_tile(tile@, x_flip, y_flip));
    }
    modified_tile_data
}

/// The cell of a flip variant at `(x, y)` is the source cell at the
/// reflected coordinates.
pub proof fn lemma_flip_tile_cell(t: Seq<u8>, x_flip: bool, y_flip: bool, x: int, y: int)
    requires
        t.len() == 64,
        0 <= x < 8,
        0 <= y < 8,
    ensures
        spec_flip_tile(t, x_flip, y_flip)[y * 8 + x] == t[flip_coord(y, y_flip) * 8 + flip_coord(
            x,
            x_flip,
        )],
{
    lemma_grid_index(x, y);
}

/// Flipping a tile twice with the same flip flags returns the original
/// pixel grid: each flip is an involution.
pub proof fn lemma_flip_involution(t: Seq<u8>, x_flip: bool, y_flip: bool)
    requires
        t.len() == 64,
    ensures
        spec_flip_tile(spec_flip_tile(t, x_flip, y_flip), x_flip, y_flip) =~= t,
{
    let once = spec_flip_tile(t, x_flip, y_flip);
    let twice = spec_flip_tile(once, x_flip, y_flip);
    assert forall|i: int| 0 <= i < 64 implies twice[i] == t[i] by {
        let x = i % 8;
        let y = i / 8;
        lemma_grid_index(x, y);
        assert(0 <= x < 8 && 0 <= y < 8 && i == y * 8 + x);
        lemma_flip_tile_cell(once, x_flip, y_flip, x, y);
        let xs = flip_coord(x, x_flip);
        let ys = flip_coord(y, y_flip);
        lemma_flip_tile_cell(t, x_flip, y_flip, xs, ys);
        assert(flip_coord(xs, x_flip) == x);
        assert(flip_coord(ys, y_flip) == y);
    }
}

/// Flipping with both flags off leaves the pixel grid unchanged.
pub proof fn lemma_flip_identity(t: Seq<u8>)
    requires
        t.len() == 64,
    ensures
        spec_flip_tile(t, false, false) =~= t,
{
    assert forall|i: int| 0 <= i < 64 implies spec_flip_tile(t, false, false)[i] == t[i] by {
        lemma_grid_index(i % 8, i / 8);
    }
}

// ---------------------------------------------------------------------------
// The tile searchmap
// ---------------------------------------------------------------------------

/// One candidate resolution for a pixel grid: the reference tile index that
/// produced the grid, and under which flip state it did so.
#[derive(Clone, Copy, PartialEq, Eq, Structural, Debug)]
pub struct TileSearchmapValue {
    pub x_flip: bool,
    pub y_flip: bool,
    pub tile_index: u8,
}

impl TileSearchmapValue {
    /// The candidate is the reference tile itself, not a mirror of it.
    pub open spec fn spec_is_unflipped(&self) -> bool {
        !self.x_flip && !self.y_flip
    }

    pub fn is_unflipped(&self) -> (r: bool)
        ensures
            r == self.spec_is_unflipped(),
    {
        !self.x_flip && !self.y_flip
    }
}

/// Maps every reference tile's pixel grid, and the grids of its three
/// mirror variants, back to the tile's index and flip state.  The candidate
/// entries recorded for one pixel grid are the ordered collision list that
/// resolution walks; they are stored as one flat association list in
/// insertion order and grouped by key at lookup time.
pub struct TileSearchmap {
    entries: Vec<(TileColorArray, TileSearchmapValue)>,
}

impl View for TileSearchmap {
    type V = Seq<(Seq<u8>, TileSearchmapValue)>;

    closed spec fn view(&self) -> Seq<(Seq<u8>, TileSearchmapValue)> {
        self.entries@.map_values(|e: (TileColorArray, TileSearchmapValue)| (e.0@, e.1))
    }
}

/// The candidate entries recorded for the pixel grid `key`, in insertion
/// order.
pub open spec fn matching_values(
    entries: Seq<(Seq<u8>, TileSearchmapValue)>,
    key: Seq<u8>,
) -> Seq<TileSearchmapValue>
    decreases entries.len(),
{
    if entries.len() == 0 {
        Seq::empty()
    } else {
        let rest = matching_values(entries.drop_last(), key);
        if entries.last().0 == key {
            rest.push(entries.last().1)
        } else {
            rest
        }
    }
}

/// `matching_values` distributes over concatenation of entry lists.
pub proof fn lemma_matching_values_concat(
    a: Seq<(Seq<u8>, TileSearchmapValue)>,
    b: Seq<(Seq<u8>, TileSearchmapValue)>,
    key: Seq<u8>,
)
    ensures
        matching_values(a + b, key) == matching_values(a, key) + matching_values(b, key),
    decreases b.len(),
{
    if b.len() == 0 {
        assert(a + b =~= a);
        assert(matching_values(a, key) + matching_values(b, key) =~= matching_values(a, key));
    } else {
        lemma_matching_values_concat(a, b.drop_last(), key);
        assert((a + b).drop_last() =~= a + b.drop_last());
        assert((a + b).last() == b.last());
        if b.last().0 == key {
            assert(matching_values(a, key) + matching_values(b, key) =~= (matching_values(a, key)
                + matching_values(b.drop_last(), key)).push(b.last().1));
        } else {
            assert(matching_values(b, key) == matching_values(b.drop_last(), key));
        }
    }
}

impl TileSearchmap {
    /// An empty searchmap.
    pub fn new() -> (r: Self)
        ensures
            r@ == Seq::<(Seq<u8>, TileSearchmapValue)>::empty(),
    {
        let r = TileSearchmap { entries: Vec::new() };
        proof {
            assert(r@ =~= Seq::<(Seq<u8>, TileSearchmapValue)>::empty());
        }
        r
    }

    /// Records one candidate entry for a pixel grid.
    fn push_entry(&mut self, key: TileColorArray, value: TileSearchmapValue)
        ensures
            final(self)@ == old(self)@.push((key@, value)),
    {
        let ghost old_view = self@;
        self.entries.push((key, value));
        proof {
            assert(self@ =~= old_view.push((key@, value)));
        }
    }

    /// Collects the candidate entries recorded for `key`, in insertion
    /// order.
    pub fn lookup(&self, key: &TileColorArray) -> (r: Vec<TileSearchmapValue>)
        ensures
            r@ == matching_values(self@, key@),
    {
        let mut result: Vec<TileSearchmapValue> = Vec::new();
        let n = self.entries.len();
        let mut i: usize = 0;
        while i < n
            invariant
                n == self.entries@.len(),
                i <= n,
                result@ == matching_values(self@.take(i as int), key@),
            decreases n - i,
        {
            let entry = &self.entries[i];
            proof {
                assert(self@.take(i + 1).drop_last() =~= self@.take(i as int));
                assert(self@.take(i + 1).last() == self@[i as int]);
                assert(self@[i as int].0 == entry.0@);
            }
            if entry.0.content_equals(key) {
                proof {
                    assert(entry.0@ == key@);
                }
                result.push(entry.1);
            } else {
                proof {
                    if entry.0@ =~= key@ {
                        assert(false);
                    }
                    assert(entry.0@ != key@);
                }
            }
            i = i + 1;
        }
        proof {
            assert(self@.take(n as int) =~= self@);
        }
        result
    }
}

// ---------------------------------------------------------------------------
// Searchmap construction
// ---------------------------------------------------------------------------

/// The four searchmap entries contributed by the reference tile with pixel
/// grid `grid` at index `index`: the three flipped variants first, then the
/// identity variant.
pub open spec fn tile_variant_list(grid: Seq<u8>, index: int) -> Seq<(Seq<u8>, TileSearchmapValue)> {
    seq![
        (
            spec_flip_tile(grid, false, true),
            TileSearchmapValue { x_flip: false, y_flip: true, tile_index: index as u8 },
        ),
        (
            spec_flip_tile(grid, true, false),
            TileSearchmapValue { x_flip: true, y_flip: false, tile_index: index as u8 },
        ),
        (
            spec_flip_tile(grid, true, true),
            TileSearchmapValue { x_flip: true, y_flip: true, tile_index: index as u8 },
        ),
        (grid, TileSearchmapValue { x_flip: false, y_flip: false, tile_index: index as u8 }),
    ]
}

/// The full searchmap entry list for the first `n` reference tile grids,
/// tiles in ascending index order.
pub open spec fn spec_searchmap_entries(tiles: Seq<Seq<u8>>, n: int) -> Seq<
    (Seq<u8>, TileSearchmapValue),
>
    decreases n,
{
    if n <= 0 {
        Seq::empty()
    } else {
        spec_searchmap_entries(tiles, n - 1) + tile_variant_list(tiles[n - 1], n - 1)
    }
}

/// The pixel grids of a reference tile list.
pub open spec fn tile_grids(tiles: Seq<TileInfo>) -> Seq<Seq<u8>> {
    tiles.map_values(|t: TileInfo| t.color_array@)
}

/// Builds the searchmap for a reference tile list: for each tile in
/// ascending index order, records its three flipped variants and then its
/// identity grid.
pub fn tile_searchmap_from_tiledata_vec(tile_info_vec: Vec<TileInfo>) -> (r: TileSearchmap)
    requires
        tile_info_vec@.len() <= 256,
        forall|i: int|
            0 <= i < tile_info_vec@.len() ==> (#[trigger] tile_info_vec@[i]).color_array.wf(),
    ensures
        r@ == spec_searchmap_entries(tile_grids(tile_info_vec@), tile_info_vec@.len() as int),
{
    let mut tile_searchmap = TileSearchmap::new();
    let n = tile_info_vec.len();
    let mut tile_index: usize = 0;
    while tile_index < n
        invariant
            n == tile_info_vec@.len(),
            n <= 256,
            tile_index <= n,
            forall|i: int|
                0 <= i < tile_info_vec@.len() ==> (#[trigger] tile_info_vec@[i]).color_array.wf(),
            tile_searchmap@ == spec_searchmap_entries(tile_grids(tile_info_vec@), tile_index as int),
        decreases n - tile_index,
    {
        let ghost entries_before = tile_searchmap@;
        let ghost grid = tile_info_vec@[tile_index as int].color_array@;
        let tile = &tile_info_vec[tile_index].color_array;
        let index_byte = tile_index as u8;

        let variant_xy = flip_tile(tile, false, true);
        tile_searchmap.push_entry(
            variant_xy,
            TileSearchmapValue { x_flip: false, y_flip: true, tile_index: index_byte },
        );
        let variant_yx = flip_tile(tile, true, false);
        tile_searchmap.push_entry(
            variant_yx,
            TileSearchmapValue { x_flip: true, y_flip: false, tile_index: index_byte },
        );
        let variant_xyyx = flip_tile(tile, true, true);
        tile_searchmap.push_entry(
            variant_xyyx,
            TileSearchmapValue { x_flip: true, y_flip: true, tile_index: index_byte },
        );
        let identity = flip_tile(tile, false, false);
        tile_searchmap.push_entry(
            identity,
            TileSearchmapValue { x_flip: false, y_flip: false, tile_index: index_byte },
        );
        proof {
            lemma_flip_identity(grid);
            assert(tile_searchmap@ =~= entries_before + tile_variant_list(grid, tile_index as int));
            assert(tile_grids(tile_info_vec@)[tile_index as int] == grid);
            assert(tile_searchmap@ == spec_searchmap_entries(
                tile_grids(tile_info_vec@),
                tile_index + 1,
            ));
        }
        tile_index = tile_index + 1;
    }
    tile_searchmap
}

// ---------------------------------------------------------------------------
// Resolution preference policy
// ---------------------------------------------------------------------------

/// The entry that resolution selects from a candidate list: the first
/// unflipped entry when one exists; otherwise, when flipped matches are
/// allowed and the list is not empty, its last entry; otherwise nothing.
pub open spec fn spec_preferred_entry(
    entries: Seq<TileSearchmapValue>,
    allow_flipped: bool,
) -> Option<TileSearchmapValue>
    decreases entries.len(),
{
    if entries.len() == 0 {
        None
    } else if entries[0].spec_is_unflipped() {
        Some(entries[0])
    } else {
        match spec_preferred_entry(entries.drop_first(), allow_flipped) {
            Some(v) => Some(v),
            None => if allow_flipped {
                Some(entries[0])
            } else {
                None
            },
        }
    }
}

/// When an unflipped entry exists, the preferred entry is the first one,
/// whatever the flip allowance.
pub proof fn lemma_preferred_entry_unflipped(
    entries: Seq<TileSearchmapValue>,
    allow_flipped: bool,
    i: int,
)
    requires
        0 <= i < entries.len(),
        entries[i].spec_is_unflipped(),
        forall|j: int| 0 <= j < i ==> !(#[trigger] entries[j]).spec_is_unflipped(),
    ensures
        spec_preferred_entry(entries, allow_flipped) == Some(entries[i]),
    decreases i,
{
    if i > 0 {
        lemma_preferred_entry_unflipped(entries.drop_first(), allow_flipped, i - 1);
    }
}

/// When no unflipped entry exists, the preferred entry is the last one if
/// flipped matches are allowed, and nothing otherwise.
pub proof fn lemma_preferred_entry_no_unflipped(entries: Seq<TileSearchmapValue>, allow_flipped: bool)
    requires
        forall|j: int| 0 <= j < entries.len() ==> !(#[trigger] entries[j]).spec_is_unflipped(),
    ensures
        spec_preferred_entry(entries, allow_flipped) == if allow_flipped && entries.len() > 0 {
            Some(entries.last())
        } else {
            None::<TileSearchmapValue>
        },
    decreases entries.len(),
{
    if entries.len() > 0 {
        lemma_preferred_entry_no_unflipped(entries.drop_first(), allow_flipped);
    }
}

/// Selects a candidate entry from a collision list, preferring unflipped
/// entries over flipped ones, and accepting a flipped entry only when
/// flipped matches are allowed.
pub fn resolve_entry_list(entries: &Vec<TileSearchmapValue>, allow_flipped: bool) -> (r: Option<
    TileSearchmapValue,
>)
    ensures
        r == spec_preferred_entry(entries@, allow_flipped),
{
    let n = entries.len();
    let mut i: usize = 0;
    while i < n
        invariant
            n == entries@.len(),
            i <= n,
            forall|j: int| 0 <= j < i ==> !(#[trigger] entries@[j]).spec_is_unflipped(),
        decreases n - i,
    {
        if entries[i].is_unflipped() {
            proof {
                lemma_preferred_entry_unflipped(entries@, allow_flipped, i as int);
            }
            return Some(entries[i]);
        }
        i = i + 1;
    }
    proof {
        lemma_preferred_entry_no_unflipped(entries@, allow_flipped);
    }
    if allow_flipped && n > 0 {
        Some(entries[n - 1])
    } else {
        None
    }
}

// ---------------------------------------------------------------------------
// Tilemap resolution
// ---------------------------------------------------------------------------

/// The attribute byte for a flip state: bit 6 is the vertical flip, bit 5
/// the horizontal flip; the priority, bank and palette bits stay zero.
pub open spec fn spec_attribute_byte(x_flip: bool, y_flip: bool) -> u8 {
    if x_flip && y_flip {
        0x60u8
    } else if y_flip {
        0x40u8
    } else if x_flip {
        0x20u8
    } else {
        0u8
    }
}

/// Encodes a flip state into a single attribute byte.
pub fn attribute_byte_for(x_flip: bool, y_flip: bool) -> (r: u8)
    ensures
        r == spec_attribute_byte(x_flip, y_flip),
{
    let mut attribute_byte: u8 = 0;
    if x_flip {
        attribute_byte = attribute_byte + 0x20;
    }
    if y_flip {
        attribute_byte = attribute_byte + 0x40;
    }
    attribute_byte
}

/// Both image dimensions are whole multiples of the tile size.
pub open spec fn spec_dims_tile_aligned(image: Image) -> bool {
    image.width % 8 == 0 && image.height % 8 == 0
}

/// The image's width in tiles.
pub open spec fn spec_width_tiles(image: Image) -> int {
    image.width as int / 8
}

/// The image's height in tiles.
pub open spec fn spec_height_tiles(image: Image) -> int {
    image.height as int / 8
}

/// The tile grid fits the 32x32 hardware tilemap.
pub open spec fn spec_tilemap_fits(image: Image) -> bool {
    spec_width_tiles(image) <= 32 && spec_height_tiles(image) <= 32
}

/// Tile `(xp, yp)` is visited before tile `(x, y)` in resolution order
/// (columns outermost).
pub open spec fn spec_tile_earlier(xp: int, yp: int, x: int, y: int) -> bool {
    xp < x || (xp == x && yp < y)
}

/// The entry that resolution selects for the tilemap tile at `(tile_x,
/// tile_y)`: the preferred entry of the candidate list recorded for the
/// tile's extracted pixel grid.
pub open spec fn spec_resolved_entry(
    searchmap: Seq<(Seq<u8>, TileSearchmapValue)>,
    image: Image,
    palette: Seq<PixelColor>,
    tile_x: int,
    tile_y: int,
    allow_flipped: bool,
) -> Option<TileSearchmapValue> {
    spec_preferred_entry(
        matching_values(searchmap, spec_extracted_tile(image, palette, tile_x, tile_y)),
        allow_flipped,
    )
}

/// The tilemap tile at `(tile_x, tile_y)` extracts cleanly and resolves to
/// some searchmap entry.
pub open spec fn tile_resolvable(
    searchmap: Seq<(Seq<u8>, TileSearchmapValue)>,
    image: Image,
    palette: Seq<PixelColor>,
    tile_x: int,
    tile_y: int,
    allow_flipped: bool,
) -> bool {
    &&& tile_extract_ok(image, palette, tile_x, tile_y)
    &&& spec_resolved_entry(searchmap, image, palette, tile_x, tile_y, allow_flipped) is Some
}

/// Every tile of the tilemap resolves.
pub open spec fn all_tiles_resolvable(
    searchmap: Seq<(Seq<u8>, TileSearchmapValue)>,
    image: Image,
    palette: Seq<PixelColor>,
    allow_flipped: bool,
) -> bool {
    forall|tx: int, ty: int|
        0 <= tx < spec_width_tiles(image) && 0 <= ty < spec_height_tiles(image)
            ==> #[trigger] tile_resolvable(searchmap, image, palette, tx, ty, allow_flipped)
}

/// Row-major cell indices of the 32x32 grid decompose uniquely into
/// coordinates.
pub proof fn lemma_tilemap_grid_index(x: int, y: int)
    requires
        0 <= x < 32,
        0 <= y < 32,
    ensures
        (y * 32 + x) % 32 == x,
        (y * 32 + x) / 32 == y,
{
    assert((y * 32 + x) % 32 == x && (y * 32 + x) / 32 == y) by (nonlinear_arith)
        requires
            0 <= x < 32 && 0 <= y < 32,
    ;
}

/// The flat contents of the tile index array that resolution produces:
/// resolved tile indices inside the tilemap's rectangle, zero outside.
pub open spec fn spec_resolved_index_cells(
    searchmap: Seq<(Seq<u8>, TileSearchmapValue)>,
    image: Image,
    palette: Seq<PixelColor>,
    allow_flipped: bool,
) -> Seq<u8> {
    Seq::new(
        1024,
        |i: int|
            if (i % 32) < spec_width_tiles(image) && (i / 32) < spec_height_tiles(image) {
                spec_resolved_entry(searchmap, image, palette, i % 32, i / 32, allow_flipped)->0.tile_index
            } else {
                0u8
            },
    )
}

/// The flat contents of the attribute byte array that resolution produces:
/// attribute bytes of the resolved flip states inside the tilemap's
/// rectangle, zero outside.
pub open spec fn spec_resolved_attribute_cells(
    searchmap: Seq<(Seq<u8>, TileSearchmapValue)>,
    image: Image,
    palette: Seq<PixelColor>,
    allow_flipped: bool,
) -> Seq<u8> {
    Seq::new(
        1024,
        |i: int|
            if (i % 32) < spec_width_tiles(image) && (i / 32) < spec_height_tiles(image) {
                spec_attribute_byte(
                    spec_resolved_entry(
                        searchmap,
                        image,
                        palette,
                        i % 32,
                        i / 32,
                        allow_flipped,
                    )->0.x_flip,
                    spec_resolved_entry(
                        searchmap,
                        image,
                        palette,
                        i % 32,
                        i / 32,
                        allow_flipped,
                    )->0.y_flip,
                )
            } else {
                0u8
            },
    )
}

/// Exactly when tilemap resolution reports the error `e`: each variant
/// carries the coordinates of the first failing tile in resolution order,
/// and every earlier tile resolves.
pub open spec fn spec_tilemap_resolution_error(
    e: TileError,
    searchmap: Seq<(Seq<u8>, TileSearchmapValue)>,
    image: Image,
    palette: Seq<PixelColor>,
    allow_flipped: bool,
) -> bool {
    match e {
        TileError::DimensionNotTileAligned { width, height } => {
            &&& width == image.width
            &&& height == image.height
            &&& !spec_dims_tile_aligned(image)
        },
        TileError::TilemapTooLarge { width_tiles, height_tiles } => {
            &&& spec_dims_tile_aligned(image)
            &&& width_tiles == spec_width_tiles(image)
            &&& height_tiles == spec_height_tiles(image)
            &&& !spec_tilemap_fits(image)
        },
        TileError::ColorNotInPalette { tile_x, tile_y, pixel_x, pixel_y } => {
            &&& spec_dims_tile_aligned(image)
            &&& spec_tilemap_fits(image)
            &&& 0 <= tile_x < spec_width_tiles(image)
            &&& 0 <= tile_y < spec_height_tiles(image)
            &&& tile_x * 8 <= pixel_x < tile_x * 8 + 8
            &&& tile_y * 8 <= pixel_y < tile_y * 8 + 8
            &&& !tile_cell_ok(
                image,
                palette,
                tile_x as int,
                tile_y as int,
                pixel_x - tile_x * 8,
                pixel_y - tile_y * 8,
            )
            &&& forall|x: int, y: int|
                0 <= x < 8 && 0 <= y < 8 && (y < pixel_y - tile_y * 8 || (y == pixel_y - tile_y * 8
                    && x < pixel_x - tile_x * 8)) ==> #[trigger] tile_cell_ok(
                    image,
                    palette,
                    tile_x as int,
                    tile_y as int,
                    x,
                    y,
                )
            &&& forall|xp: int, yp: int|
                0 <= xp < spec_width_tiles(image) && 0 <= yp < spec_height_tiles(image)
                    && spec_tile_earlier(xp, yp, tile_x as int, tile_y as int)
                    ==> #[trigger] tile_resolvable(searchmap, image, palette, xp, yp, allow_flipped)
        },
        TileError::UnrecognizedTile { tile_x, tile_y } => {
            &&& spec_dims_tile_aligned(image)
            &&& spec_tilemap_fits(image)
            &&& 0 <= tile_x < spec_width_tiles(image)
            &&& 0 <= tile_y < spec_height_tiles(image)
            &&& tile_extract_ok(image, palette, tile_x as int, tile_y as int)
            &&& matching_values(
                searchmap,
                spec_extracted_tile(image, palette, tile_x as int, tile_y as int),
            ).len() == 0
            &&& forall|xp: int, yp: int|
                0 <= xp < spec_width_tiles(image) && 0 <= yp < spec_height_tiles(image)
                    && spec_tile_earlier(xp, yp, tile_x as int, tile_y as int)
                    ==> #[trigger] tile_resolvable(searchmap, image, palette, xp, yp, allow_flipped)
        },
        TileError::FlippedTileWithoutAttributes { tile_x, tile_y } => {
            &&& spec_dims_tile_aligned(image)
            &&& spec_tilemap_fits(image)
            &&& 0 <= tile_x < spec_width_tiles(image)
            &&& 0 <= tile_y < spec_height_tiles(image)
            &&& tile_extract_ok(image, palette, tile_x as int, tile_y as int)
            &&& matching_values(
                searchmap,
                spec_extracted_tile(image, palette, tile_x as int, tile_y as int),
            ).len() > 0
            &&& spec_resolved_entry(
                searchmap,
                image,
                palette,
                tile_x as int,
                tile_y as int,
                allow_flipped,
            ) is None
            &&& !allow_flipped
            &&& forall|xp: int, yp: int|
                0 <= xp < spec_width_tiles(image) && 0 <= yp < spec_height_tiles(image)
                    && spec_tile_earlier(xp, yp, tile_x as int, tile_y as int)
                    ==> #[trigger] tile_resolvable(searchmap, image, palette, xp, yp, allow_flipped)
        },
        _ => false,
    }
}

/// Resolves a tilemap image against the reference searchmap: validates the
/// image dimensions and the tile-grid size, extracts each 8x8 tile, and
/// selects a tile index (and, in attribute mode, an attribute byte) for
/// every tile cell according to the unflipped-first preference policy.
/// Cells outside the tilemap's populated rectangle stay zero.
pub fn index_and_attribute_array_from_tilemap_image(
    tilemap_image: &Image,
    color_palette: &ColorPalette,
    tile_search_map: &TileSearchmap,
    allow_attributes_and_generate_attribute_array: bool,
) -> (r: Result<(TileIndexArray, Option<AttributeByteArray>), TileError>)
    requires
        tilemap_image.wf(),
        color_palette.wf(),
    ensures
        r is Ok <==> {
            &&& spec_dims_tile_aligned(*tilemap_image)
            &&& spec_tilemap_fits(*tilemap_image)
            &&& all_tiles_resolvable(
                tile_search_map@,
                *tilemap_image,
                color_palette@,
                allow_attributes_and_generate_attribute_array,
            )
        },
        match r {
            Ok((index_array, attribute_array)) => {
                &&& index_array.0.wf()
                &&& (attribute_array is Some <==> allow_attributes_and_generate_attribute_array)
                &&& index_array.0@ == spec_resolved_index_cells(
                    tile_search_map@,
                    *tilemap_image,
                    color_palette@,
                    allow_attributes_and_generate_attribute_array,
                )
                &&& (match attribute_array {
                    Some(attributes) => attributes.0@ == spec_resolved_attribute_cells(
                        tile_search_map@,
                        *tilemap_image,
                        color_palette@,
                        allow_attributes_and_generate_attribute_array,
                    ),
                    None => true,
                })
                &&& forall|a: int, b: int|
                    0 <= a < 32 && 0 <= b < 32 ==> #[trigger] index_array.0.cell(a, b) == if a
                        < spec_width_tiles(*tilemap_image) && b < spec_height_tiles(*tilemap_image) {
                        spec_resolved_entry(
                            tile_search_map@,
                            *tilemap_image,
                            color_palette@,
                            a,
                            b,
                            allow_attributes_and_generate_attribute_array,
                        )->0.tile_index
                    } else {
                        0u8
                    }
                &&& match attribute_array {
                    Some(attributes) => {
                        &&& attributes.0.wf()
                        &&& forall|a: int, b: int|
                            0 <= a < 32 && 0 <= b < 32 ==> #[trigger] attributes.0.cell(a, b)
                                == if a < spec_width_tiles(*tilemap_image) && b < spec_height_tiles(
                                *tilemap_image,
                            ) {
                                spec_attribute_byte(
                                    spec_resolved_entry(
                                        tile_search_map@,
                                        *tilemap_image,
                                        color_palette@,
                                        a,
                                        b,
                                        allow_attributes_and_generate_attribute_array,
                                    )->0.x_flip,
                                    spec_resolved_entry(
                                        tile_search_map@,
                                        *tilemap_image,
                                        color_palette@,
                                        a,
                                        b,
                                        allow_attributes_and_generate_attribute_array,
                                    )->0.y_flip,
                                )
                            } else {
                                0u8
                            }
                    },
                    None => true,
                }
            },
            Err(e) => spec_tilemap_resolution_error(
                e,
                tile_search_map@,
                *tilemap_image,
                color_palette@,
                allow_attributes_and_generate_attribute_array,
            ),
        },
{
    let width = tilemap_image.width;
    let height = tilemap_image.height;
    if width % 8 != 0 || height % 8 != 0 {
        return Err(TileError::DimensionNotTileAligned { width, height });
    }
    let tilemap_width = width / 8;
    let tilemap_height = height / 8;
    if tilemap_width > 32 || tilemap_height > 32 {
        return Err(
            TileError::TilemapTooLarge {
                width_tiles: tilemap_width,
                height_tiles: tilemap_height,
            },
        );
    }
    let mut tile_index_array = TileIndexArray(TilemapByteArray::new());
    let mut attribute_byte_array = AttributeByteArray(TilemapByteArray::new());

    let ghost smap = tile_search_map@;
    let ghost img = *tilemap_image;
    let ghost pal = color_palette@;
    let ghost allow = allow_attributes_and_generate_attribute_array;

    let mut x: u32 = 0;
    while x < tilemap_width
        invariant
            tilemap_image.wf(),
            color_palette.wf(),
            smap == tile_search_map@,
            img == *tilemap_image,
            pal == color_palette@,
            allow == allow_attributes_and_generate_attribute_array,
            spec_dims_tile_aligned(img),
            tilemap_width == spec_width_tiles(img),
            tilemap_height == spec_height_tiles(img),
            tilemap_width <= 32,
            tilemap_height <= 32,
            x <= tilemap_width,
            tile_index_array.0.wf(),
            attribute_byte_array.0.wf(),
            forall|xp: int, yp: int|
                0 <= xp < x && 0 <= yp < tilemap_height ==> #[trigger] tile_resolvable(
                    smap,
                    img,
                    pal,
                    xp,
                    yp,
                    allow,
                ),
            forall|a: int, b: int|
                0 <= a < 32 && 0 <= b < 32 ==> #[trigger] tile_index_array.0.cell(a, b) == if a < x
                    && b < tilemap_height {
                    spec_resolved_entry(smap, img, pal, a, b, allow)->0.tile_index
                } else {
                    0u8
                },
            forall|a: int, b: int|
                0 <= a < 32 && 0 <= b < 32 ==> #[trigger] attribute_byte_array.0.cell(a, b) == if a
                    < x && b < tilemap_height && allow {
                    spec_attribute_byte(
                        spec_resolved_entry(smap, img, pal, a, b, allow)->0.x_flip,
                        spec_resolved_entry(smap, img, pal, a, b, allow)->0.y_flip,
                    )
                } else {
                    0u8
                },
        decreases tilemap_width - x,
    {
        let mut y: u32 = 0;
        while y < tilemap_height
            invariant
                tilemap_image.wf(),
                color_palette.wf(),
                smap == tile_search_map@,
                img == *tilemap_image,
                pal == color_palette@,
                allow == allow_attributes_and_generate_attribute_array,
                spec_dims_tile_aligned(img),
                tilemap_width == spec_width_tiles(img),
                tilemap_height == spec_height_tiles(img),
                tilemap_width <= 32,
                tilemap_height <= 32,
                x < tilemap_width,
                y <= tilemap_height,
                tile_index_array.0.wf(),
                attribute_byte_array.0.wf(),
                forall|xp: int, yp: int|
                    0 <= xp < tilemap_width && 0 <= yp < tilemap_height && spec_tile_earlier(
                        xp,
                        yp,
                        x as int,
                        y as int,
                    ) ==> #[trigger] tile_resolvable(smap, img, pal, xp, yp, allow),
                forall|a: int, b: int|
                    0 <= a < 32 && 0 <= b < 32 ==> #[trigger] tile_index_array.0.cell(a, b) == if (a
                        < tilemap_width && b < tilemap_height && spec_tile_earlier(
                        a,
                        b,
                        x as int,
                        y as int,
                    )) {
                        spec_resolved_entry(smap, img, pal, a, b, allow)->0.tile_index
                    } else {
                        0u8
                    },
                forall|a: int, b: int|
                    0 <= a < 32 && 0 <= b < 32 ==> #[trigger] attribute_byte_array.0.cell(a, b)
                        == if (a < tilemap_width && b < tilemap_height && spec_tile_earlier(
                        a,
                        b,
                        x as int,
                        y as int,
                    ) && allow) {
                        spec_attribute_byte(
                            spec_resolved_entry(smap, img, pal, a, b, allow)->0.x_flip,
                            spec_resolved_entry(smap, img, pal, a, b, allow)->0.y_flip,
                        )
                    } else {
                        0u8
                    },
            decreases tilemap_height - y,
        {
            let current_tile_tiledata = match read_tile_from_image(
                x,
                y,
                tilemap_image,
                color_palette,
            ) {
                Ok(t) => t,
                Err(e) => {
                    proof {
                        assert(!tile_resolvable(smap, img, pal, x as int, y as int, allow));
                    }
                    return Err(e);
                },
            };
            let candidates = tile_search_map.lookup(&current_tile_tiledata);
            match resolve_entry_list(&candidates, allow_attributes_and_generate_attribute_array) {
                Some(value) => {
                    tile_index_array.0.assign(x as usize, y as usize, value.tile_index);
                    if allow_attributes_and_generate_attribute_array {
                        let attribute_byte = attribute_byte_for(value.x_flip, value.y_flip);
                        attribute_byte_array.0.assign(x as usize, y as usize, attribute_byte);
                    }
                    proof {
                        assert(tile_resolvable(smap, img, pal, x as int, y as int, allow));
                        assert forall|xp: int, yp: int|
                            0 <= xp < tilemap_width && 0 <= yp < tilemap_height
                                && spec_tile_earlier(xp, yp, x as int, y as int + 1)
                                implies #[trigger] tile_resolvable(smap, img, pal, xp, yp, allow) by {
                        }
                    }
                },
                None => {
                    if candidates.len() == 0 {
                        proof {
                            assert(!tile_resolvable(smap, img, pal, x as int, y as int, allow));
                        }
                        return Err(TileError::UnrecognizedTile { tile_x: x, tile_y: y });
                    } else {
                        proof {
                            assert(!tile_resolvable(smap, img, pal, x as int, y as int, allow));
                            lemma_preferred_entry_no_unflipped_nonempty(candidates@, allow);
                        }
                        return Err(
                            TileError::FlippedTileWithoutAttributes { tile_x: x, tile_y: y },
                        );
                    }
                },
            }
            y = y + 1;
        }
        x = x + 1;
    }
    proof {
        assert forall|tx: int, ty: int|
            0 <= tx < spec_width_tiles(img) && 0 <= ty < spec_height_tiles(img)
                implies #[trigger] tile_resolvable(smap, img, pal, tx, ty, allow) by {
        }
        assert forall|i: int| 0 <= i < 1024 implies tile_index_array.0@[i]
            == spec_resolved_index_cells(smap, img, pal, allow)[i] by {
            lemma_tilemap_grid_index(i % 32, i / 32);
            assert(tile_index_array.0.cell(i % 32, i / 32) == tile_index_array.0@[i]);
        }
        assert(tile_index_array.0@ =~= spec_resolved_index_cells(smap, img, pal, allow));
        if allow {
            assert forall|i: int| 0 <= i < 1024 implies attribute_byte_array.0@[i]
                == spec_resolved_attribute_cells(smap, img, pal, allow)[i] by {
                lemma_tilemap_grid_index(i % 32, i / 32);
                assert(attribute_byte_array.0.cell(i % 32, i / 32) == attribute_byte_array.0@[i]);
            }
            assert(attribute_byte_array.0@ =~= spec_resolved_attribute_cells(
                smap,
                img,
                pal,
                allow,
            ));
        }
    }
    if allow_attributes_and_generate_attribute_array {
        Ok((tile_index_array, Some(attribute_byte_array)))
    } else {
        Ok((tile_index_array, None))
    }
}

// ---------------------------------------------------------------------------
// Reference tileset reading
// ---------------------------------------------------------------------------

/// The color palette defined by the first 4 pixels of an image.
pub open spec fn spec_first_palette(image: Image) -> Seq<PixelColor> {
    seq![
        image.spec_pixel(0, 0),
        image.spec_pixel(1, 0),
        image.spec_pixel(2, 0),
        image.spec_pixel(3, 0),
    ]
}

/// Whether the reference tile at `(tile_x, tile_y)` extracts cleanly
/// against the image's own first-4-pixel palette.
pub open spec fn tileset_tile_ok(image: Image, tile_x: int, tile_y: int) -> bool {
    tile_extract_ok(image, spec_first_palette(image), tile_x, tile_y)
}

/// Where the data tile at tile coordinates `(tile_x, tile_y)` lands in the
/// reference tile list: tiles are visited column by column (columns
/// outermost) and the palette tile at `(0, 0)` is skipped.
pub open spec fn tileset_entry_index(tile_x: int, tile_y: int, height_tiles: int) -> int {
    tile_x * height_tiles + tile_y - 1
}

/// Reads a palette from the first 4 pixels of an image.
pub fn read_palette_from_image(image: &Image) -> (r: ColorPalette)
    requires
        image.wf(),
        image.width >= 4,
        image.height >= 1,
    ensures
        r.wf(),
        r@ == spec_first_palette(*image),
{
    let c0 = image.get_pixel(0, 0);
    let c1 = image.get_pixel(1, 0);
    let c2 = image.get_pixel(2, 0);
    let c3 = image.get_pixel(3, 0);
    ColorPalette::new(c0, c1, c2, c3)
}

/// Reads a reference tileset supplied as one grid image.  The image's
/// first 4 pixels define the color palette; every 8x8 tile except the
/// palette-defining tile at `(0, 0)` becomes one unnamed data tile, columns
/// visited outermost.
pub fn read_tileset_info_from_image(image: &Image) -> (r: Result<
    (Vec<TileInfo>, ColorPalette),
    TileError,
>)
    requires
        image.wf(),
    ensures
        r is Ok <==> {
            &&& spec_dims_tile_aligned(*image)
            &&& 2 <= spec_width_tiles(*image) * spec_height_tiles(*image) <= 257
            &&& forall|tx: int, ty: int|
                0 <= tx < spec_width_tiles(*image) && 0 <= ty < spec_height_tiles(*image) && !(tx
                    == 0 && ty == 0) ==> #[trigger] tileset_tile_ok(*image, tx, ty)
        },
        match r {
            Ok((tiles, palette)) => {
                &&& palette.wf()
                &&& palette@ == spec_first_palette(*image)
                &&& tiles@.len() == spec_width_tiles(*image) * spec_height_tiles(*image) - 1
                &&& forall|tx: int, ty: int|
                    #![trigger tileset_entry_index(tx, ty, spec_height_tiles(*image))]
                    0 <= tx < spec_width_tiles(*image) && 0 <= ty < spec_height_tiles(*image) && !(
                    tx == 0 && ty == 0) ==> {
                        let tile = tiles@[tileset_entry_index(tx, ty, spec_height_tiles(*image))];
                        &&& tile.color_array.wf()
                        &&& tile.color_array@ == spec_extracted_tile(
                            *image,
                            spec_first_palette(*image),
                            tx,
                            ty,
                        )
                        &&& tile.name is None
                    }
            },
            Err(e) => match e {
                TileError::DimensionNotTileAligned { width, height } => {
                    &&& width == image.width
                    &&& height == image.height
                    &&& !spec_dims_tile_aligned(*image)
                },
                TileError::TilesetTooSmall { tile_count } => {
                    &&& spec_dims_tile_aligned(*image)
                    &&& tile_count == spec_width_tiles(*image) * spec_height_tiles(*image)
                    &&& tile_count < 2
                },
                TileError::TilesetTooLarge { tile_count } => {
                    &&& spec_dims_tile_aligned(*image)
                    &&& tile_count == spec_width_tiles(*image) * spec_height_tiles(*image)
                    &&& tile_count > 257
                },
                TileError::ColorNotInPalette { tile_x, tile_y, pixel_x, pixel_y } => {
                    &&& spec_dims_tile_aligned(*image)
                    &&& 2 <= spec_width_tiles(*image) * spec_height_tiles(*image) <= 257
                    &&& 0 <= tile_x < spec_width_tiles(*image)
                    &&& 0 <= tile_y < spec_height_tiles(*image)
                    &&& !(tile_x == 0 && tile_y == 0)
                    &&& tile_x * 8 <= pixel_x < tile_x * 8 + 8
                    &&& tile_y * 8 <= pixel_y < tile_y * 8 + 8
                    &&& !tile_cell_ok(
                        *image,
                        spec_first_palette(*image),
                        tile_x as int,
                        tile_y as int,
                        pixel_x - tile_x * 8,
                        pixel_y - tile_y * 8,
                    )
                    &&& forall|tx: int, ty: int|
                        0 <= tx < spec_width_tiles(*image) && 0 <= ty < spec_height_tiles(*image)
                            && !(tx == 0 && ty == 0) && spec_tile_earlier(
                            tx,
                            ty,
                            tile_x as int,
                            tile_y as int,
                        ) ==> #[trigger] tileset_tile_ok(*image, tx, ty)
                },
                _ => false,
            },
        },
{
    let width = image.width;
    let height = image.height;
    if width % 8 != 0 || height % 8 != 0 {
        return Err(TileError::DimensionNotTileAligned { width, height });
    }
    let image_width_in_tiles = width / 8;
    let image_height_in_tiles = height / 8;
    proof {
        assert(image_width_in_tiles <= 0x1fff_ffffu32);
        assert(image_height_in_tiles <= 0x1fff_ffffu32);
        assert((image_width_in_tiles as u64) * (image_height_in_tiles as u64)
            < 0x4000_0000_0000_0000u64) by (nonlinear_arith)
            requires
                image_width_in_tiles <= 0x1fff_ffffu32,
                image_height_in_tiles <= 0x1fff_ffffu32,
        ;
    }
    let total_tiles: u64 = (image_width_in_tiles as u64) * (image_height_in_tiles as u64);
    proof {
        assert(total_tiles == spec_width_tiles(*image) * spec_height_tiles(*image));
    }
    if total_tiles > 257 {
        return Err(TileError::TilesetTooLarge { tile_count: total_tiles });
    }
    if total_tiles < 2 {
        return Err(TileError::TilesetTooSmall { tile_count: total_tiles });
    }
    proof {
        assert(image_width_in_tiles >= 1 && image_height_in_tiles >= 1) by (nonlinear_arith)
            requires
                image_width_in_tiles * image_height_in_tiles >= 2,
                image_width_in_tiles >= 0,
                image_height_in_tiles >= 0,
        ;
        assert(width >= 8);
    }
    let color_palette = read_palette_from_image(image);

    let ghost img = *image;
    let ghost pal = color_palette@;
    let ghost wt = spec_width_tiles(*image);
    let ghost ht = spec_height_tiles(*image);

    let mut tile_info_vec: Vec<TileInfo> = Vec::new();
    let mut tile_x: u32 = 0;
    while tile_x < image_width_in_tiles
        invariant
            image.wf(),
            img == *image,
            color_palette.wf(),
            pal == color_palette@,
            pal == spec_first_palette(img),
            spec_dims_tile_aligned(img),
            wt == spec_width_tiles(img),
            ht == spec_height_tiles(img),
            image_width_in_tiles == wt,
            image_height_in_tiles == ht,
            1 <= wt,
            1 <= ht,
            2 <= wt * ht <= 257,
            tile_x <= wt,
            tile_info_vec@.len() == if tile_x == 0 {
                0int
            } else {
                tile_x * ht - 1
            },
            forall|tx: int, ty: int|
                0 <= tx < tile_x && 0 <= ty < ht && !(tx == 0 && ty == 0)
                    ==> #[trigger] tileset_tile_ok(img, tx, ty),
            forall|tx: int, ty: int|
                #![trigger tileset_entry_index(tx, ty, ht)]
                0 <= tx < tile_x && 0 <= ty < ht && !(tx == 0 && ty == 0) ==> {
                    let tile = tile_info_vec@[tileset_entry_index(tx, ty, ht)];
                    &&& 0 <= tileset_entry_index(tx, ty, ht) < tile_info_vec@.len()
                    &&& tile.color_array.wf()
                    &&& tile.color_array@ == spec_extracted_tile(img, pal, tx, ty)
                    &&& tile.name is None
                },
        decreases wt - tile_x,
    {
        let mut tile_y: u32 = 0;
        while tile_y < image_height_in_tiles
            invariant
                image.wf(),
                img == *image,
                color_palette.wf(),
                pal == color_palette@,
                pal == spec_first_palette(img),
                spec_dims_tile_aligned(img),
                wt == spec_width_tiles(img),
                ht == spec_height_tiles(img),
                image_width_in_tiles == wt,
                image_height_in_tiles == ht,
                1 <= wt,
                1 <= ht,
                2 <= wt * ht <= 257,
                tile_x < wt,
                tile_y <= ht,
                tile_info_vec@.len() == if tile_x == 0 && tile_y == 0 {
                    0int
                } else {
                    tile_x * ht + tile_y - 1
                },
                forall|tx: int, ty: int|
                    0 <= tx < wt && 0 <= ty < ht && !(tx == 0 && ty == 0) && spec_tile_earlier(
                        tx,
                        ty,
                        tile_x as int,
                        tile_y as int,
                    ) ==> #[trigger] tileset_tile_ok(img, tx, ty),
                forall|tx: int, ty: int|
                    #![trigger tileset_entry_index(tx, ty, ht)]
                    0 <= tx < wt && 0 <= ty < ht && !(tx == 0 && ty == 0) && spec_tile_earlier(
                        tx,
                        ty,
                        tile_x as int,
                        tile_y as int,
                    ) ==> {
                        let tile = tile_info_vec@[tileset_entry_index(tx, ty, ht)];
                        &&& 0 <= tileset_entry_index(tx, ty, ht) < tile_info_vec@.len()
                        &&& tile.color_array.wf()
                        &&& tile.color_array@ == spec_extracted_tile(img, pal, tx, ty)
                        &&& tile.name is None
                    },
            decreases ht - tile_y,
        {
            if !(tile_x == 0 && tile_y == 0) {
                let color_array = match read_tile_from_image(tile_x, tile_y, image, &color_palette) {
                    Ok(t) => t,
                    Err(e) => {
                        proof {
                            assert(!tileset_tile_ok(img, tile_x as int, tile_y as int));
                        }
                        return Err(e);
                    },
                };
                tile_info_vec.push(TileInfo { color_array, name: None });
                proof {
                    assert(tile_info_vec@.len() == tile_x * ht + tile_y) by (nonlinear_arith)
                        requires
                            tile_info_vec@.len() == (if tile_x == 0 && tile_y == 0 {
                                0int
                            } else {
                                tile_x * ht + tile_y - 1
                            }) + 1,
                            !(tile_x == 0 && tile_y == 0),
                            0 <= tile_x,
                            0 <= tile_y < ht,
                    ;
                }
            }
            proof {
                if tile_x == 0 && tile_y == 0 {
                    assert(tile_info_vec@.len() == 0);
                }
                assert forall|tx: int, ty: int|
                    0 <= tx < wt && 0 <= ty < ht && !(tx == 0 && ty == 0) && spec_tile_earlier(
                        tx,
                        ty,
                        tile_x as int,
                        tile_y as int + 1,
                    ) implies #[trigger] tileset_tile_ok(img, tx, ty) by {
                }
            }
            tile_y = tile_y + 1;
        }
        proof {
            assert(tile_x as int * ht + ht == (tile_x + 1) * ht) by (nonlinear_arith);
            assert forall|tx: int, ty: int|
                0 <= tx < tile_x + 1 && 0 <= ty < ht && !(tx == 0 && ty == 0)
                    implies #[trigger] tileset_tile_ok(img, tx, ty) by {
                assert(spec_tile_earlier(tx, ty, tile_x as int, ht));
            }
        }
        tile_x = tile_x + 1;
    }
    proof {
        assert(tile_info_vec@.len() == wt * ht - 1);
        assert forall|tx: int, ty: int|
            #![trigger tileset_entry_index(tx, ty, ht)]
            0 <= tx < wt && 0 <= ty < ht && !(tx == 0 && ty == 0) implies {
            let tile = tile_info_vec@[tileset_entry_index(tx, ty, ht)];
            &&& tile.color_array.wf()
            &&& tile.color_array@ == spec_extracted_tile(img, pal, tx, ty)
            &&& tile.name is None
        } by {
            assert(spec_tile_earlier(tx, ty, wt, 0));
        }
    }
    Ok((tile_info_vec, color_palette))
}

// ---------------------------------------------------------------------------
// Tile names for directory-supplied reference tilesets
// ---------------------------------------------------------------------------

/// File names starting with this prefix never become tile-index constants.
pub const IGNORE_PREFIX: &'static str = "_ignore";

/// Whether `c` is a decimal digit.
pub open spec fn spec_is_digit_char(c: char) -> bool {
    ('0' as u32) <= (c as u32) && (c as u32) <= ('9' as u32)
}

/// Whether `c` may appear in a bare C identifier.
pub open spec fn spec_is_identifier_char(c: char) -> bool {
    ||| ('a' as u32) <= (c as u32) && (c as u32) <= ('z' as u32)
    ||| ('A' as u32) <= (c as u32) && (c as u32) <= ('Z' as u32)
    ||| spec_is_digit_char(c)
    ||| (c as u32) == ('_' as u32)
}

/// Whether `s` is a valid bare C identifier: non-empty, made of identifier
/// characters, not starting with a digit.
pub open spec fn spec_is_valid_identifier(s: Seq<char>) -> bool {
    &&& s.len() > 0
    &&& forall|i: int| 0 <= i < s.len() ==> spec_is_identifier_char(#[trigger] s[i])
    &&& !spec_is_digit_char(s[0])
}

/// Whether `s` starts with the ignore prefix.
pub open spec fn spec_has_ignore_prefix(s: Seq<char>) -> bool {
    s.len() >= 7 && s.subrange(0, 7) == "_ignore"@
}

fn is_digit_char(c: char) -> (r: bool)
    ensures
        r == spec_is_digit_char(c),
{
    let n = c as u32;
    48 <= n && n <= 57
}

fn is_identifier_char(c: char) -> (r: bool)
    ensures
        r == spec_is_identifier_char(c),
{
    let n = c as u32;
    (97 <= n && n <= 122) || (65 <= n && n <= 90) || (48 <= n && n <= 57) || n == 95
}

/// Decides whether a file name stem is a valid bare C identifier.
pub fn is_valid_c_identifier(name: &str) -> (r: bool)
    ensures
        r == spec_is_valid_identifier(name@),
{
    let len = name.unicode_len();
    if len == 0 {
        return false;
    }
    if is_digit_char(name.get_char(0)) {
        return false;
    }
    let mut i: usize = 0;
    while i < len
        invariant
            len == name@.len(),
            i <= len,
            len > 0,
            !spec_is_digit_char(name@[0]),
            forall|j: int| 0 <= j < i ==> spec_is_identifier_char(#[trigger] name@[j]),
        decreases len - i,
    {
        if !is_identifier_char(name.get_char(i)) {
            return false;
        }
        i = i + 1;
    }
    true
}

/// Decides whether a file name stem starts with the ignore prefix.
pub fn has_ignore_prefix(name: &str) -> (r: bool)
    ensures
        r == spec_has_ignore_prefix(name@),
{
    proof {
        reveal_strlit("_ignore");
    }
    let prefix = IGNORE_PREFIX;
    let prefix_len = prefix.unicode_len();
    let len = name.unicode_len();
    if len < prefix_len {
        return false;
    }
    let mut i: usize = 0;
    while i < prefix_len
        invariant
            prefix@ == "_ignore"@,
            prefix_len == 7,
            len == name@.len(),
            len >= 7,
            i <= 7,
            forall|j: int| 0 <= j < i ==> name@[j] == "_ignore"@[j],
        decreases prefix_len - i,
    {
        proof {
            reveal_strlit("_ignore");
        }
        if name.get_char(i) != prefix.get_char(i) {
            proof {
                assert(name@.subrange(0, 7)[i as int] != "_ignore"@[i as int]);
            }
            return false;
        }
        i = i + 1;
    }
    proof {
        reveal_strlit("_ignore");
        assert(name@.subrange(0, 7) =~= "_ignore"@);
    }
    true
}

/// Whether reading a tile from a file with this stem should emit the
/// one-time invalid-identifier warning: the stem neither carries the ignore
/// prefix nor is a valid identifier.
pub fn stem_warning_needed(file_name_stem: &str) -> (r: bool)
    ensures
        r == (!spec_has_ignore_prefix(file_name_stem@) && !spec_is_valid_identifier(
            file_name_stem@,
        )),
{
    !has_ignore_prefix(file_name_stem) && !is_valid_c_identifier(file_name_stem)
}

/// The symbolic tile name derived from a file name stem: the stem itself
/// when it is a valid identifier without the ignore prefix, nothing
/// otherwise.
pub fn tile_name_for_stem(file_name_stem: &str) -> (r: Option<String>)
    ensures
        r is Some <==> (!spec_has_ignore_prefix(file_name_stem@) && spec_is_valid_identifier(
            file_name_stem@,
        )),
        r is Some ==> r->0@ == file_name_stem@,
{
    if !has_ignore_prefix(file_name_stem) && is_valid_c_identifier(file_name_stem) {
        Some(file_name_stem.to_owned())
    } else {
        None
    }
}

/// Reads one reference tile supplied as its own 8x8 image, naming it after
/// its file name stem when that stem is a usable identifier.
pub fn tile_info_from_single_tile_image(
    image: &Image,
    color_palette: &ColorPalette,
    file_name_stem: &str,
) -> (r: Result<TileInfo, TileError>)
    requires
        image.wf(),
        color_palette.wf(),
    ensures
        r is Ok <==> (image.width == 8 && image.height == 8 && tile_extract_ok(
            *image,
            color_palette@,
            0,
            0,
        )),
        match r {
            Ok(tile) => {
                &&& tile.color_array.wf()
                &&& tile.color_array@ == spec_extracted_tile(*image, color_palette@, 0, 0)
                &&& (tile.name is Some <==> (!spec_has_ignore_prefix(file_name_stem@)
                    && spec_is_valid_identifier(file_name_stem@)))
                &&& (tile.name is Some ==> tile.name->0@ == file_name_stem@)
            },
            Err(e) => match e {
                TileError::NotSingleTile { width, height } => {
                    &&& width == image.width
                    &&& height == image.height
                    &&& !(width == 8 && height == 8)
                },
                TileError::ColorNotInPalette { tile_x, tile_y, pixel_x, pixel_y } => {
                    &&& image.width == 8
                    &&& image.height == 8
                    &&& tile_x == 0
                    &&& tile_y == 0
                    &&& pixel_x < 8
                    &&& pixel_y < 8
                    &&& !tile_cell_ok(
                        *image,
                        color_palette@,
                        0,
                        0,
                        pixel_x as int,
                        pixel_y as int,
                    )
                    &&& forall|x: int, y: int|
                        0 <= x < 8 && 0 <= y < 8 && (y < pixel_y || (y == pixel_y && x < pixel_x))
                            ==> #[trigger] tile_cell_ok(*image, color_palette@, 0, 0, x, y)
                },
                _ => false,
            },
        },
{
    if !(image.width == 8) || !(image.height == 8) {
        return Err(TileError::NotSingleTile { width: image.width, height: image.height });
    }
    let color_array = match read_tile_from_image(0, 0, image, color_palette) {
        Ok(t) => t,
        Err(e) => {
            return Err(e);
        },
    };
    let name = tile_name_for_stem(file_name_stem);
    Ok(TileInfo { color_array, name })
}

/// A preferred entry of `None` on a non-empty candidate list can only mean
/// that flipped matches were not allowed.
pub proof fn lemma_preferred_entry_no_unflipped_nonempty(
    entries: Seq<TileSearchmapValue>,
    allow_flipped: bool,
)
    requires
        entries.len() > 0,
        spec_preferred_entry(entries, allow_flipped) is None,
    ensures
        !allow_flipped,
    decreases entries.len(),
{
    if !entries[0].spec_is_unflipped() {
        if entries.len() > 1 {
            lemma_preferred_entry_no_unflipped_nonempty(entries.drop_first(), allow_flipped);
        }
    }
}

// ---------------------------------------------------------------------------
// Laws of searchmap resolution
// ---------------------------------------------------------------------------

/// Appending one entry extends the candidate list for its key and leaves
/// every other key's list unchanged.
proof fn lemma_matching_values_push(
    entries: Seq<(Seq<u8>, TileSearchmapValue)>,
    entry: (Seq<u8>, TileSearchmapValue),
    key: Seq<u8>,
)
    ensures
        matching_values(entries.push(entry), key) == if entry.0 == key {
            matching_values(entries, key).push(entry.1)
        } else {
            matching_values(entries, key)
        },
{
    assert(entries.push(entry).drop_last() =~= entries);
    assert(entries.push(entry).last() == entry);
}

/// The candidate values that one reference tile contributes for a key:
/// each carries the tile's index, and an unflipped one appears exactly when
/// the key is the tile's own grid.
proof fn lemma_matching_values_variant_list(grid: Seq<u8>, index: int, key: Seq<u8>)
    requires
        0 <= index < 256,
    ensures
        forall|j: int|
            0 <= j < matching_values(tile_variant_list(grid, index), key).len() ==> {
                let v = #[trigger] matching_values(tile_variant_list(grid, index), key)[j];
                &&& v.tile_index == index
                &&& (v.spec_is_unflipped() ==> grid == key)
            },
        grid == key ==> {
            let l = matching_values(tile_variant_list(grid, index), key);
            &&& l.len() > 0
            &&& l.last().spec_is_unflipped()
            &&& l.last().tile_index == index
        },
{
    let e0 = (
        spec_flip_tile(grid, false, true),
        TileSearchmapValue { x_flip: false, y_flip: true, tile_index: index as u8 },
    );
    let e1 = (
        spec_flip_tile(grid, true, false),
        TileSearchmapValue { x_flip: true, y_flip: false, tile_index: index as u8 },
    );
    let e2 = (
        spec_flip_tile(grid, true, true),
        TileSearchmapValue { x_flip: true, y_flip: true, tile_index: index as u8 },
    );
    let e3 = (grid, TileSearchmapValue { x_flip: false, y_flip: false, tile_index: index as u8 });
    let s0 = Seq::<(Seq<u8>, TileSearchmapValue)>::empty();
    let s1 = s0.push(e0);
    let s2 = s1.push(e1);
    let s3 = s2.push(e2);
    let s4 = s3.push(e3);
    assert(tile_variant_list(grid, index) =~= s4);
    lemma_matching_values_push(s3, e3, key);
    lemma_matching_values_push(s2, e2, key);
    lemma_matching_values_push(s1, e1, key);
    lemma_matching_values_push(s0, e0, key);
    assert(matching_values(s0, key) =~= Seq::<TileSearchmapValue>::empty());
}

/// Soundness of the searchmap contents: every candidate recorded for a key
/// names a reference tile that exists, and an unflipped candidate names a
/// tile whose own grid is the key.
pub proof fn lemma_searchmap_entries_sound(tiles: Seq<Seq<u8>>, n: int, key: Seq<u8>)
    requires
        0 <= n <= tiles.len(),
        tiles.len() <= 256,
    ensures
        forall|j: int|
            0 <= j < matching_values(spec_searchmap_entries(tiles, n), key).len() ==> {
                let v = #[trigger] matching_values(spec_searchmap_entries(tiles, n), key)[j];
                &&& v.tile_index < n
                &&& (v.spec_is_unflipped() ==> tiles[v.tile_index as int] == key)
            },
    decreases n,
{
    if n > 0 {
        lemma_searchmap_entries_sound(tiles, n - 1, key);
        lemma_matching_values_concat(
            spec_searchmap_entries(tiles, n - 1),
            tile_variant_list(tiles[n - 1], n - 1),
            key,
        );
        lemma_matching_values_variant_list(tiles[n - 1], n - 1, key);
    }
}

/// Completeness for identity grids: the candidate list recorded for a
/// reference tile's own grid contains an unflipped candidate.
pub proof fn lemma_searchmap_entries_complete(tiles: Seq<Seq<u8>>, n: int, i: int)
    requires
        0 <= i < n <= tiles.len(),
        tiles.len() <= 256,
    ensures
        exists|j: int|
            0 <= j < matching_values(spec_searchmap_entries(tiles, n), tiles[i]).len()
                && (#[trigger] matching_values(spec_searchmap_entries(tiles, n), tiles[i])[j]).spec_is_unflipped(),
    decreases n,
{
    let key = tiles[i];
    lemma_matching_values_concat(
        spec_searchmap_entries(tiles, n - 1),
        tile_variant_list(tiles[n - 1], n - 1),
        key,
    );
    if i < n - 1 {
        lemma_searchmap_entries_complete(tiles, n - 1, i);
        let j = choose|j: int|
            0 <= j < matching_values(spec_searchmap_entries(tiles, n - 1), key).len()
                && (#[trigger] matching_values(spec_searchmap_entries(tiles, n - 1), key)[j]).spec_is_unflipped();
        assert(matching_values(spec_searchmap_entries(tiles, n), key)[j].spec_is_unflipped());
    } else {
        lemma_matching_values_variant_list(tiles[n - 1], n - 1, key);
        let prefix = matching_values(spec_searchmap_entries(tiles, n - 1), key);
        let vl = matching_values(tile_variant_list(tiles[n - 1], n - 1), key);
        let j = prefix.len() + vl.len() - 1;
        assert(matching_values(spec_searchmap_entries(tiles, n), key)[j] == vl.last());
    }
}

/// The position of the first unflipped candidate in a list known to hold
/// one.
proof fn lemma_first_unflipped_index(entries: Seq<TileSearchmapValue>) -> (i: int)
    requires
        exists|j: int| 0 <= j < entries.len() && (#[trigger] entries[j]).spec_is_unflipped(),
    ensures
        0 <= i < entries.len(),
        entries[i].spec_is_unflipped(),
        forall|j: int| 0 <= j < i ==> !(#[trigger] entries[j]).spec_is_unflipped(),
    decreases entries.len(),
{
    if entries[0].spec_is_unflipped() {
        0
    } else {
        let jw = choose|j: int| 0 <= j < entries.len() && (#[trigger] entries[j]).spec_is_unflipped();
        assert(entries.drop_first()[jw - 1].spec_is_unflipped());
        let it = lemma_first_unflipped_index(entries.drop_first());
        assert forall|j: int| 0 <= j < it + 1 implies !(#[trigger] entries[j]).spec_is_unflipped() by {
            if j > 0 {
                assert(entries[j] == entries.drop_first()[j - 1]);
            }
        }
        it + 1
    }
}

/// Looking up an unflipped reference tile in its own searchmap always
/// resolves, whatever the flip allowance, to an unflipped entry whose tile
/// index names a reference tile with the very same pixel grid.
pub proof fn lemma_searchmap_unflipped_lookup(tiles: Seq<Seq<u8>>, i: int, allow_flipped: bool)
    requires
        tiles.len() <= 256,
        0 <= i < tiles.len(),
    ensures
        ({
            let entries = matching_values(
                spec_searchmap_entries(tiles, tiles.len() as int),
                tiles[i],
            );
            let r = spec_preferred_entry(entries, allow_flipped);
            &&& r is Some
            &&& r->0.spec_is_unflipped()
            &&& r->0.tile_index < tiles.len()
            &&& tiles[r->0.tile_index as int] == tiles[i]
        }),
{
    let n = tiles.len() as int;
    let entries = matching_values(spec_searchmap_entries(tiles, n), tiles[i]);
    lemma_searchmap_entries_complete(tiles, n, i);
    lemma_searchmap_entries_sound(tiles, n, tiles[i]);
    let first = lemma_first_unflipped_index(entries);
    lemma_preferred_entry_unflipped(entries, allow_flipped, first);
}

/// A tilemap tile that matches only flipped reference tiles resolves to
/// the last recorded flipped candidate when flipped matches are allowed,
/// and to nothing when they are not.
pub proof fn lemma_flipped_only_resolution(entries: Seq<TileSearchmapValue>)
    requires
        entries.len() > 0,
        forall|j: int| 0 <= j < entries.len() ==> !(#[trigger] entries[j]).spec_is_unflipped(),
    ensures
        spec_preferred_entry(entries, false) is None,
        spec_preferred_entry(entries, true) == Some(entries.last()),
{
    lemma_preferred_entry_no_unflipped(entries, false);
    lemma_preferred_entry_no_unflipped(entries, true);
}

} // verus!
