use itgba::input_data_representation_types::{ColorPalette, Image, PixelColor, TileError};
use itgba::output::pack_tile;
use itgba::read_input::{
    index_and_attribute_array_from_tilemap_image, read_tileset_info_from_image,
    tile_info_from_single_tile_image, tile_searchmap_from_tiledata_vec,
};

fn color(red: u8, green: u8, blue: u8) -> PixelColor {
    PixelColor { red, green, blue }
}

fn palette_color(i: u8) -> PixelColor {
    match i {
        0 => color(0, 0, 0),
        1 => color(255, 0, 0),
        2 => color(0, 255, 0),
        _ => color(0, 0, 255),
    }
}

fn test_palette() -> ColorPalette {
    ColorPalette::new(palette_color(0), palette_color(1), palette_color(2), palette_color(3))
}

/// An image whose pixels are produced by `f(x, y)` as palette indices.
fn image_from_fn(width: u32, height: u32, f: impl Fn(u32, u32) -> u8) -> Image {
    let mut pixels = Vec::new();
    for y in 0..height {
        for x in 0..width {
            pixels.push(palette_color(f(x, y)));
        }
    }
    Image { width, height, pixels }
}

/// A reference tileset image: tile (0, 0) starts with the 4 palette
/// colors, the remaining tiles are produced by `f`.
fn reference_image(width_tiles: u32, height_tiles: u32, f: impl Fn(u32, u32) -> u8) -> Image {
    image_from_fn(width_tiles * 8, height_tiles * 8, |x, y| {
        if x < 8 && y < 8 {
            if y == 0 && x < 4 {
                x as u8
            } else {
                0
            }
        } else {
            f(x, y)
        }
    })
}

#[test]
fn tileset_reading_skips_the_palette_tile_and_orders_columns_first() {
    // A 2x2 tile grid; each data tile is solid in a distinguishable color.
    let image = reference_image(2, 2, |x, y| {
        let tile_x = x / 8;
        let tile_y = y / 8;
        match (tile_x, tile_y) {
            (0, 1) => 1,
            (1, 0) => 2,
            _ => 3,
        }
    });
    let (tiles, palette) = read_tileset_info_from_image(&image).unwrap();
    for i in 0..4usize {
        assert_eq!(palette.color(i), palette_color(i as u8));
    }
    assert_eq!(tiles.len(), 3);
    // Column-major traversal skipping (0, 0): (0, 1), (1, 0), (1, 1).
    assert_eq!(tiles[0].color_array.get(0, 0), 1);
    assert_eq!(tiles[1].color_array.get(0, 0), 2);
    assert_eq!(tiles[2].color_array.get(0, 0), 3);
    assert!(tiles.iter().all(|t| t.name.is_none()));
}

#[test]
fn tileset_dimension_and_size_errors() {
    let unaligned = image_from_fn(12, 8, |_, _| 0);
    assert_eq!(
        read_tileset_info_from_image(&unaligned).unwrap_err(),
        TileError::DimensionNotTileAligned { width: 12, height: 8 },
    );

    let single_tile = image_from_fn(8, 8, |_, _| 0);
    assert_eq!(
        read_tileset_info_from_image(&single_tile).unwrap_err(),
        TileError::TilesetTooSmall { tile_count: 1 },
    );
}

#[test]
fn tileset_of_257_tiles_succeeds_and_258_fails() {
    let full = reference_image(257, 1, |_, _| 0);
    let (tiles, _) = read_tileset_info_from_image(&full).unwrap();
    assert_eq!(tiles.len(), 256);

    let oversized = reference_image(258, 1, |_, _| 0);
    assert_eq!(
        read_tileset_info_from_image(&oversized).unwrap_err(),
        TileError::TilesetTooLarge { tile_count: 258 },
    );
}

#[test]
fn tilemap_with_off_palette_color_reports_absolute_coordinates() {
    let reference = reference_image(2, 1, |_, _| 0);
    let (tiles, palette) = read_tileset_info_from_image(&reference).unwrap();
    let searchmap = tile_searchmap_from_tiledata_vec(tiles);

    let mut tilemap = image_from_fn(16, 8, |_, _| 0);
    tilemap.pixels[(2 * 16 + 11) as usize] = color(9, 9, 9);
    let result = index_and_attribute_array_from_tilemap_image(&tilemap, &palette, &searchmap, true);
    assert_eq!(
        result.unwrap_err(),
        TileError::ColorNotInPalette { tile_x: 1, tile_y: 0, pixel_x: 11, pixel_y: 2 },
    );
}

#[test]
fn tilemap_dimension_and_size_errors() {
    let reference = reference_image(2, 1, |_, _| 0);
    let (tiles, palette) = read_tileset_info_from_image(&reference).unwrap();
    let searchmap = tile_searchmap_from_tiledata_vec(tiles);

    let unaligned = image_from_fn(12, 8, |_, _| 0);
    assert_eq!(
        index_and_attribute_array_from_tilemap_image(&unaligned, &palette, &searchmap, false)
            .unwrap_err(),
        TileError::DimensionNotTileAligned { width: 12, height: 8 },
    );

    let oversized = image_from_fn(264, 8, |_, _| 0);
    assert_eq!(
        index_and_attribute_array_from_tilemap_image(&oversized, &palette, &searchmap, false)
            .unwrap_err(),
        TileError::TilemapTooLarge { width_tiles: 33, height_tiles: 1 },
    );
}

#[test]
fn unrecognized_tile_is_reported_with_its_coordinates() {
    let reference = reference_image(2, 1, |_, _| 0);
    let (tiles, palette) = read_tileset_info_from_image(&reference).unwrap();
    let searchmap = tile_searchmap_from_tiledata_vec(tiles);

    // Tile (1, 0) of the tilemap is solid in palette color 2: in the
    // palette, but matching no reference tile.
    let tilemap = image_from_fn(16, 8, |x, _| if x >= 8 { 2 } else { 0 });
    assert_eq!(
        index_and_attribute_array_from_tilemap_image(&tilemap, &palette, &searchmap, true)
            .unwrap_err(),
        TileError::UnrecognizedTile { tile_x: 1, tile_y: 0 },
    );
}

#[test]
fn flipped_match_fails_without_attributes_and_succeeds_with_them() {
    // The single data tile is asymmetric in both axes.
    let reference = reference_image(2, 1, |x, y| if x >= 8 && x < 12 && y < 4 { 1 } else { 0 });
    let (tiles, palette) = read_tileset_info_from_image(&reference).unwrap();
    let searchmap = tile_searchmap_from_tiledata_vec(tiles);

    // The tilemap's only tile is the data tile mirrored horizontally.
    let mirrored = image_from_fn(8, 8, |x, y| if x >= 4 && y < 4 { 1 } else { 0 });
    assert_eq!(
        index_and_attribute_array_from_tilemap_image(&mirrored, &palette, &searchmap, false)
            .unwrap_err(),
        TileError::FlippedTileWithoutAttributes { tile_x: 0, tile_y: 0 },
    );

    let (index_array, attribute_array) =
        index_and_attribute_array_from_tilemap_image(&mirrored, &palette, &searchmap, true)
            .unwrap();
    let attribute_array = attribute_array.unwrap();
    assert_eq!(index_array.0.get(0, 0), 0);
    assert_eq!(attribute_array.0.get(0, 0), 0b0010_0000);
    // Cells outside the tilemap's populated rectangle stay zero.
    assert_eq!(index_array.0.get(5, 7), 0);
    assert_eq!(attribute_array.0.get(5, 7), 0);
}

#[test]
fn vertically_flipped_match_sets_bit_6() {
    let reference = reference_image(2, 1, |x, y| if x >= 8 && x < 12 && y < 4 { 1 } else { 0 });
    let (tiles, palette) = read_tileset_info_from_image(&reference).unwrap();
    let searchmap = tile_searchmap_from_tiledata_vec(tiles);

    let upside_down = image_from_fn(8, 8, |x, y| if x < 4 && y >= 4 { 1 } else { 0 });
    let (index_array, attribute_array) =
        index_and_attribute_array_from_tilemap_image(&upside_down, &palette, &searchmap, true)
            .unwrap();
    assert_eq!(index_array.0.get(0, 0), 0);
    assert_eq!(attribute_array.unwrap().0.get(0, 0), 0b0100_0000);
}

#[test]
fn attribute_mode_off_returns_no_attribute_array() {
    let reference = reference_image(2, 1, |_, _| 0);
    let (tiles, palette) = read_tileset_info_from_image(&reference).unwrap();
    let searchmap = tile_searchmap_from_tiledata_vec(tiles);
    let tilemap = image_from_fn(8, 8, |_, _| 0);
    let (index_array, attribute_array) =
        index_and_attribute_array_from_tilemap_image(&tilemap, &palette, &searchmap, false)
            .unwrap();
    assert_eq!(index_array.0.get(0, 0), 0);
    assert!(attribute_array.is_none());
}

#[test]
fn solid_reference_tile_packs_to_sixteen_zero_bytes() {
    // A 2x1 reference tileset: the palette tile and one solid data tile.
    let reference = reference_image(2, 1, |_, _| 0);
    let (tiles, palette) = read_tileset_info_from_image(&reference).unwrap();
    assert_eq!(tiles.len(), 1);
    assert_eq!(pack_tile(&tiles[0].color_array), vec![0u8; 16]);

    // A tilemap holding that tile mirrored horizontally (a solid tile is
    // its own mirror) resolves, in attribute mode, to tile index 0; the
    // unflipped match is preferred, so no flip bit is set.
    let searchmap = tile_searchmap_from_tiledata_vec(tiles);
    let mirrored = image_from_fn(8, 8, |_, _| 0);
    let (index_array, attribute_array) =
        index_and_attribute_array_from_tilemap_image(&mirrored, &palette, &searchmap, true)
            .unwrap();
    assert_eq!(index_array.0.get(0, 0), 0);
    assert_eq!(attribute_array.unwrap().0.get(0, 0), 0b0000_0000);
}

#[test]
fn first_failing_tile_in_column_order_is_reported() {
    let reference = reference_image(2, 1, |_, _| 0);
    let (tiles, palette) = read_tileset_info_from_image(&reference).unwrap();
    let searchmap = tile_searchmap_from_tiledata_vec(tiles);

    // A 2x2-tile tilemap; resolution visits (0,0), (0,1), (1,0), (1,1).
    // Tile (0,1) is unrecognized and tile (1,0) has an off-palette pixel;
    // the earlier tile in column order wins.
    let mut tilemap = image_from_fn(16, 16, |x, y| if x < 8 && y >= 8 { 2 } else { 0 });
    tilemap.pixels[(1 * 16 + 9) as usize] = color(9, 9, 9);
    assert_eq!(
        index_and_attribute_array_from_tilemap_image(&tilemap, &palette, &searchmap, true)
            .unwrap_err(),
        TileError::UnrecognizedTile { tile_x: 0, tile_y: 1 },
    );
}

#[test]
fn single_tile_images_become_named_tiles() {
    let palette = test_palette();
    let tile_image = image_from_fn(8, 8, |_, _| 1);
    let info = tile_info_from_single_tile_image(&tile_image, &palette, "hero").unwrap();
    assert_eq!(info.name, Some(String::from("hero")));
    assert_eq!(info.color_array.get(3, 3), 1);

    let ignored = tile_info_from_single_tile_image(&tile_image, &palette, "_ignore_x").unwrap();
    assert_eq!(ignored.name, None);

    let wrong_size = image_from_fn(16, 8, |_, _| 1);
    assert_eq!(
        tile_info_from_single_tile_image(&wrong_size, &palette, "hero").unwrap_err(),
        TileError::NotSingleTile { width: 16, height: 8 },
    );
}
