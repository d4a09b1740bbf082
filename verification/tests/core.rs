use itgba::input_data_representation_types::{
    Array2d, ColorPalette, Image, PixelColor, TileError, TileInfo,
};
use itgba::read_input::{
    attribute_byte_for, flip_tile, has_ignore_prefix, is_valid_c_identifier, palette_index_of,
    read_tile_from_image, resolve_entry_list, stem_warning_needed, tile_name_for_stem,
    tile_searchmap_from_tiledata_vec,
};

fn color(red: u8, green: u8, blue: u8) -> PixelColor {
    PixelColor { red, green, blue }
}

fn test_palette() -> ColorPalette {
    ColorPalette::new(color(0, 0, 0), color(255, 0, 0), color(0, 255, 0), color(0, 0, 255))
}

fn palette_color(i: u8) -> PixelColor {
    match i {
        0 => color(0, 0, 0),
        1 => color(255, 0, 0),
        2 => color(0, 255, 0),
        _ => color(0, 0, 255),
    }
}

/// An image whose pixels are produced by `f(x, y)` as palette indices.
fn image_from_fn(width: u32, height: u32, f: impl Fn(u32, u32) -> u8) -> Image {
    let mut pixels = Vec::new();
    for y in 0..height {
        for x in 0..width {
            pixels.push(palette_color(f(x, y)));
        }
    }
    Image { width, height, pixels }
}

#[test]
fn palette_index_prefers_first_match() {
    let palette = ColorPalette::new(color(9, 9, 9), color(1, 2, 3), color(9, 9, 9), color(4, 5, 6));
    assert_eq!(palette_index_of(&palette, color(9, 9, 9)), Some(0));
    assert_eq!(palette_index_of(&palette, color(1, 2, 3)), Some(1));
    assert_eq!(palette_index_of(&palette, color(4, 5, 6)), Some(3));
    assert_eq!(palette_index_of(&palette, color(7, 7, 7)), None);
}

#[test]
fn read_tile_extracts_palette_indices() {
    let palette = test_palette();
    let image = image_from_fn(8, 8, |x, y| ((x + y) % 4) as u8);
    let tile = read_tile_from_image(0, 0, &image, &palette).unwrap();
    for y in 0..8usize {
        for x in 0..8usize {
            assert_eq!(tile.get(x, y), ((x + y) % 4) as u8);
        }
    }
}

#[test]
fn read_tile_reports_first_bad_pixel_in_row_major_order() {
    let palette = test_palette();
    let mut image = image_from_fn(16, 8, |_, _| 0);
    // Two off-palette pixels inside tile (1, 0); row-major order within the
    // tile visits (3, 2) before (1, 5).
    image.pixels[(2 * 16 + 11) as usize] = color(10, 20, 30);
    image.pixels[(5 * 16 + 9) as usize] = color(10, 20, 30);
    let result = read_tile_from_image(1, 0, &image, &palette);
    assert_eq!(
        result.unwrap_err(),
        TileError::ColorNotInPalette { tile_x: 1, tile_y: 0, pixel_x: 11, pixel_y: 2 },
    );
}

#[test]
fn flip_tile_moves_cells_to_mirrored_positions() {
    let palette = test_palette();
    let image = image_from_fn(8, 8, |x, y| if x < 4 && y < 4 { 1 } else { 0 });
    let tile = read_tile_from_image(0, 0, &image, &palette).unwrap();
    let horizontal = flip_tile(&tile, true, false);
    let vertical = flip_tile(&tile, false, true);
    let both = flip_tile(&tile, true, true);
    for y in 0..8usize {
        for x in 0..8usize {
            let expected = tile.get(x, y);
            assert_eq!(horizontal.get(7 - x, y), expected);
            assert_eq!(vertical.get(x, 7 - y), expected);
            assert_eq!(both.get(7 - x, 7 - y), expected);
        }
    }
}

#[test]
fn flipping_twice_restores_the_tile() {
    let palette = test_palette();
    let image = image_from_fn(8, 8, |x, y| ((3 * x + y) % 4) as u8);
    let tile = read_tile_from_image(0, 0, &image, &palette).unwrap();
    for (x_flip, y_flip) in [(true, false), (false, true), (true, true)] {
        let once = flip_tile(&tile, x_flip, y_flip);
        let twice = flip_tile(&once, x_flip, y_flip);
        assert!(twice.content_equals(&tile));
    }
}

#[test]
fn searchmap_lookup_of_unflipped_tile_returns_identity_entry() {
    let palette = test_palette();
    // Tile 0 and tile 1 are identical solid tiles (fully symmetric), tile 2
    // is asymmetric; the unflipped entry must win for each of them.
    let solid = read_tile_from_image(0, 0, &image_from_fn(8, 8, |_, _| 1), &palette).unwrap();
    let solid_again = read_tile_from_image(0, 0, &image_from_fn(8, 8, |_, _| 1), &palette).unwrap();
    let corner_image = image_from_fn(8, 8, |x, y| if x < 4 && y < 4 { 2 } else { 0 });
    let corner = read_tile_from_image(0, 0, &corner_image, &palette).unwrap();
    let tiles = vec![
        TileInfo { color_array: solid, name: None },
        TileInfo { color_array: solid_again, name: None },
        TileInfo { color_array: corner, name: None },
    ];
    let searchmap = tile_searchmap_from_tiledata_vec(tiles);

    for allow_flipped in [false, true] {
        let solid_key =
            read_tile_from_image(0, 0, &image_from_fn(8, 8, |_, _| 1), &palette).unwrap();
        let candidates = searchmap.lookup(&solid_key);
        let value = resolve_entry_list(&candidates, allow_flipped).unwrap();
        assert!(!value.x_flip);
        assert!(!value.y_flip);
        // The identical tiles 0 and 1 collide; the first reference tile wins.
        assert_eq!(value.tile_index, 0);

        let corner_key = read_tile_from_image(0, 0, &corner_image, &palette).unwrap();
        let candidates = searchmap.lookup(&corner_key);
        let value = resolve_entry_list(&candidates, allow_flipped).unwrap();
        assert!(!value.x_flip);
        assert!(!value.y_flip);
        assert_eq!(value.tile_index, 2);
    }
}

#[test]
fn searchmap_lookup_of_unknown_tile_finds_nothing() {
    let palette = test_palette();
    let solid = read_tile_from_image(0, 0, &image_from_fn(8, 8, |_, _| 1), &palette).unwrap();
    let searchmap =
        tile_searchmap_from_tiledata_vec(vec![TileInfo { color_array: solid, name: None }]);
    let other = read_tile_from_image(0, 0, &image_from_fn(8, 8, |_, _| 2), &palette).unwrap();
    let candidates = searchmap.lookup(&other);
    assert!(candidates.is_empty());
    assert_eq!(resolve_entry_list(&candidates, true), None);
}

#[test]
fn flipped_only_match_needs_attribute_mode() {
    let palette = test_palette();
    // Asymmetric in both axes: each flip variant has a distinct grid.
    let corner_image = image_from_fn(8, 8, |x, y| if x < 4 && y < 4 { 1 } else { 0 });
    let corner = read_tile_from_image(0, 0, &corner_image, &palette).unwrap();
    let searchmap =
        tile_searchmap_from_tiledata_vec(vec![TileInfo { color_array: corner, name: None }]);

    let mirrored_image = image_from_fn(8, 8, |x, y| if x >= 4 && y < 4 { 1 } else { 0 });
    let mirrored = read_tile_from_image(0, 0, &mirrored_image, &palette).unwrap();
    let candidates = searchmap.lookup(&mirrored);
    assert_eq!(candidates.len(), 1);
    assert_eq!(resolve_entry_list(&candidates, false), None);
    let value = resolve_entry_list(&candidates, true).unwrap();
    assert!(value.x_flip);
    assert!(!value.y_flip);
    assert_eq!(value.tile_index, 0);
    assert_eq!(attribute_byte_for(value.x_flip, value.y_flip), 0b0010_0000);
}

#[test]
fn attribute_byte_sets_flip_bits() {
    assert_eq!(attribute_byte_for(false, false), 0b0000_0000);
    assert_eq!(attribute_byte_for(true, false), 0b0010_0000);
    assert_eq!(attribute_byte_for(false, true), 0b0100_0000);
    assert_eq!(attribute_byte_for(true, true), 0b0110_0000);
}

#[test]
fn valid_c_identifiers_are_recognized() {
    assert!(is_valid_c_identifier("abc"));
    assert!(is_valid_c_identifier("_x9"));
    assert!(is_valid_c_identifier("x"));
    assert!(is_valid_c_identifier("AB_c12"));
    assert!(!is_valid_c_identifier(""));
    assert!(!is_valid_c_identifier("9a"));
    assert!(!is_valid_c_identifier("with-dash"));
    assert!(!is_valid_c_identifier("sp ace"));
}

#[test]
fn ignore_prefix_is_detected() {
    assert!(has_ignore_prefix("_ignore"));
    assert!(has_ignore_prefix("_ignoreme"));
    assert!(!has_ignore_prefix("_ignor"));
    assert!(!has_ignore_prefix("ignore"));
    assert!(!has_ignore_prefix(""));
}

#[test]
fn tile_names_come_from_usable_stems() {
    assert_eq!(tile_name_for_stem("hero"), Some(String::from("hero")));
    assert_eq!(tile_name_for_stem("_ignore_hero"), None);
    assert_eq!(tile_name_for_stem("not a name"), None);
    assert!(!stem_warning_needed("hero"));
    assert!(!stem_warning_needed("_ignore_junk"));
    assert!(stem_warning_needed("not a name"));
}

#[test]
fn array2d_starts_zeroed_and_assigns_cells() {
    let mut grid: Array2d<32, 32> = Array2d::new();
    assert_eq!(grid.get(31, 31), 0);
    grid.assign(3, 4, 0xab);
    assert_eq!(grid.get(3, 4), 0xab);
    assert_eq!(grid.get(4, 3), 0);
    assert!(Array2d::<32, 32>::boundary_check(31, 31));
    assert!(!Array2d::<32, 32>::boundary_check(32, 0));
    assert!(!Array2d::<32, 32>::boundary_check(0, 32));
}
