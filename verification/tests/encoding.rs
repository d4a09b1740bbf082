use itgba::helper::WarningLog;
use itgba::input_data_representation_types::{
    ColorPalette, Image, PixelColor, TileInfo, TilemapByteArray,
};
use itgba::output::{
    byte_text, create_output_info_for_tilemap, dec_text, file_stem_of_path, pack_tile, unpack_tile,
    Output, Output_info_for_a_single_file,
};
use itgba::read_input::{
    read_tile_from_image, read_tileset_info_from_image, tile_searchmap_from_tiledata_vec,
};

fn color(red: u8, green: u8, blue: u8) -> PixelColor {
    PixelColor { red, green, blue }
}

fn palette_color(i: u8) -> PixelColor {
    match i {
        0 => color(0, 0, 0),
        1 => color(255, 0, 0),
        2 => color(0, 255, 0),
        _ => color(0, 0, 255),
    }
}

fn test_palette() -> ColorPalette {
    ColorPalette::new(palette_color(0), palette_color(1), palette_color(2), palette_color(3))
}

fn image_from_fn(width: u32, height: u32, f: impl Fn(u32, u32) -> u8) -> Image {
    let mut pixels = Vec::new();
    for y in 0..height {
        for x in 0..width {
            pixels.push(palette_color(f(x, y)));
        }
    }
    Image { width, height, pixels }
}

fn byte_literal(b: u8, hex: bool) -> String {
    if hex {
        format!("0x{:02x}", b)
    } else {
        format!("0b{:08b}", b)
    }
}

#[test]
fn pack_tile_follows_the_planar_formula() {
    let palette = test_palette();
    let image = image_from_fn(8, 8, |x, y| ((x + y) % 4) as u8);
    let tile = read_tile_from_image(0, 0, &image, &palette).unwrap();
    let bytes = pack_tile(&tile);
    assert_eq!(bytes.len(), 16);
    // Row 0 holds indices 0, 1, 2, 3, 0, 1, 2, 3: plane 0 is 0b01010101,
    // plane 1 is 0b00110011.
    assert_eq!(bytes[0], 0x55);
    assert_eq!(bytes[1], 0x33);
    // Check every row against the formula from first principles.
    for y in 0..8u32 {
        let mut plane0: u8 = 0;
        let mut plane1: u8 = 0;
        for x in 0..8u32 {
            let index = ((x + y) % 4) as u8;
            plane0 += (index & 1) << (7 - x);
            plane1 += ((index >> 1) & 1) << (7 - x);
        }
        assert_eq!(bytes[(2 * y) as usize], plane0);
        assert_eq!(bytes[(2 * y + 1) as usize], plane1);
    }
}

#[test]
fn packing_then_unpacking_recovers_the_tile() {
    let palette = test_palette();
    let image = image_from_fn(8, 8, |x, y| ((x * 3 + y * 5 + 1) % 4) as u8);
    let tile = read_tile_from_image(0, 0, &image, &palette).unwrap();
    let packed = pack_tile(&tile);
    let unpacked = unpack_tile(&packed);
    assert!(unpacked.content_equals(&tile));
}

#[test]
fn byte_text_renders_hex_and_binary_literals() {
    assert_eq!(byte_text(0x1f, true), "0x1f");
    assert_eq!(byte_text(0x00, true), "0x00");
    assert_eq!(byte_text(0xab, true), "0xab");
    assert_eq!(byte_text(0x2a, false), "0b00101010");
    assert_eq!(byte_text(0xff, false), "0b11111111");
    assert_eq!(byte_text(0x00, false), "0b00000000");
}

#[test]
fn dec_text_renders_without_leading_zeros() {
    assert_eq!(dec_text(0), "0");
    assert_eq!(dec_text(7), "7");
    assert_eq!(dec_text(42), "42");
    assert_eq!(dec_text(255), "255");
}

#[test]
fn file_stems_drop_directories_and_extensions() {
    assert_eq!(file_stem_of_path("dir/foo.png"), "foo");
    assert_eq!(file_stem_of_path("foo.png"), "foo");
    assert_eq!(file_stem_of_path("foo"), "foo");
    assert_eq!(file_stem_of_path(".hidden"), ".hidden");
    assert_eq!(file_stem_of_path("a/b.c.d"), "b.c");
    assert_eq!(file_stem_of_path("x/y/z.bin"), "z");
}

#[test]
fn output_info_starts_with_the_header_line() {
    let info = Output_info_for_a_single_file::new("maps/level.png");
    assert_eq!(info.specified_path, "maps/level.png");
    assert_eq!(info.content_string, "// level.c - Generated file by ITGBA \n");
    assert_eq!(info.c_file_name_string(), "level.c");
    assert_eq!(info.filename_without_extension_string(), "level");
    assert_eq!(info.relative_path_but_with_c_extension_string(), "level.c");
}

#[test]
fn tilemap_byte_array_text_lists_all_cells_in_rows_of_eight() {
    let mut info = Output_info_for_a_single_file::new("map.png");
    let header = info.content_string.clone();
    let mut array = TilemapByteArray::new();
    array.assign(0, 0, 0x01);
    array.assign(31, 31, 0xfe);
    info.write_tilemap_byte_array(&array, true);

    let mut expected = header;
    expected.push_str("const unsigned char map.c[] = \n");
    for i in 0..1024usize {
        let byte = if i == 0 {
            0x01
        } else if i == 1023 {
            0xfe
        } else {
            0x00
        };
        expected.push_str(&byte_literal(byte, true));
        expected.push_str(", ");
        if (i + 1) % 8 == 0 {
            expected.push_str("\n");
        }
    }
    assert_eq!(info.content_string, expected);
}

#[test]
fn tileset_text_names_tiles_and_packs_their_bytes() {
    let palette = test_palette();
    let solid = read_tile_from_image(0, 0, &image_from_fn(8, 8, |_, _| 1), &palette).unwrap();
    let tiles = vec![TileInfo { color_array: solid, name: Some(String::from("hero")) }];

    let mut info = Output_info_for_a_single_file::new("tileset.png");
    let header = info.content_string.clone();
    info.write_tileset(&tiles, true);

    let mut expected = header;
    expected.push_str(
        "// Constants for easier tile indexing. These constants are generated using\n\
         // the file names of the individual tiles if they don't have an ignore prefix \"_ignore\"\n\
         // and are valid c identifiers.",
    );
    expected.push_str("const size_t hero_tile_index = 0;\n");
    expected.push_str("\n");
    expected.push_str("const unsigned char tileset.c[] = \n");
    expected.push_str("\n\t// Tile 0\n");
    for y in 0..8usize {
        if y % 2 == 0 {
            expected.push_str("\t");
        }
        // A tile solid in palette index 1: plane 0 is all ones, plane 1 is
        // all zeros.
        expected.push_str("0xff, 0x00, ");
        if y % 2 == 1 {
            expected.push_str(&format!(" // Line {}-{}\n", y - 1, y));
        }
    }
    assert_eq!(info.content_string, expected);
}

#[test]
fn tilemap_output_info_holds_index_and_attribute_text() {
    let reference_image = image_from_fn(16, 8, |x, y| {
        if x < 8 {
            if y == 0 && x < 4 {
                x as u8
            } else {
                0
            }
        } else {
            0
        }
    });
    let (tiles, palette) = read_tileset_info_from_image(&reference_image).unwrap();
    let searchmap = tile_searchmap_from_tiledata_vec(tiles);
    let tilemap = image_from_fn(8, 8, |_, _| 0);

    let info = create_output_info_for_tilemap(
        "map.png",
        &tilemap,
        &palette,
        &searchmap,
        true,
        true,
    )
    .unwrap();

    let mut expected = String::from("// map.c - Generated file by ITGBA \n");
    for label in ["_tileindex__array", "_tilemap_attribute_array"] {
        expected.push_str(&format!("const unsigned char map{}", label));
        expected.push_str("const unsigned char map.c[] = \n");
        for i in 0..1024usize {
            expected.push_str("0x00, ");
            if (i + 1) % 8 == 0 {
                expected.push_str("\n");
            }
        }
    }
    assert_eq!(info.specified_path, "map.png");
    assert_eq!(info.content_string, expected);
}

#[test]
fn tilemap_byte_array_text_supports_binary_notation() {
    let mut info = Output_info_for_a_single_file::new("map.png");
    let header = info.content_string.clone();
    let mut array = TilemapByteArray::new();
    array.assign(2, 0, 0x2a);
    info.write_tilemap_byte_array(&array, false);

    let mut expected = header;
    expected.push_str("const unsigned char map.c[] = \n");
    for i in 0..1024usize {
        let byte = if i == 2 { 0x2a } else { 0x00 };
        expected.push_str(&byte_literal(byte, false));
        expected.push_str(", ");
        if (i + 1) % 8 == 0 {
            expected.push_str("\n");
        }
    }
    assert_eq!(info.content_string, expected);
}

#[test]
fn write_header_appends_another_header_line() {
    let mut info = Output_info_for_a_single_file::new("map.png");
    info.write_header();
    assert_eq!(
        info.content_string,
        "// map.c - Generated file by ITGBA \n// map.c - Generated file by ITGBA \n",
    );
}

#[test]
fn output_collects_file_infos() {
    let mut output = Output::new();
    assert_eq!(output.0.len(), 0);
    output.push(Output_info_for_a_single_file::new("a.png"));
    output.push(Output_info_for_a_single_file::new("b.png"));
    assert_eq!(output.0.len(), 2);
    assert_eq!(output.0[0].specified_path, "a.png");
    assert_eq!(output.0[1].specified_path, "b.png");
}

#[test]
fn warning_log_records_each_message_once() {
    let mut log = WarningLog::new();
    assert!(!log.contains("bad name"));
    assert!(log.record("bad name"));
    assert!(log.contains("bad name"));
    assert!(!log.record("bad name"));
    assert!(log.record("another message"));
    assert!(log.contains("another message"));
}
