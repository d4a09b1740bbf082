//! The bit-packing encoder and the generated-text writers: planar 2bpp
//! tile encoding, and rendering of tile data, index arrays and attribute
//! arrays as C source text.

use vstd::prelude::*;
use vstd::string::StrSliceExecFns;
use vstd::string::StringExecFns;

use crate::input_data_representation_types::{
    AttributeByteArray, ColorPalette, Image, PixelColor, TileColorArray, TileError, TileIndexArray,
    TileInfo, TilemapByteArray,
};
use crate::read_input::{
    all_tiles_resolvable, index_and_attribute_array_from_tilemap_image, spec_dims_tile_aligned,
    spec_resolved_attribute_cells, spec_resolved_index_cells, spec_tilemap_fits,
    spec_tilemap_resolution_error, TileSearchmap, TileSearchmapValue,
};

verus! {

// ---------------------------------------------------------------------------
// Planar 2bpp packing
// ---------------------------------------------------------------------------

/// The `plane` bit (0 or 1) of the 2-bit value of cell `(x, y)`.
pub open spec fn spec_plane_bit(t: Seq<u8>, x: int, y: int, plane: int) -> u8 {
    if plane == 0 {
        t[y * 8 + x] & 1u8
    } else {
        (t[y * 8 + x] >> 1u8) & 1u8
    }
}

/// One byte of one bitplane of row `y`: the leftmost pixel lands in the
/// most significant bit.
pub open spec fn spec_plane_byte(t: Seq<u8>, y: int, plane: int) -> u8 {
    (spec_plane_bit(t, 0, y, plane) << 7u8) | (spec_plane_bit(t, 1, y, plane) << 6u8) | (
    spec_plane_bit(t, 2, y, plane) << 5u8) | (spec_plane_bit(t, 3, y, plane) << 4u8) | (
    spec_plane_bit(t, 4, y, plane) << 3u8) | (spec_plane_bit(t, 5, y, plane) << 2u8) | (
    spec_plane_bit(t, 6, y, plane) << 1u8) | spec_plane_bit(t, 7, y, plane)
}

/// The 16-byte planar encoding of a tile: for each row in order, the
/// plane-0 byte then the plane-1 byte.
pub open spec fn spec_packed_tile(t: Seq<u8>) -> Seq<u8> {
    Seq::new(16, |i: int| spec_plane_byte(t, i / 2, i % 2))
}

/// Packs a tile's 2-bit cells into the 16-byte planar 2bpp encoding.
pub fn pack_tile(tile: &TileColorArray) -> (r: Vec<u8>)
    requires
        tile.wf(),
    ensures
        r@ == spec_packed_tile(tile@),
        r@.len() == 16,
        forall|y: int|
            0 <= y < 8 ==> #[trigger] r@[2 * y] == spec_plane_byte(tile@, y, 0) && r@[2 * y + 1]
                == spec_plane_byte(tile@, y, 1),
{
    let mut r: Vec<u8> = Vec::new();
    let mut y: usize = 0;
    while y < 8
        invariant
            tile.wf(),
            y <= 8,
            r@.len() == 2 * y,
            forall|yp: int|
                #![trigger spec_plane_byte(tile@, yp, 0)]
                0 <= yp < y ==> r@[2 * yp] == spec_plane_byte(tile@, yp, 0) && r@[2 * yp + 1]
                    == spec_plane_byte(tile@, yp, 1),
        decreases 8 - y,
    {
        let ghost r_before = r@;
        let (first_byte, second_byte) = pack_row(tile, y);
        r.push(first_byte);
        r.push(second_byte);
        proof {
            assert(r@[2 * (y as int)] == spec_plane_byte(tile@, y as int, 0));
            assert(r@[2 * (y as int) + 1] == spec_plane_byte(tile@, y as int, 1));
            assert forall|yp: int|
                #![trigger spec_plane_byte(tile@, yp, 0)]
                0 <= yp < y + 1 implies r@[2 * yp] == spec_plane_byte(tile@, yp, 0) && r@[2 * yp
                + 1] == spec_plane_byte(tile@, yp, 1) by {
                if yp < y {
                    assert(r@[2 * yp] == r_before[2 * yp]);
                    assert(r@[2 * yp + 1] == r_before[2 * yp + 1]);
                }
            }
        }
        y = y + 1;
    }
    proof {
        assert forall|i: int| 0 <= i < 16 implies r@[i] == spec_packed_tile(tile@)[i] by {
            let yp = i / 2;
            assert(0 <= yp < 8);
            assert(spec_plane_byte(tile@, yp, 0) == spec_plane_byte(tile@, yp, 0));
            if i % 2 == 0 {
                assert(i == 2 * yp);
                assert(r@[2 * yp] == spec_plane_byte(tile@, yp, 0));
            } else {
                assert(i == 2 * yp + 1);
                assert(r@[2 * yp] == spec_plane_byte(tile@, yp, 0));
                assert(r@[2 * yp + 1] == spec_plane_byte(tile@, yp, 1));
            }
        }
        assert(r@ =~= spec_packed_tile(tile@));
    }
    r
}

/// Packs one row of a tile into its two bitplane bytes.
fn pack_row(tile: &TileColorArray, y: usize) -> (r: (u8, u8))
    requires
        tile.wf(),
        y < 8,
    ensures
        r.0 == spec_plane_byte(tile@, y as int, 0),
        r.1 == spec_plane_byte(tile@, y as int, 1),
{
    let c0 = tile.get(0, y);
    let c1 = tile.get(1, y);
    let c2 = tile.get(2, y);
    let c3 = tile.get(3, y);
    let c4 = tile.get(4, y);
    let c5 = tile.get(5, y);
    let c6 = tile.get(6, y);
    let c7 = tile.get(7, y);
    let first_byte: u8 = ((c0 & 1) << 7) | ((c1 & 1) << 6) | ((c2 & 1) << 5) | ((c3 & 1) << 4) | ((
    c4 & 1) << 3) | ((c5 & 1) << 2) | ((c6 & 1) << 1) | (c7 & 1);
    let second_byte: u8 = (((c0 >> 1) & 1) << 7) | (((c1 >> 1) & 1) << 6) | (((c2 >> 1) & 1) << 5)
        | (((c3 >> 1) & 1) << 4) | (((c4 >> 1) & 1) << 3) | (((c5 >> 1) & 1) << 2) | (((c6 >> 1)
        & 1) << 1) | ((c7 >> 1) & 1);
    (first_byte, second_byte)
}

// ---------------------------------------------------------------------------
// Unpacking, the inverse of the planar encoding
// ---------------------------------------------------------------------------

/// The 2-bit cell value reconstructed from the two plane bytes of a row.
pub open spec fn spec_unpacked_cell(plane0: u8, plane1: u8, x: int) -> u8 {
    (((plane1 >> ((7 - x) as u8)) & 1u8) << 1u8) | ((plane0 >> ((7 - x) as u8)) & 1u8)
}

/// The tile reconstructed from a 16-byte planar encoding.
pub open spec fn spec_unpacked_tile(bytes: Seq<u8>) -> Seq<u8> {
    Seq::new(64, |i: int| spec_unpacked_cell(bytes[2 * (i / 8)], bytes[2 * (i / 8) + 1], i % 8))
}

/// Reverses the planar 2bpp encoding, recovering the 2-bit cell grid.
pub fn unpack_tile(bytes: &Vec<u8>) -> (r: TileColorArray)
    requires
        bytes@.len() == 16,
    ensures
        r.wf(),
        r@ == spec_unpacked_tile(bytes@),
{
    let mut tile = TileColorArray::new();
    let mut y: usize = 0;
    while y < 8
        invariant
            bytes@.len() == 16,
            y <= 8,
            tile.wf(),
            forall|xp: int, yp: int|
                0 <= xp < 8 && 0 <= yp < y ==> #[trigger] tile.cell(xp, yp) == spec_unpacked_cell(
                    bytes@[2 * yp],
                    bytes@[2 * yp + 1],
                    xp,
                ),
        decreases 8 - y,
    {
        let plane0 = bytes[2 * y];
        let plane1 = bytes[2 * y + 1];
        let mut x: usize = 0;
        while x < 8
            invariant
                bytes@.len() == 16,
                y < 8,
                x <= 8,
                tile.wf(),
                plane0 == bytes@[2 * y],
                plane1 == bytes@[2 * y + 1],
                forall|xp: int, yp: int|
                    0 <= xp < 8 && 0 <= yp < y ==> #[trigger] tile.cell(xp, yp)
                        == spec_unpacked_cell(bytes@[2 * yp], bytes@[2 * yp + 1], xp),
                forall|xp: int|
                    0 <= xp < x ==> #[trigger] tile.cell(xp, y as int) == spec_unpacked_cell(
                        bytes@[2 * y],
                        bytes@[2 * y + 1],
                        xp,
                    ),
            decreases 8 - x,
        {
            let shift: u8 = (7 - x) as u8;
            let cell: u8 = (((plane1 >> shift) & 1) << 1) | ((plane0 >> shift) & 1);
            proof {
                assert(cell < 4) by (bit_vector)
                    requires
                        cell == (((plane1 >> shift) & 1) << 1) | ((plane0 >> shift) & 1),
                ;
            }
            tile.assign(x, y, cell);
            x = x + 1;
        }
        y = y + 1;
    }
    proof {
        assert forall|i: int| 0 <= i < 64 implies tile@[i] == spec_unpacked_tile(bytes@)[i] by {
            crate::read_input::lemma_grid_index(i % 8, i / 8);
            assert(tile.cell(i % 8, i / 8) == spec_unpacked_cell(
                bytes@[2 * (i / 8)],
                bytes@[2 * (i / 8) + 1],
                i % 8,
            ));
        }
        assert(tile@ =~= spec_unpacked_tile(bytes@));
    }
    tile
}

/// Extracting one bit column from a packed plane byte recovers the cell's
/// plane bits.
proof fn lemma_plane_byte_bits(
    c0: u8,
    c1: u8,
    c2: u8,
    c3: u8,
    c4: u8,
    c5: u8,
    c6: u8,
    c7: u8,
    p0: u8,
    p1: u8,
    shift: u8,
)
    by (bit_vector)
    requires
        c0 < 4,
        c1 < 4,
        c2 < 4,
        c3 < 4,
        c4 < 4,
        c5 < 4,
        c6 < 4,
        c7 < 4,
        shift < 8,
        p0 == ((c0 & 1) << 7) | ((c1 & 1) << 6) | ((c2 & 1) << 5) | ((c3 & 1) << 4) | ((c4 & 1)
            << 3) | ((c5 & 1) << 2) | ((c6 & 1) << 1) | (c7 & 1),
        p1 == (((c0 >> 1) & 1) << 7) | (((c1 >> 1) & 1) << 6) | (((c2 >> 1) & 1) << 5) | (((c3 >> 1)
            & 1) << 4) | (((c4 >> 1) & 1) << 3) | (((c5 >> 1) & 1) << 2) | (((c6 >> 1) & 1) << 1) | (
        (c7 >> 1) & 1),
    ensures
        ((((p1 >> shift) & 1) << 1) | ((p0 >> shift) & 1)) == (if shift == 7 {
            c0
        } else if shift == 6 {
            c1
        } else if shift == 5 {
            c2
        } else if shift == 4 {
            c3
        } else if shift == 3 {
            c4
        } else if shift == 2 {
            c5
        } else if shift == 1 {
            c6
        } else {
            c7
        }),
{
}

/// Packing a tile into the planar 2bpp encoding and unpacking the bytes
/// again recovers the original 2-bit cell grid exactly.
pub proof fn lemma_pack_unpack_roundtrip(t: Seq<u8>)
    requires
        t.len() == 64,
        forall|i: int| 0 <= i < 64 ==> t[i] < 4,
    ensures
        spec_unpacked_tile(spec_packed_tile(t)) =~= t,
{
    let packed = spec_packed_tile(t);
    assert forall|i: int| 0 <= i < 64 implies spec_unpacked_tile(packed)[i] == t[i] by {
        let x = i % 8;
        let y = i / 8;
        crate::read_input::lemma_grid_index(x, y);
        assert(packed[2 * y] == spec_plane_byte(t, y, 0));
        assert(packed[2 * y + 1] == spec_plane_byte(t, y, 1));
        let c0 = t[y * 8 + 0];
        let c1 = t[y * 8 + 1];
        let c2 = t[y * 8 + 2];
        let c3 = t[y * 8 + 3];
        let c4 = t[y * 8 + 4];
        let c5 = t[y * 8 + 5];
        let c6 = t[y * 8 + 6];
        let c7 = t[y * 8 + 7];
        let p0 = spec_plane_byte(t, y, 0);
        let p1 = spec_plane_byte(t, y, 1);
        let shift = (7 - x) as u8;
        lemma_plane_byte_bits(c0, c1, c2, c3, c4, c5, c6, c7, p0, p1, shift);
        assert(spec_unpacked_cell(p0, p1, x) == t[y * 8 + x]);
    }
}

// ---------------------------------------------------------------------------
// Number rendering
// ---------------------------------------------------------------------------

/// The character of one base-16 digit.
pub open spec fn spec_digit_char(n: int) -> char {
    if n == 0 {
        '0'
    } else if n == 1 {
        '1'
    } else if n == 2 {
        '2'
    } else if n == 3 {
        '3'
    } else if n == 4 {
        '4'
    } else if n == 5 {
        '5'
    } else if n == 6 {
        '6'
    } else if n == 7 {
        '7'
    } else if n == 8 {
        '8'
    } else if n == 9 {
        '9'
    } else if n == 10 {
        'a'
    } else if n == 11 {
        'b'
    } else if n == 12 {
        'c'
    } else if n == 13 {
        'd'
    } else if n == 14 {
        'e'
    } else {
        'f'
    }
}

/// A byte as a hexadecimal literal, two digits.
pub open spec fn spec_hex_byte_text(b: u8) -> Seq<char> {
    seq!['0', 'x', spec_digit_char((b >> 4u8) as int), spec_digit_char((b & 15u8) as int)]
}

/// The character of bit `k` of a byte.
pub open spec fn spec_bit_char(b: u8, k: int) -> char {
    if (b >> (k as u8)) & 1u8 == 1u8 {
        '1'
    } else {
        '0'
    }
}

/// A byte as a binary literal, eight digits, most significant first.
pub open spec fn spec_bin_byte_text(b: u8) -> Seq<char> {
    seq![
        '0',
        'b',
        spec_bit_char(b, 7),
        spec_bit_char(b, 6),
        spec_bit_char(b, 5),
        spec_bit_char(b, 4),
        spec_bit_char(b, 3),
        spec_bit_char(b, 2),
        spec_bit_char(b, 1),
        spec_bit_char(b, 0),
    ]
}

/// A byte in the selected notation.
pub open spec fn spec_byte_text(b: u8, use_hex: bool) -> Seq<char> {
    if use_hex {
        spec_hex_byte_text(b)
    } else {
        spec_bin_byte_text(b)
    }
}

/// A number below 1000 in decimal, without leading zeros.
pub open spec fn spec_dec_text(n: int) -> Seq<char> {
    if n < 10 {
        seq![spec_digit_char(n)]
    } else if n < 100 {
        seq![spec_digit_char(n / 10), spec_digit_char(n % 10)]
    } else {
        seq![spec_digit_char(n / 100), spec_digit_char((n / 10) % 10), spec_digit_char(n % 10)]
    }
}

fn digit_str(n: u8) -> (r: &'static str)
    requires
        n < 16,
    ensures
        r@ == seq![spec_digit_char(n as int)],
{
    if n == 0 {
        proof {
            reveal_strlit("0");
            assert("0"@ =~= seq![spec_digit_char(0)]);
        }
        "0"
    } else if n == 1 {
        proof {
            reveal_strlit("1");
            assert("1"@ =~= seq![spec_digit_char(1)]);
        }
        "1"
    } else if n == 2 {
        proof {
            reveal_strlit("2");
            assert("2"@ =~= seq![spec_digit_char(2)]);
        }
        "2"
    } else if n == 3 {
        proof {
            reveal_strlit("3");
            assert("3"@ =~= seq![spec_digit_char(3)]);
        }
        "3"
    } else if n == 4 {
        proof {
            reveal_strlit("4");
            assert("4"@ =~= seq![spec_digit_char(4)]);
        }
        "4"
    } else if n == 5 {
        proof {
            reveal_strlit("5");
            assert("5"@ =~= seq![spec_digit_char(5)]);
        }
        "5"
    } else if n == 6 {
        proof {
            reveal_strlit("6");
            assert("6"@ =~= seq![spec_digit_char(6)]);
        }
        "6"
    } else if n == 7 {
        proof {
            reveal_strlit("7");
            assert("7"@ =~= seq![spec_digit_char(7)]);
        }
        "7"
    } else if n == 8 {
        proof {
            reveal_strlit("8");
            assert("8"@ =~= seq![spec_digit_char(8)]);
        }
        "8"
    } else if n == 9 {
        proof {
            reveal_strlit("9");
            assert("9"@ =~= seq![spec_digit_char(9)]);
        }
        "9"
    } else if n == 10 {
        proof {
            reveal_strlit("a");
            assert("a"@ =~= seq![spec_digit_char(10)]);
        }
        "a"
    } else if n == 11 {
        proof {
            reveal_strlit("b");
            assert("b"@ =~= seq![spec_digit_char(11)]);
        }
        "b"
    } else if n == 12 {
        proof {
            reveal_strlit("c");
            assert("c"@ =~= seq![spec_digit_char(12)]);
        }
        "c"
    } else if n == 13 {
        proof {
            reveal_strlit("d");
            assert("d"@ =~= seq![spec_digit_char(13)]);
        }
        "d"
    } else if n == 14 {
        proof {
            reveal_strlit("e");
            assert("e"@ =~= seq![spec_digit_char(14)]);
        }
        "e"
    } else {
        proof {
            reveal_strlit("f");
            assert("f"@ =~= seq![spec_digit_char(15)]);
        }
        "f"
    }
}

fn bit_str(b: u8, k: u8) -> (r: &'static str)
    requires
        k < 8,
    ensures
        r@ == seq![spec_bit_char(b, k as int)],
{
    if (b >> k) & 1 == 1 {
        proof {
            reveal_strlit("1");
            assert("1"@ =~= seq![spec_bit_char(b, k as int)]);
        }
        "1"
    } else {
        proof {
            reveal_strlit("0");
            assert("0"@ =~= seq![spec_bit_char(b, k as int)]);
        }
        "0"
    }
}

/// Renders a byte as a hexadecimal or binary C literal.
pub fn byte_text(b: u8, use_hex_notation: bool) -> (r: String)
    ensures
        r@ == spec_byte_text(b, use_hex_notation),
{
    let mut s = String::new();
    if use_hex_notation {
        proof {
            reveal_strlit("0x");
            assert(b >> 4u8 < 16 && b & 15u8 < 16) by (bit_vector);
        }
        s.append("0x");
        s.append(digit_str(b >> 4));
        s.append(digit_str(b & 15));
        proof {
            assert(s@ =~= spec_hex_byte_text(b));
        }
    } else {
        proof {
            reveal_strlit("0b");
        }
        s.append("0b");
        s.append(bit_str(b, 7));
        s.append(bit_str(b, 6));
        s.append(bit_str(b, 5));
        s.append(bit_str(b, 4));
        s.append(bit_str(b, 3));
        s.append(bit_str(b, 2));
        s.append(bit_str(b, 1));
        s.append(bit_str(b, 0));
        proof {
            assert(s@ =~= spec_bin_byte_text(b));
        }
    }
    s
}

// ---------------------------------------------------------------------------
// File name handling
// ---------------------------------------------------------------------------

/// The last position of `c` in `s`, or -1 when `c` does not occur.
pub open spec fn spec_last_index_of(s: Seq<char>, c: char) -> int
    decreases s.len(),
{
    if s.len() == 0 {
        -1
    } else if s.last() == c {
        s.len() - 1
    } else {
        spec_last_index_of(s.drop_last(), c)
    }
}

/// `spec_last_index_of` stays in range and finds an occurrence, after
/// which none follows.
pub proof fn lemma_last_index_of_bounds(s: Seq<char>, c: char)
    ensures
        -1 <= spec_last_index_of(s, c) < s.len(),
        spec_last_index_of(s, c) >= 0 ==> s[spec_last_index_of(s, c)] == c,
    decreases s.len(),
{
    if s.len() > 0 && s.last() != c {
        lemma_last_index_of_bounds(s.drop_last(), c);
    }
}

/// The file name component of a path: everything after the last slash.
pub open spec fn spec_base_name(s: Seq<char>) -> Seq<char> {
    s.subrange(spec_last_index_of(s, '/') + 1, s.len() as int)
}

/// The file name without its extension: the base name up to its last dot,
/// unless the dot is absent or leading.
pub open spec fn spec_file_stem(s: Seq<char>) -> Seq<char> {
    let base = spec_base_name(s);
    let dot = spec_last_index_of(base, '.');
    if dot <= 0 {
        base
    } else {
        base.take(dot)
    }
}

/// The stem with the generated C file's extension.
pub open spec fn spec_c_file_name(s: Seq<char>) -> Seq<char> {
    spec_file_stem(s) + ".c"@
}

/// The last position of a character in a string, scanning every character.
fn last_index_of(s: &str, c: char) -> (r: Option<usize>)
    ensures
        r is Some <==> spec_last_index_of(s@, c) >= 0,
        r is Some ==> r->0 == spec_last_index_of(s@, c),
{
    let len = s.unicode_len();
    let mut found: Option<usize> = None;
    let mut i: usize = 0;
    while i < len
        invariant
            len == s@.len(),
            i <= len,
            found is Some <==> spec_last_index_of(s@.take(i as int), c) >= 0,
            found is Some ==> found->0 == spec_last_index_of(s@.take(i as int), c),
        decreases len - i,
    {
        proof {
            assert(s@.take(i + 1).drop_last() =~= s@.take(i as int));
            assert(s@.take(i + 1).last() == s@[i as int]);
        }
        if s.get_char(i) == c {
            found = Some(i);
        }
        i = i + 1;
    }
    proof {
        assert(s@.take(len as int) =~= s@);
    }
    found
}

/// The file name stem of a slash-separated path.
pub fn file_stem_of_path(path: &str) -> (r: String)
    ensures
        r@ == spec_file_stem(path@),
{
    let len = path.unicode_len();
    proof {
        lemma_last_index_of_bounds(path@, '/');
    }
    let base_start: usize = match last_index_of(path, '/') {
        Some(i) => i + 1,
        None => 0,
    };
    proof {
        assert(base_start as int == spec_last_index_of(path@, '/') + 1);
    }
    let base = path.substring_char(base_start, len);
    proof {
        assert(base@ == spec_base_name(path@));
        lemma_last_index_of_bounds(base@, '.');
    }
    let base_len = base.unicode_len();
    match last_index_of(base, '.') {
        Some(dot) => {
            if dot > 0 {
                let stem = base.substring_char(0, dot);
                proof {
                    assert(stem@ =~= spec_file_stem(path@));
                }
                stem.to_owned()
            } else {
                proof {
                    assert(base@ =~= spec_file_stem(path@));
                }
                base.to_owned()
            }
        },
        None => {
            proof {
                assert(base@ =~= spec_file_stem(path@));
            }
            base.to_owned()
        },
    }
}

/// Renders a number below 1000 in decimal.
pub fn dec_text(n: usize) -> (r: String)
    requires
        n < 1000,
    ensures
        r@ == spec_dec_text(n as int),
{
    let mut s = String::new();
    if n < 10 {
        s.append(digit_str(n as u8));
        proof {
            assert(s@ =~= spec_dec_text(n as int));
        }
    } else if n < 100 {
        s.append(digit_str((n / 10) as u8));
        s.append(digit_str((n % 10) as u8));
        proof {
            assert(s@ =~= spec_dec_text(n as int));
        }
    } else {
        s.append(digit_str((n / 100) as u8));
        s.append(digit_str(((n / 10) % 10) as u8));
        s.append(digit_str((n % 10) as u8));
        proof {
            assert(s@ =~= spec_dec_text(n as int));
        }
    }
    s
}

// ---------------------------------------------------------------------------
// Output file info
// ---------------------------------------------------------------------------

/// The text generated for one output file, together with the input path it
/// was derived from.
#[allow(non_camel_case_types)]
pub struct Output_info_for_a_single_file {
    pub content_string: String,
    pub specified_path: String,
}

/// The collected output files of one run.
pub struct Output(pub Vec<Output_info_for_a_single_file>);

impl Output {
    pub fn new() -> (r: Self)
        ensures
            r.0@.len() == 0,
    {
        Output(Vec::new())
    }

    pub fn push(&mut self, info: Output_info_for_a_single_file)
        ensures
            final(self).0@ == old(self).0@.push(info),
    {
        self.0.push(info);
    }
}

/// The generated file's leading comment line.
pub open spec fn spec_header_text(path: Seq<char>) -> Seq<char> {
    "// "@ + spec_c_file_name(path) + " - Generated file by ITGBA \n"@
}

/// The declaration line that opens a byte array literal.
pub open spec fn spec_array_decl_text(name: Seq<char>) -> Seq<char> {
    "const unsigned char "@ + name + "[] = \n"@
}

/// The byte-literal block of the first `n` cells: each byte in the chosen
/// notation followed by a separator, with a line break after every 8th.
pub open spec fn spec_bytes_block_text(cells: Seq<u8>, n: int, use_hex: bool) -> Seq<char>
    decreases n,
{
    if n <= 0 {
        Seq::empty()
    } else {
        spec_bytes_block_text(cells, n - 1, use_hex) + spec_byte_text(cells[n - 1], use_hex)
            + ", "@ + if n % 8 == 0 {
            "\n"@
        } else {
            Seq::<char>::empty()
        }
    }
}

impl Output_info_for_a_single_file {
    /// Starts the output text for one input path with the header line.
    pub fn new(specified_path: &str) -> (r: Self)
        ensures
            r.specified_path@ == specified_path@,
            r.content_string@ == spec_header_text(specified_path@),
    {
        let mut res = Output_info_for_a_single_file {
            content_string: String::new(),
            specified_path: specified_path.to_owned(),
        };
        res.write_header();
        res
    }

    /// The generated C file's name: the input's stem with a `.c` extension.
    pub fn c_file_name_string(&self) -> (r: String)
        ensures
            r@ == spec_c_file_name(self.specified_path@),
    {
        let stem = file_stem_of_path(self.specified_path.as_str());
        stem.concat(".c")
    }

    /// The input's file name stem.
    pub fn filename_without_extension_string(&self) -> (r: String)
        ensures
            r@ == spec_file_stem(self.specified_path@),
    {
        file_stem_of_path(self.specified_path.as_str())
    }

    /// The output path relative to the input's directory, with the `.c`
    /// extension.
    pub fn relative_path_but_with_c_extension_string(&self) -> (r: String)
        ensures
            r@ == spec_c_file_name(self.specified_path@),
    {
        self.c_file_name_string()
    }

    /// Appends the generated file's header line.
    pub fn write_header(&mut self)
        ensures
            final(self).specified_path == old(self).specified_path,
            final(self).content_string@ == old(self).content_string@ + spec_header_text(
                old(self).specified_path@,
            ),
    {
        let name = self.c_file_name_string();
        self.content_string.append("// ");
        self.content_string.append(name.as_str());
        self.content_string.append(" - Generated file by ITGBA \n");
        proof {
            assert(self.content_string@ =~= old(self).content_string@ + spec_header_text(
                old(self).specified_path@,
            ));
        }
    }

    /// Appends a 32x32 byte array as a C array literal, declared under the
    /// generated file's name.
    pub fn write_tilemap_byte_array(&mut self, byte_array: &TilemapByteArray, use_hex_notation: bool)
        requires
            byte_array.wf(),
        ensures
            final(self).specified_path == old(self).specified_path,
            final(self).content_string@ == old(self).content_string@ + spec_array_decl_text(
                spec_c_file_name(old(self).specified_path@),
            ) + spec_bytes_block_text(byte_array@, 1024, use_hex_notation),
    {
        let name = self.c_file_name_string();
        self.content_string.append("const unsigned char ");
        self.content_string.append(name.as_str());
        self.content_string.append("[] = \n");
        let ghost after_decl = self.content_string@;
        proof {
            assert(after_decl =~= old(self).content_string@ + spec_array_decl_text(
                spec_c_file_name(old(self).specified_path@),
            ));
        }
        let mut byte_index: usize = 0;
        while byte_index < 1024
            invariant
                byte_array.wf(),
                byte_index <= 1024,
                self.specified_path == old(self).specified_path,
                self.content_string@ == after_decl + spec_bytes_block_text(
                    byte_array@,
                    byte_index as int,
                    use_hex_notation,
                ),
            decreases 1024 - byte_index,
        {
            let x = byte_index % 32;
            let y = byte_index / 32;
            let byte: u8 = byte_array.get(x, y);
            proof {
                assert(y * 32 + x == byte_index);
            }
            let text = byte_text(byte, use_hex_notation);
            self.content_string.append(text.as_str());
            proof {
                reveal_strlit(", ");
                reveal_strlit("\n");
            }
            self.content_string.append(", ");
            if (byte_index + 1) % 8 == 0 {
                self.content_string.append("\n");
            }
            proof {
                assert(self.content_string@ =~= after_decl + spec_bytes_block_text(
                    byte_array@,
                    byte_index + 1,
                    use_hex_notation,
                ));
            }
            byte_index = byte_index + 1;
        }
    }

    /// Appends a tile index array: its label, then the byte block.
    pub fn write_tile_index_array(&mut self, index_array: &TileIndexArray, use_hex_notation: bool)
        requires
            index_array.0.wf(),
        ensures
            final(self).specified_path == old(self).specified_path,
            final(self).content_string@ == old(self).content_string@
                + spec_index_array_label_text(old(self).specified_path@) + spec_array_decl_text(
                spec_c_file_name(old(self).specified_path@),
            ) + spec_bytes_block_text(index_array.0@, 1024, use_hex_notation),
    {
        let stem = self.filename_without_extension_string();
        self.content_string.append("const unsigned char ");
        self.content_string.append(stem.as_str());
        self.content_string.append("_tileindex__array");
        let ghost after_label = self.content_string@;
        proof {
            assert(after_label =~= old(self).content_string@ + spec_index_array_label_text(
                old(self).specified_path@,
            ));
        }
        self.write_tilemap_byte_array(&index_array.0, use_hex_notation);
        proof {
            assert(self.content_string@ =~= old(self).content_string@
                + spec_index_array_label_text(old(self).specified_path@) + spec_array_decl_text(
                spec_c_file_name(old(self).specified_path@),
            ) + spec_bytes_block_text(index_array.0@, 1024, use_hex_notation));
        }
    }

    /// Appends an attribute byte array: its label, then the byte block.
    pub fn write_attribute_byte_array(
        &mut self,
        attributes_array: &AttributeByteArray,
        use_hex_notation: bool,
    )
        requires
            attributes_array.0.wf(),
        ensures
            final(self).specified_path == old(self).specified_path,
            final(self).content_string@ == old(self).content_string@
                + spec_attribute_array_label_text(old(self).specified_path@) + spec_array_decl_text(
                spec_c_file_name(old(self).specified_path@),
            ) + spec_bytes_block_text(attributes_array.0@, 1024, use_hex_notation),
    {
        let stem = self.filename_without_extension_string();
        self.content_string.append("const unsigned char ");
        self.content_string.append(stem.as_str());
        self.content_string.append("_tilemap_attribute_array");
        let ghost after_label = self.content_string@;
        proof {
            assert(after_label =~= old(self).content_string@ + spec_attribute_array_label_text(
                old(self).specified_path@,
            ));
        }
        self.write_tilemap_byte_array(&attributes_array.0, use_hex_notation);
        proof {
            assert(self.content_string@ =~= old(self).content_string@
                + spec_attribute_array_label_text(old(self).specified_path@)
                + spec_array_decl_text(spec_c_file_name(old(self).specified_path@))
                + spec_bytes_block_text(attributes_array.0@, 1024, use_hex_notation));
        }
    }

    /// Appends the reference tileset: the tile-index name constants for
    /// every named tile, then every tile's packed 2bpp bytes.
    #[verifier::rlimit(100)]
    pub fn write_tileset(&mut self, tiledata_vec: &Vec<TileInfo>, use_hex_notation: bool)
        requires
            tiledata_vec@.len() <= 256,
            forall|i: int|
                0 <= i < tiledata_vec@.len() ==> (#[trigger] tiledata_vec@[i]).color_array.wf(),
        ensures
            final(self).specified_path == old(self).specified_path,
            final(self).content_string@ == old(self).content_string@ + spec_tileset_comment_text()
                + spec_name_consts_text(tiledata_vec@, tiledata_vec@.len() as int) + "\n"@
                + spec_array_decl_text(spec_c_file_name(old(self).specified_path@))
                + spec_tiles_data_text(
                tiledata_vec@,
                use_hex_notation,
                tiledata_vec@.len() as int,
            ),
    {
        let n = tiledata_vec.len();
        self.content_string.append(TILESET_COMMENT);
        let ghost after_comment = self.content_string@;
        proof {
            assert(after_comment =~= old(self).content_string@ + spec_tileset_comment_text());
        }

        let mut tile_index: usize = 0;
        while tile_index < n
            invariant
                n == tiledata_vec@.len(),
                n <= 256,
                tile_index <= n,
                self.specified_path == old(self).specified_path,
                self.content_string@ == after_comment + spec_name_consts_text(
                    tiledata_vec@,
                    tile_index as int,
                ),
            decreases n - tile_index,
        {
            match &tiledata_vec[tile_index].name {
                Some(name) => {
                    self.content_string.append("const size_t ");
                    self.content_string.append(name.as_str());
                    self.content_string.append("_tile_index = ");
                    let index_text = dec_text(tile_index);
                    self.content_string.append(index_text.as_str());
                    self.content_string.append(";\n");
                },
                None => {},
            }
            proof {
                assert(self.content_string@ =~= after_comment + spec_name_consts_text(
                    tiledata_vec@,
                    tile_index + 1,
                ));
            }
            tile_index = tile_index + 1;
        }
        proof {
            reveal_strlit("\n");
        }
        self.content_string.append("\n");

        let name = self.c_file_name_string();
        self.content_string.append("const unsigned char ");
        self.content_string.append(name.as_str());
        self.content_string.append("[] = \n");
        let ghost after_decl = self.content_string@;
        proof {
            assert(after_decl =~= after_comment + spec_name_consts_text(tiledata_vec@, n as int)
                + "\n"@ + spec_array_decl_text(spec_c_file_name(old(self).specified_path@)));
        }

        let mut tile_index: usize = 0;
        while tile_index < n
            invariant
                n == tiledata_vec@.len(),
                n <= 256,
                tile_index <= n,
                forall|i: int|
                    0 <= i < tiledata_vec@.len() ==> (#[trigger] tiledata_vec@[i]).color_array.wf(),
                self.specified_path == old(self).specified_path,
                self.content_string@ == after_decl + spec_tiles_data_text(
                    tiledata_vec@,
                    use_hex_notation,
                    tile_index as int,
                ),
            decreases n - tile_index,
        {
            self.content_string.append("\n\t// Tile ");
            let index_text = dec_text(tile_index);
            self.content_string.append(index_text.as_str());
            self.content_string.append("\n");
            let ghost after_tile_header = self.content_string@;
            proof {
                assert(after_tile_header =~= after_decl + spec_tiles_data_text(
                    tiledata_vec@,
                    use_hex_notation,
                    tile_index as int,
                ) + "\n\t// Tile "@ + spec_dec_text(tile_index as int) + "\n"@);
            }
            let tile = &tiledata_vec[tile_index].color_array;
            let mut y: usize = 0;
            while y < 8
                invariant
                    n == tiledata_vec@.len(),
                    tile_index < n,
                    tile@ == tiledata_vec@[tile_index as int].color_array@,
                    tile.wf(),
                    y <= 8,
                    self.specified_path == old(self).specified_path,
                    self.content_string@ == after_tile_header + spec_tile_rows_text(
                        tile@,
                        use_hex_notation,
                        y as int,
                    ),
                decreases 8 - y,
            {
                if y % 2 == 0 {
                    proof {
                        reveal_strlit("\t");
                    }
                    self.content_string.append("\t");
                }
                let (first_byte, second_byte) = pack_row(tile, y);
                let first_text = byte_text(first_byte, use_hex_notation);
                let second_text = byte_text(second_byte, use_hex_notation);
                proof {
                    reveal_strlit(", ");
                }
                self.content_string.append(first_text.as_str());
                self.content_string.append(", ");
                self.content_string.append(second_text.as_str());
                self.content_string.append(", ");
                if (y + 1) % 2 == 0 {
                    self.content_string.append(" // Line ");
                    let line_a = dec_text(y - 1);
                    self.content_string.append(line_a.as_str());
                    self.content_string.append("-");
                    let line_b = dec_text(y);
                    self.content_string.append(line_b.as_str());
                    proof {
                        reveal_strlit("\n");
                    }
                    self.content_string.append("\n");
                }
                proof {
                    assert(self.content_string@ =~= after_tile_header + spec_tile_rows_text(
                        tile@,
                        use_hex_notation,
                        y + 1,
                    ));
                }
                y = y + 1;
            }
            proof {
                assert(self.content_string@ =~= after_decl + spec_tiles_data_text(
                    tiledata_vec@,
                    use_hex_notation,
                    tile_index + 1,
                ));
            }
            tile_index = tile_index + 1;
        }
        proof {
            assert(self.content_string@ =~= old(self).content_string@
                + spec_tileset_comment_text() + spec_name_consts_text(tiledata_vec@, n as int)
                + "\n"@ + spec_array_decl_text(spec_c_file_name(old(self).specified_path@))
                + spec_tiles_data_text(tiledata_vec@, use_hex_notation, n as int));
        }
    }
}

/// The comment block that precedes the tile-index name constants.
pub const TILESET_COMMENT: &'static str = "// Constants for easier tile indexing. These constants are generated using\n// the file names of the individual tiles if they don't have an ignore prefix \"_ignore\"\n// and are valid c identifiers.";

/// The comment block as a character sequence.
pub open spec fn spec_tileset_comment_text() -> Seq<char> {
    TILESET_COMMENT@
}

/// The label that precedes a tile index array's byte block.
pub open spec fn spec_index_array_label_text(path: Seq<char>) -> Seq<char> {
    "const unsigned char "@ + spec_file_stem(path) + "_tileindex__array"@
}

/// The label that precedes an attribute array's byte block.
pub open spec fn spec_attribute_array_label_text(path: Seq<char>) -> Seq<char> {
    "const unsigned char "@ + spec_file_stem(path) + "_tilemap_attribute_array"@
}

/// The tile-index name constants of the first `n` reference tiles: one
/// line per named tile.
pub open spec fn spec_name_consts_text(tiles: Seq<TileInfo>, n: int) -> Seq<char>
    decreases n,
{
    if n <= 0 {
        Seq::empty()
    } else {
        spec_name_consts_text(tiles, n - 1) + match tiles[n - 1].name {
            Some(name) => "const size_t "@ + name@ + "_tile_index = "@ + spec_dec_text(n - 1)
                + ";\n"@,
            None => Seq::<char>::empty(),
        }
    }
}

/// The packed byte text of the first `rows` rows of one tile: both plane
/// bytes of each row, rows paired two to a line.
pub open spec fn spec_tile_rows_text(t: Seq<u8>, use_hex: bool, rows: int) -> Seq<char>
    decreases rows,
{
    if rows <= 0 {
        Seq::empty()
    } else {
        let y = rows - 1;
        spec_tile_rows_text(t, use_hex, y) + (if y % 2 == 0 {
            "\t"@
        } else {
            Seq::<char>::empty()
        }) + spec_byte_text(spec_plane_byte(t, y, 0), use_hex) + ", "@ + spec_byte_text(
            spec_plane_byte(t, y, 1),
            use_hex,
        ) + ", "@ + (if y % 2 == 1 {
            " // Line "@ + spec_dec_text(y - 1) + "-"@ + spec_dec_text(y) + "\n"@
        } else {
            Seq::<char>::empty()
        })
    }
}

/// The full generated text for one resolved tilemap: the header, the tile
/// index array, and, in attribute mode, the attribute byte array.
pub open spec fn spec_tilemap_output_text(
    path: Seq<char>,
    searchmap: Seq<(Seq<u8>, TileSearchmapValue)>,
    image: Image,
    palette: Seq<PixelColor>,
    allow_flipped: bool,
    use_hex: bool,
) -> Seq<char> {
    spec_header_text(path) + spec_index_array_label_text(path) + spec_array_decl_text(
        spec_c_file_name(path),
    ) + spec_bytes_block_text(
        spec_resolved_index_cells(searchmap, image, palette, allow_flipped),
        1024,
        use_hex,
    ) + if allow_flipped {
        spec_attribute_array_label_text(path) + spec_array_decl_text(spec_c_file_name(path))
            + spec_bytes_block_text(
            spec_resolved_attribute_cells(searchmap, image, palette, allow_flipped),
            1024,
            use_hex,
        )
    } else {
        Seq::<char>::empty()
    }
}

/// Resolves one tilemap image and renders its index array, and in
/// attribute mode its attribute array, as the output file's text.
pub fn create_output_info_for_tilemap(
    tilemap_image_path: &str,
    tilemap_image: &Image,
    reference_color_palette: &ColorPalette,
    tile_search_map: &TileSearchmap,
    allow_attributes_and_generate_attribute_array: bool,
    use_hex_notation: bool,
) -> (r: Result<Output_info_for_a_single_file, TileError>)
    requires
        tilemap_image.wf(),
        reference_color_palette.wf(),
    ensures
        r is Ok <==> {
            &&& spec_dims_tile_aligned(*tilemap_image)
            &&& spec_tilemap_fits(*tilemap_image)
            &&& all_tiles_resolvable(
                tile_search_map@,
                *tilemap_image,
                reference_color_palette@,
                allow_attributes_and_generate_attribute_array,
            )
        },
        match r {
            Ok(info) => {
                &&& info.specified_path@ == tilemap_image_path@
                &&& info.content_string@ == spec_tilemap_output_text(
                    tilemap_image_path@,
                    tile_search_map@,
                    *tilemap_image,
                    reference_color_palette@,
                    allow_attributes_and_generate_attribute_array,
                    use_hex_notation,
                )
            },
            Err(e) => spec_tilemap_resolution_error(
                e,
                tile_search_map@,
                *tilemap_image,
                reference_color_palette@,
                allow_attributes_and_generate_attribute_array,
            ),
        },
{
    let (index_array, attribute_array) = match index_and_attribute_array_from_tilemap_image(
        tilemap_image,
        reference_color_palette,
        tile_search_map,
        allow_attributes_and_generate_attribute_array,
    ) {
        Ok(p) => p,
        Err(e) => {
            return Err(e);
        },
    };
    let mut output_info = Output_info_for_a_single_file::new(tilemap_image_path);
    output_info.write_tile_index_array(&index_array, use_hex_notation);
    match &attribute_array {
        Some(attribute_byte_array) => {
            output_info.write_attribute_byte_array(attribute_byte_array, use_hex_notation);
        },
        None => {},
    }
    proof {
        assert(output_info.content_string@ =~= spec_tilemap_output_text(
            tilemap_image_path@,
            tile_search_map@,
            *tilemap_image,
            reference_color_palette@,
            allow_attributes_and_generate_attribute_array,
            use_hex_notation,
        ));
    }
    Ok(output_info)
}

/// The packed data text of the first `n` reference tiles: a tile comment
/// line, then the tile's sixteen packed bytes.
pub open spec fn spec_tiles_data_text(tiles: Seq<TileInfo>, use_hex: bool, n: int) -> Seq<char>
    decreases n,
{
    if n <= 0 {
        Seq::empty()
    } else {
        spec_tiles_data_text(tiles, use_hex, n - 1) + "\n\t// Tile "@ + spec_dec_text(n - 1)
            + "\n"@ + spec_tile_rows_text(tiles[n - 1].color_array@, use_hex, 8)
    }
}

} // verus!
