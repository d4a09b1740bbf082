//! Tile canonicalization and 2bpp encoding for 8-bit handheld graphics
//! hardware.
//!
//! The library turns decoded truecolor pixel buffers into 2-bit-per-pixel
//! planar tile data, builds a searchmap that maps every reference tile and
//! its mirror variants back to a canonical tile index, and resolves tilemap
//! images against that searchmap into index and attribute byte arrays.

pub mod helper;
pub mod input_data_representation_types;
pub mod output;
pub mod read_input;
