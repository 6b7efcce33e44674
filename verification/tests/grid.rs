use avif_serialize::grid::{patch_iloc_offsets, serialize_grid, GridImage};
use avif_serialize::{Av1CBox, SerializeError};

fn basic_av1c() -> Av1CBox {
    Av1CBox {
        seq_profile: 0,
        seq_level_idx_0: 4,
        seq_tier_0: false,
        high_bitdepth: false,
        twelve_bit: false,
        monochrome: false,
        chroma_subsampling_x: true,
        chroma_subsampling_y: true,
        chroma_sample_position: 0,
    }
}

fn mono_av1c() -> Av1CBox {
    Av1CBox {
        seq_profile: 0,
        seq_level_idx_0: 4,
        seq_tier_0: false,
        high_bitdepth: false,
        twelve_bit: false,
        monochrome: true,
        chroma_subsampling_x: true,
        chroma_subsampling_y: true,
        chroma_sample_position: 0,
    }
}

fn find(haystack: &[u8], needle: &[u8]) -> Option<usize> {
    haystack.windows(needle.len()).position(|w| w == needle)
}

fn be32_at(data: &[u8], pos: usize) -> u32 {
    u32::from_be_bytes([data[pos], data[pos + 1], data[pos + 2], data[pos + 3]])
}

#[test]
fn grid_2x2_roundtrip() {
    let tiles: Vec<Vec<u8>> = (0..4).map(|i| vec![i as u8; 100]).collect();
    let tile_refs: Vec<&[u8]> = tiles.iter().map(|t| t.as_slice()).collect();

    let image = GridImage {
        rows: 2,
        columns: 2,
        output_width: 200,
        output_height: 200,
        tile_width: 100,
        tile_height: 100,
        tile_data: &tile_refs,
        alpha_data: None,
        color_config: basic_av1c(),
        alpha_config: None,
        depth_bits: 8,
        colr: None,
        premultiplied_alpha: false,
    };

    let avif = serialize_grid(&image).unwrap();

    // Verify ftyp
    assert_eq!(&avif[4..8], b"ftyp");
    assert_eq!(&avif[8..12], b"avif");

    // Verify tile data is present in mdat
    for tile in &tiles {
        assert!(avif.windows(tile.len()).any(|w| w == tile.as_slice()),
            "tile data should be in output");
    }

    // Parse with zenavif-parse
    let parser = zenavif_parse::AvifParser::from_bytes(&avif).unwrap();
    let grid = parser.grid_config().expect("should have grid config");
    assert_eq!(grid.rows, 2);
    assert_eq!(grid.columns, 2);
    assert_eq!(grid.output_width, 200);
    assert_eq!(grid.output_height, 200);
    assert_eq!(parser.grid_tile_count(), 4);
}

#[test]
fn grid_1x3_roundtrip() {
    let tiles: Vec<Vec<u8>> = (0..3).map(|i| vec![(i + 10) as u8; 50]).collect();
    let tile_refs: Vec<&[u8]> = tiles.iter().map(|t| t.as_slice()).collect();

    let image = GridImage {
        rows: 1,
        columns: 3,
        output_width: 300,
        output_height: 100,
        tile_width: 100,
        tile_height: 100,
        tile_data: &tile_refs,
        alpha_data: None,
        color_config: basic_av1c(),
        alpha_config: None,
        depth_bits: 8,
        colr: None,
        premultiplied_alpha: false,
    };

    let avif = serialize_grid(&image).unwrap();
    let parser = zenavif_parse::AvifParser::from_bytes(&avif).unwrap();
    let grid = parser.grid_config().expect("grid config");
    assert_eq!(grid.rows, 1);
    assert_eq!(grid.columns, 3);
    assert_eq!(parser.grid_tile_count(), 3);
}

#[test]
fn grid_with_alpha() {
    let color_tiles: Vec<Vec<u8>> = (0..4).map(|i| vec![i as u8; 80]).collect();
    let alpha_tiles: Vec<Vec<u8>> = (0..4).map(|i| vec![(i + 100) as u8; 40]).collect();
    let color_refs: Vec<&[u8]> = color_tiles.iter().map(|t| t.as_slice()).collect();
    let alpha_refs: Vec<&[u8]> = alpha_tiles.iter().map(|t| t.as_slice()).collect();

    let image = GridImage {
        rows: 2,
        columns: 2,
        output_width: 128,
        output_height: 128,
        tile_width: 64,
        tile_height: 64,
        tile_data: &color_refs,
        alpha_data: Some(&alpha_refs),
        color_config: basic_av1c(),
        alpha_config: Some(mono_av1c()),
        depth_bits: 8,
        colr: None,
        premultiplied_alpha: false,
    };

    let avif = serialize_grid(&image).unwrap();

    // Should contain all color and alpha tile data
    for tile in &color_tiles {
        assert!(avif.windows(tile.len()).any(|w| w == tile.as_slice()));
    }
    for tile in &alpha_tiles {
        assert!(avif.windows(tile.len()).any(|w| w == tile.as_slice()));
    }

    let parser = zenavif_parse::AvifParser::from_bytes(&avif).unwrap();
    let grid = parser.grid_config().expect("grid config");
    assert_eq!(grid.rows, 2);
    assert_eq!(grid.columns, 2);
}

#[test]
fn grid_wrong_tile_count_errors() {
    let tiles = vec![vec![0u8; 10]];
    let tile_refs: Vec<&[u8]> = tiles.iter().map(|t| t.as_slice()).collect();

    let image = GridImage {
        rows: 2,
        columns: 2,
        output_width: 200,
        output_height: 200,
        tile_width: 100,
        tile_height: 100,
        tile_data: &tile_refs, // only 1, need 4
        alpha_data: None,
        color_config: basic_av1c(),
        alpha_config: None,
        depth_bits: 8,
        colr: None,
        premultiplied_alpha: false,
    };

    assert!(serialize_grid(&image).is_err());
}

#[test]
fn grid_error_variants_carry_counts() {
    let tiles = vec![vec![1u8; 4]; 3];
    let refs: Vec<&[u8]> = tiles.iter().map(|t| t.as_slice()).collect();
    let alpha = vec![vec![2u8; 4]; 2];
    let alpha_refs: Vec<&[u8]> = alpha.iter().map(|t| t.as_slice()).collect();
    let mut image = GridImage {
        rows: 1,
        columns: 2,
        output_width: 20,
        output_height: 10,
        tile_width: 10,
        tile_height: 10,
        tile_data: &refs,
        alpha_data: None,
        color_config: basic_av1c(),
        alpha_config: None,
        depth_bits: 8,
        colr: None,
        premultiplied_alpha: false,
    };
    assert_eq!(serialize_grid(&image).unwrap_err(), SerializeError::TileCountMismatch { tiles: 3, expected: 2 });
    image.tile_data = &refs[..2];
    image.alpha_data = Some(&alpha_refs[..1]);
    assert_eq!(serialize_grid(&image).unwrap_err(), SerializeError::AlphaTileCountMismatch { tiles: 1, expected: 2 });
    image.alpha_data = Some(&alpha_refs);
    assert!(serialize_grid(&image).is_ok());
}

#[test]
fn grid_iloc_offsets_point_at_item_data() {
    let tiles: Vec<Vec<u8>> = vec![b"TILE_ZERO".to_vec(), b"TILE_ONE!".to_vec()];
    let refs: Vec<&[u8]> = tiles.iter().map(|t| t.as_slice()).collect();
    let image = GridImage {
        rows: 1,
        columns: 2,
        output_width: 20,
        output_height: 10,
        tile_width: 10,
        tile_height: 10,
        tile_data: &refs,
        alpha_data: None,
        color_config: basic_av1c(),
        alpha_config: None,
        depth_bits: 8,
        colr: None,
        premultiplied_alpha: false,
    };
    let avif = serialize_grid(&image).unwrap();
    assert!(find(&avif, &[0xBA, 0xAD, 0xF0, 0x0D]).is_none());
    // iloc: size, type, version/flags, sizes byte, reserved byte, item count, then entries
    let iloc = find(&avif, b"iloc").unwrap();
    assert_eq!(u16::from_be_bytes([avif[iloc + 10], avif[iloc + 11]]), 3);
    let entry = |k: usize| iloc + 12 + 14 * k;
    // the grid descriptor: 8 bytes of 16-bit fields, in front of the tiles
    let desc_at = be32_at(&avif, entry(0) + 6) as usize;
    assert_eq!(be32_at(&avif, entry(0) + 10), 8);
    assert_eq!(&avif[desc_at..desc_at + 8], &[0, 0, 0, 1, 0, 20, 0, 10]);
    let t0 = be32_at(&avif, entry(1) + 6) as usize;
    let t1 = be32_at(&avif, entry(2) + 6) as usize;
    assert_eq!(&avif[t0..t0 + 9], b"TILE_ZERO");
    assert_eq!(&avif[t1..t1 + 9], b"TILE_ONE!");
    assert_eq!(t0, desc_at + 8);
    assert_eq!(t1, t0 + 9);
    assert_eq!(avif.len(), t1 + 9);
}

#[test]
fn grid_descriptor_uses_wide_fields_for_large_images() {
    let tiles = vec![vec![7u8; 3]];
    let refs: Vec<&[u8]> = tiles.iter().map(|t| t.as_slice()).collect();
    let image = GridImage {
        rows: 1,
        columns: 1,
        output_width: 70000,
        output_height: 5,
        tile_width: 70000,
        tile_height: 5,
        tile_data: &refs,
        alpha_data: None,
        color_config: basic_av1c(),
        alpha_config: None,
        depth_bits: 10,
        colr: None,
        premultiplied_alpha: false,
    };
    let avif = serialize_grid(&image).unwrap();
    let mdat = find(&avif, b"mdat").unwrap();
    assert_eq!(&avif[mdat + 4..mdat + 16], &[0, 1, 0, 0, 0, 1, 0x11, 0x70, 0, 0, 0, 5]);
}

#[test]
fn grid_alpha_premultiplied_references() {
    let tiles = vec![vec![1u8; 5]; 2];
    let refs: Vec<&[u8]> = tiles.iter().map(|t| t.as_slice()).collect();
    let alpha = vec![vec![9u8; 5]; 2];
    let alpha_refs: Vec<&[u8]> = alpha.iter().map(|t| t.as_slice()).collect();
    let image = GridImage {
        rows: 2,
        columns: 1,
        output_width: 10,
        output_height: 20,
        tile_width: 10,
        tile_height: 10,
        tile_data: &refs,
        alpha_data: Some(&alpha_refs),
        color_config: basic_av1c(),
        alpha_config: Some(mono_av1c()),
        depth_bits: 8,
        colr: None,
        premultiplied_alpha: true,
    };
    let avif = serialize_grid(&image).unwrap();
    assert!(find(&avif, b"auxl").is_some());
    assert!(find(&avif, b"prem").is_some());
    let iloc = find(&avif, b"iloc").unwrap();
    // two grids and two tiles of each kind
    assert_eq!(u16::from_be_bytes([avif[iloc + 10], avif[iloc + 11]]), 6);
}

#[test]
fn grid_alpha_tiles_without_alpha_config() {
    let tiles = vec![vec![1u8; 3]; 2];
    let refs: Vec<&[u8]> = tiles.iter().map(|t| t.as_slice()).collect();
    let alpha = vec![b"ALPHA0".to_vec(), b"ALPHA1".to_vec()];
    let alpha_refs: Vec<&[u8]> = alpha.iter().map(|t| t.as_slice()).collect();
    let image = GridImage {
        rows: 1,
        columns: 2,
        output_width: 20,
        output_height: 10,
        tile_width: 10,
        tile_height: 10,
        tile_data: &refs,
        alpha_data: Some(&alpha_refs),
        color_config: basic_av1c(),
        alpha_config: None,
        depth_bits: 8,
        colr: None,
        premultiplied_alpha: false,
    };
    let avif = serialize_grid(&image).unwrap();
    // without an alpha configuration the alpha tiles are left out
    let iloc = find(&avif, b"iloc").unwrap();
    assert_eq!(u16::from_be_bytes([avif[iloc + 10], avif[iloc + 11]]), 3);
    assert!(find(&avif, b"auxl").is_none());
    assert!(find(&avif, b"ALPHA0").is_none());
    assert!(find(&avif, b"ALPHA1").is_none());
    let mdat = find(&avif, b"mdat").unwrap();
    assert_eq!(be32_at(&avif, mdat - 4) as usize, avif.len() - (mdat - 4));
    assert_eq!(avif.len(), mdat + 4 + 8 + 3 + 3);
}

#[test]
fn grid_tile_data_equal_to_the_placeholder_is_kept() {
    let tiles = vec![vec![0xBA, 0xAD, 0xF0, 0x0D, 0xBA, 0xAD, 0xF0, 0x0D], vec![0xBA, 0xAD, 0xF0, 0x0D]];
    let refs: Vec<&[u8]> = tiles.iter().map(|t| t.as_slice()).collect();
    let image = GridImage {
        rows: 2,
        columns: 1,
        output_width: 0xBAAD,
        output_height: 0xF00D,
        tile_width: 0xBAAD,
        tile_height: 0xF00D,
        tile_data: &refs,
        alpha_data: None,
        color_config: basic_av1c(),
        alpha_config: None,
        depth_bits: 8,
        colr: None,
        premultiplied_alpha: false,
    };
    let avif = serialize_grid(&image).unwrap();
    let iloc = find(&avif, b"iloc").unwrap();
    let entry = |k: usize| iloc + 12 + 14 * k;
    for (k, tile) in tiles.iter().enumerate() {
        let at = be32_at(&avif, entry(k + 1) + 6) as usize;
        assert_eq!(&avif[at..at + tile.len()], tile.as_slice());
    }
    let desc_at = be32_at(&avif, entry(0) + 6) as usize;
    assert_eq!(&avif[desc_at..desc_at + 8], &[0, 0, 1, 0, 0xBA, 0xAD, 0xF0, 0x0D]);
}

#[test]
fn patch_fills_offsets_from_the_stored_lengths() {
    let mut out = vec![0xBA, 0xAD, 0xF0, 0x0D, 0, 0, 0, 5, 0xBA, 0xAD, 0xF0, 0x0D, 0, 0, 0, 3];
    patch_iloc_offsets(&mut out, &[0, 8], 100);
    assert_eq!(out, vec![0, 0, 0, 100, 0, 0, 0, 5, 0, 0, 0, 105, 0, 0, 0, 3]);
}

#[test]
fn patch_leaves_bytes_outside_the_places() {
    let mut out = vec![7u8, 0xBA, 0xAD, 0xF0, 0x0D, 0, 0, 1, 0, 0xBA, 0xAD, 0xF0, 0x0D];
    patch_iloc_offsets(&mut out, &[1], 0x0102_0304);
    assert_eq!(out, vec![7u8, 1, 2, 3, 4, 0, 0, 1, 0, 0xBA, 0xAD, 0xF0, 0x0D]);
}
