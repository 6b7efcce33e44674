use avif_serialize::constants::{ColorPrimaries, MatrixCoefficients, TransferCharacteristics};
use avif_serialize::{serialize, serialize_to_vec, Aviffy, SerializeError};

fn be32_at(data: &[u8], pos: usize) -> u32 {
    u32::from_be_bytes([data[pos], data[pos + 1], data[pos + 2], data[pos + 3]])
}

fn be16_at(data: &[u8], pos: usize) -> u16 {
    u16::from_be_bytes([data[pos], data[pos + 1]])
}

fn find(haystack: &[u8], needle: &[u8]) -> Option<usize> {
    haystack.windows(needle.len()).position(|w| w == needle)
}

/// Reads the `k`-th `iloc` entry of a still file: (id, offset, length).
fn iloc_entry(file: &[u8], k: usize) -> (u16, usize, usize) {
    let at = 99 + 14 * k;
    (be16_at(file, at), be32_at(file, at + 6) as usize, be32_at(file, at + 10) as usize)
}

#[test]
fn still_items_read_back_at_their_locations() {
    let color = b"COLOR-PAYLOAD";
    let alpha = b"ALPHA";
    let file = serialize_to_vec(color, Some(alpha), 10, 20, 8);
    assert_eq!(&file[99 - 16 + 4..99 - 16 + 8], b"iloc");
    assert_eq!(be16_at(&file, 97), 2);
    let (id, off, len) = iloc_entry(&file, 0);
    assert_eq!(id, 2);
    assert_eq!(&file[off..off + len], alpha);
    let (id, off, len) = iloc_entry(&file, 1);
    assert_eq!(id, 1);
    assert_eq!(&file[off..off + len], color);
    assert_eq!(off + len, file.len());
}

#[test]
fn still_metadata_items_come_first() {
    let file = Aviffy::new()
        .set_exif(b"EXIF-DATA".to_vec())
        .set_xmp(b"<xmp/>".to_vec())
        .to_vec(b"CCC", None, 4, 4, 10);
    let expected: [(u16, &[u8]); 3] = [(3, b"EXIF-DATA"), (4, b"<xmp/>"), (1, b"CCC")];
    for (k, (want_id, want_data)) in expected.iter().enumerate() {
        let (id, off, len) = iloc_entry(&file, k);
        assert_eq!(id, *want_id);
        assert_eq!(&file[off..off + len], *want_data);
    }
}

#[test]
fn top_level_box_sizes_add_up() {
    let file = serialize_to_vec(b"abc", Some(b"de"), 3, 3, 12);
    assert_eq!(be32_at(&file, 0), 24);
    assert_eq!(&file[4..8], b"ftyp");
    let mut pos = 0;
    let mut kinds = Vec::new();
    while pos < file.len() {
        let size = be32_at(&file, pos) as usize;
        kinds.push(file[pos + 4..pos + 8].to_vec());
        pos += size;
    }
    assert_eq!(pos, file.len());
    assert_eq!(kinds, vec![b"ftyp".to_vec(), b"meta".to_vec(), b"mdat".to_vec()]);
}

#[test]
fn rotation_code_keeps_two_low_bits() {
    let file = Aviffy::new().set_rotation(6).to_vec(b"x", None, 1, 1, 8);
    let irot = find(&file, b"irot").unwrap();
    assert_eq!(be32_at(&file, irot - 4), 9);
    assert_eq!(file[irot + 4], 2);
}

#[test]
fn mirror_axis_keeps_low_bit() {
    let file = Aviffy::new().set_mirror(7).to_vec(b"x", None, 1, 1, 8);
    let imir = find(&file, b"imir").unwrap();
    assert_eq!(file[imir + 4], 1);
}

#[test]
fn icc_profile_makes_cicp_irrelevant() {
    let icc = b"ICC-PROFILE".to_vec();
    let plain = Aviffy::new().set_icc_profile(icc.clone()).to_vec(b"x", None, 2, 2, 8);
    let with_cicp = Aviffy::new()
        .set_icc_profile(icc)
        .set_matrix_coefficients(MatrixCoefficients::Bt2020Ncl)
        .set_transfer_characteristics(TransferCharacteristics::Smpte2084)
        .set_color_primaries(ColorPrimaries::Bt2020)
        .set_full_color_range(false)
        .to_vec(b"x", None, 2, 2, 8);
    assert_eq!(plain, with_cicp);
    assert!(find(&plain, b"prof").is_some());
    assert!(find(&plain, b"nclx").is_none());
}

#[test]
fn write_errors_name_their_cause() {
    let mut out = vec![1, 2, 3];
    assert_eq!(serialize(&mut out, b"x", None, 1, 1, 9), Err(SerializeError::UnsupportedDepth));
    assert_eq!(serialize(&mut out, b"x", None, 0, 1, 8), Err(SerializeError::MissingDimensions));
    assert_eq!(serialize(&mut out, b"x", None, 1, 0, 10), Err(SerializeError::MissingDimensions));
    // nothing is appended on error
    assert_eq!(out, vec![1, 2, 3]);
    assert_eq!(serialize(&mut out, b"x", None, 1, 1, 8), Ok(()));
    assert_eq!(&out[..3], &[1, 2, 3]);
    assert_eq!(&out[3..], serialize_to_vec(b"x", None, 1, 1, 8).as_slice());
}

#[test]
fn write_slice_uses_configured_size() {
    let mut a = Vec::new();
    Aviffy::new().set_width(7).set_height(9).set_bit_depth(10).write_slice(&mut a, b"px", None).unwrap();
    let mut b = Vec::new();
    Aviffy::new().write(&mut b, b"px", None, 7, 9, 10).unwrap();
    assert_eq!(a, b);
    let ispe = find(&a, b"ispe").unwrap();
    assert_eq!(be32_at(&a, ispe + 8), 7);
    assert_eq!(be32_at(&a, ispe + 12), 9);
}

#[test]
fn premultiplied_alpha_declares_prem_reference() {
    let file = Aviffy::new().set_premultiplied_alpha(true).to_vec(b"c", Some(b"a"), 1, 1, 8);
    let prem = find(&file, b"prem").unwrap();
    assert_eq!(be16_at(&file, prem + 4), 1);
    assert_eq!(be16_at(&file, prem + 6), 1);
    assert_eq!(be16_at(&file, prem + 8), 2);
    // without alpha there is nothing to premultiply
    let file = Aviffy::new().set_premultiplied_alpha(true).to_vec(b"c", None, 1, 1, 8);
    assert!(find(&file, b"prem").is_none());
}
