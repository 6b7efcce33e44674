use avif_serialize::animated::{AnimFrame, AnimatedImage};
use avif_serialize::Av1CBox;

fn basic_av1c() -> Av1CBox {
    Av1CBox {
        seq_profile: 0,
        seq_level_idx_0: 4,
        seq_tier_0: false,
        high_bitdepth: false,
        twelve_bit: false,
        monochrome: false,
        chroma_subsampling_x: true,
        chroma_subsampling_y: true,
        chroma_sample_position: 0,
    }
}

fn mono_av1c() -> Av1CBox {
    Av1CBox {
        seq_profile: 0,
        seq_level_idx_0: 4,
        seq_tier_0: false,
        high_bitdepth: false,
        twelve_bit: false,
        monochrome: true,
        chroma_subsampling_x: true,
        chroma_subsampling_y: true,
        chroma_sample_position: 0,
    }
}

fn find(haystack: &[u8], needle: &[u8]) -> Option<usize> {
    haystack.windows(needle.len()).position(|w| w == needle)
}

fn be32_at(data: &[u8], pos: usize) -> u32 {
    u32::from_be_bytes([data[pos], data[pos + 1], data[pos + 2], data[pos + 3]])
}

#[test]
fn serialize_color_only() {
    let frames = [
        AnimFrame::new(b"frame1color", 100).with_sync(true),
        AnimFrame::new(b"frame2color", 200),
    ];
    let mut image = AnimatedImage::new();
    image.set_color_config(basic_av1c());
    let avif = image.serialize(64, 64, &frames, b"seqhdr", None);

    // Should start with ftyp avis
    assert_eq!(&avif[4..8], b"ftyp");
    assert_eq!(&avif[8..12], b"avis");

    // Should contain mdat with frame data
    let mdat_str = b"mdat";
    assert!(avif.windows(4).any(|w| w == mdat_str));

    // Frame data should be present
    assert!(avif.windows(b"frame1color".len()).any(|w| w == b"frame1color"));
    assert!(avif.windows(b"frame2color".len()).any(|w| w == b"frame2color"));

    // Parse with zenavif-parse to verify structure
    let parser = zenavif_parse::AvifParser::from_bytes(&avif).unwrap();
    let info = parser.animation_info().expect("should have animation info");
    assert_eq!(info.timescale, 1000);
    assert_eq!(info.frame_count, 2);
}

#[test]
fn serialize_with_alpha() {
    let frames = [
        AnimFrame::new(b"c1", 500).with_alpha(b"a1").with_sync(true),
        AnimFrame::new(b"c2", 500).with_alpha(b"a2"),
    ];
    let mut image = AnimatedImage::new();
    image.set_color_config(basic_av1c());
    image.set_alpha_config(mono_av1c());
    let avif = image.serialize(32, 32, &frames, b"colseq", Some(b"alphaseq"));

    assert_eq!(&avif[4..8], b"ftyp");
    assert!(avif.windows(2).any(|w| w == b"c1"));
    assert!(avif.windows(2).any(|w| w == b"a1"));
    assert!(avif.windows(2).any(|w| w == b"c2"));
    assert!(avif.windows(2).any(|w| w == b"a2"));

    let parser = zenavif_parse::AvifParser::from_bytes(&avif).unwrap();
    let info = parser.animation_info().expect("should have animation info");
    assert_eq!(info.frame_count, 2);
}

#[test]
fn frame_durations_roundtrip() {
    let frames = [
        AnimFrame::new(b"f1", 100).with_sync(true),
        AnimFrame::new(b"f2", 200),
        AnimFrame::new(b"f3", 300),
    ];
    let mut image = AnimatedImage::new();
    image.set_color_config(basic_av1c());
    let avif = image.serialize(16, 16, &frames, b"seq", None);
    let parser = zenavif_parse::AvifParser::from_bytes(&avif).unwrap();
    let info = parser.animation_info().expect("animation info");
    assert_eq!(info.frame_count, 3);
    assert_eq!(info.timescale, 1000);
}

#[test]
fn anim_chunk_offsets_point_at_frame_data() {
    let frames = [
        AnimFrame::new(b"COLOR_ONE", 40).with_alpha(b"ALPHA_ONE").with_sync(true),
        AnimFrame::new(b"COLOR_TWO", 40).with_alpha(b"ALPHA_TWO"),
    ];
    let mut image = AnimatedImage::new();
    image.set_alpha_config(mono_av1c());
    let avif = image.serialize(8, 8, &frames, b"cs", Some(b"as"));

    // both stco boxes carry the offset of their track's first frame
    let color_at = find(&avif, b"COLOR_ONE").unwrap();
    let alpha_at = find(&avif, b"ALPHA_ONE").unwrap();
    let first_stco = find(&avif, b"stco").unwrap();
    assert_eq!(be32_at(&avif, first_stco + 12) as usize, color_at);
    let second_stco = first_stco + 4 + find(&avif[first_stco + 4..], b"stco").unwrap();
    assert_eq!(be32_at(&avif, second_stco + 12) as usize, alpha_at);
    // the alpha frames follow all color frames
    assert_eq!(alpha_at, color_at + 18);
    // no placeholder is left
    assert!(find(&avif, &[0xDE, 0xAD, 0xBE, 0xEF]).is_none());
    assert!(find(&avif, &[0xDE, 0xAD, 0xBE, 0xE0]).is_none());
}

#[test]
fn anim_primary_item_is_first_frame() {
    let frames = [AnimFrame::new(b"FIRSTFRAME", 10), AnimFrame::new(b"second", 10)];
    let image = AnimatedImage::new();
    let avif = image.serialize(8, 8, &frames, b"hdr", None);
    let ctx = mp4parse::read_avif(&mut avif.as_slice(), mp4parse::ParseStrictness::Normal).unwrap();
    assert_eq!(ctx.primary_item_coded_data().unwrap(), b"FIRSTFRAME");
}

#[test]
fn anim_durations_are_run_length_encoded() {
    let frames = [
        AnimFrame::new(b"a", 100),
        AnimFrame::new(b"b", 100),
        AnimFrame::new(b"c", 250),
        AnimFrame::new(b"d", 100),
    ];
    let image = AnimatedImage::new();
    let avif = image.serialize(4, 4, &frames, b"h", None);
    let stts = find(&avif, b"stts").unwrap();
    // version/flags, then 3 runs: (2, 100), (1, 250), (1, 100)
    assert_eq!(be32_at(&avif, stts + 8), 3);
    assert_eq!(be32_at(&avif, stts + 12), 2);
    assert_eq!(be32_at(&avif, stts + 16), 100);
    assert_eq!(be32_at(&avif, stts + 20), 1);
    assert_eq!(be32_at(&avif, stts + 24), 250);
    assert_eq!(be32_at(&avif, stts + 28), 1);
    assert_eq!(be32_at(&avif, stts + 32), 100);
    // total duration in mdhd (version 1: 8 + 8 bytes of times, 4 of timescale); mvhd holds
    // the presentation duration, without end for the default loop count
    let mdhd = find(&avif, b"mdhd").unwrap();
    assert_eq!(be32_at(&avif, mdhd + 24), 1000);
    assert_eq!(&avif[mdhd + 28..mdhd + 36], &550u64.to_be_bytes());
    let mvhd = find(&avif, b"mvhd").unwrap();
    assert_eq!(be32_at(&avif, mvhd + 24), 1000);
    assert_eq!(&avif[mvhd + 28..mvhd + 36], &[0xFF; 8]);
}

#[test]
fn anim_sync_samples_are_numbered_from_one() {
    let frames = [
        AnimFrame::new(b"a", 1).with_sync(true),
        AnimFrame::new(b"b", 1),
        AnimFrame::new(b"c", 1).with_sync(true),
    ];
    let image = AnimatedImage::new();
    let avif = image.serialize(4, 4, &frames, b"h", None);
    let stss = find(&avif, b"stss").unwrap();
    assert_eq!(be32_at(&avif, stss + 8), 2);
    assert_eq!(be32_at(&avif, stss + 12), 1);
    assert_eq!(be32_at(&avif, stss + 16), 3);
}

#[test]
fn anim_alpha_needs_config_and_header() {
    let frames = [AnimFrame::new(b"c1", 10).with_alpha(b"a1")];
    // no alpha configuration: no alpha track
    let image = AnimatedImage::new();
    let avif = image.serialize(4, 4, &frames, b"h", Some(b"ah"));
    assert!(find(&avif, b"auxv").is_none());
    assert!(find(&avif, b"a1").is_none());
    // configuration but no alpha sequence header: no alpha track either
    let mut image = AnimatedImage::new();
    image.set_alpha_config(mono_av1c());
    let avif = image.serialize(4, 4, &frames, b"h", None);
    assert!(find(&avif, b"auxv").is_none());
    // both: an alpha track referencing the color track
    let avif = image.serialize(4, 4, &frames, b"h", Some(b"ah"));
    assert!(find(&avif, b"auxv").is_some());
    assert!(find(&avif, b"auxl").is_some());
    assert!(find(&avif, b"a1").is_some());
}

#[test]
fn anim_timescale_and_colr() {
    let frames = [AnimFrame::new(b"x", 3)];
    let mut image = AnimatedImage::new();
    image.set_timescale(90000).set_loop_count(2);
    let avif = image.serialize(4, 4, &frames, b"h", None);
    let mvhd = find(&avif, b"mvhd").unwrap();
    assert_eq!(be32_at(&avif, mvhd + 24), 90000);
    // the default colour information is not written
    assert!(find(&avif, b"nclx").is_none());
    let mut image = AnimatedImage::default();
    image.set_colr(avif_serialize::ColrBox {
        color_primaries: avif_serialize::constants::ColorPrimaries::Bt2020,
        transfer_characteristics: avif_serialize::constants::TransferCharacteristics::Smpte2084,
        matrix_coefficients: avif_serialize::constants::MatrixCoefficients::Bt2020Ncl,
        full_range_flag: false,
    });
    let avif = image.serialize(4, 4, &frames, b"h", None);
    assert!(find(&avif, b"nclx").is_some());
}

#[test]
fn anim_empty_frames() {
    let image = AnimatedImage::new();
    let avif = image.serialize(4, 4, &[], b"h", None);
    assert_eq!(&avif[4..8], b"ftyp");
    let mdat = find(&avif, b"mdat").unwrap();
    assert_eq!(be32_at(&avif, mdat - 4), 8);
    assert_eq!(mdat + 4, avif.len());
}

#[test]
fn anim_primary_item_location_is_filled_in() {
    let frames = [AnimFrame::new(b"FIRST", 5), AnimFrame::new(b"SECOND", 5)];
    let image = AnimatedImage::new();
    let avif = image.serialize(2, 2, &frames, b"sh", None);
    // ftyp is 36 bytes; the item location's offset field follows at 117, the length at 121
    assert_eq!(be32_at(&avif, 0), 36);
    let offset = be32_at(&avif, 117) as usize;
    assert_eq!(be32_at(&avif, 121), 5);
    assert_eq!(&avif[offset..offset + 5], b"FIRST");
    assert_eq!(&avif[offset + 5..offset + 11], b"SECOND");
    let mdat = find(&avif, b"mdat").unwrap();
    assert_eq!(offset, mdat + 4);
}

#[test]
fn anim_loop_count_is_recorded() {
    let frames = [AnimFrame::new(b"f1", 100), AnimFrame::new(b"f2", 150)];
    let infinite = AnimatedImage::new().serialize(4, 4, &frames, b"h", None);
    let mut image = AnimatedImage::new();
    image.set_loop_count(3);
    let three = image.serialize(4, 4, &frames, b"h", None);
    let mut image = AnimatedImage::new();
    image.set_loop_count(1);
    let once = image.serialize(4, 4, &frames, b"h", None);
    assert_ne!(infinite, three);
    assert_ne!(three, once);
    assert_ne!(infinite, once);
    // elst: size, type, version 1 and flags (1: repeat), one entry, one pass over the media
    for (file, flags) in [(&infinite, 1u8), (&three, 1), (&once, 0)] {
        let elst = find(file, b"elst").unwrap();
        assert_eq!(&file[elst + 4..elst + 8], &[1, 0, 0, flags]);
        assert_eq!(be32_at(file, elst + 8), 1);
        assert_eq!(&file[elst + 12..elst + 20], &250u64.to_be_bytes());
        assert_eq!(&file[elst + 20..elst + 28], &[0; 8]);
        assert_eq!(&file[elst + 28..elst + 32], &[0, 1, 0, 0]);
    }
    // the presentation: without end, three passes, one pass
    for (file, shown) in [(&infinite, u64::MAX), (&three, 750), (&once, 250)] {
        let mvhd = find(file, b"mvhd").unwrap();
        assert_eq!(&file[mvhd + 28..mvhd + 36], &shown.to_be_bytes());
        let tkhd = find(file, b"tkhd").unwrap();
        assert_eq!(&file[tkhd + 32..tkhd + 40], &shown.to_be_bytes());
    }
    let parser = zenavif_parse::AvifParser::from_bytes(&infinite).unwrap();
    let info = parser.animation_info().expect("animation info");
    assert_eq!(info.frame_count, 2);
    assert_eq!(info.loop_count, 0);
    let parser = zenavif_parse::AvifParser::from_bytes(&once).unwrap();
    assert_eq!(parser.animation_info().expect("animation info").loop_count, 1);
}

#[test]
fn anim_data_equal_to_a_placeholder_is_kept() {
    let color: &[u8] = &[0xDE, 0xAD, 0xBE, 0xEF, 0xDE, 0xAD, 0xBE, 0xE0];
    let alpha: &[u8] = &[0xDE, 0xAD, 0xBE, 0xEF];
    let frames = [AnimFrame::new(color, 0xDEAD_BEEF).with_alpha(alpha).with_sync(true)];
    let mut image = AnimatedImage::new();
    image.set_alpha_config(mono_av1c());
    let avif = image.serialize(0xDEAD_BEE0, 0xDEAD_BEEF, &frames, &[0xDE, 0xAD, 0xBE, 0xE0], Some(&[0xDE, 0xAD, 0xBE, 0xEF]));
    let mdat = find(&avif, b"mdat").unwrap();
    assert_eq!(&avif[mdat + 4..], &[color, alpha].concat()[..]);
    // the primary item and the chunk offsets point at the media data
    assert_eq!(be32_at(&avif, 117) as usize, mdat + 4);
    let first_stco = find(&avif, b"stco").unwrap();
    assert_eq!(be32_at(&avif, first_stco + 12) as usize, mdat + 4);
    let second_stco = first_stco + 4 + find(&avif[first_stco + 4..], b"stco").unwrap();
    assert_eq!(be32_at(&avif, second_stco + 12) as usize, mdat + 4 + color.len());
    // the durations and sizes stay as given
    let ispe = find(&avif, b"ispe").unwrap();
    assert_eq!(be32_at(&avif, ispe + 8), 0xDEAD_BEE0);
    assert_eq!(be32_at(&avif, ispe + 12), 0xDEAD_BEEF);
    let stts = find(&avif, b"stts").unwrap();
    assert_eq!(be32_at(&avif, stts + 16), 0xDEAD_BEEF);
}

#[test]
fn anim_timescale_reaches_every_track() {
    let frames = [
        AnimFrame::new(b"c1", 20).with_alpha(b"a1").with_sync(true),
        AnimFrame::new(b"c2", 30).with_alpha(b"a2"),
    ];
    let mut image = AnimatedImage::new();
    image.set_timescale(600).set_loop_count(2).set_alpha_config(mono_av1c());
    let avif = image.serialize(8, 8, &frames, b"h", Some(b"a"));
    let mvhd = find(&avif, b"mvhd").unwrap();
    assert_eq!(be32_at(&avif, mvhd + 24), 600);
    // played twice
    assert_eq!(&avif[mvhd + 28..mvhd + 36], &100u64.to_be_bytes());
    let first = find(&avif, b"mdhd").unwrap();
    let second = first + 4 + find(&avif[first + 4..], b"mdhd").unwrap();
    for mdhd in [first, second] {
        assert_eq!(be32_at(&avif, mdhd + 24), 600);
        assert_eq!(&avif[mdhd + 28..mdhd + 36], &50u64.to_be_bytes());
    }
    // both tracks carry the loop count
    let elst = find(&avif, b"elst").unwrap();
    assert!(find(&avif[elst + 4..], b"elst").is_some());
    let first_tkhd = find(&avif, b"tkhd").unwrap();
    let second_tkhd = first_tkhd + 4 + find(&avif[first_tkhd + 4..], b"tkhd").unwrap();
    for tkhd in [first_tkhd, second_tkhd] {
        // version 1: times, track id, reserved, then the duration
        assert_eq!(&avif[tkhd + 32..tkhd + 40], &100u64.to_be_bytes());
    }
}

#[test]
fn anim_top_level_boxes_cover_the_file() {
    let frames = [AnimFrame::new(b"one", 10).with_alpha(b"A"), AnimFrame::new(b"two", 10)];
    let mut image = AnimatedImage::new();
    image.set_alpha_config(mono_av1c());
    let avif = image.serialize(3, 5, &frames, b"h", Some(b"a"));
    let mut pos = 0usize;
    let mut types = Vec::new();
    while pos < avif.len() {
        let size = be32_at(&avif, pos) as usize;
        types.push(avif[pos + 4..pos + 8].to_vec());
        pos += size;
    }
    assert_eq!(pos, avif.len());
    assert_eq!(types, vec![b"ftyp".to_vec(), b"meta".to_vec(), b"moov".to_vec(), b"mdat".to_vec()]);
    assert_eq!(&avif[8..12], b"avis");
}
