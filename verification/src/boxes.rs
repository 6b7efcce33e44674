//! The boxes of a still AVIF file, what each one encodes to, and how it is written.

use arrayvec::ArrayVec;
use vstd::prelude::*;

use crate::bounded::{
    association_list, associations_as_slice, iloc_list, ilocs_as_slice, infe_list, infes_as_slice, ipma_list,
    ipmas_as_slice, iref_list, irefs_as_slice, properties_as_slice, properties_new, properties_try_push,
    property_list,
};
use crate::constants::{ColorPrimaries, MatrixCoefficients, TransferCharacteristics};
use vstd::seq_lib::lemma_concat_associative;
use crate::writer::{
    be16, be16_value, be32, be32_value, lemma_be16_roundtrip, lemma_be32_roundtrip, begin_box, end_box, full_box, full_box_header, lemma_close_box, lemma_subrange_left,
    lemma_subrange_right, mp4_box, write_bytes,
    write_fullbox, write_u16, write_u32, write_zeros, zeros,
};

verus! {

// Four-character codes, as big-endian 32-bit values.
pub const FTYP: u32 = 0x6674_7970;
pub const AVIF: u32 = 0x6176_6966;
pub const MIF1: u32 = 0x6d69_6631;
pub const MIAF: u32 = 0x6d69_6166;
pub const META: u32 = 0x6d65_7461;
pub const HDLR: u32 = 0x6864_6c72;
pub const PICT: u32 = 0x7069_6374;
pub const PITM: u32 = 0x7069_746d;
pub const ILOC: u32 = 0x696c_6f63;
pub const IINF: u32 = 0x6969_6e66;
pub const INFE: u32 = 0x696e_6665;
pub const AV01: u32 = 0x6176_3031;
pub const IPRP: u32 = 0x6970_7270;
pub const IPCO: u32 = 0x6970_636f;
pub const IPMA: u32 = 0x6970_6d61;
pub const ISPE: u32 = 0x6973_7065;
pub const AV1C: u32 = 0x6176_3143;
pub const PIXI: u32 = 0x7069_7869;
pub const COLR: u32 = 0x636f_6c72;
pub const NCLX: u32 = 0x6e63_6c78;
pub const PROF: u32 = 0x7072_6f66;
pub const CLLI: u32 = 0x636c_6c69;
pub const MDCV: u32 = 0x6d64_6376;
pub const IROT: u32 = 0x6972_6f74;
pub const IMIR: u32 = 0x696d_6972;
pub const CLAP: u32 = 0x636c_6170;
pub const PASP: u32 = 0x7061_7370;
pub const AUXC: u32 = 0x6175_7843;
pub const IREF: u32 = 0x6972_6566;
pub const AUXL: u32 = 0x6175_786c;
pub const PREM: u32 = 0x7072_656d;
pub const CDSC: u32 = 0x6364_7363;
pub const DIMG: u32 = 0x6469_6d67;
pub const GRID: u32 = 0x6772_6964;
pub const EXIF: u32 = 0x4578_6966;
pub const MIME: u32 = 0x6d69_6d65;
pub const MDAT: u32 = 0x6d64_6174;

/// A four-character code, held as its big-endian value.
#[derive(Debug, Clone, Copy)]
pub struct FourCC(pub u32);

/// AV1 codec configuration (`av1C`).
#[derive(Debug, Clone, Copy)]
pub struct Av1CBox {
    pub seq_profile: u8,
    pub seq_level_idx_0: u8,
    pub seq_tier_0: bool,
    pub high_bitdepth: bool,
    pub twelve_bit: bool,
    pub monochrome: bool,
    pub chroma_subsampling_x: bool,
    pub chroma_subsampling_y: bool,
    pub chroma_sample_position: u8,
}

/// The configuration that `Av1CBox::default` gives: profile 0, level 3.3 (index 31),
/// main tier, 8 bits, 4:2:0.
pub open spec fn default_av1c() -> Av1CBox {
    Av1CBox {
        seq_profile: 0,
        seq_level_idx_0: 31,
        seq_tier_0: false,
        high_bitdepth: false,
        twelve_bit: false,
        monochrome: false,
        chroma_subsampling_x: true,
        chroma_subsampling_y: true,
        chroma_sample_position: 0,
    }
}

impl Default for Av1CBox {
    fn default() -> (r: Self)
        ensures
            r == default_av1c(),
    {
        Av1CBox {
            seq_profile: 0,
            seq_level_idx_0: 31,
            seq_tier_0: false,
            high_bitdepth: false,
            twelve_bit: false,
            monochrome: false,
            chroma_subsampling_x: true,
            chroma_subsampling_y: true,
            chroma_sample_position: 0,
        }
    }
}

/// CICP colour information (`colr` with `nclx`).
#[derive(Debug, Clone, Copy, PartialEq, Eq, Structural)]
pub struct ColrBox {
    pub color_primaries: ColorPrimaries,
    pub transfer_characteristics: TransferCharacteristics,
    pub matrix_coefficients: MatrixCoefficients,
    pub full_range_flag: bool,
}

/// The default colour information: BT.709 primaries, sRGB transfer, BT.601 matrix, full range.
pub open spec fn default_colr() -> ColrBox {
    ColrBox {
        color_primaries: ColorPrimaries::Bt709,
        transfer_characteristics: TransferCharacteristics::Srgb,
        matrix_coefficients: MatrixCoefficients::Bt601,
        full_range_flag: true,
    }
}

impl Default for ColrBox {
    fn default() -> (r: Self)
        ensures
            r == default_colr(),
    {
        ColrBox {
            color_primaries: ColorPrimaries::Bt709,
            transfer_characteristics: TransferCharacteristics::Srgb,
            matrix_coefficients: MatrixCoefficients::Bt601,
            full_range_flag: true,
        }
    }
}

/// An embedded ICC profile (`colr` with `prof`).
#[derive(Debug, Clone)]
pub struct ColrIccBox {
    pub icc_data: Vec<u8>,
}

/// Content light level information (`clli`), in cd/m².
#[derive(Debug, Clone, Copy)]
pub struct ClliBox {
    pub max_content_light_level: u16,
    pub max_pic_average_light_level: u16,
}

/// Mastering display colour volume (`mdcv`).
#[derive(Debug, Clone, Copy)]
pub struct MdcvBox {
    /// Display primaries (green, blue, red) in CIE 1931 xy × 50000.
    pub primaries: [(u16, u16); 3],
    pub white_point: (u16, u16),
    /// In cd/m² × 10000.
    pub max_luminance: u32,
    pub min_luminance: u32,
}

/// Image rotation (`irot`), counter-clockwise in steps of 90°.
#[derive(Debug, Clone, Copy)]
pub struct IrotBox {
    pub angle: u8,
}

/// Image mirroring (`imir`).
#[derive(Debug, Clone, Copy)]
pub struct ImirBox {
    pub axis: u8,
}

/// Clean aperture (`clap`): a crop rectangle given by rationals.
#[derive(Debug, Clone, Copy)]
pub struct ClapBox {
    pub width_n: u32,
    pub width_d: u32,
    pub height_n: u32,
    pub height_d: u32,
    pub horiz_off_n: i32,
    pub horiz_off_d: u32,
    pub vert_off_n: i32,
    pub vert_off_d: u32,
}

/// Pixel aspect ratio (`pasp`).
#[derive(Debug, Clone, Copy)]
pub struct PaspBox {
    pub h_spacing: u32,
    pub v_spacing: u32,
}

/// Image spatial extent (`ispe`).
#[derive(Debug, Clone, Copy, PartialEq, Eq, Structural)]
pub struct IspeBox {
    pub width: u32,
    pub height: u32,
}

/// Pixel information (`pixi`): the channel count and the bit depth of every channel.
#[derive(Debug, Clone, Copy)]
pub struct PixiBox {
    pub channels: u8,
    pub depth: u8,
}

/// Auxiliary type (`auxC`) declaring an alpha plane.
#[derive(Debug, Clone, Copy)]
pub struct AuxCBox {}

/// One item property.
#[derive(Debug, Clone)]
pub enum IpcoProp {
    Av1C(Av1CBox),
    Pixi(PixiBox),
    Ispe(IspeBox),
    AuxC(AuxCBox),
    Colr(ColrBox),
    ColrIcc(ColrIccBox),
    Clli(ClliBox),
    Mdcv(MdcvBox),
    Irot(IrotBox),
    Imir(ImirBox),
    Clap(ClapBox),
    Pasp(PaspBox),
}

// ─── Encodings ──────────────────────────────────────────────────────

/// A boolean as a single bit.
pub open spec fn bit(b: bool) -> u8 {
    if b { 1u8 } else { 0u8 }
}

/// The second configuration byte of `av1C`: profile and level.
pub open spec fn av1c_profile_byte(c: Av1CBox) -> u8 {
    (c.seq_profile << 5u8) | c.seq_level_idx_0
}

/// The third configuration byte of `av1C`: tier, depth, monochrome, subsampling, sample position.
pub open spec fn av1c_flags_byte(c: Av1CBox) -> u8 {
    (bit(c.seq_tier_0) << 7u8) | (bit(c.high_bitdepth) << 6u8) | (bit(c.twelve_bit) << 5u8) | (bit(
        c.monochrome,
    ) << 4u8) | (bit(c.chroma_subsampling_x) << 3u8) | (bit(c.chroma_subsampling_y) << 2u8)
        | c.chroma_sample_position
}

/// `av1C`: marker and version, the configuration, no presentation delay, then configuration OBUs.
pub open spec fn av1c_bytes(c: Av1CBox, config_obus: Seq<u8>) -> Seq<u8> {
    mp4_box(AV1C, seq![0x81u8, av1c_profile_byte(c), av1c_flags_byte(c), 0u8] + config_obus)
}

/// A byte repeated `n` times.
pub open spec fn repeat(n: nat, b: u8) -> Seq<u8> {
    Seq::new(n, |i: int| b)
}

/// `pixi`: the channel count, then the depth of each channel.
pub open spec fn pixi_bytes(p: PixiBox) -> Seq<u8> {
    full_box(PIXI, 0, 0, seq![p.channels] + repeat(p.channels as nat, p.depth))
}

/// `ispe`: width and height.
pub open spec fn ispe_bytes(b: IspeBox) -> Seq<u8> {
    full_box(ISPE, 0, 0, be32(b.width) + be32(b.height))
}

/// "urn:mpeg:mpegB:cicp:systems:auxiliary:alpha"
pub open spec fn alpha_urn() -> Seq<u8> {
    seq![
        117u8, 114, 110, 58, 109, 112, 101, 103, 58, 109, 112, 101, 103, 66, 58, 99, 105, 99, 112,
        58, 115, 121, 115, 116, 101, 109, 115, 58, 97, 117, 120, 105, 108, 105, 97, 114, 121, 58,
        97, 108, 112, 104, 97,
    ]
}

/// `auxC` declaring an alpha plane, its URN null-terminated.
pub open spec fn auxc_bytes() -> Seq<u8> {
    full_box(AUXC, 0, 0, alpha_urn() + seq![0u8])
}

/// `colr` with `nclx`: primaries, transfer, matrix, then the full-range bit.
pub open spec fn colr_nclx_bytes(c: ColrBox) -> Seq<u8> {
    mp4_box(
        COLR,
        be32(NCLX) + be16(c.color_primaries.code_point()) + be16(
            c.transfer_characteristics.code_point(),
        ) + be16(c.matrix_coefficients.code_point()) + seq![
            if c.full_range_flag {
                0x80u8
            } else {
                0u8
            },
        ],
    )
}

/// `colr` with `prof`: the ICC profile.
pub open spec fn colr_icc_bytes(icc: Seq<u8>) -> Seq<u8> {
    mp4_box(COLR, be32(PROF) + icc)
}

/// `clli`: MaxCLL and MaxFALL.
pub open spec fn clli_bytes(c: ClliBox) -> Seq<u8> {
    mp4_box(CLLI, be16(c.max_content_light_level) + be16(c.max_pic_average_light_level))
}

/// `mdcv`: display primaries, white point, maximum and minimum luminance.
pub open spec fn mdcv_bytes(m: MdcvBox) -> Seq<u8> {
    mp4_box(
        MDCV,
        be16(m.primaries@[0].0) + be16(m.primaries@[0].1) + be16(m.primaries@[1].0) + be16(
            m.primaries@[1].1,
        ) + be16(m.primaries@[2].0) + be16(m.primaries@[2].1) + be16(m.white_point.0) + be16(
            m.white_point.1,
        ) + be32(m.max_luminance) + be32(m.min_luminance),
    )
}

/// `irot`: the rotation code, two bits.
pub open spec fn irot_bytes(b: IrotBox) -> Seq<u8> {
    mp4_box(IROT, seq![b.angle & 3u8])
}

/// `imir`: the mirror axis, one bit.
pub open spec fn imir_bytes(b: ImirBox) -> Seq<u8> {
    mp4_box(IMIR, seq![b.axis & 1u8])
}

/// `clap`: width, height and offsets, each as numerator and denominator.
pub open spec fn clap_bytes(c: ClapBox) -> Seq<u8> {
    mp4_box(
        CLAP,
        be32(c.width_n) + be32(c.width_d) + be32(c.height_n) + be32(c.height_d) + be32(
            c.horiz_off_n as u32,
        ) + be32(c.horiz_off_d) + be32(c.vert_off_n as u32) + be32(c.vert_off_d),
    )
}

/// `pasp`: horizontal and vertical spacing.
pub open spec fn pasp_bytes(p: PaspBox) -> Seq<u8> {
    mp4_box(PASP, be32(p.h_spacing) + be32(p.v_spacing))
}

/// What one property box encodes to.
#[verifier::opaque]
pub open spec fn prop_bytes(p: IpcoProp) -> Seq<u8> {
    match p {
        IpcoProp::Av1C(c) => av1c_bytes(c, Seq::empty()),
        IpcoProp::Pixi(b) => pixi_bytes(b),
        IpcoProp::Ispe(b) => ispe_bytes(b),
        IpcoProp::AuxC(_) => auxc_bytes(),
        IpcoProp::Colr(c) => colr_nclx_bytes(c),
        IpcoProp::ColrIcc(c) => colr_icc_bytes(c.icc_data@),
        IpcoProp::Clli(c) => clli_bytes(c),
        IpcoProp::Mdcv(m) => mdcv_bytes(m),
        IpcoProp::Irot(b) => irot_bytes(b),
        IpcoProp::Imir(b) => imir_bytes(b),
        IpcoProp::Clap(c) => clap_bytes(c),
        IpcoProp::Pasp(p) => pasp_bytes(p),
    }
}

/// The property boxes of a list, one after another.
pub open spec fn props_bytes(ps: Seq<IpcoProp>) -> Seq<u8>
    decreases ps.len(),
{
    if ps.len() == 0 {
        Seq::empty()
    } else {
        props_bytes(ps.drop_last()) + prop_bytes(ps.last())
    }
}

/// The property container.
pub open spec fn ipco_bytes(ps: Seq<IpcoProp>) -> Seq<u8> {
    mp4_box(IPCO, props_bytes(ps))
}

/// The first `ispe` property of a list, if any.
pub open spec fn find_ispe(ps: Seq<IpcoProp>) -> Option<IspeBox>
    decreases ps.len(),
{
    if ps.len() == 0 {
        None
    } else {
        match ps[0] {
            IpcoProp::Ispe(b) => Some(b),
            _ => find_ispe(ps.drop_first()),
        }
    }
}

// ─── Writers for properties ─────────────────────────────────────────

fn bool_bit(b: bool) -> (r: u8)
    ensures
        r == bit(b),
{
    if b {
        1
    } else {
        0
    }
}

/// Writes `av1C` followed by `config_obus` inside it.
pub fn write_av1c_box(out: &mut Vec<u8>, av1c: &Av1CBox, config_obus: &[u8])
    ensures
        final(out)@ == old(out)@ + av1c_bytes(*av1c, config_obus@),
{
    let ghost pre = old(out)@;
    let pos = begin_box(out, AV1C);
    out.push(0x81);
    let byte1 = (av1c.seq_profile << 5u8) | av1c.seq_level_idx_0;
    let byte2 = (bool_bit(av1c.seq_tier_0) << 7u8) | (bool_bit(av1c.high_bitdepth) << 6u8) | (
    bool_bit(av1c.twelve_bit) << 5u8) | (bool_bit(av1c.monochrome) << 4u8) | (bool_bit(
        av1c.chroma_subsampling_x,
    ) << 3u8) | (bool_bit(av1c.chroma_subsampling_y) << 2u8) | av1c.chroma_sample_position;
    out.push(byte1);
    out.push(byte2);
    out.push(0x00);
    write_bytes(out, config_obus);
    let ghost payload = seq![0x81u8, av1c_profile_byte(*av1c), av1c_flags_byte(*av1c), 0u8]
        + config_obus@;
    assert(out@ =~= pre + be32(0) + be32(AV1C) + payload);
    proof {
        lemma_close_box(pre, AV1C, payload);
    }
    end_box(out, pos);
}

/// Writes `pixi`.
pub fn write_pixi(out: &mut Vec<u8>, p: &PixiBox)
    ensures
        final(out)@ == old(out)@ + pixi_bytes(*p),
{
    let ghost pre = old(out)@;
    let pos = begin_box(out, PIXI);
    write_fullbox(out, 0, 0);
    out.push(p.channels);
    let ghost start = out@;
    let mut i: u8 = 0;
    while i < p.channels
        invariant
            i <= p.channels,
            out@ == start + repeat(i as nat, p.depth),
        decreases p.channels - i,
    {
        out.push(p.depth);
        i = i + 1;
        assert(out@ =~= start + repeat(i as nat, p.depth));
    }
    let ghost payload = full_box_header(0, 0) + (seq![p.channels] + repeat(
        p.channels as nat,
        p.depth,
    ));
    assert(out@ =~= pre + be32(0) + be32(PIXI) + payload);
    proof {
        lemma_close_box(pre, PIXI, payload);
    }
    end_box(out, pos);
}

/// Writes `ispe`.
pub fn write_ispe(out: &mut Vec<u8>, b: &IspeBox)
    ensures
        final(out)@ == old(out)@ + ispe_bytes(*b),
{
    let ghost pre = old(out)@;
    let pos = begin_box(out, ISPE);
    write_fullbox(out, 0, 0);
    write_u32(out, b.width);
    write_u32(out, b.height);
    let ghost payload = full_box_header(0, 0) + (be32(b.width) + be32(b.height));
    assert(out@ =~= pre + be32(0) + be32(ISPE) + payload);
    proof {
        lemma_close_box(pre, ISPE, payload);
    }
    end_box(out, pos);
}

fn write_alpha_urn(out: &mut Vec<u8>)
    ensures
        final(out)@ == old(out)@ + alpha_urn(),
{
    let urn: [u8; 43] = [
        117, 114, 110, 58, 109, 112, 101, 103, 58, 109, 112, 101, 103, 66, 58, 99, 105, 99, 112,
        58, 115, 121, 115, 116, 101, 109, 115, 58, 97, 117, 120, 105, 108, 105, 97, 114, 121, 58,
        97, 108, 112, 104, 97,
    ];
    write_bytes(out, &urn);
    assert(urn@ =~= alpha_urn());
}

/// Writes `auxC` for an alpha plane.
pub fn write_auxc(out: &mut Vec<u8>)
    ensures
        final(out)@ == old(out)@ + auxc_bytes(),
{
    let ghost pre = old(out)@;
    let pos = begin_box(out, AUXC);
    write_fullbox(out, 0, 0);
    write_alpha_urn(out);
    out.push(0);
    let ghost payload = full_box_header(0, 0) + (alpha_urn() + seq![0u8]);
    assert(out@ =~= pre + be32(0) + be32(AUXC) + payload);
    proof {
        lemma_close_box(pre, AUXC, payload);
    }
    end_box(out, pos);
}

/// Writes `colr` with `nclx`.
pub fn write_colr_nclx(out: &mut Vec<u8>, colr: &ColrBox)
    ensures
        final(out)@ == old(out)@ + colr_nclx_bytes(*colr),
{
    let ghost pre = old(out)@;
    let pos = begin_box(out, COLR);
    write_u32(out, NCLX);
    write_u16(out, colr.color_primaries.code());
    write_u16(out, colr.transfer_characteristics.code());
    write_u16(out, colr.matrix_coefficients.code());
    out.push(
        if colr.full_range_flag {
            0x80
        } else {
            0
        },
    );
    let ghost payload = be32(NCLX) + be16(colr.color_primaries.code_point()) + be16(
        colr.transfer_characteristics.code_point(),
    ) + be16(colr.matrix_coefficients.code_point()) + seq![
        if colr.full_range_flag {
            0x80u8
        } else {
            0u8
        },
    ];
    assert(out@ =~= pre + be32(0) + be32(COLR) + payload);
    proof {
        lemma_close_box(pre, COLR, payload);
    }
    end_box(out, pos);
}

/// Writes `colr` with `prof`.
pub fn write_colr_icc(out: &mut Vec<u8>, icc: &[u8])
    ensures
        final(out)@ == old(out)@ + colr_icc_bytes(icc@),
{
    let ghost pre = old(out)@;
    let pos = begin_box(out, COLR);
    write_u32(out, PROF);
    write_bytes(out, icc);
    let ghost payload = be32(PROF) + icc@;
    assert(out@ =~= pre + be32(0) + be32(COLR) + payload);
    proof {
        lemma_close_box(pre, COLR, payload);
    }
    end_box(out, pos);
}

/// Writes `clli`.
pub fn write_clli(out: &mut Vec<u8>, clli: &ClliBox)
    ensures
        final(out)@ == old(out)@ + clli_bytes(*clli),
{
    let ghost pre = old(out)@;
    let pos = begin_box(out, CLLI);
    write_u16(out, clli.max_content_light_level);
    write_u16(out, clli.max_pic_average_light_level);
    let ghost payload = be16(clli.max_content_light_level) + be16(
        clli.max_pic_average_light_level,
    );
    assert(out@ =~= pre + be32(0) + be32(CLLI) + payload);
    proof {
        lemma_close_box(pre, CLLI, payload);
    }
    end_box(out, pos);
}

/// Writes `mdcv`.
pub fn write_mdcv(out: &mut Vec<u8>, mdcv: &MdcvBox)
    ensures
        final(out)@ == old(out)@ + mdcv_bytes(*mdcv),
{
    let ghost pre = old(out)@;
    let pos = begin_box(out, MDCV);
    write_u16(out, mdcv.primaries[0].0);
    write_u16(out, mdcv.primaries[0].1);
    write_u16(out, mdcv.primaries[1].0);
    write_u16(out, mdcv.primaries[1].1);
    write_u16(out, mdcv.primaries[2].0);
    write_u16(out, mdcv.primaries[2].1);
    write_u16(out, mdcv.white_point.0);
    write_u16(out, mdcv.white_point.1);
    write_u32(out, mdcv.max_luminance);
    write_u32(out, mdcv.min_luminance);
    let m = *mdcv;
    let ghost payload = be16(m.primaries@[0].0) + be16(m.primaries@[0].1) + be16(
        m.primaries@[1].0,
    ) + be16(m.primaries@[1].1) + be16(m.primaries@[2].0) + be16(m.primaries@[2].1) + be16(
        m.white_point.0,
    ) + be16(m.white_point.1) + be32(m.max_luminance) + be32(m.min_luminance);
    assert(out@ =~= pre + be32(0) + be32(MDCV) + payload);
    proof {
        lemma_close_box(pre, MDCV, payload);
    }
    end_box(out, pos);
}

/// Writes `irot`.
pub fn write_irot(out: &mut Vec<u8>, b: &IrotBox)
    ensures
        final(out)@ == old(out)@ + irot_bytes(*b),
{
    let ghost pre = old(out)@;
    let pos = begin_box(out, IROT);
    out.push(b.angle & 3u8);
    let ghost payload = seq![b.angle & 3u8];
    assert(out@ =~= pre + be32(0) + be32(IROT) + payload);
    proof {
        lemma_close_box(pre, IROT, payload);
    }
    end_box(out, pos);
}

/// Writes `imir`.
pub fn write_imir(out: &mut Vec<u8>, b: &ImirBox)
    ensures
        final(out)@ == old(out)@ + imir_bytes(*b),
{
    let ghost pre = old(out)@;
    let pos = begin_box(out, IMIR);
    out.push(b.axis & 1u8);
    let ghost payload = seq![b.axis & 1u8];
    assert(out@ =~= pre + be32(0) + be32(IMIR) + payload);
    proof {
        lemma_close_box(pre, IMIR, payload);
    }
    end_box(out, pos);
}

/// Writes `clap`.
pub fn write_clap(out: &mut Vec<u8>, c: &ClapBox)
    ensures
        final(out)@ == old(out)@ + clap_bytes(*c),
{
    let ghost pre = old(out)@;
    let pos = begin_box(out, CLAP);
    write_u32(out, c.width_n);
    write_u32(out, c.width_d);
    write_u32(out, c.height_n);
    write_u32(out, c.height_d);
    write_u32(out, c.horiz_off_n as u32);
    write_u32(out, c.horiz_off_d);
    write_u32(out, c.vert_off_n as u32);
    write_u32(out, c.vert_off_d);
    let ghost payload = be32(c.width_n) + be32(c.width_d) + be32(c.height_n) + be32(c.height_d)
        + be32(c.horiz_off_n as u32) + be32(c.horiz_off_d) + be32(c.vert_off_n as u32) + be32(
        c.vert_off_d,
    );
    assert(out@ =~= pre + be32(0) + be32(CLAP) + payload);
    proof {
        lemma_close_box(pre, CLAP, payload);
    }
    end_box(out, pos);
}

/// Writes `pasp`.
pub fn write_pasp(out: &mut Vec<u8>, p: &PaspBox)
    ensures
        final(out)@ == old(out)@ + pasp_bytes(*p),
{
    let ghost pre = old(out)@;
    let pos = begin_box(out, PASP);
    write_u32(out, p.h_spacing);
    write_u32(out, p.v_spacing);
    let ghost payload = be32(p.h_spacing) + be32(p.v_spacing);
    assert(out@ =~= pre + be32(0) + be32(PASP) + payload);
    proof {
        lemma_close_box(pre, PASP, payload);
    }
    end_box(out, pos);
}

/// Writes one property box.
pub fn write_prop(out: &mut Vec<u8>, p: &IpcoProp)
    ensures
        final(out)@ == old(out)@ + prop_bytes(*p),
{
    reveal(prop_bytes);
    match p {
        IpcoProp::Av1C(c) => write_av1c_box(out, c, &[]),
        IpcoProp::Pixi(b) => write_pixi(out, b),
        IpcoProp::Ispe(b) => write_ispe(out, b),
        IpcoProp::AuxC(_) => write_auxc(out),
        IpcoProp::Colr(c) => write_colr_nclx(out, c),
        IpcoProp::ColrIcc(c) => write_colr_icc(out, c.icc_data.as_slice()),
        IpcoProp::Clli(c) => write_clli(out, c),
        IpcoProp::Mdcv(m) => write_mdcv(out, m),
        IpcoProp::Irot(b) => write_irot(out, b),
        IpcoProp::Imir(b) => write_imir(out, b),
        IpcoProp::Clap(c) => write_clap(out, c),
        IpcoProp::Pasp(b) => write_pasp(out, b),
    }
}


// ─── The property container ─────────────────────────────────────────

/// The item property container (`ipco`): at most 16 properties, numbered from 1.
pub struct IpcoBox {
    props: ArrayVec<IpcoProp, 16>,
}

impl View for IpcoBox {
    type V = Seq<IpcoProp>;

    closed spec fn view(&self) -> Seq<IpcoProp> {
        property_list(self.props)
    }
}

impl IpcoBox {
    /// An empty container.
    pub fn new() -> (r: Self)
        ensures
            r@ == Seq::<IpcoProp>::empty(),
    {
        IpcoBox { props: properties_new() }
    }

    /// Adds a property and returns its 1-based index, or `None` when the container is full.
    pub fn push(&mut self, prop: IpcoProp) -> (r: Option<u8>)
        ensures
            old(self)@.len() < 16 ==> r == Some((old(self)@.len() + 1) as u8) && final(self)@
                == old(self)@.push(prop),
            old(self)@.len() >= 16 ==> r is None && final(self)@ == old(self)@,
    {
        if properties_try_push(&mut self.props, prop) {
            let n = properties_as_slice(&self.props).len();
            Some(n as u8)
        } else {
            None
        }
    }

    /// The properties held, at most 16.
    pub fn as_slice(&self) -> (r: &[IpcoProp])
        ensures
            r@ == self@,
            r@.len() <= 16,
    {
        properties_as_slice(&self.props)
    }

    /// The first image-extent property, if any.
    pub fn ispe(&self) -> (r: Option<IspeBox>)
        ensures
            r == find_ispe(self@),
    {
        let props = self.as_slice();
        let mut i: usize = 0;
        assert(self@.skip(0) =~= self@);
        while i < props.len()
            invariant
                i <= props@.len(),
                props@ == self@,
                find_ispe(self@) == find_ispe(self@.skip(i as int)),
            decreases props@.len() - i,
        {
            match &props[i] {
                IpcoProp::Ispe(b) => {
                    return Some(*b);
                },
                _ => {},
            }
            assert(self@.skip(i as int).drop_first() =~= self@.skip(i + 1));
            i = i + 1;
        }
        None
    }

    /// Writes the `ipco` box.
    pub fn write(&self, out: &mut Vec<u8>)
        ensures
            final(out)@ == old(out)@ + ipco_bytes(self@),
    {
        let ghost pre = old(out)@;
        let pos = begin_box(out, IPCO);
        let ghost start = out@;
        let props = self.as_slice();
        for i in 0..props.len()
            invariant
                props@ == self@,
                out@ == start + props_bytes(self@.take(i as int)),
        {
            write_prop(out, &props[i]);
            assert(self@.take(i + 1).drop_last() =~= self@.take(i as int));
            assert(out@ =~= start + props_bytes(self@.take(i + 1)));
        }
        assert(self@.take(props@.len() as int) =~= self@);
        assert(out@ =~= pre + be32(0) + be32(IPCO) + props_bytes(self@));
        proof {
            lemma_close_box(pre, IPCO, props_bytes(self@));
        }
        end_box(out, pos);
    }
}

// ─── Items ──────────────────────────────────────────────────────────

/// An item (`infe`): its id, its type and, for `mime` items, its content type.
#[derive(Debug)]
pub struct InfeBox {
    pub id: u16,
    pub typ: FourCC,
    pub content_type: Vec<u8>,
}

/// What an item declaration carries: id, type, content type.
pub type InfeView = (u16, u32, Seq<u8>);

/// What an item declaration carries.
pub open spec fn infe_view(i: InfeBox) -> InfeView {
    (i.id, i.typ.0, i.content_type@)
}

/// The content type, null-terminated, or nothing when there is none.
pub open spec fn content_type_bytes(ct: Seq<u8>) -> Seq<u8> {
    if ct.len() == 0 {
        Seq::empty()
    } else {
        ct + seq![0u8]
    }
}

/// `infe` version 2: id, protection index 0, type, empty name, content type.
pub open spec fn infe_bytes(i: InfeView) -> Seq<u8> {
    full_box(INFE, 2, 0, be16(i.0) + be16(0) + be32(i.1) + seq![0u8] + content_type_bytes(i.2))
}

/// The item declarations, one after another.
pub open spec fn infes_bytes(items: Seq<InfeView>) -> Seq<u8>
    decreases items.len(),
{
    if items.len() == 0 {
        Seq::empty()
    } else {
        infes_bytes(items.drop_last()) + infe_bytes(items.last())
    }
}

/// The item information box (`iinf`).
pub open spec fn iinf_bytes(items: Seq<InfeView>) -> Seq<u8> {
    full_box(IINF, 0, 0, be16(items.len() as u16) + infes_bytes(items))
}

/// Writes one item declaration.
pub fn write_infe(out: &mut Vec<u8>, item: &InfeBox)
    ensures
        final(out)@ == old(out)@ + infe_bytes(infe_view(*item)),
{
    let ghost pre = old(out)@;
    let pos = begin_box(out, INFE);
    write_fullbox(out, 2, 0);
    write_u16(out, item.id);
    write_u16(out, 0);
    write_u32(out, item.typ.0);
    out.push(0);
    if item.content_type.len() > 0 {
        write_bytes(out, item.content_type.as_slice());
        out.push(0);
    }
    let ghost payload = full_box_header(2, 0) + (be16(item.id) + be16(0) + be32(item.typ.0) + seq![
        0u8,
    ] + content_type_bytes(item.content_type@));
    assert(out@ =~= pre + be32(0) + be32(INFE) + payload);
    proof {
        lemma_close_box(pre, INFE, payload);
    }
    end_box(out, pos);
}

/// Writes the `iinf` box declaring `items`.
pub fn write_iinf(out: &mut Vec<u8>, items: &[InfeBox])
    ensures
        final(out)@ == old(out)@ + iinf_bytes(items@.map_values(|i: InfeBox| infe_view(i))),
{
    let ghost views = items@.map_values(|i: InfeBox| infe_view(i));
    let ghost pre = old(out)@;
    let pos = begin_box(out, IINF);
    write_fullbox(out, 0, 0);
    write_u16(out, items.len() as u16);
    let ghost start = out@;
    for i in 0..items.len()
        invariant
            views == items@.map_values(|i: InfeBox| infe_view(i)),
            out@ == start + infes_bytes(views.take(i as int)),
    {
        write_infe(out, &items[i]);
        assert(views.take(i + 1).drop_last() =~= views.take(i as int));
        assert(out@ =~= start + infes_bytes(views.take(i + 1)));
    }
    assert(views.take(items@.len() as int) =~= views);
    let ghost payload = full_box_header(0, 0) + (be16(views.len() as u16) + infes_bytes(views));
    assert(out@ =~= pre + be32(0) + be32(IINF) + payload);
    proof {
        lemma_close_box(pre, IINF, payload);
    }
    end_box(out, pos);
}

// ─── Item locations and data ────────────────────────────────────────

/// One extent of an item's data.
#[derive(Debug, Clone, Copy)]
pub struct IlocExtent<'data> {
    pub data: &'data [u8],
}

/// The location of an item: one extent in the media data box.
#[derive(Debug, Clone, Copy)]
pub struct IlocItem<'data> {
    pub id: u16,
    pub extents: [IlocExtent<'data>; 1],
}

/// An item's id and its data.
pub type IlocView = (u16, Seq<u8>);

/// An item's id and its data.
pub open spec fn iloc_view(it: IlocItem) -> IlocView {
    (it.id, it.extents@[0].data@)
}

/// The data of the items, one after another, as the media data box holds it.
pub open spec fn data_concat(its: Seq<IlocView>) -> Seq<u8>
    decreases its.len(),
{
    if its.len() == 0 {
        Seq::empty()
    } else {
        data_concat(its.drop_last()) + its.last().1
    }
}

/// Where the data of item `k` starts, counted from the start of the media data payload.
pub open spec fn data_offset(its: Seq<IlocView>, k: int) -> nat {
    data_concat(its.take(k)).len()
}

/// `iloc` entry: id, data reference 0, one extent with 32-bit offset and length.
pub open spec fn iloc_entry_bytes(id: u16, offset: u32, len: u32) -> Seq<u8> {
    be16(id) + be16(0) + be16(1) + be32(offset) + be32(len)
}

/// The entries of the items, the data of each placed at `base` plus the data before it.
pub open spec fn iloc_entries(its: Seq<IlocView>, base: int) -> Seq<u8>
    decreases its.len(),
{
    if its.len() == 0 {
        Seq::empty()
    } else {
        let init = its.drop_last();
        iloc_entries(init, base) + iloc_entry_bytes(
            its.last().0,
            (base + data_concat(init).len()) as u32,
            its.last().1.len() as u32,
        )
    }
}

/// The item location box (`iloc`), version 0, 4-byte offsets and lengths.
pub open spec fn iloc_bytes(its: Seq<IlocView>, base: int) -> Seq<u8> {
    full_box(ILOC, 0, 0, seq![0x44u8, 0u8] + be16(its.len() as u16) + iloc_entries(its, base))
}

/// The media data box (`mdat`).
pub open spec fn mdat_bytes(its: Seq<IlocView>) -> Seq<u8> {
    mp4_box(MDAT, data_concat(its))
}

/// Every `iloc` entry takes 14 bytes.
pub proof fn lemma_iloc_entries_len(its: Seq<IlocView>, base: int)
    ensures
        iloc_entries(its, base).len() == 14 * its.len(),
    decreases its.len(),
{
    if its.len() > 0 {
        lemma_iloc_entries_len(its.drop_last(), base);
    }
}

/// The data of a prefix of the items is a prefix of the data of all of them.
pub proof fn lemma_data_prefix(its: Seq<IlocView>, k: int)
    requires
        0 <= k <= its.len(),
    ensures
        data_concat(its.take(k)).len() <= data_concat(its).len(),
        data_concat(its).subrange(0, data_concat(its.take(k)).len() as int) == data_concat(
            its.take(k),
        ),
    decreases its.len(),
{
    if k == its.len() {
        assert(its.take(k) =~= its);
        assert(data_concat(its).subrange(0, data_concat(its).len() as int) =~= data_concat(its));
    } else {
        let init = its.drop_last();
        assert(its.take(k) =~= init.take(k));
        lemma_data_prefix(init, k);
        let a = data_concat(init);
        let p = data_concat(init.take(k));
        assert((a + its.last().1).subrange(0, p.len() as int) =~= a.subrange(0, p.len() as int));
    }
}

/// The data of item `k` lies in the media data payload at its offset.
pub proof fn lemma_item_data_at_offset(its: Seq<IlocView>, k: int)
    requires
        0 <= k < its.len(),
    ensures
        data_offset(its, k) + its[k].1.len() <= data_concat(its).len(),
        data_concat(its).subrange(
            data_offset(its, k) as int,
            (data_offset(its, k) + its[k].1.len()) as int,
        ) == its[k].1,
{
    lemma_data_prefix(its, k + 1);
    assert(its.take(k + 1).drop_last() =~= its.take(k));
    let before = data_concat(its.take(k));
    let upto = data_concat(its.take(k + 1));
    assert(upto == before + its[k].1);
    let whole = data_concat(its);
    assert(whole.subrange(0, upto.len() as int) == upto);
    assert(whole.subrange(before.len() as int, upto.len() as int) =~= upto.subrange(
        before.len() as int,
        upto.len() as int,
    ));
    assert(upto.subrange(before.len() as int, upto.len() as int) =~= its[k].1);
}

/// The `k`-th `iloc` entry records item `k`'s id, the offset of its data and its length.
pub proof fn lemma_iloc_entry_at(its: Seq<IlocView>, base: int, k: int)
    requires
        0 <= k < its.len(),
    ensures
        14 * its.len() == iloc_entries(its, base).len(),
        iloc_entries(its, base).subrange(14 * k, 14 * k + 14) == iloc_entry_bytes(
            its[k].0,
            (base + data_offset(its, k)) as u32,
            its[k].1.len() as u32,
        ),
    decreases its.len(),
{
    lemma_iloc_entries_len(its, base);
    let init = its.drop_last();
    lemma_iloc_entries_len(init, base);
    let e = iloc_entries(init, base);
    let last = iloc_entry_bytes(
        its.last().0,
        (base + data_concat(init).len()) as u32,
        its.last().1.len() as u32,
    );
    assert(iloc_entries(its, base) == e + last);
    if k == its.len() - 1 {
        assert(its.take(k) =~= init);
        assert((e + last).subrange(14 * k, 14 * k + 14) =~= last);
    } else {
        lemma_iloc_entry_at(init, base, k);
        assert(its.take(k) =~= init.take(k));
        assert((e + last).subrange(14 * k, 14 * k + 14) =~= e.subrange(14 * k, 14 * k + 14));
    }
}

/// Where the `iloc` entries start in a still file: behind `ftyp` (24 bytes), the `meta`
/// header (12), `hdlr` (33), `pitm` (14) and the `iloc` header (16).
pub open spec fn still_iloc_entries_start() -> int {
    99
}

/// In the header of a still file the `iloc` entries stand at a fixed place.
#[verifier::rlimit(40)]
proof fn lemma_header_iloc_entries(
    primary: u16,
    items: Seq<InfeView>,
    iloc: Seq<IlocView>,
    base: int,
    props: Seq<u8>,
    ipma: Seq<IpmaView>,
    irefs: Seq<IrefEntryBox>,
    i: int,
    j: int,
)
    requires
        0 <= i <= j <= 14 * iloc.len(),
    ensures
        still_iloc_entries_start() + j <= header_bytes(primary, items, iloc, base, props, ipma, irefs).len(),
        header_bytes(primary, items, iloc, base, props, ipma, irefs).subrange(
            still_iloc_entries_start() + i,
            still_iloc_entries_start() + j,
        ) == iloc_entries(iloc, base).subrange(i, j),
{
    lemma_iloc_entries_len(iloc, base);
    let entries = iloc_entries(iloc, base);
    let iloc_payload = full_box_header(0, 0) + (seq![0x44u8, 0u8] + be16(iloc.len() as u16) + entries);
    let ilocb = iloc_bytes(iloc, base);
    assert(ilocb == be32((8 + iloc_payload.len()) as u32) + be32(ILOC) + iloc_payload);
    let iloc_head = be32((8 + iloc_payload.len()) as u32) + be32(ILOC) + full_box_header(0, 0) + (
    seq![0x44u8, 0u8] + be16(iloc.len() as u16));
    assert(ilocb =~= iloc_head + entries);
    lemma_subrange_right(iloc_head, entries, i, j);
    let before = full_box_header(0, 0) + hdlr_bytes() + pitm_bytes(primary);
    assert(before.len() == 51);
    let rest = iinf_bytes(items) + iref_bytes(irefs) + iprp_bytes(props, ipma);
    let meta_payload = before + ilocb + iinf_bytes(items) + iref_bytes(irefs) + iprp_bytes(props, ipma);
    assert(meta_payload =~= before + (ilocb + rest));
    lemma_subrange_left(ilocb, rest, 16 + i, 16 + j);
    lemma_subrange_right(before, ilocb + rest, 16 + i, 16 + j);
    let meta_head = be32((8 + meta_payload.len()) as u32) + be32(META);
    let meta = meta_bytes(primary, items, iloc, base, props, ipma, irefs);
    assert(meta == meta_head + meta_payload);
    lemma_subrange_right(meta_head, meta_payload, 67 + i, 67 + j);
    assert(ftyp_bytes().len() == 24);
    lemma_subrange_right(ftyp_bytes(), meta, 75 + i, 75 + j);
}

/// Reading back a still file: the `k`-th `iloc` entry, at its fixed place in the file, records
/// the item's id, an offset and a length, and the file holds exactly the item's data there.
pub proof fn lemma_file_item_roundtrip(
    primary: u16,
    items: Seq<InfeView>,
    iloc: Seq<IlocView>,
    props: Seq<u8>,
    ipma: Seq<IpmaView>,
    irefs: Seq<IrefEntryBox>,
    k: int,
)
    requires
        0 <= k < iloc.len(),
        file_len(primary, items, iloc, props, ipma, irefs) <= u32::MAX,
    ensures
        ({
            let f = file_bytes(primary, items, iloc, props, ipma, irefs);
            let off = mdat_payload_start(primary, items, iloc, props, ipma, irefs) + data_offset(iloc, k);
            let at = still_iloc_entries_start() + 14 * k;
            &&& off + iloc[k].1.len() <= f.len()
            &&& off + iloc[k].1.len() <= u32::MAX
            &&& at + 14 <= f.len()
            &&& f.subrange(at, at + 14) == iloc_entry_bytes(iloc[k].0, off as u32, iloc[k].1.len() as u32)
            &&& f.subrange(off as int, (off + iloc[k].1.len()) as int) == iloc[k].1
        }),
{
    let start = mdat_payload_start(primary, items, iloc, props, ipma, irefs) as int;
    let f = file_bytes(primary, items, iloc, props, ipma, irefs);
    let header = header_bytes(primary, items, iloc, start, props, ipma, irefs);
    lemma_header_len(primary, items, iloc, start, props, ipma, irefs);
    let data = data_concat(iloc);
    let mdat_head = be32((8 + data.len()) as u32) + be32(MDAT);
    assert(f == header + (mdat_head + data));
    // the data
    lemma_item_data_at_offset(iloc, k);
    let doff = data_offset(iloc, k) as int;
    let len = iloc[k].1.len() as int;
    lemma_subrange_right(mdat_head, data, doff, doff + len);
    lemma_subrange_right(header, mdat_head + data, 8 + doff, 8 + doff + len);
    // the entry
    lemma_iloc_entry_at(iloc, start, k);
    lemma_header_iloc_entries(primary, items, iloc, start, props, ipma, irefs, 14 * k, 14 * k + 14);
    lemma_subrange_left(header, mdat_head + data, 99 + 14 * k, 113 + 14 * k);
}

/// Writes the `iloc` box; item data is to be found at `base` onwards, in order.
pub fn write_iloc(out: &mut Vec<u8>, items: &[IlocItem], base: u32)
    requires
        base + data_concat(items@.map_values(|it: IlocItem| iloc_view(it))).len() <= u32::MAX,
    ensures
        final(out)@ == old(out)@ + iloc_bytes(
            items@.map_values(|it: IlocItem| iloc_view(it)),
            base as int,
        ),
{
    let ghost views = items@.map_values(|it: IlocItem| iloc_view(it));
    let ghost pre = old(out)@;
    let pos = begin_box(out, ILOC);
    write_fullbox(out, 0, 0);
    out.push(0x44);
    out.push(0x00);
    write_u16(out, items.len() as u16);
    let ghost start = out@;
    let mut offset: u32 = base;
    for i in 0..items.len()
        invariant
            views == items@.map_values(|it: IlocItem| iloc_view(it)),
            base + data_concat(views).len() <= u32::MAX,
            out@ == start + iloc_entries(views.take(i as int), base as int),
            offset == base + data_concat(views.take(i as int)).len(),
    {
        let data = items[i].extents[0].data;
        proof {
            lemma_data_prefix(views, i + 1);
            assert(views.take(i + 1).drop_last() =~= views.take(i as int));
        }
        write_u16(out, items[i].id);
        write_u16(out, 0);
        write_u16(out, 1);
        write_u32(out, offset);
        write_u32(out, data.len() as u32);
        assert(out@ =~= start + iloc_entries(views.take(i + 1), base as int));
        offset = offset + data.len() as u32;
    }
    assert(views.take(items@.len() as int) =~= views);
    let ghost payload = full_box_header(0, 0) + (seq![0x44u8, 0u8] + be16(views.len() as u16)
        + iloc_entries(views, base as int));
    assert(out@ =~= pre + be32(0) + be32(ILOC) + payload);
    proof {
        lemma_close_box(pre, ILOC, payload);
    }
    end_box(out, pos);
}

/// Writes the `mdat` box holding the items' data in order.
pub fn write_mdat(out: &mut Vec<u8>, items: &[IlocItem])
    ensures
        final(out)@ == old(out)@ + mdat_bytes(items@.map_values(|it: IlocItem| iloc_view(it))),
{
    let ghost views = items@.map_values(|it: IlocItem| iloc_view(it));
    let ghost pre = old(out)@;
    let pos = begin_box(out, MDAT);
    let ghost start = out@;
    for i in 0..items.len()
        invariant
            views == items@.map_values(|it: IlocItem| iloc_view(it)),
            out@ == start + data_concat(views.take(i as int)),
    {
        write_bytes(out, items[i].extents[0].data);
        assert(views.take(i + 1).drop_last() =~= views.take(i as int));
        assert(out@ =~= start + data_concat(views.take(i + 1)));
    }
    assert(views.take(items@.len() as int) =~= views);
    assert(out@ =~= pre + be32(0) + be32(MDAT) + data_concat(views));
    proof {
        lemma_close_box(pre, MDAT, data_concat(views));
    }
    end_box(out, pos);
}


// ─── Property associations ──────────────────────────────────────────

/// The properties of one item, by 1-based index, with 0x80 marking essential ones.
#[derive(Debug)]
pub struct IpmaEntry {
    pub item_id: u16,
    pub prop_ids: ArrayVec<u8, 16>,
}

/// An item's id and its association bytes.
pub type IpmaView = (u16, Seq<u8>);

/// An item's id and its association bytes.
pub open spec fn ipma_view(e: IpmaEntry) -> IpmaView {
    (e.item_id, association_list(e.prop_ids))
}

/// One association entry: item id, count, one byte per property.
pub open spec fn ipma_entry_bytes(e: IpmaView) -> Seq<u8> {
    be16(e.0) + seq![e.1.len() as u8] + e.1
}

/// The association entries, one after another.
pub open spec fn ipma_entries_bytes(es: Seq<IpmaView>) -> Seq<u8>
    decreases es.len(),
{
    if es.len() == 0 {
        Seq::empty()
    } else {
        ipma_entries_bytes(es.drop_last()) + ipma_entry_bytes(es.last())
    }
}

/// The item property association box (`ipma`), version 0, flags 0.
pub open spec fn ipma_bytes(es: Seq<IpmaView>) -> Seq<u8> {
    full_box(IPMA, 0, 0, be32(es.len() as u32) + ipma_entries_bytes(es))
}

/// Writes the `ipma` box.
pub fn write_ipma(out: &mut Vec<u8>, entries: &[IpmaEntry])
    ensures
        final(out)@ == old(out)@ + ipma_bytes(entries@.map_values(|e: IpmaEntry| ipma_view(e))),
{
    let ghost views = entries@.map_values(|e: IpmaEntry| ipma_view(e));
    let ghost pre = old(out)@;
    let pos = begin_box(out, IPMA);
    write_fullbox(out, 0, 0);
    write_u32(out, entries.len() as u32);
    let ghost start = out@;
    for i in 0..entries.len()
        invariant
            views == entries@.map_values(|e: IpmaEntry| ipma_view(e)),
            out@ == start + ipma_entries_bytes(views.take(i as int)),
    {
        let ids = associations_as_slice(&entries[i].prop_ids);
        write_u16(out, entries[i].item_id);
        out.push(ids.len() as u8);
        write_bytes(out, ids);
        assert(views.take(i + 1).drop_last() =~= views.take(i as int));
        assert(out@ =~= start + ipma_entries_bytes(views.take(i + 1)));
    }
    assert(views.take(entries@.len() as int) =~= views);
    let ghost payload = full_box_header(0, 0) + (be32(views.len() as u32) + ipma_entries_bytes(
        views,
    ));
    assert(out@ =~= pre + be32(0) + be32(IPMA) + payload);
    proof {
        lemma_close_box(pre, IPMA, payload);
    }
    end_box(out, pos);
}

// ─── Item references ────────────────────────────────────────────────

/// A reference of type `typ` from one item to another.
#[derive(Debug, Clone, Copy)]
pub struct IrefEntryBox {
    pub from_id: u16,
    pub to_id: u16,
    pub typ: FourCC,
}

/// One reference box: from id, count 1, to id.
pub open spec fn iref_entry_bytes(r: IrefEntryBox) -> Seq<u8> {
    mp4_box(r.typ.0, be16(r.from_id) + be16(1) + be16(r.to_id))
}

/// The reference boxes, one after another.
pub open spec fn iref_entries_bytes(rs: Seq<IrefEntryBox>) -> Seq<u8>
    decreases rs.len(),
{
    if rs.len() == 0 {
        Seq::empty()
    } else {
        iref_entries_bytes(rs.drop_last()) + iref_entry_bytes(rs.last())
    }
}

/// The item reference box (`iref`); absent when there are no references.
pub open spec fn iref_bytes(rs: Seq<IrefEntryBox>) -> Seq<u8> {
    if rs.len() == 0 {
        Seq::empty()
    } else {
        full_box(IREF, 0, 0, iref_entries_bytes(rs))
    }
}

/// Writes the `iref` box, or nothing when `refs` is empty.
pub fn write_iref(out: &mut Vec<u8>, refs: &[IrefEntryBox])
    ensures
        final(out)@ == old(out)@ + iref_bytes(refs@),
{
    if refs.len() == 0 {
        assert(out@ =~= old(out)@ + iref_bytes(refs@));
        return;
    }
    let ghost pre = old(out)@;
    let pos = begin_box(out, IREF);
    write_fullbox(out, 0, 0);
    let ghost start = out@;
    for i in 0..refs.len()
        invariant
            out@ == start + iref_entries_bytes(refs@.take(i as int)),
    {
        let entry = refs[i];
        let ghost before = out@;
        let entry_pos = begin_box(out, entry.typ.0);
        write_u16(out, entry.from_id);
        write_u16(out, 1);
        write_u16(out, entry.to_id);
        let ghost payload = be16(entry.from_id) + be16(1) + be16(entry.to_id);
        assert(out@ =~= before + be32(0) + be32(entry.typ.0) + payload);
        proof {
            lemma_close_box(before, entry.typ.0, payload);
        }
        end_box(out, entry_pos);
        assert(refs@.take(i + 1).drop_last() =~= refs@.take(i as int));
        assert(out@ =~= start + iref_entries_bytes(refs@.take(i + 1)));
    }
    assert(refs@.take(refs@.len() as int) =~= refs@);
    let ghost payload = full_box_header(0, 0) + iref_entries_bytes(refs@);
    assert(out@ =~= pre + be32(0) + be32(IREF) + payload);
    proof {
        lemma_close_box(pre, IREF, payload);
    }
    end_box(out, pos);
}

// ─── The still-image file ───────────────────────────────────────────

/// `ftyp` of a still image: brand `avif`, version 0, compatible with `mif1` and `miaf`.
pub open spec fn ftyp_bytes() -> Seq<u8> {
    mp4_box(FTYP, be32(AVIF) + be32(0) + be32(MIF1) + be32(MIAF))
}

/// `hdlr` for pictures, with an empty name.
pub open spec fn hdlr_bytes() -> Seq<u8> {
    full_box(HDLR, 0, 0, be32(0) + be32(PICT) + zeros(12) + seq![0u8])
}

/// `pitm`: the primary item's id.
pub open spec fn pitm_bytes(id: u16) -> Seq<u8> {
    full_box(PITM, 0, 0, be16(id))
}

/// The payload of `iprp`: the property container and the associations.
pub open spec fn iprp_bytes_payload(props: Seq<u8>, ipma: Seq<IpmaView>) -> Seq<u8> {
    mp4_box(IPCO, props) + ipma_bytes(ipma)
}

/// `iprp`: the property container and the associations.
pub open spec fn iprp_bytes(props: Seq<u8>, ipma: Seq<IpmaView>) -> Seq<u8> {
    mp4_box(IPRP, iprp_bytes_payload(props, ipma))
}

/// `meta`: handler, primary item, locations, items, references, properties.
pub open spec fn meta_bytes(
    primary: u16,
    items: Seq<InfeView>,
    iloc: Seq<IlocView>,
    base: int,
    props: Seq<u8>,
    ipma: Seq<IpmaView>,
    irefs: Seq<IrefEntryBox>,
) -> Seq<u8> {
    mp4_box(
        META,
        full_box_header(0, 0) + hdlr_bytes() + pitm_bytes(primary) + iloc_bytes(iloc, base)
            + iinf_bytes(items) + iref_bytes(irefs) + iprp_bytes(props, ipma),
    )
}

/// Everything before the media data, with item data placed from file offset `base`.
pub open spec fn header_bytes(
    primary: u16,
    items: Seq<InfeView>,
    iloc: Seq<IlocView>,
    base: int,
    props: Seq<u8>,
    ipma: Seq<IpmaView>,
    irefs: Seq<IrefEntryBox>,
) -> Seq<u8> {
    ftyp_bytes() + meta_bytes(primary, items, iloc, base, props, ipma, irefs)
}

/// Where the media data payload starts in the file.
pub open spec fn mdat_payload_start(
    primary: u16,
    items: Seq<InfeView>,
    iloc: Seq<IlocView>,
    props: Seq<u8>,
    ipma: Seq<IpmaView>,
    irefs: Seq<IrefEntryBox>,
) -> nat {
    header_bytes(primary, items, iloc, 0, props, ipma, irefs).len() + 8
}

/// The whole file: header, then the media data box holding the items' data in `iloc` order.
pub open spec fn file_bytes(
    primary: u16,
    items: Seq<InfeView>,
    iloc: Seq<IlocView>,
    props: Seq<u8>,
    ipma: Seq<IpmaView>,
    irefs: Seq<IrefEntryBox>,
) -> Seq<u8> {
    header_bytes(
        primary,
        items,
        iloc,
        mdat_payload_start(primary, items, iloc, props, ipma, irefs) as int,
        props,
        ipma,
        irefs,
    ) + mdat_bytes(iloc)
}

/// The size of the whole file.
pub open spec fn file_len(
    primary: u16,
    items: Seq<InfeView>,
    iloc: Seq<IlocView>,
    props: Seq<u8>,
    ipma: Seq<IpmaView>,
    irefs: Seq<IrefEntryBox>,
) -> nat {
    mdat_payload_start(primary, items, iloc, props, ipma, irefs) + data_concat(iloc).len()
}

/// The header's size does not depend on where the item data is placed.
pub proof fn lemma_header_len(
    primary: u16,
    items: Seq<InfeView>,
    iloc: Seq<IlocView>,
    base: int,
    props: Seq<u8>,
    ipma: Seq<IpmaView>,
    irefs: Seq<IrefEntryBox>,
)
    ensures
        header_bytes(primary, items, iloc, base, props, ipma, irefs).len() == header_bytes(
            primary,
            items,
            iloc,
            0,
            props,
            ipma,
            irefs,
        ).len(),
{
    lemma_iloc_entries_len(iloc, base);
    lemma_iloc_entries_len(iloc, 0);
}

/// The size that is checked against 32 bits is the size of the file.
pub proof fn lemma_file_len(
    primary: u16,
    items: Seq<InfeView>,
    iloc: Seq<IlocView>,
    props: Seq<u8>,
    ipma: Seq<IpmaView>,
    irefs: Seq<IrefEntryBox>,
)
    ensures
        file_bytes(primary, items, iloc, props, ipma, irefs).len() == file_len(
            primary,
            items,
            iloc,
            props,
            ipma,
            irefs,
        ),
{
    let start = mdat_payload_start(primary, items, iloc, props, ipma, irefs) as int;
    lemma_header_len(primary, items, iloc, start, props, ipma, irefs);
}

/// Writes `ftyp` of a still image.
pub fn write_ftyp(out: &mut Vec<u8>)
    ensures
        final(out)@ == old(out)@ + ftyp_bytes(),
{
    let ghost pre = old(out)@;
    let pos = begin_box(out, FTYP);
    write_u32(out, AVIF);
    write_u32(out, 0);
    write_u32(out, MIF1);
    write_u32(out, MIAF);
    let ghost payload = be32(AVIF) + be32(0) + be32(MIF1) + be32(MIAF);
    assert(out@ =~= pre + be32(0) + be32(FTYP) + payload);
    proof {
        lemma_close_box(pre, FTYP, payload);
    }
    end_box(out, pos);
}

/// Writes `hdlr` for pictures.
pub fn write_hdlr(out: &mut Vec<u8>)
    ensures
        final(out)@ == old(out)@ + hdlr_bytes(),
{
    let ghost pre = old(out)@;
    let pos = begin_box(out, HDLR);
    write_fullbox(out, 0, 0);
    write_u32(out, 0);
    write_u32(out, PICT);
    write_zeros(out, 12);
    out.push(0);
    let ghost payload = full_box_header(0, 0) + (be32(0) + be32(PICT) + zeros(12) + seq![0u8]);
    assert(out@ =~= pre + be32(0) + be32(HDLR) + payload);
    proof {
        lemma_close_box(pre, HDLR, payload);
    }
    end_box(out, pos);
}

/// Writes `pitm`.
pub fn write_pitm(out: &mut Vec<u8>, id: u16)
    ensures
        final(out)@ == old(out)@ + pitm_bytes(id),
{
    let ghost pre = old(out)@;
    let pos = begin_box(out, PITM);
    write_fullbox(out, 0, 0);
    write_u16(out, id);
    let ghost payload = full_box_header(0, 0) + be16(id);
    assert(out@ =~= pre + be32(0) + be32(PITM) + payload);
    proof {
        lemma_close_box(pre, PITM, payload);
    }
    end_box(out, pos);
}

/// A still AVIF file ready to be written.
pub struct AvifFile<'data> {
    pub primary_item_id: u16,
    pub items: ArrayVec<InfeBox, 4>,
    pub iloc_items: ArrayVec<IlocItem<'data>, 4>,
    pub ipco: IpcoBox,
    pub ipma_entries: ArrayVec<IpmaEntry, 2>,
    pub irefs: ArrayVec<IrefEntryBox, 4>,
}

impl<'data> AvifFile<'data> {
    /// The declared items.
    pub open spec fn items_view(&self) -> Seq<InfeView> {
        infe_list(self.items).map_values(|i: InfeBox| infe_view(i))
    }

    /// The located items and their data.
    pub open spec fn iloc_view(&self) -> Seq<IlocView> {
        iloc_list(self.iloc_items).map_values(|it: IlocItem| iloc_view(it))
    }

    /// The property associations.
    pub open spec fn ipma_view(&self) -> Seq<IpmaView> {
        ipma_list(self.ipma_entries).map_values(|e: IpmaEntry| ipma_view(e))
    }

    /// The item references.
    pub open spec fn irefs_view(&self) -> Seq<IrefEntryBox> {
        iref_list(self.irefs)
    }

    /// The encoded properties.
    pub open spec fn props_view(&self) -> Seq<u8> {
        props_bytes(self.ipco@)
    }

    /// Everything before the media data, with item data placed from file offset `base`.
    pub open spec fn header_at(&self, base: int) -> Seq<u8> {
        header_bytes(
            self.primary_item_id,
            self.items_view(),
            self.iloc_view(),
            base,
            self.props_view(),
            self.ipma_view(),
            self.irefs_view(),
        )
    }

    /// The bytes of the file.
    pub open spec fn bytes(&self) -> Seq<u8> {
        file_bytes(
            self.primary_item_id,
            self.items_view(),
            self.iloc_view(),
            self.props_view(),
            self.ipma_view(),
            self.irefs_view(),
        )
    }

    /// The size of the file.
    pub open spec fn encoded_len(&self) -> nat {
        file_len(
            self.primary_item_id,
            self.items_view(),
            self.iloc_view(),
            self.props_view(),
            self.ipma_view(),
            self.irefs_view(),
        )
    }

    /// Whether the image extent property gives a non-zero size.
    pub open spec fn has_dimensions(&self) -> bool {
        match find_ispe(self.ipco@) {
            Some(b) => b.width != 0 && b.height != 0,
            None => false,
        }
    }

    fn write_meta(&self, out: &mut Vec<u8>, base: u32)
        requires
            base + data_concat(self.iloc_view()).len() <= u32::MAX,
        ensures
            final(out)@ == old(out)@ + meta_bytes(
                self.primary_item_id,
                self.items_view(),
                self.iloc_view(),
                base as int,
                self.props_view(),
                self.ipma_view(),
                self.irefs_view(),
            ),
    {
        let ghost pre = old(out)@;
        let pos = begin_box(out, META);
        let ghost prefix = out@;
        write_fullbox(out, 0, 0);
        let ghost payload = full_box_header(0, 0);
        let ghost mark = out@;
        write_hdlr(out);
        proof {
            lemma_concat_associative(prefix, payload, hdlr_bytes());
            payload = payload + hdlr_bytes();
        }
        write_pitm(out, self.primary_item_id);
        proof {
            lemma_concat_associative(prefix, payload, pitm_bytes(self.primary_item_id));
            payload = payload + pitm_bytes(self.primary_item_id);
        }
        write_iloc(out, ilocs_as_slice(&self.iloc_items), base);
        proof {
            lemma_concat_associative(prefix, payload, iloc_bytes(self.iloc_view(), base as int));
            payload = payload + iloc_bytes(self.iloc_view(), base as int);
        }
        write_iinf(out, infes_as_slice(&self.items));
        proof {
            lemma_concat_associative(prefix, payload, iinf_bytes(self.items_view()));
            payload = payload + iinf_bytes(self.items_view());
        }
        write_iref(out, irefs_as_slice(&self.irefs));
        proof {
            lemma_concat_associative(prefix, payload, iref_bytes(self.irefs_view()));
            payload = payload + iref_bytes(self.irefs_view());
        }
        let ghost iprp_pre = out@;
        let iprp_pos = begin_box(out, IPRP);
        let ghost iprp_prefix = out@;
        self.ipco.write(out);
        write_ipma(out, ipmas_as_slice(&self.ipma_entries));
        proof {
            lemma_concat_associative(
                iprp_prefix,
                mp4_box(IPCO, self.props_view()),
                ipma_bytes(self.ipma_view()),
            );
            lemma_close_box(iprp_pre, IPRP, iprp_bytes_payload(self.props_view(), self.ipma_view()));
        }
        end_box(out, iprp_pos);
        proof {
            lemma_concat_associative(prefix, payload, iprp_bytes(self.props_view(), self.ipma_view()));
            payload = payload + iprp_bytes(self.props_view(), self.ipma_view());
            lemma_close_box(pre, META, payload);
        }
        end_box(out, pos);
    }

    /// Writes everything before the media data, with item data placed from file offset `base`.
    pub fn write_header(&self, out: &mut Vec<u8>, base: u32)
        requires
            base + data_concat(self.iloc_view()).len() <= u32::MAX,
        ensures
            final(out)@ == old(out)@ + self.header_at(base as int),
    {
        write_ftyp(out);
        self.write_meta(out, base);
        proof {
            lemma_concat_associative(
                old(out)@,
                ftyp_bytes(),
                meta_bytes(
                    self.primary_item_id,
                    self.items_view(),
                    self.iloc_view(),
                    base as int,
                    self.props_view(),
                    self.ipma_view(),
                    self.irefs_view(),
                ),
            );
        }
    }

    /// Appends the file to `out`. Fails, leaving `out` as it was, when the image has
    /// no non-zero extent, or when the file would not fit the 32-bit offsets and sizes.
    pub fn write_to_vec(&self, out: &mut Vec<u8>) -> (r: Result<(), crate::SerializeError>)
        ensures
            !self.has_dimensions() ==> r == Err::<(), _>(crate::SerializeError::MissingDimensions),
            self.has_dimensions() && self.encoded_len() > u32::MAX ==> r == Err::<(), _>(
                crate::SerializeError::TooLarge,
            ),
            r is Ok <==> self.has_dimensions() && self.encoded_len() <= u32::MAX,
            r is Ok ==> final(out)@ == old(out)@ + self.bytes(),
            r is Err ==> final(out)@ == old(out)@,
    {
        match self.ipco.ispe() {
            Some(b) => {
                if b.width == 0 || b.height == 0 {
                    return Err(crate::SerializeError::MissingDimensions);
                }
            },
            None => {
                return Err(crate::SerializeError::MissingDimensions);
            },
        }
        let ghost views = self.iloc_view();
        let items = ilocs_as_slice(&self.iloc_items);
        let mut total: usize = 0;
        for i in 0..items.len()
            invariant
                items@ == iloc_list(self.iloc_items),
                views == self.iloc_view(),
                total == data_concat(views.take(i as int)).len(),
                total <= u32::MAX,
                self.has_dimensions(),
        {
            let len = items[i].extents[0].data.len();
            proof {
                lemma_data_prefix(views, i + 1);
                assert(views.take(i + 1).drop_last() =~= views.take(i as int));
            }
            if len > 0xFFFF_FFFFusize - total {
                return Err(crate::SerializeError::TooLarge);
            }
            total = total + len;
        }
        assert(views.take(items@.len() as int) =~= views);
        let mut tmp: Vec<u8> = Vec::new();
        self.write_header(&mut tmp, 0);
        let header_len = tmp.len();
        if total > 0xFFFF_FFF7usize || header_len > 0xFFFF_FFF7usize - total {
            return Err(crate::SerializeError::TooLarge);
        }
        let base = (header_len + 8) as u32;
        proof {
            lemma_header_len(
                self.primary_item_id,
                self.items_view(),
                self.iloc_view(),
                base as int,
                self.props_view(),
                self.ipma_view(),
                self.irefs_view(),
            );
        }
        self.write_header(out, base);
        write_mdat(out, items);
        proof {
            lemma_concat_associative(old(out)@, self.header_at(base as int), mdat_bytes(views));
        }
        Ok(())
    }
}


/// One more property extends the encoding by that property's box.
pub proof fn lemma_props_bytes_push(ps: Seq<IpcoProp>, p: IpcoProp)
    ensures
        props_bytes(ps.push(p)) == props_bytes(ps) + prop_bytes(p),
{
    assert(ps.push(p).drop_last() =~= ps);
}


/// Reading back an nclx `colr` box: after its header and the type `nclx`, the colour
/// primaries, the transfer characteristics and the matrix coefficients follow as 16-bit code
/// points, in that order, then the range byte (0x80 for full range).
pub proof fn lemma_colr_nclx_fields(c: ColrBox)
    ensures
        colr_nclx_bytes(c).len() == 19,
        be32_value(colr_nclx_bytes(c).subrange(4, 8)) == COLR,
        be32_value(colr_nclx_bytes(c).subrange(8, 12)) == NCLX,
        be16_value(colr_nclx_bytes(c).subrange(12, 14)) == c.color_primaries.code_point(),
        be16_value(colr_nclx_bytes(c).subrange(14, 16)) == c.transfer_characteristics.code_point(),
        be16_value(colr_nclx_bytes(c).subrange(16, 18)) == c.matrix_coefficients.code_point(),
        colr_nclx_bytes(c)[18] == (if c.full_range_flag {
            0x80u8
        } else {
            0u8
        }),
{
    let b = colr_nclx_bytes(c);
    assert(b.subrange(4, 8) =~= be32(COLR));
    assert(b.subrange(8, 12) =~= be32(NCLX));
    assert(b.subrange(12, 14) =~= be16(c.color_primaries.code_point()));
    assert(b.subrange(14, 16) =~= be16(c.transfer_characteristics.code_point()));
    assert(b.subrange(16, 18) =~= be16(c.matrix_coefficients.code_point()));
    lemma_be32_roundtrip(COLR);
    lemma_be32_roundtrip(NCLX);
    lemma_be16_roundtrip(c.color_primaries.code_point());
    lemma_be16_roundtrip(c.transfer_characteristics.code_point());
    lemma_be16_roundtrip(c.matrix_coefficients.code_point());
}

/// Reading the depth flags back from an `av1C` box: bit 6 of its third configuration byte
/// (at 10) is the high-bit-depth flag and bit 5 the twelve-bit flag, whatever the other
/// settings, as long as the chroma sample position is one of its four values.
pub proof fn lemma_av1c_depth_bits(c: Av1CBox)
    requires
        c.chroma_sample_position < 4,
    ensures
        (av1c_bytes(c, Seq::empty())[10] >> 6u8) & 1u8 == bit(c.high_bitdepth),
        (av1c_bytes(c, Seq::empty())[10] >> 5u8) & 1u8 == bit(c.twelve_bit),
{
    let b = av1c_bytes(c, Seq::empty());
    assert(b[10] == av1c_flags_byte(c));
    let t = bit(c.seq_tier_0);
    let h = bit(c.high_bitdepth);
    let w = bit(c.twelve_bit);
    let m = bit(c.monochrome);
    let x = bit(c.chroma_subsampling_x);
    let y = bit(c.chroma_subsampling_y);
    let p = c.chroma_sample_position;
    assert((((t << 7u8) | (h << 6u8) | (w << 5u8) | (m << 4u8) | (x << 3u8) | (y << 2u8) | p) >> 6u8) & 1u8 == h
        && (((t << 7u8) | (h << 6u8) | (w << 5u8) | (m << 4u8) | (x << 3u8) | (y << 2u8) | p) >> 5u8) & 1u8 == w)
        by (bit_vector)
        requires
            t <= 1,
            h <= 1,
            w <= 1,
            m <= 1,
            x <= 1,
            y <= 1,
            p < 4,
    ;
}

} // verus!
