//! AVIF image serializer (muxer): wraps already-encoded AV1 data in the
//! HEIF/ISO-BMFF container that makes an AVIF file.
//!
//! 1. Compress pixels with an AV1 encoder.
//! 2. Call `serialize_to_vec(av1_data, None, width, height, 8)`.

pub mod animated;
mod bounded;
mod boxes;
pub mod grid;
pub mod constants;
mod writer;

use arrayvec::ArrayVec;
use vstd::prelude::*;
use vstd::seq_lib::lemma_concat_associative;

use crate::bounded::{
    association_list, associations_new_const, associations_push, associations_try_extend_from_slice,
    iloc_list, ilocs_new, ilocs_push, infe_list, infes_new, infes_push, ipma_list, ipmas_new, ipmas_push,
    irefs_new, irefs_push,
};
use crate::boxes::{
    alpha_urn, auxc_bytes, av1c_bytes, clap_bytes, clli_bytes, colr_icc_bytes, colr_nclx_bytes,
    data_offset, default_colr, file_bytes, file_len, find_ispe, iloc_entry_bytes, iloc_view,
    imir_bytes, infe_view, ipma_view, irot_bytes, ispe_bytes, lemma_file_item_roundtrip,
    lemma_file_len,
    lemma_props_bytes_push, mdat_payload_start, mdcv_bytes, pasp_bytes, pixi_bytes, prop_bytes,
    props_bytes, still_iloc_entries_start, AuxCBox, AvifFile, FourCC, IlocExtent, IlocItem, IlocView,
    InfeBox, InfeView, IpcoBox, IpcoProp, IpmaEntry, IpmaView, IrefEntryBox, IspeBox, PixiBox, AUXL,
    AV01, CDSC, EXIF, IMIR, IROT, MIME, PREM, lemma_av1c_depth_bits, lemma_colr_nclx_fields, COLR, NCLX,
};
use crate::writer::{be16_value, be32_value, mp4_box};
use crate::animated::av1c_bit_depth;
pub use crate::boxes::{
    Av1CBox, ClapBox, ClliBox, ColrBox, ColrIccBox, ImirBox, IrotBox, MdcvBox, PaspBox,
};

verus! {

/// Why a file could not be made.
#[derive(Debug, Clone, Copy, PartialEq, Eq, Structural)]
pub enum SerializeError {
    /// The bit depth is not 8, 10 or 12.
    UnsupportedDepth,
    /// More properties than the property container holds.
    TooManyProperties,
    /// The image width or height is zero.
    MissingDimensions,
    /// The file would not fit the 32-bit offsets and sizes of its boxes.
    TooLarge,
    /// The number of color tiles is not rows × columns.
    TileCountMismatch { tiles: usize, expected: usize },
    /// The number of alpha tiles is not rows × columns.
    AlphaTileCountMismatch { tiles: usize, expected: usize },
}

/// Bit depths that AV1 images come in.
pub open spec fn valid_depth(depth_bits: u8) -> bool {
    depth_bits == 8 || depth_bits == 10 || depth_bits == 12
}

/// The association byte of property `id`: 0x80 marks a property the decoder must understand.
pub open spec fn assoc_byte(id: u8, essential: bool) -> u8 {
    if essential {
        id | 0x80u8
    } else {
        id
    }
}

/// The encoded properties of a list, one after another.
pub open spec fn extras_bytes(extras: Seq<(Seq<u8>, bool)>) -> Seq<u8>
    decreases extras.len(),
{
    if extras.len() == 0 {
        Seq::empty()
    } else {
        extras_bytes(extras.drop_last()) + extras.last().0
    }
}

/// Association bytes for properties numbered from `first` on.
pub open spec fn extras_assoc(extras: Seq<(Seq<u8>, bool)>, first: int) -> Seq<u8> {
    Seq::new(extras.len(), |i: int| assoc_byte((first + i) as u8, extras[i].1))
}

/// "application/rdf+xml"
pub open spec fn rdf_xml_mime() -> Seq<u8> {
    seq![97u8, 112, 112, 108, 105, 99, 97, 116, 105, 111, 110, 47, 114, 100, 102, 43, 120, 109, 108]
}

/// The bytes of an optional slice.
pub open spec fn opt_view(o: Option<&[u8]>) -> Option<Seq<u8>> {
    match o {
        Some(s) => Some(s@),
        None => None,
    }
}

/// Config for the serialization (allows setting advanced image properties).
pub struct Aviffy {
    premultiplied_alpha: bool,
    colr: ColrBox,
    clli: Option<ClliBox>,
    mdcv: Option<MdcvBox>,
    irot: Option<IrotBox>,
    imir: Option<ImirBox>,
    clap: Option<ClapBox>,
    pasp: Option<PaspBox>,
    icc_profile: Option<Vec<u8>>,
    min_seq_profile: u8,
    chroma_subsampling: (bool, bool),
    monochrome: bool,
    width: u32,
    height: u32,
    bit_depth: u8,
    exif: Option<Vec<u8>>,
    xmp: Option<Vec<u8>>,
}

const ESSENTIAL_BIT: u8 = 0x80;

impl Aviffy {
    // ─── What a configuration makes ─────────────────────────────────

    /// The configuration `new` gives.
    pub closed spec fn initial() -> Self {
        Aviffy {
            premultiplied_alpha: false,
            min_seq_profile: 1,
            chroma_subsampling: (false, false),
            monochrome: false,
            width: 0,
            height: 0,
            bit_depth: 0,
            colr: default_colr(),
            clli: None,
            mdcv: None,
            irot: None,
            imir: None,
            clap: None,
            pasp: None,
            icc_profile: None,
            exif: None,
            xmp: None,
        }
    }

    /// The width set on this configuration.
    pub closed spec fn width_of(self) -> u32 {
        self.width
    }

    /// The height set on this configuration.
    pub closed spec fn height_of(self) -> u32 {
        self.height
    }

    /// The bit depth set on this configuration.
    pub closed spec fn bit_depth_of(self) -> u8 {
        self.bit_depth
    }

    /// The AV1 configuration declared for the color image.
    pub closed spec fn color_av1c(self, depth_bits: u8) -> Av1CBox {
        Av1CBox {
            seq_profile: if self.min_seq_profile >= (if depth_bits >= 12 { 2u8 } else { 0u8 }) {
                self.min_seq_profile
            } else {
                2u8
            },
            seq_level_idx_0: 31,
            seq_tier_0: false,
            high_bitdepth: depth_bits >= 10,
            twelve_bit: depth_bits >= 12,
            monochrome: self.monochrome,
            chroma_subsampling_x: self.chroma_subsampling.0,
            chroma_subsampling_y: self.chroma_subsampling.1,
            chroma_sample_position: 0,
        }
    }

    /// The colour property: the ICC profile if set, else CICP unless it is the default.
    pub closed spec fn colr_part(self) -> Seq<(Seq<u8>, bool)> {
        match self.icc_profile {
            Some(icc) => seq![(colr_icc_bytes(icc@), false)],
            None => if self.colr != default_colr() {
                seq![(colr_nclx_bytes(self.colr), false)]
            } else {
                Seq::empty()
            },
        }
    }

    /// The light level property, if set.
    pub closed spec fn clli_part(self) -> Seq<(Seq<u8>, bool)> {
        match self.clli {
            Some(c) => seq![(clli_bytes(c), false)],
            None => Seq::empty(),
        }
    }

    /// The mastering display property, if set.
    pub closed spec fn mdcv_part(self) -> Seq<(Seq<u8>, bool)> {
        match self.mdcv {
            Some(m) => seq![(mdcv_bytes(m), false)],
            None => Seq::empty(),
        }
    }

    /// The rotation property, if set; essential.
    pub closed spec fn irot_part(self) -> Seq<(Seq<u8>, bool)> {
        match self.irot {
            Some(b) => seq![(irot_bytes(b), true)],
            None => Seq::empty(),
        }
    }

    /// The mirror property, if set; essential.
    pub closed spec fn imir_part(self) -> Seq<(Seq<u8>, bool)> {
        match self.imir {
            Some(b) => seq![(imir_bytes(b), true)],
            None => Seq::empty(),
        }
    }

    /// The clean aperture property, if set; essential.
    pub closed spec fn clap_part(self) -> Seq<(Seq<u8>, bool)> {
        match self.clap {
            Some(c) => seq![(clap_bytes(c), true)],
            None => Seq::empty(),
        }
    }

    /// The pixel aspect ratio property, if set.
    pub closed spec fn pasp_part(self) -> Seq<(Seq<u8>, bool)> {
        match self.pasp {
            Some(p) => seq![(pasp_bytes(p), false)],
            None => Seq::empty(),
        }
    }

    /// The optional properties of the color image, encoded, each with whether it is essential:
    /// ICC profile (or, failing that, non-default CICP), light level, mastering display,
    /// rotation, mirror, clean aperture, pixel aspect ratio.
    #[verifier::opaque]
    pub closed spec fn color_extras(self) -> Seq<(Seq<u8>, bool)> {
        self.colr_part() + self.clli_part() + self.mdcv_part() + self.irot_part() + self.imir_part()
            + self.clap_part() + self.pasp_part()
    }

    /// The encoded properties: extent, AV1 configuration, pixel information, the optional
    /// ones, then for alpha its AV1 configuration, pixel information and auxiliary type.
    #[verifier::opaque]
    pub closed spec fn still_props(self, has_alpha: bool, width: u32, height: u32, depth_bits: u8) -> Seq<u8> {
        ispe_bytes(IspeBox { width, height }) + av1c_bytes(self.color_av1c(depth_bits), Seq::empty())
            + pixi_bytes(PixiBox { channels: 3, depth: depth_bits }) + extras_bytes(
            self.color_extras(),
        ) + if has_alpha {
            av1c_bytes(alpha_av1c(depth_bits), Seq::empty()) + pixi_bytes(
                PixiBox { channels: 1, depth: depth_bits },
            ) + auxc_bytes()
        } else {
            Seq::empty()
        }
    }

    /// The associations of the color image (item 1) and of the alpha image (item 2).
    #[verifier::opaque]
    pub closed spec fn still_ipma(self, has_alpha: bool) -> Seq<IpmaView> {
        let n = 3 + self.color_extras().len();
        seq![(1u16, seq![1u8, 2u8 | 0x80u8, 3u8] + extras_assoc(self.color_extras(), 4))] + if has_alpha {
            seq![(2u16, seq![1u8, ((n + 1) as u8) | 0x80u8, (n + 3) as u8, (n + 2) as u8])]
        } else {
            Seq::empty()
        }
    }

    /// The id of the XMP item.
    pub closed spec fn xmp_id(self) -> u16 {
        if self.exif is Some { 4 } else { 3 }
    }

    /// The items: color image, Exif, XMP, alpha image.
    pub closed spec fn still_items(self, has_alpha: bool) -> Seq<InfeView> {
        seq![(1u16, AV01, Seq::<u8>::empty())] + (if self.exif is Some {
            seq![(3u16, EXIF, Seq::<u8>::empty())]
        } else {
            Seq::empty()
        }) + (if self.xmp is Some {
            seq![(self.xmp_id(), MIME, rdf_xml_mime())]
        } else {
            Seq::empty()
        }) + if has_alpha {
            seq![(2u16, AV01, Seq::<u8>::empty())]
        } else {
            Seq::empty()
        }
    }

    /// The items' data in file order: Exif, XMP, alpha, then color.
    pub closed spec fn still_iloc(self, color: Seq<u8>, alpha: Option<Seq<u8>>) -> Seq<IlocView> {
        (match self.exif {
            Some(e) => seq![(3u16, e@)],
            None => Seq::empty(),
        }) + (match self.xmp {
            Some(x) => seq![(self.xmp_id(), x@)],
            None => Seq::empty(),
        }) + (match alpha {
            Some(a) => seq![(2u16, a)],
            None => Seq::empty(),
        }) + seq![(1u16, color)]
    }

    /// The references: Exif and XMP describe the color image, alpha is auxiliary to it,
    /// and premultiplication is declared from color to alpha.
    pub closed spec fn still_irefs(self, has_alpha: bool) -> Seq<IrefEntryBox> {
        (if self.exif is Some {
            seq![IrefEntryBox { from_id: 3, to_id: 1, typ: FourCC(CDSC) }]
        } else {
            Seq::empty()
        }) + (if self.xmp is Some {
            seq![IrefEntryBox { from_id: self.xmp_id(), to_id: 1, typ: FourCC(CDSC) }]
        } else {
            Seq::empty()
        }) + (if has_alpha {
            seq![IrefEntryBox { from_id: 2, to_id: 1, typ: FourCC(AUXL) }]
        } else {
            Seq::empty()
        }) + if has_alpha && self.premultiplied_alpha {
            seq![IrefEntryBox { from_id: 1, to_id: 2, typ: FourCC(PREM) }]
        } else {
            Seq::empty()
        }
    }

    /// The bytes of the still AVIF file made from this configuration.
    pub closed spec fn still_bytes(
        self,
        color: Seq<u8>,
        alpha: Option<Seq<u8>>,
        width: u32,
        height: u32,
        depth_bits: u8,
    ) -> Seq<u8> {
        file_bytes(
            1,
            self.still_items(alpha is Some),
            self.still_iloc(color, alpha),
            self.still_props(alpha is Some, width, height, depth_bits),
            self.still_ipma(alpha is Some),
            self.still_irefs(alpha is Some),
        )
    }

    /// The size of that file.
    pub closed spec fn still_len(
        self,
        color: Seq<u8>,
        alpha: Option<Seq<u8>>,
        width: u32,
        height: u32,
        depth_bits: u8,
    ) -> nat {
        file_len(
            1,
            self.still_items(alpha is Some),
            self.still_iloc(color, alpha),
            self.still_props(alpha is Some, width, height, depth_bits),
            self.still_ipma(alpha is Some),
            self.still_irefs(alpha is Some),
        )
    }
}

/// The AV1 configuration declared for the alpha image: monochrome, 4:0:0.
pub open spec fn alpha_av1c(depth_bits: u8) -> Av1CBox {
    Av1CBox {
        seq_profile: if depth_bits >= 12 { 2 } else { 0 },
        seq_level_idx_0: 31,
        seq_tier_0: false,
        high_bitdepth: depth_bits >= 10,
        twelve_bit: depth_bits >= 12,
        monochrome: true,
        chroma_subsampling_x: true,
        chroma_subsampling_y: true,
        chroma_sample_position: 0,
    }
}


/// Adding an optional property extends its encoding and its association.
proof fn lemma_extras_push(extras: Seq<(Seq<u8>, bool)>, x: (Seq<u8>, bool), first: int)
    ensures
        extras_bytes(extras.push(x)) == extras_bytes(extras) + x.0,
        extras_assoc(extras.push(x), first) == extras_assoc(extras, first).push(
            assoc_byte((first + extras.len()) as u8, x.1),
        ),
{
    assert(extras.push(x).drop_last() =~= extras);
    assert(extras_assoc(extras.push(x), first) =~= extras_assoc(extras, first).push(
        assoc_byte((first + extras.len()) as u8, x.1),
    ));
}

/// What holds while the optional color properties are being added.
pub open spec fn extras_inv(
    props: Seq<IpcoProp>,
    assoc: Seq<u8>,
    base: Seq<u8>,
    first: IpcoProp,
    extras: Seq<(Seq<u8>, bool)>,
) -> bool {
    &&& props.len() == 3 + extras.len()
    &&& extras.len() <= 7
    &&& props[0] == first
    &&& props_bytes(props) == base + extras_bytes(extras)
    &&& assoc == seq![1u8, 2u8 | 0x80u8, 3u8] + extras_assoc(extras, 4)
}

/// One more optional property, in the form the invariant needs.
proof fn lemma_extras_step(
    base: Seq<u8>,
    extras: Seq<(Seq<u8>, bool)>,
    x: (Seq<u8>, bool),
    assoc_prefix: Seq<u8>,
)
    ensures
        (base + extras_bytes(extras)) + x.0 == base + extras_bytes(extras.push(x)),
        (assoc_prefix + extras_assoc(extras, 4)).push(assoc_byte((4 + extras.len()) as u8, x.1))
            == assoc_prefix + extras_assoc(extras.push(x), 4),
{
    lemma_extras_push(extras, x, 4);
    lemma_concat_associative(base, extras_bytes(extras), x.0);
    assert((assoc_prefix + extras_assoc(extras, 4)).push(assoc_byte((4 + extras.len()) as u8, x.1))
        =~= assoc_prefix + extras_assoc(extras, 4).push(assoc_byte((4 + extras.len()) as u8, x.1)));
}

/// An association list holding the bytes of `array`.
fn from_array<const L1: usize>(array: [u8; L1]) -> (r: ArrayVec<u8, 16>)
    requires
        L1 <= 16,
    ensures
        association_list(r) == array@,
{
    let mut tmp = associations_new_const();
    let _ = associations_try_extend_from_slice(&mut tmp, &array);
    assert(Seq::<u8>::empty() + array@ =~= array@);
    tmp
}

impl Aviffy {
    /// Adds a property to the container and its association to `prop_ids`.
    /// The container's capacity suffices for the properties of one still image,
    /// so the `TooManyProperties` error cannot come about here.
    fn push_color_prop(
        ipco: &mut IpcoBox,
        prop_ids: &mut ArrayVec<u8, 16>,
        prop: IpcoProp,
        essential: bool,
        Ghost(base): Ghost<Seq<u8>>,
        Ghost(first): Ghost<IpcoProp>,
        Ghost(extras): Ghost<Seq<(Seq<u8>, bool)>>,
        Ghost(encoded): Ghost<Seq<u8>>,
    ) -> (r: Result<(), SerializeError>)
        requires
            extras_inv(old(ipco)@, association_list(*old(prop_ids)), base, first, extras),
            extras.len() < 7,
            prop_bytes(prop) == encoded,
        ensures
            r is Ok,
            extras_inv(
                final(ipco)@,
                association_list(*final(prop_ids)),
                base,
                first,
                extras.push((encoded, essential)),
            ),
    {
        let ghost old_props = ipco@;
        let id = match ipco.push(prop) {
            Some(id) => id,
            None => return Err(SerializeError::TooManyProperties),
        };
        if essential {
            associations_push(prop_ids, id | ESSENTIAL_BIT);
        } else {
            associations_push(prop_ids, id);
        }
        proof {
            lemma_props_bytes_push(old_props, prop);
            lemma_extras_step(base, extras, (encoded, essential), seq![1u8, 2u8 | 0x80u8, 3u8]);
        }
        Ok(())
    }

    /// Adds the optional properties of the color image, in the order `color_extras` gives.
    #[verifier::rlimit(60)]
    fn push_color_extras(&self, ipco: &mut IpcoBox, prop_ids: &mut ArrayVec<u8, 16>) -> (r: Result<(), SerializeError>)
        requires
            old(ipco)@.len() == 3,
            association_list(*old(prop_ids)) == seq![1u8, 2u8 | 0x80u8, 3u8],
        ensures
            r is Ok,
            final(ipco)@.len() == 3 + self.color_extras().len(),
            self.color_extras().len() <= 7,
            final(ipco)@[0] == old(ipco)@[0],
            props_bytes(final(ipco)@) == props_bytes(old(ipco)@) + extras_bytes(self.color_extras()),
            association_list(*final(prop_ids)) == seq![1u8, 2u8 | 0x80u8, 3u8] + extras_assoc(
                self.color_extras(),
                4,
            ),
    {
        let ghost base_props = props_bytes(ipco@);
        let ghost first = ipco@[0];
        let ghost mut extras: Seq<(Seq<u8>, bool)> = Seq::empty();
        assert(association_list(*prop_ids) =~= seq![1u8, 2u8 | 0x80u8, 3u8] + extras_assoc(extras, 4));
        assert(base_props + extras_bytes(extras) =~= base_props);
        assert(extras_inv(ipco@, association_list(*prop_ids), base_props, first, extras));

        // An ICC profile takes precedence over CICP when both are set.
        match &self.icc_profile {
            Some(icc_data) => {
                let icc = icc_data.clone();
                assert(icc@ =~= icc_data@);
                let prop = IpcoProp::ColrIcc(ColrIccBox { icc_data: icc });
                assert(prop_bytes(prop) == colr_icc_bytes(icc_data@)) by {
                    reveal(prop_bytes);
                }
                Self::push_color_prop(
                    ipco,
                    prop_ids,
                    prop,
                    false,
                    Ghost(base_props),
                    Ghost(first),
                    Ghost(extras),
                    Ghost(colr_icc_bytes(icc_data@)),
                )?;
                proof {
                    extras = extras.push((colr_icc_bytes(icc_data@), false));
                }
            },
            None => {
                if self.colr != ColrBox::default() {
                    // Redundant with the AV1 payload.
                    let prop = IpcoProp::Colr(self.colr);
                    assert(prop_bytes(prop) == colr_nclx_bytes(self.colr)) by {
                        reveal(prop_bytes);
                    }
                    Self::push_color_prop(
                        ipco,
                        prop_ids,
                        prop,
                        false,
                        Ghost(base_props),
                        Ghost(first),
                        Ghost(extras),
                        Ghost(colr_nclx_bytes(self.colr)),
                    )?;
                    proof {
                        extras = extras.push((colr_nclx_bytes(self.colr), false));
                    }
                }
            },
        }

        assert(extras =~= self.colr_part());
        let ghost mut done = self.colr_part();
        if let Some(clli) = self.clli {
            let prop = IpcoProp::Clli(clli);
            assert(prop_bytes(prop) == clli_bytes(clli)) by {
                reveal(prop_bytes);
            }
            Self::push_color_prop(
                ipco,
                prop_ids,
                prop,
                false,
                Ghost(base_props),
                Ghost(first),
                Ghost(extras),
                Ghost(clli_bytes(clli)),
            )?;
            proof {
                extras = extras.push((clli_bytes(clli), false));
            }
        }
        assert(extras =~= done + self.clli_part());
        proof {
            done = done + self.clli_part();
        }
        if let Some(mdcv) = self.mdcv {
            let prop = IpcoProp::Mdcv(mdcv);
            assert(prop_bytes(prop) == mdcv_bytes(mdcv)) by {
                reveal(prop_bytes);
            }
            Self::push_color_prop(
                ipco,
                prop_ids,
                prop,
                false,
                Ghost(base_props),
                Ghost(first),
                Ghost(extras),
                Ghost(mdcv_bytes(mdcv)),
            )?;
            proof {
                extras = extras.push((mdcv_bytes(mdcv), false));
            }
        }
        assert(extras =~= done + self.mdcv_part());
        proof {
            done = done + self.mdcv_part();
        }
        if let Some(irot) = self.irot {
            let prop = IpcoProp::Irot(irot);
            assert(prop_bytes(prop) == irot_bytes(irot)) by {
                reveal(prop_bytes);
            }
            Self::push_color_prop(
                ipco,
                prop_ids,
                prop,
                true,
                Ghost(base_props),
                Ghost(first),
                Ghost(extras),
                Ghost(irot_bytes(irot)),
            )?;
            proof {
                extras = extras.push((irot_bytes(irot), true));
            }
        }
        assert(extras =~= done + self.irot_part());
        proof {
            done = done + self.irot_part();
        }
        if let Some(imir) = self.imir {
            let prop = IpcoProp::Imir(imir);
            assert(prop_bytes(prop) == imir_bytes(imir)) by {
                reveal(prop_bytes);
            }
            Self::push_color_prop(
                ipco,
                prop_ids,
                prop,
                true,
                Ghost(base_props),
                Ghost(first),
                Ghost(extras),
                Ghost(imir_bytes(imir)),
            )?;
            proof {
                extras = extras.push((imir_bytes(imir), true));
            }
        }
        assert(extras =~= done + self.imir_part());
        proof {
            done = done + self.imir_part();
        }
        if let Some(clap) = self.clap {
            let prop = IpcoProp::Clap(clap);
            assert(prop_bytes(prop) == clap_bytes(clap)) by {
                reveal(prop_bytes);
            }
            Self::push_color_prop(
                ipco,
                prop_ids,
                prop,
                true,
                Ghost(base_props),
                Ghost(first),
                Ghost(extras),
                Ghost(clap_bytes(clap)),
            )?;
            proof {
                extras = extras.push((clap_bytes(clap), true));
            }
        }
        assert(extras =~= done + self.clap_part());
        proof {
            done = done + self.clap_part();
        }
        if let Some(pasp) = self.pasp {
            let prop = IpcoProp::Pasp(pasp);
            assert(prop_bytes(prop) == pasp_bytes(pasp)) by {
                reveal(prop_bytes);
            }
            Self::push_color_prop(
                ipco,
                prop_ids,
                prop,
                false,
                Ghost(base_props),
                Ghost(first),
                Ghost(extras),
                Ghost(pasp_bytes(pasp)),
            )?;
            proof {
                extras = extras.push((pasp_bytes(pasp), false));
            }
        }
        assert(extras =~= done + self.pasp_part());
        assert(extras == self.color_extras()) by {
            reveal(Aviffy::color_extras);
        }
        Ok(())
    }

    #[verifier::rlimit(60)]
    fn make_boxes<'data>(
        &'data self,
        color_av1_data: &'data [u8],
        alpha_av1_data: Option<&'data [u8]>,
        width: u32,
        height: u32,
        depth_bits: u8,
    ) -> (r: Result<AvifFile<'data>, SerializeError>)
        ensures
            !valid_depth(depth_bits) ==> r == Err::<AvifFile<'data>, _>(SerializeError::UnsupportedDepth),
            valid_depth(depth_bits) ==> r is Ok,
            r matches Ok(f) ==> {
                &&& f.primary_item_id == 1
                &&& f.items_view() == self.still_items(alpha_av1_data is Some)
                &&& f.iloc_view() == self.still_iloc(color_av1_data@, opt_view(alpha_av1_data))
                &&& f.irefs_view() == self.still_irefs(alpha_av1_data is Some)
                &&& find_ispe(f.ipco@) == Some(IspeBox { width, height })
                &&& f.props_view() == self.still_props(alpha_av1_data is Some, width, height, depth_bits)
                &&& f.ipma_view() == self.still_ipma(alpha_av1_data is Some)
            },
    {
        if !(depth_bits == 8 || depth_bits == 10 || depth_bits == 12) {
            return Err(SerializeError::UnsupportedDepth);
        }
        let mut image_items = infes_new();
        let mut iloc_items = ilocs_new();
        let mut ipma_entries = ipmas_new();
        let mut irefs = irefs_new();
        let mut ipco = IpcoBox::new();
        let color_image_id: u16 = 1;
        let alpha_image_id: u16 = 2;
        let mut next_item_id: u16 = 3;
        let color_depth_bits = depth_bits;
        let alpha_depth_bits = depth_bits;  // AVIF requires color and alpha to have the same depth

        infes_push(&mut image_items, InfeBox { id: color_image_id, typ: FourCC(AV01), content_type: Vec::new() });

        let ispe_prop = match ipco.push(IpcoProp::Ispe(IspeBox { width, height })) {
            Some(p) => p,
            None => return Err(SerializeError::TooManyProperties),
        };
        let ghost props0 = ipco@;

        // Redundant with the AV1 payload, but some decoders check that it matches.
        let min_profile: u8 = if color_depth_bits >= 12 { 2 } else { 0 };
        let av1c_color = Av1CBox {
            seq_profile: if self.min_seq_profile >= min_profile { self.min_seq_profile } else { min_profile },
            seq_level_idx_0: 31,
            seq_tier_0: false,
            high_bitdepth: color_depth_bits >= 10,
            twelve_bit: color_depth_bits >= 12,
            monochrome: self.monochrome,
            chroma_subsampling_x: self.chroma_subsampling.0,
            chroma_subsampling_y: self.chroma_subsampling.1,
            chroma_sample_position: 0,
        };
        let av1c_color_prop = match ipco.push(IpcoProp::Av1C(av1c_color)) {
            Some(p) => p,
            None => return Err(SerializeError::TooManyProperties),
        };
        let ghost props1 = ipco@;
        let pixi_3 = match ipco.push(IpcoProp::Pixi(PixiBox { channels: 3, depth: color_depth_bits })) {
            Some(p) => p,
            None => return Err(SerializeError::TooManyProperties),
        };
        let ghost base_props = ispe_bytes(IspeBox { width, height }) + av1c_bytes(
            self.color_av1c(depth_bits),
            Seq::empty(),
        ) + pixi_bytes(PixiBox { channels: 3, depth: depth_bits });
        proof {
            lemma_props_bytes_push(Seq::empty(), IpcoProp::Ispe(IspeBox { width, height }));
            lemma_props_bytes_push(props0, IpcoProp::Av1C(av1c_color));
            lemma_props_bytes_push(props1, IpcoProp::Pixi(PixiBox { channels: 3, depth: color_depth_bits }));
            assert(prop_bytes(IpcoProp::Ispe(IspeBox { width, height })) == ispe_bytes(
                IspeBox { width, height },
            )) by {
                reveal(prop_bytes);
            }
            assert(prop_bytes(IpcoProp::Av1C(av1c_color)) == av1c_bytes(
                self.color_av1c(depth_bits),
                Seq::empty(),
            )) by {
                reveal(prop_bytes);
            }
            assert(prop_bytes(IpcoProp::Pixi(PixiBox { channels: 3, depth: color_depth_bits }))
                == pixi_bytes(PixiBox { channels: 3, depth: depth_bits })) by {
                reveal(prop_bytes);
            }
            assert(Seq::<u8>::empty() + ispe_bytes(IspeBox { width, height }) =~= ispe_bytes(
                IspeBox { width, height },
            ));
            assert(props_bytes(ipco@) == base_props);
            assert(find_ispe(ipco@) == Some(IspeBox { width, height }));
        }

        let mut ipma = IpmaEntry {
            item_id: color_image_id,
            prop_ids: from_array([ispe_prop, av1c_color_prop | ESSENTIAL_BIT, pixi_3]),
        };
        let _ = self.push_color_extras(&mut ipco, &mut ipma.prop_ids);
        let ghost color_props = ipco@;
        assert(find_ispe(ipco@) == Some(IspeBox { width, height }));
        let ghost color_assoc = seq![1u8, 2u8 | 0x80u8, 3u8] + extras_assoc(self.color_extras(), 4);
        assert(association_list(ipma.prop_ids) == color_assoc);
        ipmas_push(&mut ipma_entries, ipma);
        let ghost mut gm: Seq<IpmaView> = seq![(1u16, color_assoc)];
        assert(ipma_list(ipma_entries).map_values(|e: IpmaEntry| ipma_view(e)) =~= gm);

        let ghost mut gi: Seq<InfeView> = seq![(1u16, AV01, Seq::<u8>::empty())];
        let ghost mut gl: Seq<IlocView> = Seq::empty();
        let ghost mut gr: Seq<IrefEntryBox> = Seq::empty();
        assert(infe_list(image_items).map_values(|i: InfeBox| infe_view(i)) =~= gi);
        assert(iloc_list(iloc_items).map_values(|it: IlocItem| iloc_view(it)) =~= gl);
        match &self.exif {
            Some(exif_vec) => {
                let exif_data = exif_vec.as_slice();
                let exif_id = next_item_id;
                next_item_id = next_item_id + 1;
                let ghost items_prev = infe_list(image_items);
                let ghost iloc_prev = iloc_list(iloc_items);
                infes_push(&mut image_items, InfeBox { id: exif_id, typ: FourCC(EXIF), content_type: Vec::new() });
                ilocs_push(&mut iloc_items, IlocItem { id: exif_id, extents: [IlocExtent { data: exif_data }] });
                irefs_push(&mut irefs, IrefEntryBox { from_id: exif_id, to_id: color_image_id, typ: FourCC(CDSC) });
                proof {
                    gi = gi.push((3u16, EXIF, Seq::<u8>::empty()));
                    gl = gl.push((3u16, exif_vec@));
                    gr = gr.push(IrefEntryBox { from_id: 3, to_id: 1, typ: FourCC(CDSC) });
                    assert(infe_list(image_items).map_values(|i: InfeBox| infe_view(i)) =~= gi);
                    assert(iloc_list(iloc_items).map_values(|it: IlocItem| iloc_view(it)) =~= gl);
                }
            },
            None => {},
        }
        match &self.xmp {
            Some(xmp_vec) => {
                let xmp_data = xmp_vec.as_slice();
                let xmp_id = next_item_id;
                next_item_id = next_item_id + 1;
                let rdf: [u8; 19] = [97, 112, 112, 108, 105, 99, 97, 116, 105, 111, 110, 47, 114, 100, 102, 43, 120, 109, 108];
                let mut content_type: Vec<u8> = Vec::new();
                crate::writer::write_bytes(&mut content_type, &rdf);
                assert(content_type@ =~= rdf_xml_mime());
                infes_push(&mut image_items, InfeBox { id: xmp_id, typ: FourCC(MIME), content_type });
                ilocs_push(&mut iloc_items, IlocItem { id: xmp_id, extents: [IlocExtent { data: xmp_data }] });
                irefs_push(&mut irefs, IrefEntryBox { from_id: xmp_id, to_id: color_image_id, typ: FourCC(CDSC) });
                proof {
                    gi = gi.push((self.xmp_id(), MIME, rdf_xml_mime()));
                    gl = gl.push((self.xmp_id(), xmp_vec@));
                    gr = gr.push(IrefEntryBox { from_id: self.xmp_id(), to_id: 1, typ: FourCC(CDSC) });
                    assert(infe_list(image_items).map_values(|i: InfeBox| infe_view(i)) =~= gi);
                    assert(iloc_list(iloc_items).map_values(|it: IlocItem| iloc_view(it)) =~= gl);
                }
            },
            None => {},
        }

        let ghost mut gp = base_props + extras_bytes(self.color_extras());
        if let Some(alpha_data) = alpha_av1_data {
            infes_push(&mut image_items, InfeBox { id: alpha_image_id, typ: FourCC(AV01), content_type: Vec::new() });
            irefs_push(&mut irefs, IrefEntryBox { from_id: alpha_image_id, to_id: color_image_id, typ: FourCC(AUXL) });
            proof {
                gi = gi.push((2u16, AV01, Seq::<u8>::empty()));
                gr = gr.push(IrefEntryBox { from_id: 2, to_id: 1, typ: FourCC(AUXL) });
                assert(infe_list(image_items).map_values(|i: InfeBox| infe_view(i)) =~= gi);
            }
            if self.premultiplied_alpha {
                irefs_push(&mut irefs, IrefEntryBox { from_id: color_image_id, to_id: alpha_image_id, typ: FourCC(PREM) });
                proof {
                    gr = gr.push(IrefEntryBox { from_id: 1, to_id: 2, typ: FourCC(PREM) });
                }
            }
            let av1c_alpha = Av1CBox {
                seq_profile: if alpha_depth_bits >= 12 { 2 } else { 0 },
                seq_level_idx_0: 31,
                seq_tier_0: false,
                high_bitdepth: alpha_depth_bits >= 10,
                twelve_bit: alpha_depth_bits >= 12,
                monochrome: true,
                chroma_subsampling_x: true,
                chroma_subsampling_y: true,
                chroma_sample_position: 0,
            };
            let ghost pa0 = ipco@;
            let av1c_alpha_prop = match ipco.push(IpcoProp::Av1C(av1c_alpha)) {
                Some(p) => p,
                None => return Err(SerializeError::TooManyProperties),
            };
            let ghost pa1 = ipco@;
            let pixi_1 = match ipco.push(IpcoProp::Pixi(PixiBox { channels: 1, depth: alpha_depth_bits })) {
                Some(p) => p,
                None => return Err(SerializeError::TooManyProperties),
            };
            let ghost pa2 = ipco@;
            let auxc_prop = match ipco.push(IpcoProp::AuxC(AuxCBox {})) {
                Some(p) => p,
                None => return Err(SerializeError::TooManyProperties),
            };
            proof {
                lemma_props_bytes_push(pa0, IpcoProp::Av1C(av1c_alpha));
                lemma_props_bytes_push(pa1, IpcoProp::Pixi(PixiBox { channels: 1, depth: alpha_depth_bits }));
                lemma_props_bytes_push(pa2, IpcoProp::AuxC(AuxCBox {}));
                let ab = av1c_bytes(alpha_av1c(depth_bits), Seq::empty());
                let pb = pixi_bytes(PixiBox { channels: 1, depth: depth_bits });
                assert(prop_bytes(IpcoProp::Av1C(av1c_alpha)) == ab) by {
                    reveal(prop_bytes);
                }
                assert(prop_bytes(IpcoProp::Pixi(PixiBox { channels: 1, depth: alpha_depth_bits }))
                    == pb) by {
                    reveal(prop_bytes);
                }
                assert(prop_bytes(IpcoProp::AuxC(AuxCBox {})) == auxc_bytes()) by {
                    reveal(prop_bytes);
                }
                assert(props_bytes(ipco@) == gp + ab + pb + auxc_bytes());
                lemma_concat_associative(gp, ab + pb, auxc_bytes());
                lemma_concat_associative(gp, ab, pb);
                gp = gp + (ab + pb + auxc_bytes());
                assert(ipco@[0] == color_props[0]);
            }
            let alpha_ids = from_array([ispe_prop, av1c_alpha_prop | ESSENTIAL_BIT, auxc_prop, pixi_1]);
            let ghost n = 3 + self.color_extras().len();
            assert(association_list(alpha_ids) =~= seq![1u8, ((n + 1) as u8) | 0x80u8, (n + 3) as u8, (n + 2) as u8]);
            ipmas_push(&mut ipma_entries, IpmaEntry { item_id: alpha_image_id, prop_ids: alpha_ids });
            proof {
                gm = gm.push((2u16, seq![1u8, ((n + 1) as u8) | 0x80u8, (n + 3) as u8, (n + 2) as u8]));
                assert(ipma_list(ipma_entries).map_values(|e: IpmaEntry| ipma_view(e)) =~= gm);
            }
            // Alpha before color, so that a partial file can already be displayed.
            ilocs_push(&mut iloc_items, IlocItem { id: alpha_image_id, extents: [IlocExtent { data: alpha_data }] });
            proof {
                gl = gl.push((2u16, alpha_data@));
                assert(iloc_list(iloc_items).map_values(|it: IlocItem| iloc_view(it)) =~= gl);
            }
        } else {
            assert(gp + Seq::empty() =~= gp);
        }
        ilocs_push(&mut iloc_items, IlocItem { id: color_image_id, extents: [IlocExtent { data: color_av1_data }] });
        proof {
            gl = gl.push((1u16, color_av1_data@));
            assert(iloc_list(iloc_items).map_values(|it: IlocItem| iloc_view(it)) =~= gl);
        }

        let file = AvifFile {
            primary_item_id: color_image_id,
            items: image_items,
            iloc_items,
            ipco,
            ipma_entries,
            irefs,
        };
        proof {
            let has_alpha = alpha_av1_data is Some;
            assert(gi =~= self.still_items(has_alpha));
            assert(gl =~= self.still_iloc(color_av1_data@, opt_view(alpha_av1_data)));
            assert(gr =~= self.still_irefs(has_alpha));
            assert(file.irefs_view() =~= gr);
            assert(gp == self.still_props(has_alpha, width, height, depth_bits)) by {
                reveal(Aviffy::still_props);
            }
            assert(gm == self.still_ipma(has_alpha)) by {
                reveal(Aviffy::still_ipma);
                assert(gm =~= self.still_ipma(has_alpha));
            }
        }
        Ok(file)
    }
}

impl Aviffy {
    /// This configuration with the matrix coefficients set.
    pub closed spec fn with_matrix_coefficients(self, matrix_coefficients: constants::MatrixCoefficients) -> Self {
        Aviffy { colr: ColrBox { matrix_coefficients: matrix_coefficients, ..self.colr }, ..self }
    }

    /// Sets the matrix coefficients of the `colr` box; must match the AV1 payload.
    /// Defaults to BT.601, which is what decoders assume when `colr` is missing.
    pub fn set_matrix_coefficients(&mut self, matrix_coefficients: constants::MatrixCoefficients) -> (r: &mut Self)
        ensures
            *r == old(self).with_matrix_coefficients(matrix_coefficients),
            *final(self) == *final(r),
    {
        self.colr.matrix_coefficients = matrix_coefficients;
        self
    }

    /// Same as [`Self::set_matrix_coefficients`].
    pub fn matrix_coefficients(&mut self, matrix_coefficients: constants::MatrixCoefficients) -> (r: &mut Self)
        ensures
            *r == old(self).with_matrix_coefficients(matrix_coefficients),
            *final(self) == *final(r),
    {
        self.set_matrix_coefficients(matrix_coefficients)
    }

    /// This configuration with the transfer characteristics set.
    pub closed spec fn with_transfer_characteristics(self, transfer_characteristics: constants::TransferCharacteristics) -> Self {
        Aviffy { colr: ColrBox { transfer_characteristics: transfer_characteristics, ..self.colr }, ..self }
    }

    /// Sets the transfer characteristics of the `colr` box; must match the AV1 payload.
    /// Defaults to sRGB.
    pub fn set_transfer_characteristics(&mut self, transfer_characteristics: constants::TransferCharacteristics) -> (r: &mut Self)
        ensures
            *r == old(self).with_transfer_characteristics(transfer_characteristics),
            *final(self) == *final(r),
    {
        self.colr.transfer_characteristics = transfer_characteristics;
        self
    }

    /// Same as [`Self::set_transfer_characteristics`].
    pub fn transfer_characteristics(&mut self, transfer_characteristics: constants::TransferCharacteristics) -> (r: &mut Self)
        ensures
            *r == old(self).with_transfer_characteristics(transfer_characteristics),
            *final(self) == *final(r),
    {
        self.set_transfer_characteristics(transfer_characteristics)
    }

    /// This configuration with the color primaries set.
    pub closed spec fn with_color_primaries(self, color_primaries: constants::ColorPrimaries) -> Self {
        Aviffy { colr: ColrBox { color_primaries: color_primaries, ..self.colr }, ..self }
    }

    /// Sets the colour primaries of the `colr` box; must match the AV1 payload.
    /// Defaults to sRGB/Rec.709.
    pub fn set_color_primaries(&mut self, color_primaries: constants::ColorPrimaries) -> (r: &mut Self)
        ensures
            *r == old(self).with_color_primaries(color_primaries),
            *final(self) == *final(r),
    {
        self.colr.color_primaries = color_primaries;
        self
    }

    /// Same as [`Self::set_color_primaries`].
    pub fn color_primaries(&mut self, color_primaries: constants::ColorPrimaries) -> (r: &mut Self)
        ensures
            *r == old(self).with_color_primaries(color_primaries),
            *final(self) == *final(r),
    {
        self.set_color_primaries(color_primaries)
    }

    /// This configuration with the full color range set.
    pub closed spec fn with_full_color_range(self, full_range: bool) -> Self {
        Aviffy { colr: ColrBox { full_range_flag: full_range, ..self.colr }, ..self }
    }

    /// Sets the full-range flag of the `colr` box; must match the AV1 payload. Defaults to full.
    pub fn set_full_color_range(&mut self, full_range: bool) -> (r: &mut Self)
        ensures
            *r == old(self).with_full_color_range(full_range),
            *final(self) == *final(r),
    {
        self.colr.full_range_flag = full_range;
        self
    }

    /// Same as [`Self::set_full_color_range`].
    pub fn full_color_range(&mut self, full_range: bool) -> (r: &mut Self)
        ensures
            *r == old(self).with_full_color_range(full_range),
            *final(self) == *final(r),
    {
        self.set_full_color_range(full_range)
    }

    /// This configuration with the content light level set.
    pub closed spec fn with_content_light_level(self, max_content_light_level: u16, max_pic_average_light_level: u16) -> Self {
        Aviffy { clli: Some(ClliBox { max_content_light_level, max_pic_average_light_level }), ..self }
    }

    /// Sets the content light level information for HDR (CEA-861.3), in cd/m²:
    /// the brightest pixel (MaxCLL) and the brightest frame average (MaxFALL).
    /// Adds a `clli` property.
    pub fn set_content_light_level(&mut self, max_content_light_level: u16, max_pic_average_light_level: u16) -> (r: &mut Self)
        ensures
            *r == old(self).with_content_light_level(max_content_light_level, max_pic_average_light_level),
            *final(self) == *final(r),
    {
        self.clli = Some(ClliBox { max_content_light_level, max_pic_average_light_level });
        self
    }

    /// This configuration with the mastering display set.
    pub closed spec fn with_mastering_display(self, primaries: [(u16, u16); 3], white_point: (u16, u16), max_luminance: u32, min_luminance: u32) -> Self {
        Aviffy { mdcv: Some(MdcvBox { primaries, white_point, max_luminance, min_luminance }), ..self }
    }

    /// Sets the mastering display colour volume for HDR (SMPTE ST 2086).
    /// `primaries` (green, blue, red) and `white_point` are CIE 1931 xy × 50000;
    /// luminances are in cd/m² × 10000. Adds an `mdcv` property.
    pub fn set_mastering_display(&mut self, primaries: [(u16, u16); 3], white_point: (u16, u16), max_luminance: u32, min_luminance: u32) -> (r: &mut Self)
        ensures
            *r == old(self).with_mastering_display(primaries, white_point, max_luminance, min_luminance),
            *final(self) == *final(r),
    {
        self.mdcv = Some(MdcvBox { primaries, white_point, max_luminance, min_luminance });
        self
    }

    /// This configuration with the rotation set.
    pub closed spec fn with_rotation(self, angle: u8) -> Self {
        Aviffy { irot: Some(IrotBox { angle: angle & 0x03u8 }), ..self }
    }

    /// Sets the rotation, counter-clockwise: 0 = 0°, 1 = 90°, 2 = 180°, 3 = 270°;
    /// only the two low bits of `angle` are kept. Adds an `irot` property.
    pub fn set_rotation(&mut self, angle: u8) -> (r: &mut Self)
        ensures
            *r == old(self).with_rotation(angle),
            *final(self) == *final(r),
    {
        self.irot = Some(IrotBox { angle: angle & 0x03 });
        self
    }

    /// This configuration with the mirror set.
    pub closed spec fn with_mirror(self, axis: u8) -> Self {
        Aviffy { imir: Some(ImirBox { axis: axis & 0x01u8 }), ..self }
    }

    /// Sets the mirror axis: 0 = vertical axis (left-right flip), 1 = horizontal axis
    /// (top-bottom flip); only the low bit of `axis` is kept. Adds an `imir` property.
    pub fn set_mirror(&mut self, axis: u8) -> (r: &mut Self)
        ensures
            *r == old(self).with_mirror(axis),
            *final(self) == *final(r),
    {
        self.imir = Some(ImirBox { axis: axis & 0x01 });
        self
    }

    /// This configuration with the clean aperture set.
    pub closed spec fn with_clean_aperture(self, clap: ClapBox) -> Self {
        Aviffy { clap: Some(clap), ..self }
    }

    /// Sets the clean aperture, a centered crop rectangle given by rationals. Adds a `clap` property.
    pub fn set_clean_aperture(&mut self, clap: ClapBox) -> (r: &mut Self)
        ensures
            *r == old(self).with_clean_aperture(clap),
            *final(self) == *final(r),
    {
        self.clap = Some(clap);
        self
    }

    /// This configuration with the pixel aspect ratio set.
    pub closed spec fn with_pixel_aspect_ratio(self, h_spacing: u32, v_spacing: u32) -> Self {
        Aviffy { pasp: Some(PaspBox { h_spacing, v_spacing }), ..self }
    }

    /// Sets the pixel aspect ratio `h_spacing`:`v_spacing`; (1, 1) is square. Adds a `pasp` property.
    pub fn set_pixel_aspect_ratio(&mut self, h_spacing: u32, v_spacing: u32) -> (r: &mut Self)
        ensures
            *r == old(self).with_pixel_aspect_ratio(h_spacing, v_spacing),
            *final(self) == *final(r),
    {
        self.pasp = Some(PaspBox { h_spacing, v_spacing });
        self
    }

    /// This configuration with the xmp set.
    pub closed spec fn with_xmp(self, xmp: Vec<u8>) -> Self {
        Aviffy { xmp: Some(xmp), ..self }
    }

    /// Sets XMP metadata (an XMP/RDF XML document), written as an item of its own.
    pub fn set_xmp(&mut self, xmp: Vec<u8>) -> (r: &mut Self)
        ensures
            *r == old(self).with_xmp(xmp),
            *final(self) == *final(r),
    {
        self.xmp = Some(xmp);
        self
    }

    /// This configuration with the icc profile set.
    pub closed spec fn with_icc_profile(self, icc_data: Vec<u8>) -> Self {
        Aviffy { icc_profile: Some(icc_data), ..self }
    }

    /// Sets an ICC colour profile, written as a `colr` box of type `prof`; when set, it
    /// replaces the CICP `colr` box.
    pub fn set_icc_profile(&mut self, icc_data: Vec<u8>) -> (r: &mut Self)
        ensures
            *r == old(self).with_icc_profile(icc_data),
            *final(self) == *final(r),
    {
        self.icc_profile = Some(icc_data);
        self
    }

    /// This configuration with the chroma subsampling set.
    pub closed spec fn with_chroma_subsampling(self, subsampled_xy: (bool, bool)) -> Self {
        Aviffy { chroma_subsampling: subsampled_xy, ..self }
    }

    /// `(false, false)` is 4:4:4, `(true, true)` is 4:2:0. The chroma sample position is always 0.
    pub fn set_chroma_subsampling(&mut self, subsampled_xy: (bool, bool)) -> (r: &mut Self)
        ensures
            *r == old(self).with_chroma_subsampling(subsampled_xy),
            *final(self) == *final(r),
    {
        self.chroma_subsampling = subsampled_xy;
        self
    }

    /// This configuration with the monochrome set.
    pub closed spec fn with_monochrome(self, monochrome: bool) -> Self {
        Aviffy { monochrome: monochrome, ..self }
    }

    /// Sets whether the image is monochrome (grayscale), as declared in the AV1 configuration.
    pub fn set_monochrome(&mut self, monochrome: bool) -> (r: &mut Self)
        ensures
            *r == old(self).with_monochrome(monochrome),
            *final(self) == *final(r),
    {
        self.monochrome = monochrome;
        self
    }

    /// This configuration with the exif set.
    pub closed spec fn with_exif(self, exif: Vec<u8>) -> Self {
        Aviffy { exif: Some(exif), ..self }
    }

    /// Sets Exif metadata, written as an item of its own.
    pub fn set_exif(&mut self, exif: Vec<u8>) -> (r: &mut Self)
        ensures
            *r == old(self).with_exif(exif),
            *final(self) == *final(r),
    {
        self.exif = Some(exif);
        self
    }

    /// This configuration with the seq profile set.
    pub closed spec fn with_seq_profile(self, seq_profile: u8) -> Self {
        Aviffy { min_seq_profile: seq_profile, ..self }
    }

    /// Sets the minimum AV1 sequence profile; 12-bit depth raises it to at least 2.
    pub fn set_seq_profile(&mut self, seq_profile: u8) -> (r: &mut Self)
        ensures
            *r == old(self).with_seq_profile(seq_profile),
            *final(self) == *final(r),
    {
        self.min_seq_profile = seq_profile;
        self
    }

    /// This configuration with the width set.
    pub closed spec fn with_width(self, width: u32) -> Self {
        Aviffy { width: width, ..self }
    }

    /// Sets the width that `write_slice` uses.
    pub fn set_width(&mut self, width: u32) -> (r: &mut Self)
        ensures
            *r == old(self).with_width(width),
            *final(self) == *final(r),
    {
        self.width = width;
        self
    }

    /// This configuration with the height set.
    pub closed spec fn with_height(self, height: u32) -> Self {
        Aviffy { height: height, ..self }
    }

    /// Sets the height that `write_slice` uses.
    pub fn set_height(&mut self, height: u32) -> (r: &mut Self)
        ensures
            *r == old(self).with_height(height),
            *final(self) == *final(r),
    {
        self.height = height;
        self
    }

    /// This configuration with the bit depth set.
    pub closed spec fn with_bit_depth(self, bit_depth: u8) -> Self {
        Aviffy { bit_depth: bit_depth, ..self }
    }

    /// Sets the bit depth that `write_slice` uses: 8, 10 or 12.
    pub fn set_bit_depth(&mut self, bit_depth: u8) -> (r: &mut Self)
        ensures
            *r == old(self).with_bit_depth(bit_depth),
            *final(self) == *final(r),
    {
        self.bit_depth = bit_depth;
        self
    }

    /// This configuration with the premultiplied alpha set.
    pub closed spec fn with_premultiplied_alpha(self, is_premultiplied: bool) -> Self {
        Aviffy { premultiplied_alpha: is_premultiplied, ..self }
    }

    /// Sets whether the colour channels were multiplied by alpha before encoding; decoders are
    /// told to undo it. Only declared when an alpha image is written.
    pub fn set_premultiplied_alpha(&mut self, is_premultiplied: bool) -> (r: &mut Self)
        ensures
            *r == old(self).with_premultiplied_alpha(is_premultiplied),
            *final(self) == *final(r),
    {
        self.premultiplied_alpha = is_premultiplied;
        self
    }

    /// Same as [`Self::set_premultiplied_alpha`].
    pub fn premultiplied_alpha(&mut self, is_premultiplied: bool) -> (r: &mut Self)
        ensures
            *r == old(self).with_premultiplied_alpha(is_premultiplied),
            *final(self) == *final(r),
    {
        self.set_premultiplied_alpha(is_premultiplied)
    }

    /// A configuration with no optional properties; image properties must be set to match the
    /// AV1 payload.
    pub fn new() -> (r: Self)
        ensures
            r == Aviffy::initial(),
    {
        Aviffy {
            premultiplied_alpha: false,
            min_seq_profile: 1,
            chroma_subsampling: (false, false),
            monochrome: false,
            width: 0,
            height: 0,
            bit_depth: 0,
            colr: ColrBox::default(),
            clli: None,
            mdcv: None,
            irot: None,
            imir: None,
            clap: None,
            pasp: None,
            icc_profile: None,
            exif: None,
            xmp: None,
        }
    }

    /// Makes an AVIF file from already-encoded AV1 data and appends it to `into_output`.
    ///
    /// `color_av1_data` is the color image; `alpha_av1_data`, if any, a monochrome image of
    /// the same size and depth holding transparency. `depth_bits` is 8, 10 or 12.
    /// On error nothing is appended.
    pub fn write(
        &self,
        into_output: &mut Vec<u8>,
        color_av1_data: &[u8],
        alpha_av1_data: Option<&[u8]>,
        width: u32,
        height: u32,
        depth_bits: u8,
    ) -> (r: Result<(), SerializeError>)
        ensures
            !valid_depth(depth_bits) ==> r == Err::<(), _>(SerializeError::UnsupportedDepth),
            valid_depth(depth_bits) && (width == 0 || height == 0) ==> r == Err::<(), _>(
                SerializeError::MissingDimensions,
            ),
            valid_depth(depth_bits) && width != 0 && height != 0 && self.still_len(
                color_av1_data@,
                opt_view(alpha_av1_data),
                width,
                height,
                depth_bits,
            ) > u32::MAX ==> r == Err::<(), _>(SerializeError::TooLarge),
            r is Ok <==> valid_depth(depth_bits) && width != 0 && height != 0 && self.still_len(
                color_av1_data@,
                opt_view(alpha_av1_data),
                width,
                height,
                depth_bits,
            ) <= u32::MAX,
            r is Ok ==> final(into_output)@ == old(into_output)@ + self.still_bytes(
                color_av1_data@,
                opt_view(alpha_av1_data),
                width,
                height,
                depth_bits,
            ),
            r is Err ==> final(into_output)@ == old(into_output)@,
    {
        let file = match self.make_boxes(color_av1_data, alpha_av1_data, width, height, depth_bits) {
            Ok(f) => f,
            Err(e) => return Err(e),
        };
        file.write_to_vec(into_output)
    }

    /// Same as [`Self::write`], with the width, height and depth set on this configuration.
    pub fn write_slice(
        &self,
        into_output: &mut Vec<u8>,
        color_av1_data: &[u8],
        alpha_av1_data: Option<&[u8]>,
    ) -> (r: Result<(), SerializeError>)
        ensures
            !valid_depth(self.bit_depth_of()) ==> r == Err::<(), _>(SerializeError::UnsupportedDepth),
            valid_depth(self.bit_depth_of()) && (self.width_of() == 0 || self.height_of() == 0)
                ==> r == Err::<(), _>(SerializeError::MissingDimensions),
            valid_depth(self.bit_depth_of()) && self.width_of() != 0 && self.height_of() != 0
                && self.still_len(
                color_av1_data@,
                opt_view(alpha_av1_data),
                self.width_of(),
                self.height_of(),
                self.bit_depth_of(),
            ) > u32::MAX ==> r == Err::<(), _>(SerializeError::TooLarge),
            r is Ok <==> valid_depth(self.bit_depth_of()) && self.width_of() != 0 && self.height_of()
                != 0 && self.still_len(
                color_av1_data@,
                opt_view(alpha_av1_data),
                self.width_of(),
                self.height_of(),
                self.bit_depth_of(),
            ) <= u32::MAX,
            r is Ok ==> final(into_output)@ == old(into_output)@ + self.still_bytes(
                color_av1_data@,
                opt_view(alpha_av1_data),
                self.width_of(),
                self.height_of(),
                self.bit_depth_of(),
            ),
            r is Err ==> final(into_output)@ == old(into_output)@,
    {
        self.write(into_output, color_av1_data, alpha_av1_data, self.width, self.height, self.bit_depth)
    }

    /// Makes an AVIF file from already-encoded AV1 data; see [`Self::write`].
    /// The inputs must be such that `write` succeeds on them.
    pub fn to_vec(
        &self,
        color_av1_data: &[u8],
        alpha_av1_data: Option<&[u8]>,
        width: u32,
        height: u32,
        depth_bits: u8,
    ) -> (r: Vec<u8>)
        requires
            valid_depth(depth_bits),
            width != 0,
            height != 0,
            self.still_len(color_av1_data@, opt_view(alpha_av1_data), width, height, depth_bits)
                <= u32::MAX,
        ensures
            r@ == self.still_bytes(color_av1_data@, opt_view(alpha_av1_data), width, height, depth_bits),
    {
        let file = self.make_boxes(color_av1_data, alpha_av1_data, width, height, depth_bits).unwrap();
        let mut out: Vec<u8> = Vec::new();
        file.write_to_vec(&mut out).unwrap();
        assert(out@ =~= Seq::<u8>::empty() + self.still_bytes(
            color_av1_data@,
            opt_view(alpha_av1_data),
            width,
            height,
            depth_bits,
        ));
        out
    }
}

impl Aviffy {
    /// The file depends on the width, height and depth set on the configuration only
    /// through the arguments that carry them.
    proof fn lemma_size_fields_irrelevant(a: Aviffy, b: Aviffy)
        requires
            a.premultiplied_alpha == b.premultiplied_alpha,
            a.colr == b.colr,
            a.clli == b.clli,
            a.mdcv == b.mdcv,
            a.irot == b.irot,
            a.imir == b.imir,
            a.clap == b.clap,
            a.pasp == b.pasp,
            a.icc_profile == b.icc_profile,
            a.min_seq_profile == b.min_seq_profile,
            a.chroma_subsampling == b.chroma_subsampling,
            a.monochrome == b.monochrome,
            a.exif == b.exif,
            a.xmp == b.xmp,
        ensures
            forall|color: Seq<u8>, alpha: Option<Seq<u8>>, w: u32, h: u32, d: u8|
                a.still_bytes(color, alpha, w, h, d) == b.still_bytes(color, alpha, w, h, d)
                    && a.still_len(color, alpha, w, h, d) == b.still_len(color, alpha, w, h, d),
    {
        reveal(Aviffy::color_extras);
        reveal(Aviffy::still_props);
        reveal(Aviffy::still_ipma);
        assert(a.color_extras() == b.color_extras());
        assert forall|color: Seq<u8>, alpha: Option<Seq<u8>>, w: u32, h: u32, d: u8| #![auto]
            a.still_bytes(color, alpha, w, h, d) == b.still_bytes(color, alpha, w, h, d)
                && a.still_len(color, alpha, w, h, d) == b.still_len(color, alpha, w, h, d) by {
            assert(a.still_items(alpha is Some) == b.still_items(alpha is Some));
            assert(a.still_iloc(color, alpha) == b.still_iloc(color, alpha));
            assert(a.still_props(alpha is Some, w, h, d) == b.still_props(alpha is Some, w, h, d));
            assert(a.still_ipma(alpha is Some) == b.still_ipma(alpha is Some));
            assert(a.still_irefs(alpha is Some) == b.still_irefs(alpha is Some));
        }
    }
}

impl Aviffy {
    /// Where, in the file, the data of the `k`-th located item starts.
    pub closed spec fn still_data_start(
        self,
        color: Seq<u8>,
        alpha: Option<Seq<u8>>,
        width: u32,
        height: u32,
        depth_bits: u8,
        k: int,
    ) -> nat {
        mdat_payload_start(
            1,
            self.still_items(alpha is Some),
            self.still_iloc(color, alpha),
            self.still_props(alpha is Some, width, height, depth_bits),
            self.still_ipma(alpha is Some),
            self.still_irefs(alpha is Some),
        ) + data_offset(self.still_iloc(color, alpha), k)
    }

    /// Reading back a written still image: the `k`-th entry of the item locations, at its
    /// fixed place in the file, records the item's id, the offset of its data and its
    /// length, and the file holds exactly that item's data at that offset.
    pub proof fn lemma_still_roundtrip(
        self,
        color: Seq<u8>,
        alpha: Option<Seq<u8>>,
        width: u32,
        height: u32,
        depth_bits: u8,
        k: int,
    )
        requires
            self.still_len(color, alpha, width, height, depth_bits) <= u32::MAX,
            0 <= k < self.still_iloc(color, alpha).len(),
        ensures
            ({
                let f = self.still_bytes(color, alpha, width, height, depth_bits);
                let item = self.still_iloc(color, alpha)[k];
                let off = self.still_data_start(color, alpha, width, height, depth_bits, k);
                let at = still_iloc_entries_start() + 14 * k;
                &&& off + item.1.len() <= f.len()
                &&& off + item.1.len() <= u32::MAX
                &&& at + 14 <= f.len()
                &&& f.subrange(at, at + 14) == iloc_entry_bytes(item.0, off as u32, item.1.len() as u32)
                &&& f.subrange(off as int, (off + item.1.len()) as int) == item.1
            }),
    {
        lemma_file_item_roundtrip(
            1,
            self.still_items(alpha is Some),
            self.still_iloc(color, alpha),
            self.still_props(alpha is Some, width, height, depth_bits),
            self.still_ipma(alpha is Some),
            self.still_irefs(alpha is Some),
            k,
        );
    }

    /// The size that writing checks against 32 bits is the size of the file it writes.
    pub proof fn lemma_still_len(
        self,
        color: Seq<u8>,
        alpha: Option<Seq<u8>>,
        width: u32,
        height: u32,
        depth_bits: u8,
    )
        ensures
            self.still_bytes(color, alpha, width, height, depth_bits).len() == self.still_len(
                color,
                alpha,
                width,
                height,
                depth_bits,
            ),
    {
        lemma_file_len(
            1,
            self.still_items(alpha is Some),
            self.still_iloc(color, alpha),
            self.still_props(alpha is Some, width, height, depth_bits),
            self.still_ipma(alpha is Some),
            self.still_irefs(alpha is Some),
        );
    }

    /// The located items: the color image is the last, with id 1, and the alpha image, if
    /// any, the one before it, with id 2; Exif and XMP data, if set, come first.
    pub proof fn lemma_still_items_located(self, color: Seq<u8>, alpha: Option<Seq<u8>>)
        ensures
            ({
                let iloc = self.still_iloc(color, alpha);
                &&& iloc.len() >= 1
                &&& iloc.last() == (1u16, color)
                &&& alpha matches Some(a) ==> iloc.len() >= 2 && iloc[iloc.len() - 2] == (2u16, a)
            }),
    {
    }
}

impl Aviffy {
    /// Setting a rotation adds an essential `irot` property whose code is the two low bits
    /// of the angle, 0 to 3.
    pub proof fn lemma_rotation_property(self, angle: u8)
        ensures
            self.with_rotation(angle).color_extras().contains(
                (irot_bytes(IrotBox { angle: angle & 3u8 }), true),
            ),
            irot_bytes(IrotBox { angle: angle & 3u8 }) == mp4_box(IROT, seq![angle & 3u8]),
            angle & 3u8 <= 3,
    {
        reveal(Aviffy::color_extras);
        let a = self.with_rotation(angle);
        let pre = a.colr_part() + a.clli_part() + a.mdcv_part();
        assert(a.color_extras()[pre.len() as int] == (irot_bytes(IrotBox { angle: angle & 3u8 }), true));
        assert((angle & 3u8) & 3u8 == angle & 3u8) by (bit_vector);
        assert(angle & 3u8 <= 3) by (bit_vector);
    }

    /// Setting a mirror axis adds an essential `imir` property whose axis is the low bit of
    /// the argument, 0 or 1.
    pub proof fn lemma_mirror_property(self, axis: u8)
        ensures
            self.with_mirror(axis).color_extras().contains((imir_bytes(ImirBox { axis: axis & 1u8 }), true)),
            imir_bytes(ImirBox { axis: axis & 1u8 }) == mp4_box(IMIR, seq![axis & 1u8]),
            axis & 1u8 <= 1,
    {
        reveal(Aviffy::color_extras);
        let a = self.with_mirror(axis);
        let pre = a.colr_part() + a.clli_part() + a.mdcv_part() + a.irot_part();
        assert(a.color_extras()[pre.len() as int] == (imir_bytes(ImirBox { axis: axis & 1u8 }), true));
        assert((axis & 1u8) & 1u8 == axis & 1u8) by (bit_vector);
        assert(axis & 1u8 <= 1) by (bit_vector);
    }

    /// Setting the light levels adds a non-essential `clli` property.
    pub proof fn lemma_light_level_property(self, max_cll: u16, max_fall: u16)
        ensures
            self.with_content_light_level(max_cll, max_fall).color_extras().contains(
                (
                    clli_bytes(
                        ClliBox { max_content_light_level: max_cll, max_pic_average_light_level: max_fall },
                    ),
                    false,
                ),
            ),
    {
        reveal(Aviffy::color_extras);
        let a = self.with_content_light_level(max_cll, max_fall);
        assert(a.color_extras()[a.colr_part().len() as int] == a.clli_part()[0]);
    }

    /// Setting the mastering display adds a non-essential `mdcv` property.
    pub proof fn lemma_mastering_display_property(
        self,
        primaries: [(u16, u16); 3],
        white_point: (u16, u16),
        max_luminance: u32,
        min_luminance: u32,
    )
        ensures
            self.with_mastering_display(primaries, white_point, max_luminance, min_luminance).color_extras().contains(
                (mdcv_bytes(MdcvBox { primaries, white_point, max_luminance, min_luminance }), false),
            ),
    {
        reveal(Aviffy::color_extras);
        let b = self.with_mastering_display(primaries, white_point, max_luminance, min_luminance);
        assert(b.color_extras()[(b.colr_part() + b.clli_part()).len() as int] == b.mdcv_part()[0]);
    }

    /// Setting a clean aperture adds an essential `clap` property.
    pub proof fn lemma_clean_aperture_property(self, clap: ClapBox)
        ensures
            self.with_clean_aperture(clap).color_extras().contains((clap_bytes(clap), true)),
    {
        reveal(Aviffy::color_extras);
        let c = self.with_clean_aperture(clap);
        let c_pre = c.colr_part() + c.clli_part() + c.mdcv_part() + c.irot_part() + c.imir_part();
        assert(c.color_extras()[c_pre.len() as int] == c.clap_part()[0]);
    }

    /// Setting a pixel aspect ratio adds a non-essential `pasp` property.
    pub proof fn lemma_aspect_ratio_property(self, h_spacing: u32, v_spacing: u32)
        ensures
            self.with_pixel_aspect_ratio(h_spacing, v_spacing).color_extras().contains(
                (pasp_bytes(PaspBox { h_spacing, v_spacing }), false),
            ),
    {
        reveal(Aviffy::color_extras);
        let d = self.with_pixel_aspect_ratio(h_spacing, v_spacing);
        let d_pre = d.colr_part() + d.clli_part() + d.mdcv_part() + d.irot_part() + d.imir_part()
            + d.clap_part();
        assert(d.color_extras()[d_pre.len() as int] == d.pasp_part()[0]);
    }

    /// The width, height and depth setters set what `write_slice` takes as the image's
    /// size and depth, and change nothing else: the file made from explicit arguments stays
    /// the same.
    pub proof fn lemma_size_setters(self, width: u32, height: u32, bit_depth: u8)
        ensures
            self.with_width(width).width_of() == width,
            self.with_height(height).height_of() == height,
            self.with_bit_depth(bit_depth).bit_depth_of() == bit_depth,
            forall|color: Seq<u8>, alpha: Option<Seq<u8>>, w: u32, h: u32, d: u8|
                #![trigger self.still_bytes(color, alpha, w, h, d)]
                self.with_width(width).still_bytes(color, alpha, w, h, d) == self.still_bytes(
                    color,
                    alpha,
                    w,
                    h,
                    d,
                ) && self.with_height(height).still_bytes(color, alpha, w, h, d) == self.still_bytes(
                    color,
                    alpha,
                    w,
                    h,
                    d,
                ) && self.with_bit_depth(bit_depth).still_bytes(color, alpha, w, h, d)
                    == self.still_bytes(color, alpha, w, h, d),
    {
        Aviffy::lemma_size_fields_irrelevant(self.with_width(width), self);
        Aviffy::lemma_size_fields_irrelevant(self.with_height(height), self);
        Aviffy::lemma_size_fields_irrelevant(self.with_bit_depth(bit_depth), self);
    }

    /// An ICC profile replaces the CICP colour information: it is the first optional
    /// property, and the CICP settings no longer change the file.
    pub proof fn lemma_icc_overrides_nclx(
        self,
        icc_data: Vec<u8>,
        matrix_coefficients: constants::MatrixCoefficients,
        transfer_characteristics: constants::TransferCharacteristics,
        color_primaries: constants::ColorPrimaries,
        full_range: bool,
    )
        ensures
            self.with_icc_profile(icc_data).color_extras()[0] == (colr_icc_bytes(icc_data@), false),
            forall|other: Vec<u8>| #[trigger] self.with_icc_profile(other).with_icc_profile(icc_data)
                == self.with_icc_profile(icc_data),
            forall|color: Seq<u8>, alpha: Option<Seq<u8>>, w: u32, h: u32, d: u8|
                #[trigger] self.with_matrix_coefficients(matrix_coefficients).with_transfer_characteristics(
                    transfer_characteristics,
                ).with_color_primaries(color_primaries).with_full_color_range(full_range).with_icc_profile(
                    icc_data,
                ).still_bytes(color, alpha, w, h, d) == self.with_icc_profile(icc_data).still_bytes(
                    color,
                    alpha,
                    w,
                    h,
                    d,
                ),
            forall|color: Seq<u8>, alpha: Option<Seq<u8>>, w: u32, h: u32, d: u8|
                #[trigger] self.with_icc_profile(icc_data).with_matrix_coefficients(
                    matrix_coefficients,
                ).with_transfer_characteristics(transfer_characteristics).with_color_primaries(
                    color_primaries,
                ).with_full_color_range(full_range).still_bytes(color, alpha, w, h, d)
                    == self.with_icc_profile(icc_data).still_bytes(color, alpha, w, h, d),
    {
        reveal(Aviffy::color_extras);
        let a = self.with_icc_profile(icc_data);
        let b = a.with_matrix_coefficients(matrix_coefficients).with_transfer_characteristics(
            transfer_characteristics,
        ).with_color_primaries(color_primaries).with_full_color_range(full_range);
        assert(a.colr_part() == b.colr_part());
        assert(a.color_extras() == b.color_extras());
        assert(a.color_extras()[0] == a.colr_part()[0]);
        reveal(Aviffy::still_props);
        reveal(Aviffy::still_ipma);
        assert forall|color: Seq<u8>, alpha: Option<Seq<u8>>, w: u32, h: u32, d: u8|
            #[trigger] b.still_bytes(color, alpha, w, h, d) == a.still_bytes(color, alpha, w, h, d) by {
            assert(a.still_props(alpha is Some, w, h, d) == b.still_props(alpha is Some, w, h, d));
            assert(a.still_ipma(alpha is Some) == b.still_ipma(alpha is Some));
        }
        let c = self.with_matrix_coefficients(matrix_coefficients).with_transfer_characteristics(
            transfer_characteristics,
        ).with_color_primaries(color_primaries).with_full_color_range(full_range).with_icc_profile(
            icc_data,
        );
        assert(c.colr_part() == a.colr_part());
        assert(c.color_extras() == a.color_extras());
        Aviffy::lemma_same_file(c, a);
    }
}

impl Aviffy {
    /// Configurations that agree on everything the file is made of make the same files.
    proof fn lemma_same_file(a: Aviffy, b: Aviffy)
        requires
            a.color_extras() == b.color_extras(),
            a.premultiplied_alpha == b.premultiplied_alpha,
            a.min_seq_profile == b.min_seq_profile,
            a.chroma_subsampling == b.chroma_subsampling,
            a.monochrome == b.monochrome,
            a.exif == b.exif,
            a.xmp == b.xmp,
        ensures
            forall|color: Seq<u8>, alpha: Option<Seq<u8>>, w: u32, h: u32, d: u8|
                #![trigger a.still_bytes(color, alpha, w, h, d)]
                #![trigger a.still_len(color, alpha, w, h, d)]
                a.still_bytes(color, alpha, w, h, d) == b.still_bytes(color, alpha, w, h, d)
                    && a.still_len(color, alpha, w, h, d) == b.still_len(color, alpha, w, h, d),
    {
        reveal(Aviffy::still_props);
        reveal(Aviffy::still_ipma);
        assert forall|color: Seq<u8>, alpha: Option<Seq<u8>>, w: u32, h: u32, d: u8|
            #![trigger a.still_bytes(color, alpha, w, h, d)]
            #![trigger a.still_len(color, alpha, w, h, d)]
            a.still_bytes(color, alpha, w, h, d) == b.still_bytes(color, alpha, w, h, d)
                && a.still_len(color, alpha, w, h, d) == b.still_len(color, alpha, w, h, d) by {
            assert(a.still_items(alpha is Some) == b.still_items(alpha is Some));
            assert(a.still_iloc(color, alpha) == b.still_iloc(color, alpha));
            assert(a.still_props(alpha is Some, w, h, d) == b.still_props(alpha is Some, w, h, d));
            assert(a.still_ipma(alpha is Some) == b.still_ipma(alpha is Some));
            assert(a.still_irefs(alpha is Some) == b.still_irefs(alpha is Some));
        }
    }

    /// The configuration `new` gives stores width 0, height 0 and depth 0.
    pub proof fn lemma_initial_size()
        ensures
            Aviffy::initial().width_of() == 0,
            Aviffy::initial().height_of() == 0,
            Aviffy::initial().bit_depth_of() == 0,
    {
    }

    /// Whether two configurations differ at most in their stored width, height and depth.
    pub closed spec fn same_but_size(self, other: Aviffy) -> bool {
        Aviffy { width: other.width, height: other.height, bit_depth: other.bit_depth, ..self }
            == other
    }

    /// The stored width, height and depth never affect the file: configurations that differ
    /// only in them (as any sequence of `set_width`, `set_height` and `set_bit_depth` calls
    /// makes them, the relation being an equivalence) make the same file, of the same size,
    /// from the same arguments.
    pub proof fn lemma_stored_size_irrelevant(a: Aviffy, b: Aviffy, c: Aviffy, width: u32, height: u32, bit_depth: u8)
        ensures
            a.same_but_size(a),
            a.same_but_size(b) ==> b.same_but_size(a),
            a.same_but_size(b) && b.same_but_size(c) ==> a.same_but_size(c),
            a.same_but_size(a.with_width(width)),
            a.same_but_size(a.with_height(height)),
            a.same_but_size(a.with_bit_depth(bit_depth)),
            a.same_but_size(b) ==> forall|color: Seq<u8>, alpha: Option<Seq<u8>>, w: u32, h: u32, d: u8|
                #![trigger a.still_bytes(color, alpha, w, h, d)]
                #![trigger a.still_len(color, alpha, w, h, d)]
                a.still_bytes(color, alpha, w, h, d) == b.still_bytes(color, alpha, w, h, d)
                    && a.still_len(color, alpha, w, h, d) == b.still_len(color, alpha, w, h, d),
    {
        if a.same_but_size(b) {
            assert(a.color_extras() == b.color_extras()) by {
                reveal(Aviffy::color_extras);
            }
            Aviffy::lemma_same_file(a, b);
        }
    }

    /// The width, height and depth that `write_slice` uses are those set last: each size
    /// setter sets its own value and keeps the other two, and no other setter touches them.
    pub proof fn lemma_size_setters_independent(
        self,
        width: u32,
        height: u32,
        bit_depth: u8,
        matrix_coefficients: constants::MatrixCoefficients,
        transfer_characteristics: constants::TransferCharacteristics,
        color_primaries: constants::ColorPrimaries,
        full_range: bool,
        max_cll: u16,
        max_fall: u16,
        primaries: [(u16, u16); 3],
        white_point: (u16, u16),
        max_luminance: u32,
        min_luminance: u32,
        angle: u8,
        axis: u8,
        clap: ClapBox,
        h_spacing: u32,
        v_spacing: u32,
        data: Vec<u8>,
        subsampled_xy: (bool, bool),
        flag: bool,
        seq_profile: u8,
    )
        ensures
            self.with_width(width).size_of() == (width, self.height_of(), self.bit_depth_of()),
            self.with_height(height).size_of() == (self.width_of(), height, self.bit_depth_of()),
            self.with_bit_depth(bit_depth).size_of() == (self.width_of(), self.height_of(), bit_depth),
            self.with_matrix_coefficients(matrix_coefficients).size_of() == self.size_of(),
            self.with_transfer_characteristics(transfer_characteristics).size_of() == self.size_of(),
            self.with_color_primaries(color_primaries).size_of() == self.size_of(),
            self.with_full_color_range(full_range).size_of() == self.size_of(),
            self.with_content_light_level(max_cll, max_fall).size_of() == self.size_of(),
            self.with_mastering_display(primaries, white_point, max_luminance, min_luminance).size_of()
                == self.size_of(),
            self.with_rotation(angle).size_of() == self.size_of(),
            self.with_mirror(axis).size_of() == self.size_of(),
            self.with_clean_aperture(clap).size_of() == self.size_of(),
            self.with_pixel_aspect_ratio(h_spacing, v_spacing).size_of() == self.size_of(),
            self.with_xmp(data).size_of() == self.size_of(),
            self.with_icc_profile(data).size_of() == self.size_of(),
            self.with_exif(data).size_of() == self.size_of(),
            self.with_chroma_subsampling(subsampled_xy).size_of() == self.size_of(),
            self.with_monochrome(flag).size_of() == self.size_of(),
            self.with_premultiplied_alpha(flag).size_of() == self.size_of(),
            self.with_seq_profile(seq_profile).size_of() == self.size_of(),
    {
    }

    /// The stored width, height and depth, as `write_slice` uses them.
    pub closed spec fn size_of(self) -> (u32, u32, u8) {
        (self.width, self.height, self.bit_depth)
    }

    /// Only the two low bits of a rotation are kept: `set_rotation(a)` and
    /// `set_rotation(a & 3)` give the same configuration; likewise only the low bit of a
    /// mirror axis.
    pub proof fn lemma_rotation_and_mirror_masks(self, angle: u8, axis: u8)
        ensures
            self.with_rotation(angle) == self.with_rotation(angle & 3u8),
            self.with_mirror(axis) == self.with_mirror(axis & 1u8),
    {
        assert((angle & 3u8) & 3u8 == angle & 3u8) by (bit_vector);
        assert((axis & 1u8) & 1u8 == axis & 1u8) by (bit_vector);
    }

    /// Whether an ICC profile is set.
    pub closed spec fn has_icc_profile(self) -> bool {
        self.icc_profile is Some
    }

    /// The CICP settings reach the file. Without an ICC profile, once the colour primaries,
    /// transfer characteristics, matrix coefficients and range are set, the colour property is
    /// written exactly when they differ from the defaults (BT.709 primaries, sRGB transfer,
    /// BT.601 matrix, full range); it is then the first optional property of the color image,
    /// not essential, and an nclx `colr` box that reads back, field by field, as the settings
    /// made: primaries, then transfer, then matrix, then 0x80 for full range or 0 for limited.
    pub proof fn lemma_cicp_settings_read_back(
        self,
        color_primaries: constants::ColorPrimaries,
        transfer_characteristics: constants::TransferCharacteristics,
        matrix_coefficients: constants::MatrixCoefficients,
        full_range: bool,
    )
        requires
            !self.has_icc_profile(),
        ensures
            ({
                let a = self.with_color_primaries(color_primaries).with_transfer_characteristics(
                    transfer_characteristics,
                ).with_matrix_coefficients(matrix_coefficients).with_full_color_range(full_range);
                let cp = a.colr_part();
                &&& cp.len() <= 1
                &&& cp.len() == 0 <==> (color_primaries == constants::ColorPrimaries::Bt709
                    && transfer_characteristics == constants::TransferCharacteristics::Srgb
                    && matrix_coefficients == constants::MatrixCoefficients::Bt601 && full_range)
                &&& cp.len() == 1 ==> {
                    let b = cp[0].0;
                    &&& a.color_extras()[0] == cp[0]
                    &&& !cp[0].1
                    &&& b.len() == 19
                    &&& be32_value(b.subrange(4, 8)) == COLR
                    &&& be32_value(b.subrange(8, 12)) == NCLX
                    &&& be16_value(b.subrange(12, 14)) == color_primaries.code_point()
                    &&& be16_value(b.subrange(14, 16)) == transfer_characteristics.code_point()
                    &&& be16_value(b.subrange(16, 18)) == matrix_coefficients.code_point()
                    &&& b[18] == (if full_range {
                        0x80u8
                    } else {
                        0u8
                    })
                }
            }),
    {
        let a = self.with_color_primaries(color_primaries).with_transfer_characteristics(
            transfer_characteristics,
        ).with_matrix_coefficients(matrix_coefficients).with_full_color_range(full_range);
        let c = ColrBox {
            color_primaries,
            transfer_characteristics,
            matrix_coefficients,
            full_range_flag: full_range,
        };
        assert(a.colr == c);
        assert(a.icc_profile is None);
        lemma_colr_nclx_fields(c);
        reveal(Aviffy::color_extras);
        if a.colr_part().len() == 1 {
            assert(a.color_extras()[0] == a.colr_part()[0]);
        }
    }

    /// The bit depth reaches the AV1 configurations. For a supported depth `d`, the color
    /// image's `av1C`, and the alpha image's, declare high bit depth exactly when `d` is 10 or
    /// 12 and twelve bits exactly when it is 12, so the depth read back from each is `d`, the
    /// depth that `pixi` records; in the encoded color box these flags are bits 6 and 5 of its
    /// third configuration byte.
    pub proof fn lemma_av1c_declares_depth(self, depth_bits: u8)
        requires
            valid_depth(depth_bits),
        ensures
            self.color_av1c(depth_bits).high_bitdepth == (depth_bits >= 10),
            self.color_av1c(depth_bits).twelve_bit == (depth_bits == 12),
            av1c_bit_depth(self.color_av1c(depth_bits)) == depth_bits,
            alpha_av1c(depth_bits).high_bitdepth == (depth_bits >= 10),
            alpha_av1c(depth_bits).twelve_bit == (depth_bits == 12),
            av1c_bit_depth(alpha_av1c(depth_bits)) == depth_bits,
            (av1c_bytes(self.color_av1c(depth_bits), Seq::empty())[10] >> 6u8) & 1u8 == (if depth_bits >= 10 {
                1u8
            } else {
                0u8
            }),
            (av1c_bytes(self.color_av1c(depth_bits), Seq::empty())[10] >> 5u8) & 1u8 == (if depth_bits == 12 {
                1u8
            } else {
                0u8
            }),
    {
        lemma_av1c_depth_bits(self.color_av1c(depth_bits));
    }

    /// The other settings reach the color image's AV1 configuration: monochrome, chroma
    /// subsampling, and the profile, which is the one set unless twelve bits need at least
    /// profile 2; the level is always index 31, the tier main.
    pub proof fn lemma_av1c_settings(
        self,
        depth_bits: u8,
        monochrome: bool,
        subsampled_xy: (bool, bool),
        seq_profile: u8,
    )
        ensures
            self.with_monochrome(monochrome).color_av1c(depth_bits).monochrome == monochrome,
            self.with_chroma_subsampling(subsampled_xy).color_av1c(depth_bits).chroma_subsampling_x
                == subsampled_xy.0,
            self.with_chroma_subsampling(subsampled_xy).color_av1c(depth_bits).chroma_subsampling_y
                == subsampled_xy.1,
            self.with_seq_profile(seq_profile).color_av1c(depth_bits).seq_profile == (if depth_bits >= 12
                && seq_profile < 2 {
                2u8
            } else {
                seq_profile
            }),
            self.color_av1c(depth_bits).seq_level_idx_0 == 31,
            !self.color_av1c(depth_bits).seq_tier_0,
            self.color_av1c(depth_bits).chroma_sample_position == 0,
    {
    }

    /// The defaults are full range: setting full range on a new configuration changes nothing.
    pub proof fn lemma_full_range_default()
        ensures
            Aviffy::initial().with_full_color_range(true) == Aviffy::initial(),
    {
    }

    /// The premultiplied flag matters only with alpha: without alpha the file is the same
    /// whatever the flag; with alpha, a `prem` reference from the color image to the alpha
    /// image is made exactly when the flag is set.
    pub proof fn lemma_premultiplied_alpha(self, flag: bool)
        ensures
            forall|color: Seq<u8>, w: u32, h: u32, d: u8|
                #![trigger self.with_premultiplied_alpha(flag).still_bytes(color, None, w, h, d)]
                self.with_premultiplied_alpha(flag).still_bytes(color, None, w, h, d) == self.still_bytes(
                    color,
                    None,
                    w,
                    h,
                    d,
                ),
            self.with_premultiplied_alpha(flag).still_irefs(true).contains(
                IrefEntryBox { from_id: 1, to_id: 2, typ: FourCC(PREM) },
            ) <==> flag,
            !self.with_premultiplied_alpha(flag).still_irefs(false).contains(
                IrefEntryBox { from_id: 1, to_id: 2, typ: FourCC(PREM) },
            ),
    {
        let a = self.with_premultiplied_alpha(flag);
        let prem = IrefEntryBox { from_id: 1, to_id: 2, typ: FourCC(PREM) };
        assert(a.color_extras() == self.color_extras()) by {
            reveal(Aviffy::color_extras);
        }
        reveal(Aviffy::still_props);
        reveal(Aviffy::still_ipma);
        assert forall|color: Seq<u8>, w: u32, h: u32, d: u8|
            #![trigger a.still_bytes(color, None, w, h, d)]
            a.still_bytes(color, None, w, h, d) == self.still_bytes(color, None, w, h, d) by {
            assert(a.still_irefs(false) == self.still_irefs(false));
            assert(a.still_props(false, w, h, d) == self.still_props(false, w, h, d));
            assert(a.still_ipma(false) == self.still_ipma(false));
        }
        let r = a.still_irefs(true);
        let front = (if a.exif is Some {
            seq![IrefEntryBox { from_id: 3, to_id: 1, typ: FourCC(CDSC) }]
        } else {
            Seq::empty()
        }) + (if a.xmp is Some {
            seq![IrefEntryBox { from_id: a.xmp_id(), to_id: 1, typ: FourCC(CDSC) }]
        } else {
            Seq::empty()
        }) + seq![IrefEntryBox { from_id: 2, to_id: 1, typ: FourCC(AUXL) }];
        if flag {
            assert(r == front + seq![prem]);
            assert(r[front.len() as int] == prem);
        } else {
            assert(r =~= front);
            assert forall|i: int| 0 <= i < r.len() implies r[i] != prem by {
                assert(r[i].typ.0 == CDSC || r[i].typ.0 == AUXL);
            }
        }
        let r0 = a.still_irefs(false);
        assert forall|i: int| 0 <= i < r0.len() implies r0[i] != prem by {
            assert(r0[i].typ.0 == CDSC);
        }
    }
}

impl Default for Aviffy {
    fn default() -> (r: Self)
        ensures
            r == Aviffy::initial(),
    {
        Self::new()
    }
}

/// Makes an AVIF file from already-encoded AV1 data and appends it to `into_output`;
/// see [`Aviffy::write`]. On error nothing is appended.
pub fn serialize(
    into_output: &mut Vec<u8>,
    color_av1_data: &[u8],
    alpha_av1_data: Option<&[u8]>,
    width: u32,
    height: u32,
    depth_bits: u8,
) -> (r: Result<(), SerializeError>)
    ensures
        !valid_depth(depth_bits) ==> r == Err::<(), _>(SerializeError::UnsupportedDepth),
        valid_depth(depth_bits) && (width == 0 || height == 0) ==> r == Err::<(), _>(
            SerializeError::MissingDimensions,
        ),
        valid_depth(depth_bits) && width != 0 && height != 0 && Aviffy::initial().still_len(
            color_av1_data@,
            opt_view(alpha_av1_data),
            width,
            height,
            depth_bits,
        ) > u32::MAX ==> r == Err::<(), _>(SerializeError::TooLarge),
        r is Ok <==> valid_depth(depth_bits) && width != 0 && height != 0
            && Aviffy::initial().still_len(
            color_av1_data@,
            opt_view(alpha_av1_data),
            width,
            height,
            depth_bits,
        ) <= u32::MAX,
        r is Ok ==> final(into_output)@ == old(into_output)@ + Aviffy::initial().still_bytes(
            color_av1_data@,
            opt_view(alpha_av1_data),
            width,
            height,
            depth_bits,
        ),
        r is Err ==> final(into_output)@ == old(into_output)@,
{
    let mut config = Aviffy::new();
    config.set_width(width).set_height(height).set_bit_depth(depth_bits);
    proof {
        Aviffy::lemma_size_fields_irrelevant(config, Aviffy::initial());
    }
    config.write_slice(into_output, color_av1_data, alpha_av1_data)
}

/// Makes an AVIF file from already-encoded AV1 data; see [`serialize`].
/// The inputs must be such that `serialize` succeeds on them.
pub fn serialize_to_vec(
    color_av1_data: &[u8],
    alpha_av1_data: Option<&[u8]>,
    width: u32,
    height: u32,
    depth_bits: u8,
) -> (r: Vec<u8>)
    requires
        valid_depth(depth_bits),
        width != 0,
        height != 0,
        Aviffy::initial().still_len(color_av1_data@, opt_view(alpha_av1_data), width, height, depth_bits)
            <= u32::MAX,
    ensures
        r@ == Aviffy::initial().still_bytes(
            color_av1_data@,
            opt_view(alpha_av1_data),
            width,
            height,
            depth_bits,
        ),
{
    Aviffy::new().to_vec(color_av1_data, alpha_av1_data, width, height, depth_bits)
}

} // verus!
