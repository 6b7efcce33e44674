//! Animated AVIF container serialization.
//!
//! Takes pre-encoded AV1 frame data and produces an animated AVIF file
//! with `ftyp(avis) + meta + moov + mdat` structure.

use vstd::prelude::*;
use vstd::seq_lib::lemma_concat_associative;

use crate::opt_view;

use crate::boxes::{
    av1c_bytes, clli_bytes, colr_nclx_bytes, default_colr, hdlr_bytes, iinf_bytes, ispe_bytes,
    mdcv_bytes, pitm_bytes, pixi_bytes, write_av1c_box, write_clli, write_colr_nclx, write_hdlr,
    write_ispe, write_mdcv, write_pitm, write_pixi, Av1CBox, ClliBox, ColrBox, InfeView, IspeBox,
    MdcvBox, PixiBox, AV01, AVIF, IINF, ILOC, INFE, IPCO, IPMA, IPRP, MDAT, META, MIAF, MIF1, PICT,
    FTYP, AUXL,
};
use crate::writer::{
    be16, be32, be32_value, be64, begin_box, end_box, full_box, full_box_header, lemma_be32_roundtrip, lemma_be64_injective,
    lemma_close_box, lemma_subrange_left, lemma_subrange_right, mp4_box, put_be32_at, splice4, write_bytes, write_fullbox, write_u16, write_u32, write_u64, write_zeros, zeros,
};

verus! {

pub const AVIS: u32 = 0x6176_6973;
pub const ISO8: u32 = 0x6973_6f38;
pub const MOOV: u32 = 0x6d6f_6f76;
pub const MVHD: u32 = 0x6d76_6864;
pub const TRAK: u32 = 0x7472_616b;
pub const TKHD: u32 = 0x746b_6864;
pub const MDIA: u32 = 0x6d64_6961;
pub const MDHD: u32 = 0x6d64_6864;
pub const MINF: u32 = 0x6d69_6e66;
pub const VMHD: u32 = 0x766d_6864;
pub const DINF: u32 = 0x6469_6e66;
pub const DREF: u32 = 0x6472_6566;
pub const URL_: u32 = 0x7572_6c20;
pub const STBL: u32 = 0x7374_626c;
pub const STSD: u32 = 0x7374_7364;
pub const STTS: u32 = 0x7374_7473;
pub const STSC: u32 = 0x7374_7363;
pub const STSZ: u32 = 0x7374_737a;
pub const STCO: u32 = 0x7374_636f;
pub const STSS: u32 = 0x7374_7373;
pub const TREF: u32 = 0x7472_6566;
pub const AUXV: u32 = 0x6175_7876;
pub const EDTS: u32 = 0x6564_7473;
pub const ELST: u32 = 0x656c_7374;

/// Written where a chunk offset goes, and replaced once the media data is placed.
pub const STCO_PLACEHOLDER: u32 = 0xDEAD_BEEF;
/// Written where the primary item's offset goes, and replaced once the media data is placed.
pub const ILOC_PLACEHOLDER: u32 = 0xDEAD_BEE0;

/// A single pre-encoded animation frame.
#[derive(Clone, Copy)]
#[non_exhaustive]
pub struct AnimFrame<'a> {
    /// AV1-encoded color data for this frame.
    pub color: &'a [u8],
    /// AV1-encoded alpha data for this frame (if present).
    pub alpha: Option<&'a [u8]>,
    /// Duration in timescale ticks.
    pub duration: u32,
    /// Whether this is a sync (key) frame.
    pub is_sync: bool,
}

impl<'a> AnimFrame<'a> {
    /// A frame with color data and duration; no alpha, not a sync frame.
    pub fn new(color: &'a [u8], duration: u32) -> (r: Self)
        ensures
            r.color == color,
            r.alpha is None,
            r.duration == duration,
            !r.is_sync,
    {
        Self { color, alpha: None, duration, is_sync: false }
    }

    /// Sets alpha data for this frame.
    pub fn with_alpha(self, alpha: &'a [u8]) -> (r: Self)
        ensures
            r == (AnimFrame { alpha: Some(alpha), ..self }),
    {
        let mut f = self;
        f.alpha = Some(alpha);
        f
    }

    /// Marks this frame as a sync (key) frame, or not.
    pub fn with_sync(self, is_sync: bool) -> (r: Self)
        ensures
            r == (AnimFrame { is_sync: is_sync, ..self }),
    {
        let mut f = self;
        f.is_sync = is_sync;
        f
    }
}

// ─── Encodings ──────────────────────────────────────────────────────

/// Big-endian encodings of a list of 32-bit values, one after another.
pub open spec fn u32s_bytes(vs: Seq<u32>) -> Seq<u8>
    decreases vs.len(),
{
    if vs.len() == 0 {
        Seq::empty()
    } else {
        u32s_bytes(vs.drop_last()) + be32(vs.last())
    }
}

/// The identity transformation matrix, 3×3 fixed point.
pub open spec fn identity_matrix_bytes() -> Seq<u8> {
    be32(0x0001_0000) + be32(0) + be32(0) + be32(0) + be32(0x0001_0000) + be32(0) + be32(0) + be32(0)
        + be32(0x4000_0000)
}

/// `ftyp` of an image sequence: brand `avis`, version 0, compatible with
/// `avis`, `avif`, `mif1`, `miaf`, `iso8`.
pub open spec fn anim_ftyp_bytes() -> Seq<u8> {
    mp4_box(FTYP, be32(AVIS) + be32(0) + be32(AVIS) + be32(AVIF) + be32(MIF1) + be32(MIAF) + be32(ISO8))
}

/// `mvhd` version 1: times 0, timescale, duration, rate 1.0, volume 1.0, identity matrix,
/// next track id.
#[verifier::opaque]
pub open spec fn mvhd_bytes(timescale: u32, duration: u64, next_track_id: u32) -> Seq<u8> {
    full_box(
        MVHD,
        1,
        0,
        be64(0) + be64(0) + be32(timescale) + be64(duration) + be32(0x0001_0000) + be16(0x0100)
            + zeros(10) + identity_matrix_bytes() + zeros(24) + be32(next_track_id),
    )
}

/// `tkhd` version 1: enabled and in the movie (color) or only enabled (alpha).
#[verifier::opaque]
pub open spec fn tkhd_bytes(track_id: u32, width: u32, height: u32, duration: u64, is_alpha: bool) -> Seq<u8> {
    full_box(
        TKHD,
        1,
        if is_alpha { 1 } else { 3 },
        be64(0) + be64(0) + be32(track_id) + be32(0) + be64(duration) + zeros(8) + be16(0) + be16(0)
            + be16(0) + be16(0) + identity_matrix_bytes() + be32(width << 16u32) + be32(
            height << 16u32,
        ),
    )
}

/// `mdhd` version 1, language "und".
#[verifier::opaque]
pub open spec fn mdhd_bytes(timescale: u32, duration: u64) -> Seq<u8> {
    full_box(
        MDHD,
        1,
        0,
        be64(0) + be64(0) + be32(timescale) + be64(duration) + be16(0x55C4) + be16(0),
    )
}

/// "Alpha" or "Color", null-terminated.
pub open spec fn track_name(is_alpha: bool) -> Seq<u8> {
    if is_alpha {
        seq![65u8, 108, 112, 104, 97, 0]
    } else {
        seq![67u8, 111, 108, 111, 114, 0]
    }
}

/// The track's `hdlr`: auxiliary video for alpha, pictures for color.
#[verifier::opaque]
pub open spec fn track_hdlr_bytes(is_alpha: bool) -> Seq<u8> {
    full_box(
        crate::boxes::HDLR,
        0,
        0,
        be32(0) + be32(if is_alpha { AUXV } else { PICT }) + zeros(12) + track_name(is_alpha),
    )
}

#[verifier::opaque]
pub open spec fn vmhd_bytes() -> Seq<u8> {
    full_box(VMHD, 0, 1, zeros(8))
}

/// `dinf` with one self-contained `url ` data reference.
#[verifier::opaque]
pub open spec fn dinf_bytes() -> Seq<u8> {
    mp4_box(DINF, mp4_box(DREF, full_box_header(0, 0) + be32(1) + full_box(URL_, 0, 1, Seq::empty())))
}

/// The `av01` sample entry, holding the configuration and sequence header.
pub open spec fn av01_entry_bytes(width: u32, height: u32, av1c: Av1CBox, seq_header: Seq<u8>) -> Seq<u8> {
    mp4_box(
        AV01,
        zeros(6) + be16(1) + be16(0) + be16(0) + zeros(12) + be16(width as u16) + be16(height as u16)
            + be32(0x0048_0000) + be32(0x0048_0000) + be32(0) + be16(1) + zeros(32) + be16(0x0018)
            + be16(0xFFFF) + av1c_bytes(av1c, seq_header),
    )
}

#[verifier::opaque]
pub open spec fn stsd_bytes(width: u32, height: u32, av1c: Av1CBox, seq_header: Seq<u8>) -> Seq<u8> {
    full_box(STSD, 0, 0, be32(1) + av01_entry_bytes(width, height, av1c, seq_header))
}

/// Run-length encoding of frame durations as (count, duration) pairs: each duration
/// extends the last run when equal to it, and starts a new run otherwise.
pub open spec fn duration_runs(ds: Seq<u32>) -> Seq<(u32, u32)>
    decreases ds.len(),
{
    if ds.len() == 0 {
        Seq::empty()
    } else {
        let prev = duration_runs(ds.drop_last());
        let d = ds.last();
        if prev.len() > 0 && prev.last().1 == d {
            prev.update(prev.len() - 1, ((prev.last().0 + 1) as u32, d))
        } else {
            prev.push((1u32, d))
        }
    }
}

/// The encoded runs: count, then duration, each as a 32-bit value.
pub open spec fn runs_bytes(runs: Seq<(u32, u32)>) -> Seq<u8>
    decreases runs.len(),
{
    if runs.len() == 0 {
        Seq::empty()
    } else {
        runs_bytes(runs.drop_last()) + be32(runs.last().0) + be32(runs.last().1)
    }
}

/// The durations that runs stand for: each run's duration, repeated its count of times.
pub open spec fn expand_runs(runs: Seq<(u32, u32)>) -> Seq<u32>
    decreases runs.len(),
{
    if runs.len() == 0 {
        Seq::empty()
    } else {
        expand_runs(runs.drop_last()) + Seq::new(runs.last().0 as nat, |i: int| runs.last().1)
    }
}

/// Run-length encoding of durations loses nothing and is as short as it can be: expanding
/// the runs gives back the durations, every run counts at least one frame, and neighbouring
/// runs have different durations.
pub proof fn lemma_duration_runs_roundtrip(ds: Seq<u32>)
    requires
        ds.len() <= u32::MAX,
    ensures
        expand_runs(duration_runs(ds)) == ds,
        forall|j: int| 0 <= j < duration_runs(ds).len() ==> #[trigger] duration_runs(ds)[j].0 >= 1,
        forall|j: int|
            0 <= j < duration_runs(ds).len() - 1 ==> #[trigger] duration_runs(ds)[j].1 != duration_runs(
                ds,
            )[j + 1].1,
    decreases ds.len(),
{
    if ds.len() > 0 {
        let init = ds.drop_last();
        let d = ds.last();
        lemma_duration_runs_roundtrip(init);
        lemma_runs_bounded(init);
        let prev = duration_runs(init);
        let runs = duration_runs(ds);
        if prev.len() > 0 && prev.last().1 == d {
            let c = prev.last().0;
            assert(c <= init.len());
            assert(runs == prev.update(prev.len() - 1, ((c + 1) as u32, d)));
            assert(runs.drop_last() =~= prev.drop_last());
            assert(expand_runs(prev) == expand_runs(prev.drop_last()) + Seq::new(c as nat, |i: int| d));
            assert(Seq::new((c + 1) as nat, |i: int| d) =~= Seq::new(c as nat, |i: int| d).push(d));
            assert(runs.last() == ((c + 1) as u32, d));
            assert(expand_runs(runs) == expand_runs(prev.drop_last()) + Seq::new((c + 1) as nat, |i: int| d));
            assert(ds =~= init.push(d));
            assert(expand_runs(runs) =~= ds);
            assert forall|j: int| 0 <= j < runs.len() - 1 implies #[trigger] runs[j].1 != runs[j + 1].1 by {
                assert(prev[j].1 != prev[j + 1].1);
            }
        } else {
            assert(runs == prev.push((1u32, d)));
            assert(runs.drop_last() =~= prev);
            assert(Seq::new(1nat, |i: int| d) =~= seq![d]);
            assert(expand_runs(runs) =~= ds);
            assert forall|j: int| 0 <= j < runs.len() - 1 implies #[trigger] runs[j].1 != runs[j + 1].1 by {
                if j < prev.len() - 1 {
                    assert(prev[j].1 != prev[j + 1].1);
                }
            }
        }
    }
}

/// The sync numbers are increasing, and they are exactly the 1-based positions of the
/// sync frames.
pub proof fn lemma_sync_numbers(fs: Seq<AnimFrame>)
    requires
        fs.len() <= u32::MAX,
    ensures
        forall|j: int|
            0 <= j < sync_numbers(fs).len() ==> 1 <= #[trigger] sync_numbers(fs)[j] <= fs.len()
                && fs[sync_numbers(fs)[j] - 1].is_sync,
        forall|i: int| 0 <= i < fs.len() && (#[trigger] fs[i]).is_sync ==> sync_numbers(fs).contains((i + 1) as u32),
        forall|j1: int, j2: int|
            0 <= j1 < j2 < sync_numbers(fs).len() ==> #[trigger] sync_numbers(fs)[j1]
                < #[trigger] sync_numbers(fs)[j2],
    decreases fs.len(),
{
    if fs.len() > 0 {
        let init = fs.drop_last();
        lemma_sync_numbers(init);
        let prev = sync_numbers(init);
        let sn = sync_numbers(fs);
        assert forall|j: int| 0 <= j < prev.len() implies 1 <= #[trigger] prev[j] <= init.len()
            && fs[prev[j] - 1].is_sync by {
            assert(init[prev[j] - 1] == fs[prev[j] - 1]);
        }
        if fs.last().is_sync {
            assert(sn == prev.push(fs.len() as u32));
            assert forall|i: int| 0 <= i < fs.len() && (#[trigger] fs[i]).is_sync implies sn.contains(
                (i + 1) as u32,
            ) by {
                if i < init.len() {
                    assert(init[i] == fs[i]);
                    let j = choose|j: int| 0 <= j < prev.len() && prev[j] == (i + 1) as u32;
                    assert(sn[j] == (i + 1) as u32);
                } else {
                    assert(sn[prev.len() as int] == (i + 1) as u32);
                }
            }
        } else {
            assert(sn =~= prev);
            assert forall|i: int| 0 <= i < fs.len() && (#[trigger] fs[i]).is_sync implies sn.contains(
                (i + 1) as u32,
            ) by {
                assert(i < init.len());
                assert(init[i] == fs[i]);
            }
        }
    }
}

/// `stts`: decoding time to sample, as duration runs.
#[verifier::opaque]
pub open spec fn stts_bytes(ds: Seq<u32>) -> Seq<u8> {
    full_box(STTS, 0, 0, be32(duration_runs(ds).len() as u32) + runs_bytes(duration_runs(ds)))
}

/// `stsc`: all samples in one chunk.
#[verifier::opaque]
pub open spec fn stsc_bytes(sample_count: u32) -> Seq<u8> {
    full_box(STSC, 0, 0, be32(1) + be32(1) + be32(sample_count) + be32(1))
}

/// The sizes of the frames, as 32-bit values.
pub open spec fn frame_sizes(frames: Seq<Seq<u8>>) -> Seq<u32> {
    Seq::new(frames.len(), |i: int| frames[i].len() as u32)
}

/// `stsz`: variable sample sizes.
#[verifier::opaque]
pub open spec fn stsz_bytes(frames: Seq<Seq<u8>>) -> Seq<u8> {
    full_box(STSZ, 0, 0, be32(0) + be32(frames.len() as u32) + u32s_bytes(frame_sizes(frames)))
}

/// `stco`: one chunk, at an offset still to be filled in.
#[verifier::opaque]
pub open spec fn stco_bytes() -> Seq<u8> {
    full_box(STCO, 0, 0, be32(1) + be32(STCO_PLACEHOLDER))
}

/// `stss`: the sync samples, numbered from 1.
#[verifier::opaque]
pub open spec fn stss_bytes(sync: Seq<u32>) -> Seq<u8> {
    full_box(STSS, 0, 0, be32(sync.len() as u32) + u32s_bytes(sync))
}

/// `stbl`: sample description, timing, chunking, sizes, chunk offset and sync samples.
pub open spec fn stbl_bytes(
    width: u32,
    height: u32,
    frames: Seq<Seq<u8>>,
    durations: Seq<u32>,
    sync: Seq<u32>,
    seq_header: Seq<u8>,
    av1c: Av1CBox,
) -> Seq<u8> {
    mp4_box(
        STBL,
        stsd_bytes(width, height, av1c, seq_header) + stts_bytes(durations) + stsc_bytes(
            frames.len() as u32,
        ) + stsz_bytes(frames) + stco_bytes() + stss_bytes(sync),
    )
}

/// `tref` of the alpha track: auxiliary to track 1.
#[verifier::opaque]
pub open spec fn tref_bytes() -> Seq<u8> {
    mp4_box(TREF, mp4_box(AUXL, be32(1)))
}

/// How long a track is presented: its media played `loop_count` times, or without end (all
/// ones) when `loop_count` is 0 or the product does not fit in 64 bits. This is the duration
/// that `mvhd` and `tkhd` record.
pub open spec fn edit_duration(duration: u64, loop_count: u32) -> u64 {
    if loop_count == 0 || duration * loop_count > u64::MAX {
        u64::MAX
    } else {
        (duration * loop_count) as u64
    }
}

/// Whether the edit list repeats: unless the media is played exactly once.
pub open spec fn edits_repeat(loop_count: u32) -> bool {
    loop_count != 1
}

/// `edts` holding the loop count: an `elst` (version 1; flags 1, the edits repeat, unless the
/// media is played once) with one edit that plays the whole media, `duration` long, from its
/// start at normal rate. How often it repeats follows from the track's duration in `tkhd`
/// (`edit_duration`) against this one pass.
#[verifier::opaque]
pub open spec fn edts_bytes(duration: u64, loop_count: u32) -> Seq<u8> {
    mp4_box(
        EDTS,
        full_box(
            ELST,
            1,
            if edits_repeat(loop_count) { 1 } else { 0 },
            be32(1) + be64(duration) + be64(0) + be16(1) + be16(0),
        ),
    )
}

/// One track.
#[verifier::opaque]
pub open spec fn trak_bytes(
    track_id: u32,
    width: u32,
    height: u32,
    timescale: u32,
    duration: u64,
    loop_count: u32,
    frames: Seq<Seq<u8>>,
    durations: Seq<u32>,
    sync: Seq<u32>,
    seq_header: Seq<u8>,
    av1c: Av1CBox,
    is_alpha: bool,
) -> Seq<u8> {
    mp4_box(
        TRAK,
        tkhd_bytes(track_id, width, height, edit_duration(duration, loop_count), is_alpha) + edts_bytes(duration, loop_count)
            + mp4_box(
            MDIA,
            mdhd_bytes(timescale, duration) + track_hdlr_bytes(is_alpha) + mp4_box(
                MINF,
                vmhd_bytes() + dinf_bytes() + stbl_bytes(
                    width,
                    height,
                    frames,
                    durations,
                    sync,
                    seq_header,
                    av1c,
                ),
            ),
        ) + if is_alpha {
            tref_bytes()
        } else {
            Seq::empty()
        },
    )
}


// ─── Writers ────────────────────────────────────────────────────────

/// The frames' data as byte sequences.
pub open spec fn frames_view(frames: Seq<&[u8]>) -> Seq<Seq<u8>> {
    frames.map_values(|f: &[u8]| f@)
}

fn write_identity_matrix(out: &mut Vec<u8>)
    ensures
        final(out)@ == old(out)@ + identity_matrix_bytes(),
{
    write_u32(out, 0x0001_0000);
    write_u32(out, 0);
    write_u32(out, 0);
    write_u32(out, 0);
    write_u32(out, 0x0001_0000);
    write_u32(out, 0);
    write_u32(out, 0);
    write_u32(out, 0);
    write_u32(out, 0x4000_0000);
    assert(out@ =~= old(out)@ + identity_matrix_bytes());
}

/// Writes 32-bit values in big-endian order.
fn write_u32s(out: &mut Vec<u8>, vs: &[u32])
    ensures
        final(out)@ == old(out)@ + u32s_bytes(vs@),
{
    let ghost start = old(out)@;
    for i in 0..vs.len()
        invariant
            out@ == start + u32s_bytes(vs@.take(i as int)),
    {
        write_u32(out, vs[i]);
        assert(vs@.take(i + 1).drop_last() =~= vs@.take(i as int));
        assert(out@ =~= start + u32s_bytes(vs@.take(i + 1)));
    }
    assert(vs@.take(vs@.len() as int) =~= vs@);
}

fn write_ftyp(out: &mut Vec<u8>)
    ensures
        final(out)@ == old(out)@ + anim_ftyp_bytes(),
{
    let ghost pre = old(out)@;
    let pos = begin_box(out, FTYP);
    write_u32(out, AVIS);  // major brand
    write_u32(out, 0);  // minor version
    write_u32(out, AVIS);  // compatible brands
    write_u32(out, AVIF);
    write_u32(out, MIF1);
    write_u32(out, MIAF);
    write_u32(out, ISO8);
    let ghost payload = be32(AVIS) + be32(0) + be32(AVIS) + be32(AVIF) + be32(MIF1) + be32(MIAF)
        + be32(ISO8);
    assert(out@ =~= pre + be32(0) + be32(FTYP) + payload);
    proof {
        lemma_close_box(pre, FTYP, payload);
    }
    end_box(out, pos);
}

fn write_mvhd(out: &mut Vec<u8>, timescale: u32, duration: u64, next_track_id: u32)
    ensures
        final(out)@ == old(out)@ + mvhd_bytes(timescale, duration, next_track_id),
{
    reveal(mvhd_bytes);
    let ghost pre = old(out)@;
    let pos = begin_box(out, MVHD);
    write_fullbox(out, 1, 0);
    write_u64(out, 0);  // creation_time
    write_u64(out, 0);  // modification_time
    write_u32(out, timescale);
    write_u64(out, duration);
    write_u32(out, 0x0001_0000);  // rate 1.0
    write_u16(out, 0x0100);  // volume 1.0
    write_zeros(out, 10);  // reserved
    write_identity_matrix(out);
    write_zeros(out, 24);  // pre_defined
    write_u32(out, next_track_id);
    let ghost payload = full_box_header(1, 0) + (be64(0) + be64(0) + be32(timescale) + be64(duration)
        + be32(0x0001_0000) + be16(0x0100) + zeros(10) + identity_matrix_bytes() + zeros(24) + be32(
        next_track_id,
    ));
    assert(out@ =~= pre + be32(0) + be32(MVHD) + payload);
    proof {
        lemma_close_box(pre, MVHD, payload);
    }
    end_box(out, pos);
}

fn write_tkhd(out: &mut Vec<u8>, track_id: u32, width: u32, height: u32, duration: u64, is_alpha: bool)
    ensures
        final(out)@ == old(out)@ + tkhd_bytes(track_id, width, height, duration, is_alpha),
{
    reveal(tkhd_bytes);
    let ghost pre = old(out)@;
    let pos = begin_box(out, TKHD);
    let flags: u32 = if is_alpha { 1 } else { 3 };  // enabled | in_movie
    write_fullbox(out, 1, flags);
    write_u64(out, 0);  // creation_time
    write_u64(out, 0);  // modification_time
    write_u32(out, track_id);
    write_u32(out, 0);  // reserved
    write_u64(out, duration);
    write_zeros(out, 8);  // reserved
    write_u16(out, 0);  // layer
    write_u16(out, 0);  // alternate_group
    write_u16(out, 0);  // volume
    write_u16(out, 0);  // reserved
    write_identity_matrix(out);
    write_u32(out, width << 16u32);
    write_u32(out, height << 16u32);
    let ghost payload = full_box_header(1, flags) + (be64(0) + be64(0) + be32(track_id) + be32(0)
        + be64(duration) + zeros(8) + be16(0) + be16(0) + be16(0) + be16(0)
        + identity_matrix_bytes() + be32(width << 16u32) + be32(height << 16u32));
    assert(out@ =~= pre + be32(0) + be32(TKHD) + payload);
    proof {
        lemma_close_box(pre, TKHD, payload);
    }
    end_box(out, pos);
}

/// How long a track is presented, given its media's duration and the loop count.
fn presentation_duration(duration: u64, loop_count: u32) -> (r: u64)
    ensures
        r == edit_duration(duration, loop_count),
{
    if loop_count == 0 {
        u64::MAX
    } else {
        match duration.checked_mul(loop_count as u64) {
            Some(d) => d,
            None => u64::MAX,
        }
    }
}

/// Writes `edts` with the loop count.
fn write_edts(out: &mut Vec<u8>, duration: u64, loop_count: u32)
    ensures
        final(out)@ == old(out)@ + edts_bytes(duration, loop_count),
{
    reveal(edts_bytes);
    let ghost pre = old(out)@;
    let edts_pos = begin_box(out, EDTS);
    let ghost elst_pre = out@;
    let elst_pos = begin_box(out, ELST);
    let flags: u32 = if loop_count != 1 {
        1
    } else {
        0
    };
    write_fullbox(out, 1, flags);  // version 1; whether the edits repeat
    write_u32(out, 1);  // entry_count
    write_u64(out, duration);  // segment_duration: one pass over the media
    write_u64(out, 0);  // media_time
    write_u16(out, 1);  // media_rate_integer
    write_u16(out, 0);  // media_rate_fraction
    let ghost payload = full_box_header(1, flags) + (be32(1) + be64(duration) + be64(0) + be16(1) + be16(
        0,
    ));
    assert(out@ =~= elst_pre + be32(0) + be32(ELST) + payload);
    proof {
        lemma_close_box(elst_pre, ELST, payload);
    }
    end_box(out, elst_pos);
    let ghost elst = mp4_box(ELST, payload);
    assert(out@ =~= pre + be32(0) + be32(EDTS) + elst);
    proof {
        lemma_close_box(pre, EDTS, elst);
    }
    end_box(out, edts_pos);
}

fn write_mdhd(out: &mut Vec<u8>, timescale: u32, duration: u64)
    ensures
        final(out)@ == old(out)@ + mdhd_bytes(timescale, duration),
{
    reveal(mdhd_bytes);
    let ghost pre = old(out)@;
    let pos = begin_box(out, MDHD);
    write_fullbox(out, 1, 0);
    write_u64(out, 0);  // creation_time
    write_u64(out, 0);  // modification_time
    write_u32(out, timescale);
    write_u64(out, duration);
    write_u16(out, 0x55C4);  // language = "und"
    write_u16(out, 0);
    let ghost payload = full_box_header(1, 0) + (be64(0) + be64(0) + be32(timescale) + be64(duration)
        + be16(0x55C4) + be16(0));
    assert(out@ =~= pre + be32(0) + be32(MDHD) + payload);
    proof {
        lemma_close_box(pre, MDHD, payload);
    }
    end_box(out, pos);
}

fn write_track_hdlr(out: &mut Vec<u8>, is_alpha: bool)
    ensures
        final(out)@ == old(out)@ + track_hdlr_bytes(is_alpha),
{
    reveal(track_hdlr_bytes);
    let ghost pre = old(out)@;
    let pos = begin_box(out, crate::boxes::HDLR);
    write_fullbox(out, 0, 0);
    write_u32(out, 0);
    if is_alpha {
        write_u32(out, AUXV);
    } else {
        write_u32(out, PICT);
    }
    write_zeros(out, 12);
    let name: [u8; 6] = if is_alpha {
        [65, 108, 112, 104, 97, 0]
    } else {
        [67, 111, 108, 111, 114, 0]
    };
    write_bytes(out, &name);
    assert(name@ =~= track_name(is_alpha));
    let ghost payload = full_box_header(0, 0) + (be32(0) + be32(if is_alpha { AUXV } else { PICT })
        + zeros(12) + track_name(is_alpha));
    assert(out@ =~= pre + be32(0) + be32(crate::boxes::HDLR) + payload);
    proof {
        lemma_close_box(pre, crate::boxes::HDLR, payload);
    }
    end_box(out, pos);
}

fn write_vmhd(out: &mut Vec<u8>)
    ensures
        final(out)@ == old(out)@ + vmhd_bytes(),
{
    reveal(vmhd_bytes);
    let ghost pre = old(out)@;
    let pos = begin_box(out, VMHD);
    write_fullbox(out, 0, 1);
    write_zeros(out, 8);  // graphicsmode + opcolor
    let ghost payload = full_box_header(0, 1) + zeros(8);
    assert(out@ =~= pre + be32(0) + be32(VMHD) + payload);
    proof {
        lemma_close_box(pre, VMHD, payload);
    }
    end_box(out, pos);
}

fn write_dinf(out: &mut Vec<u8>)
    ensures
        final(out)@ == old(out)@ + dinf_bytes(),
{
    reveal(dinf_bytes);
    let ghost pre = old(out)@;
    let dinf_pos = begin_box(out, DINF);
    let ghost dref_pre = out@;
    let dref_pos = begin_box(out, DREF);
    write_fullbox(out, 0, 0);
    write_u32(out, 1);
    let ghost url_pre = out@;
    let url_pos = begin_box(out, URL_);
    write_fullbox(out, 0, 1);  // self-contained
    assert(out@ =~= url_pre + be32(0) + be32(URL_) + (full_box_header(0, 1) + Seq::<u8>::empty()));
    proof {
        lemma_close_box(url_pre, URL_, full_box_header(0, 1) + Seq::<u8>::empty());
    }
    end_box(out, url_pos);
    let ghost dref_payload = full_box_header(0, 0) + be32(1) + full_box(URL_, 0, 1, Seq::empty());
    assert(out@ =~= dref_pre + be32(0) + be32(DREF) + dref_payload);
    proof {
        lemma_close_box(dref_pre, DREF, dref_payload);
    }
    end_box(out, dref_pos);
    assert(out@ =~= pre + be32(0) + be32(DINF) + mp4_box(DREF, dref_payload));
    proof {
        lemma_close_box(pre, DINF, mp4_box(DREF, dref_payload));
    }
    end_box(out, dinf_pos);
}

fn write_stsd(out: &mut Vec<u8>, width: u32, height: u32, av1c: &Av1CBox, seq_header: &[u8])
    ensures
        final(out)@ == old(out)@ + stsd_bytes(width, height, *av1c, seq_header@),
{
    reveal(stsd_bytes);
    let ghost pre = old(out)@;
    let pos = begin_box(out, STSD);
    write_fullbox(out, 0, 0);
    write_u32(out, 1);  // entry_count
    let ghost entry_pre = out@;
    let av01_pos = begin_box(out, AV01);
    write_zeros(out, 6);  // reserved
    write_u16(out, 1);  // data_reference_index
    write_u16(out, 0);  // pre_defined
    write_u16(out, 0);  // reserved
    write_zeros(out, 12);  // pre_defined
    write_u16(out, width as u16);
    write_u16(out, height as u16);
    write_u32(out, 0x0048_0000);  // horizontal resolution 72 dpi
    write_u32(out, 0x0048_0000);  // vertical resolution 72 dpi
    write_u32(out, 0);  // reserved
    write_u16(out, 1);  // frame_count
    write_zeros(out, 32);  // compressorname
    write_u16(out, 0x0018);  // depth = 24
    write_u16(out, 0xFFFF);  // pre_defined = -1
    // av1C with the sequence header
    write_av1c_box(out, av1c, seq_header);
    let ghost entry_payload = zeros(6) + be16(1) + be16(0) + be16(0) + zeros(12) + be16(width as u16)
        + be16(height as u16) + be32(0x0048_0000) + be32(0x0048_0000) + be32(0) + be16(1) + zeros(
        32,
    ) + be16(0x0018) + be16(0xFFFF) + av1c_bytes(*av1c, seq_header@);
    assert(out@ =~= entry_pre + be32(0) + be32(AV01) + entry_payload);
    proof {
        lemma_close_box(entry_pre, AV01, entry_payload);
    }
    end_box(out, av01_pos);
    let ghost payload = full_box_header(0, 0) + (be32(1) + av01_entry_bytes(
        width,
        height,
        *av1c,
        seq_header@,
    ));
    assert(out@ =~= pre + be32(0) + be32(STSD) + payload);
    proof {
        lemma_close_box(pre, STSD, payload);
    }
    end_box(out, pos);
}

/// Every run counts at most as many frames as there are durations.
proof fn lemma_runs_bounded(ds: Seq<u32>)
    ensures
        forall|j: int| 0 <= j < duration_runs(ds).len() ==> #[trigger] duration_runs(ds)[j].0
            <= ds.len(),
    decreases ds.len(),
{
    if ds.len() > 0 {
        let prev = duration_runs(ds.drop_last());
        lemma_runs_bounded(ds.drop_last());
        let runs = duration_runs(ds);
        assert forall|j: int| 0 <= j < runs.len() implies #[trigger] runs[j].0 <= ds.len() by {
            if prev.len() > 0 && prev.last().1 == ds.last() && j == prev.len() - 1 {
                let c = prev.last().0 + 1;
                if c <= u32::MAX {
                    assert(runs[j].0 == c);
                }
            } else if j < prev.len() {
                assert(runs[j] == prev[j]);
            }
        }
    }
}

/// Writes `stts`, run-length encoding the durations.
fn write_stts(out: &mut Vec<u8>, durations: &[u32])
    requires
        durations@.len() <= u32::MAX,
    ensures
        final(out)@ == old(out)@ + stts_bytes(durations@),
{
    reveal(stts_bytes);
    let ghost pre = old(out)@;
    let pos = begin_box(out, STTS);
    write_fullbox(out, 0, 0);
    let mut entries: Vec<(u32, u32)> = Vec::new();
    for i in 0..durations.len()
        invariant
            durations@.len() <= u32::MAX,
            entries@ == duration_runs(durations@.take(i as int)),
    {
        let d = durations[i];
        assert(durations@.take(i + 1).drop_last() =~= durations@.take(i as int));
        proof {
            lemma_runs_bounded(durations@.take(i as int));
        }
        let n = entries.len();
        if n > 0 && entries[n - 1].1 == d {
            let count = entries[n - 1].0;
            entries.set(n - 1, (count + 1, d));
        } else {
            entries.push((1, d));
        }
        assert(entries@ =~= duration_runs(durations@.take(i + 1)));
    }
    assert(durations@.take(durations@.len() as int) =~= durations@);
    write_u32(out, entries.len() as u32);
    let ghost start = out@;
    for i in 0..entries.len()
        invariant
            out@ == start + runs_bytes(entries@.take(i as int)),
    {
        let (count, delta) = entries[i];
        write_u32(out, count);
        write_u32(out, delta);
        assert(entries@.take(i + 1).drop_last() =~= entries@.take(i as int));
        assert(out@ =~= start + runs_bytes(entries@.take(i + 1)));
    }
    assert(entries@.take(entries@.len() as int) =~= entries@);
    let ghost runs = duration_runs(durations@);
    let ghost payload = full_box_header(0, 0) + (be32(runs.len() as u32) + runs_bytes(runs));
    assert(out@ =~= pre + be32(0) + be32(STTS) + payload);
    proof {
        lemma_close_box(pre, STTS, payload);
    }
    end_box(out, pos);
}

fn write_stsc(out: &mut Vec<u8>, sample_count: u32)
    ensures
        final(out)@ == old(out)@ + stsc_bytes(sample_count),
{
    reveal(stsc_bytes);
    let ghost pre = old(out)@;
    let pos = begin_box(out, STSC);
    write_fullbox(out, 0, 0);
    write_u32(out, 1);
    write_u32(out, 1);  // first_chunk
    write_u32(out, sample_count);  // samples_per_chunk
    write_u32(out, 1);  // sample_description_index
    let ghost payload = full_box_header(0, 0) + (be32(1) + be32(1) + be32(sample_count) + be32(1));
    assert(out@ =~= pre + be32(0) + be32(STSC) + payload);
    proof {
        lemma_close_box(pre, STSC, payload);
    }
    end_box(out, pos);
}

fn write_stsz(out: &mut Vec<u8>, frames: &[&[u8]])
    ensures
        final(out)@ == old(out)@ + stsz_bytes(frames_view(frames@)),
{
    reveal(stsz_bytes);
    let ghost fv = frames_view(frames@);
    let ghost pre = old(out)@;
    let pos = begin_box(out, STSZ);
    write_fullbox(out, 0, 0);
    write_u32(out, 0);  // sample_size = 0 (variable)
    write_u32(out, frames.len() as u32);
    let ghost start = out@;
    for i in 0..frames.len()
        invariant
            fv == frames_view(frames@),
            out@ == start + u32s_bytes(frame_sizes(fv).take(i as int)),
    {
        write_u32(out, frames[i].len() as u32);
        assert(frame_sizes(fv).take(i + 1).drop_last() =~= frame_sizes(fv).take(i as int));
        assert(out@ =~= start + u32s_bytes(frame_sizes(fv).take(i + 1)));
    }
    assert(frame_sizes(fv).take(frames@.len() as int) =~= frame_sizes(fv));
    let ghost payload = full_box_header(0, 0) + (be32(0) + be32(fv.len() as u32) + u32s_bytes(
        frame_sizes(fv),
    ));
    assert(out@ =~= pre + be32(0) + be32(STSZ) + payload);
    proof {
        lemma_close_box(pre, STSZ, payload);
    }
    end_box(out, pos);
}

fn write_stco(out: &mut Vec<u8>)
    ensures
        final(out)@ == old(out)@ + stco_bytes(),
{
    reveal(stco_bytes);
    let ghost pre = old(out)@;
    let pos = begin_box(out, STCO);
    write_fullbox(out, 0, 0);
    write_u32(out, 1);  // entry_count
    write_u32(out, STCO_PLACEHOLDER);
    let ghost payload = full_box_header(0, 0) + (be32(1) + be32(STCO_PLACEHOLDER));
    assert(out@ =~= pre + be32(0) + be32(STCO) + payload);
    proof {
        lemma_close_box(pre, STCO, payload);
    }
    end_box(out, pos);
}

fn write_stss(out: &mut Vec<u8>, sync_indices: &[u32])
    ensures
        final(out)@ == old(out)@ + stss_bytes(sync_indices@),
{
    reveal(stss_bytes);
    let ghost pre = old(out)@;
    let pos = begin_box(out, STSS);
    write_fullbox(out, 0, 0);
    write_u32(out, sync_indices.len() as u32);
    write_u32s(out, sync_indices);
    let ghost payload = full_box_header(0, 0) + (be32(sync_indices@.len() as u32) + u32s_bytes(
        sync_indices@,
    ));
    assert(out@ =~= pre + be32(0) + be32(STSS) + payload);
    proof {
        lemma_close_box(pre, STSS, payload);
    }
    end_box(out, pos);
}


// ─── Tracks ─────────────────────────────────────────────────────────

#[allow(clippy::too_many_arguments)]
fn write_track(
    out: &mut Vec<u8>,
    track_id: u32,
    width: u32,
    height: u32,
    timescale: u32,
    duration: u64,
    loop_count: u32,
    frames: &[&[u8]],
    durations: &[u32],
    sync_indices: &[u32],
    seq_header: &[u8],
    av1c: &Av1CBox,
    is_alpha: bool,
) -> (stco_pos: usize)
    requires
        durations@.len() <= u32::MAX,
    ensures
        stco_pos == old(out)@.len() + trak_stco_place(
            track_id,
            width,
            height,
            timescale,
            duration,
            loop_count,
            frames_view(frames@),
            durations@,
            seq_header@,
            *av1c,
            is_alpha,
        ),
        final(out)@ == old(out)@ + trak_bytes(
            track_id,
            width,
            height,
            timescale,
            duration,
            loop_count,
            frames_view(frames@),
            durations@,
            sync_indices@,
            seq_header@,
            *av1c,
            is_alpha,
        ),
{
    reveal(trak_bytes);
    let ghost fv = frames_view(frames@);
    let ghost pre = old(out)@;
    let trak_pos = begin_box(out, TRAK);
    let ghost trak_prefix = out@;

    let shown = presentation_duration(duration, loop_count);
    write_tkhd(out, track_id, width, height, shown, is_alpha);
    write_edts(out, duration, loop_count);
    let ghost trak_payload = tkhd_bytes(track_id, width, height, shown, is_alpha) + edts_bytes(
        duration,
        loop_count,
    );
    assert(out@ =~= trak_prefix + trak_payload);

    // mdia
    let ghost mdia_pre = out@;
    let mdia_pos = begin_box(out, MDIA);
    let ghost mdia_prefix = out@;
    write_mdhd(out, timescale, duration);
    write_track_hdlr(out, is_alpha);
    proof {
        lemma_concat_associative(mdia_prefix, mdhd_bytes(timescale, duration), track_hdlr_bytes(is_alpha));
    }
    let ghost mdia_payload = mdhd_bytes(timescale, duration) + track_hdlr_bytes(is_alpha);

    // minf
    let ghost minf_pre = out@;
    let minf_pos = begin_box(out, MINF);
    let ghost minf_prefix = out@;
    write_vmhd(out);
    write_dinf(out);
    proof {
        lemma_concat_associative(minf_prefix, vmhd_bytes(), dinf_bytes());
    }
    let ghost minf_payload = vmhd_bytes() + dinf_bytes();

    // stbl
    let ghost stbl_pre = out@;
    let stbl_pos = begin_box(out, STBL);
    let ghost stbl_prefix = out@;
    let ghost mut stbl_payload = Seq::<u8>::empty();
    assert(out@ =~= stbl_prefix + stbl_payload);
    write_stsd(out, width, height, av1c, seq_header);
    proof {
        let x = stsd_bytes(width, height, *av1c, seq_header@);
        lemma_concat_associative(stbl_prefix, stbl_payload, x);
        stbl_payload = stbl_payload + x;
    }
    write_stts(out, durations);
    proof {
        let x = stts_bytes(durations@);
        lemma_concat_associative(stbl_prefix, stbl_payload, x);
        stbl_payload = stbl_payload + x;
    }
    write_stsc(out, frames.len() as u32);
    proof {
        let x = stsc_bytes(fv.len() as u32);
        lemma_concat_associative(stbl_prefix, stbl_payload, x);
        stbl_payload = stbl_payload + x;
    }
    write_stsz(out, frames);
    proof {
        let x = stsz_bytes(fv);
        lemma_concat_associative(stbl_prefix, stbl_payload, x);
        stbl_payload = stbl_payload + x;
    }
    write_stco(out);
    proof {
        let x = stco_bytes();
        lemma_concat_associative(stbl_prefix, stbl_payload, x);
        stbl_payload = stbl_payload + x;
        reveal(stco_bytes);
    }
    // the placeholder is the last four bytes of `stco`
    let stco_pos = out.len() - 4;
    write_stss(out, sync_indices);
    proof {
        let x = stss_bytes(sync_indices@);
        lemma_concat_associative(stbl_prefix, stbl_payload, x);
        stbl_payload = stbl_payload + x;
        assert(stbl_payload =~= stsd_bytes(width, height, *av1c, seq_header@) + stts_bytes(durations@)
            + stsc_bytes(fv.len() as u32) + stsz_bytes(fv) + stco_bytes() + stss_bytes(sync_indices@));
        lemma_close_box(stbl_pre, STBL, stbl_payload);
    }
    end_box(out, stbl_pos);
    proof {
        let x = stbl_bytes(width, height, fv, durations@, sync_indices@, seq_header@, *av1c);
        lemma_concat_associative(minf_prefix, minf_payload, x);
        lemma_close_box(minf_pre, MINF, minf_payload + x);
    }
    end_box(out, minf_pos);
    proof {
        let x = mp4_box(MINF, minf_payload + stbl_bytes(width, height, fv, durations@, sync_indices@, seq_header@, *av1c));
        lemma_concat_associative(mdia_prefix, mdia_payload, x);
        lemma_close_box(mdia_pre, MDIA, mdia_payload + x);
    }
    end_box(out, mdia_pos);
    assert(out@ == mdia_pre + mp4_box(MDIA, mdia_payload + mp4_box(MINF, minf_payload + stbl_bytes(width, height, fv, durations@, sync_indices@, seq_header@, *av1c))));
    let ghost mdia = mp4_box(
        MDIA,
        mdia_payload + mp4_box(
            MINF,
            minf_payload + stbl_bytes(width, height, fv, durations@, sync_indices@, seq_header@, *av1c),
        ),
    );
    proof {
        lemma_concat_associative(trak_prefix, trak_payload, mdia);
    }

    assert(out@ == trak_prefix + (trak_payload + mdia));
    // tref for the alpha track
    if is_alpha {
        let ghost tref_pre = out@;
        let tref_pos = begin_box(out, TREF);
        assert(out@ == tref_pre + be32(0) + be32(TREF));
        let ghost auxl_pre = out@;
        let auxl_pos = begin_box(out, AUXL);
        write_u32(out, 1);  // references track 1 (color)
        proof {
            lemma_close_box(auxl_pre, AUXL, be32(1));
        }
        end_box(out, auxl_pos);
        assert(out@ == tref_pre + be32(0) + be32(TREF) + mp4_box(AUXL, be32(1)));
        proof {
            lemma_close_box(tref_pre, TREF, mp4_box(AUXL, be32(1)));
            assert(mp4_box(TREF, mp4_box(AUXL, be32(1))) == tref_bytes()) by {
                reveal(tref_bytes);
            }
        }
        end_box(out, tref_pos);
        proof {
            lemma_concat_associative(trak_prefix, trak_payload + mdia, tref_bytes());
        }
        assert(out@ == trak_prefix + (trak_payload + mdia + tref_bytes()));
    } else {
        assert(trak_payload + mdia + Seq::<u8>::empty() =~= trak_payload + mdia);
    }
    let ghost full_payload = trak_payload + mdia + if is_alpha {
        tref_bytes()
    } else {
        Seq::empty()
    };
    assert(out@ == pre + be32(0) + be32(TRAK) + full_payload);
    proof {
        lemma_close_box(pre, TRAK, full_payload);
    }
    end_box(out, trak_pos);
    stco_pos
}


// ─── The still-image part (`meta`) ──────────────────────────────────

/// The bit depth that an AV1 configuration declares.
pub open spec fn av1c_bit_depth(av1c: Av1CBox) -> u8 {
    if av1c.twelve_bit {
        12
    } else if av1c.high_bitdepth {
        10
    } else {
        8
    }
}

fn bit_depth_from_av1c(av1c: &Av1CBox) -> (r: u8)
    ensures
        r == av1c_bit_depth(*av1c),
{
    if av1c.twelve_bit {
        12
    } else if av1c.high_bitdepth {
        10
    } else {
        8
    }
}

/// Pixel information of the color track: one channel when monochrome, otherwise three.
pub open spec fn anim_pixi(av1c: Av1CBox) -> PixiBox {
    PixiBox { channels: if av1c.monochrome { 1 } else { 3 }, depth: av1c_bit_depth(av1c) }
}

/// Whether a `colr` property is written: only for colour information other than the default.
pub open spec fn shows_colr(colr: Option<ColrBox>) -> bool {
    match colr {
        Some(c) => c != default_colr(),
        None => false,
    }
}

/// How many of the optional properties (colour, light level, mastering display) are written.
pub open spec fn anim_extra_count(colr: Option<ColrBox>, clli: Option<ClliBox>, mdcv: Option<MdcvBox>) -> nat {
    (if shows_colr(colr) { 1nat } else { 0nat }) + (if clli is Some { 1nat } else { 0nat }) + (if mdcv is Some { 1nat } else { 0nat })
}

/// The properties of the primary item: extent, configuration with sequence header,
/// pixel information, then the optional colour, light level and mastering display.
#[verifier::opaque]
pub open spec fn anim_props_bytes(
    width: u32,
    height: u32,
    seq_header: Seq<u8>,
    av1c: Av1CBox,
    colr: Option<ColrBox>,
    clli: Option<ClliBox>,
    mdcv: Option<MdcvBox>,
) -> Seq<u8> {
    ispe_bytes(IspeBox { width, height }) + av1c_bytes(av1c, seq_header) + pixi_bytes(anim_pixi(av1c))
        + (if shows_colr(colr) {
        colr_nclx_bytes(colr.unwrap())
    } else {
        Seq::empty()
    }) + (match clli {
        Some(c) => clli_bytes(c),
        None => Seq::empty(),
    }) + (match mdcv {
        Some(m) => mdcv_bytes(m),
        None => Seq::empty(),
    })
}

/// The associations of item 1: extent, essential configuration, pixel information, then
/// properties 4, 5, 6 as far as optional ones are written.
#[verifier::opaque]
pub open spec fn anim_ipma_bytes(colr: Option<ColrBox>, clli: Option<ClliBox>, mdcv: Option<MdcvBox>) -> Seq<u8> {
    let k = anim_extra_count(colr, clli, mdcv);
    full_box(
        IPMA,
        0,
        0,
        be32(1) + be16(1) + seq![(3 + k) as u8, 0x01u8, 0x82u8, 0x03u8] + Seq::new(
            k,
            |i: int| (4 + i) as u8,
        ),
    )
}

/// The location of item 1: the first color frame, at an offset still to be filled in.
#[verifier::opaque]
pub open spec fn anim_iloc_bytes(first_frame_len: u32) -> Seq<u8> {
    full_box(
        ILOC,
        0,
        0,
        seq![0x44u8, 0x00u8] + be16(1) + be16(1) + be16(0) + be16(1) + be32(ILOC_PLACEHOLDER) + be32(
            first_frame_len,
        ),
    )
}

/// `meta` declaring the first frame as primary item, for readers of still images.
#[verifier::opaque]
pub open spec fn anim_meta_bytes(
    width: u32,
    height: u32,
    seq_header: Seq<u8>,
    first_frame_len: u32,
    av1c: Av1CBox,
    colr: Option<ColrBox>,
    clli: Option<ClliBox>,
    mdcv: Option<MdcvBox>,
) -> Seq<u8> {
    mp4_box(
        META,
        full_box_header(0, 0) + hdlr_bytes() + pitm_bytes(1) + anim_iloc_bytes(first_frame_len)
            + iinf_bytes(seq![(1u16, AV01, Seq::<u8>::empty())]) + mp4_box(
            IPRP,
            mp4_box(IPCO, anim_props_bytes(width, height, seq_header, av1c, colr, clli, mdcv))
                + anim_ipma_bytes(colr, clli, mdcv),
        ),
    )
}

fn write_anim_iloc(out: &mut Vec<u8>, first_frame_len: u32)
    ensures
        final(out)@ == old(out)@ + anim_iloc_bytes(first_frame_len),
{
    reveal(anim_iloc_bytes);
    let ghost pre = old(out)@;
    let pos = begin_box(out, ILOC);
    write_fullbox(out, 0, 0);
    out.push(0x44);  // offset_size=4, length_size=4
    out.push(0x00);  // base_offset_size=0, reserved=0
    write_u16(out, 1);  // item_count
    write_u16(out, 1);  // item_id
    write_u16(out, 0);  // data_reference_index
    write_u16(out, 1);  // extent_count
    write_u32(out, ILOC_PLACEHOLDER);  // extent_offset, filled in later
    write_u32(out, first_frame_len);  // extent_length
    let ghost payload = full_box_header(0, 0) + (seq![0x44u8, 0x00u8] + be16(1) + be16(1) + be16(0)
        + be16(1) + be32(ILOC_PLACEHOLDER) + be32(first_frame_len));
    assert(out@ =~= pre + be32(0) + be32(ILOC) + payload);
    proof {
        lemma_close_box(pre, ILOC, payload);
    }
    end_box(out, pos);
}

fn write_anim_iinf(out: &mut Vec<u8>)
    ensures
        final(out)@ == old(out)@ + iinf_bytes(seq![(1u16, AV01, Seq::<u8>::empty())]),
{
    let ghost items: Seq<InfeView> = seq![(1u16, AV01, Seq::<u8>::empty())];
    let ghost pre = old(out)@;
    let iinf_pos = begin_box(out, IINF);
    write_fullbox(out, 0, 0);
    write_u16(out, 1);  // entry_count
    let ghost infe_pre = out@;
    let infe_pos = begin_box(out, INFE);
    write_fullbox(out, 2, 0);
    write_u16(out, 1);  // item_id
    write_u16(out, 0);  // protection_index
    write_u32(out, AV01);
    out.push(0);  // name
    let ghost infe_payload = full_box_header(2, 0) + (be16(1) + be16(0) + be32(AV01) + seq![0u8]
        + crate::boxes::content_type_bytes(Seq::empty()));
    assert(out@ =~= infe_pre + be32(0) + be32(INFE) + infe_payload);
    proof {
        lemma_close_box(infe_pre, INFE, infe_payload);
    }
    end_box(out, infe_pos);
    assert(items.drop_last() =~= Seq::<InfeView>::empty());
    assert(crate::boxes::infes_bytes(Seq::<InfeView>::empty()) == Seq::<u8>::empty());
    assert(crate::boxes::infes_bytes(items) =~= Seq::<u8>::empty() + crate::boxes::infe_bytes(
        items.last(),
    ));
    assert(crate::boxes::infes_bytes(items) =~= crate::boxes::infe_bytes(items[0]));
    let ghost payload = full_box_header(0, 0) + (be16(1) + crate::boxes::infes_bytes(items));
    assert(out@ =~= pre + be32(0) + be32(IINF) + payload);
    proof {
        lemma_close_box(pre, IINF, payload);
    }
    end_box(out, iinf_pos);
}

fn write_anim_ipco(
    out: &mut Vec<u8>,
    width: u32,
    height: u32,
    seq_header: &[u8],
    av1c: &Av1CBox,
    colr: Option<ColrBox>,
    clli: Option<ClliBox>,
    mdcv: Option<MdcvBox>,
)
    ensures
        final(out)@ == old(out)@ + mp4_box(
            IPCO,
            anim_props_bytes(width, height, seq_header@, *av1c, colr, clli, mdcv),
        ),
{
    reveal(anim_props_bytes);
    let ghost pre = old(out)@;
    let ipco_pos = begin_box(out, IPCO);
    let ghost prefix = out@;
    // Property 1: ispe
    write_ispe(out, &IspeBox { width, height });
    // Property 2: av1C
    write_av1c_box(out, av1c, seq_header);
    // Property 3: pixi
    let depth = bit_depth_from_av1c(av1c);
    if av1c.monochrome {
        write_pixi(out, &PixiBox { channels: 1, depth });
    } else {
        write_pixi(out, &PixiBox { channels: 3, depth });
    }
    let ghost base = ispe_bytes(IspeBox { width, height }) + av1c_bytes(*av1c, seq_header@)
        + pixi_bytes(anim_pixi(*av1c));
    assert(out@ =~= prefix + base);
    // Property 4: colr (optional)
    let ghost colr_part = if shows_colr(colr) {
        colr_nclx_bytes(colr.unwrap())
    } else {
        Seq::empty()
    };
    if let Some(c) = colr {
        if c != ColrBox::default() {
            write_colr_nclx(out, &c);
        }
    }
    assert(out@ =~= prefix + base + colr_part);
    // Property 5: clli (optional)
    let ghost clli_part = match clli {
        Some(c) => clli_bytes(c),
        None => Seq::empty(),
    };
    if let Some(c) = clli {
        write_clli(out, &c);
    }
    assert(out@ =~= prefix + base + colr_part + clli_part);
    // Property 6: mdcv (optional)
    let ghost mdcv_part = match mdcv {
        Some(m) => mdcv_bytes(m),
        None => Seq::empty(),
    };
    if let Some(m) = mdcv {
        write_mdcv(out, &m);
    }
    let ghost payload = base + colr_part + clli_part + mdcv_part;
    assert(out@ =~= pre + be32(0) + be32(IPCO) + payload);
    proof {
        lemma_close_box(pre, IPCO, payload);
    }
    end_box(out, ipco_pos);
}

fn write_anim_ipma(out: &mut Vec<u8>, colr: Option<ColrBox>, clli: Option<ClliBox>, mdcv: Option<MdcvBox>)
    ensures
        final(out)@ == old(out)@ + anim_ipma_bytes(colr, clli, mdcv),
{
    reveal(anim_ipma_bytes);
    let ghost k = anim_extra_count(colr, clli, mdcv);
    let ghost pre = old(out)@;
    let pos = begin_box(out, IPMA);
    write_fullbox(out, 0, 0);
    write_u32(out, 1);  // entry_count
    write_u16(out, 1);  // item_id
    // ispe + av1C (essential) + pixi + the optional ones
    let mut assoc_count: u8 = 3;
    let has_colr = match colr {
        Some(c) => c != ColrBox::default(),
        None => false,
    };
    if has_colr {
        assoc_count += 1;
    }
    if clli.is_some() {
        assoc_count += 1;
    }
    if mdcv.is_some() {
        assoc_count += 1;
    }
    out.push(assoc_count);
    out.push(0x01);  // property 1 (ispe), not essential
    out.push(0x82);  // property 2 (av1C), essential
    out.push(0x03);  // property 3 (pixi), not essential
    let ghost start = out@;
    let mut next_prop = 4u8;
    if has_colr {
        out.push(next_prop);
        next_prop += 1;
    }
    if clli.is_some() {
        out.push(next_prop);
        next_prop += 1;
    }
    if mdcv.is_some() {
        out.push(next_prop);
    }
    assert(out@ =~= start + Seq::new(k, |i: int| (4 + i) as u8));
    let ghost payload = full_box_header(0, 0) + (be32(1) + be16(1) + seq![
        (3 + k) as u8,
        0x01u8,
        0x82u8,
        0x03u8,
    ] + Seq::new(k, |i: int| (4 + i) as u8));
    assert(out@ =~= pre + be32(0) + be32(IPMA) + payload);
    proof {
        lemma_close_box(pre, IPMA, payload);
    }
    end_box(out, pos);
}

#[allow(clippy::too_many_arguments)]
fn write_meta(
    out: &mut Vec<u8>,
    width: u32,
    height: u32,
    seq_header: &[u8],
    first_frame_len: u32,
    av1c: &Av1CBox,
    colr: Option<ColrBox>,
    clli: Option<ClliBox>,
    mdcv: Option<MdcvBox>,
)
    ensures
        final(out)@ == old(out)@ + anim_meta_bytes(
            width,
            height,
            seq_header@,
            first_frame_len,
            *av1c,
            colr,
            clli,
            mdcv,
        ),
{
    reveal(anim_meta_bytes);
    let ghost pre = old(out)@;
    let meta_pos = begin_box(out, META);
    let ghost prefix = out@;
    write_fullbox(out, 0, 0);
    write_hdlr(out);
    write_pitm(out, 1);
    write_anim_iloc(out, first_frame_len);
    write_anim_iinf(out);
    let ghost head = full_box_header(0, 0) + hdlr_bytes() + pitm_bytes(1) + anim_iloc_bytes(
        first_frame_len,
    ) + iinf_bytes(seq![(1u16, AV01, Seq::<u8>::empty())]);
    assert(out@ =~= prefix + head);
    let ghost iprp_pre = out@;
    let iprp_pos = begin_box(out, IPRP);
    let ghost iprp_prefix = out@;
    write_anim_ipco(out, width, height, seq_header, av1c, colr, clli, mdcv);
    write_anim_ipma(out, colr, clli, mdcv);
    let ghost iprp_payload = mp4_box(
        IPCO,
        anim_props_bytes(width, height, seq_header@, *av1c, colr, clli, mdcv),
    ) + anim_ipma_bytes(colr, clli, mdcv);
    proof {
        lemma_concat_associative(
            iprp_prefix,
            mp4_box(IPCO, anim_props_bytes(width, height, seq_header@, *av1c, colr, clli, mdcv)),
            anim_ipma_bytes(colr, clli, mdcv),
        );
        lemma_close_box(iprp_pre, IPRP, iprp_payload);
    }
    end_box(out, iprp_pos);
    proof {
        lemma_concat_associative(prefix, head, mp4_box(IPRP, iprp_payload));
        lemma_close_box(pre, META, head + mp4_box(IPRP, iprp_payload));
    }
    end_box(out, meta_pos);
}


// ─── The animated image ─────────────────────────────────────────────

/// The durations of the frames.
pub open spec fn frame_durations(fs: Seq<AnimFrame>) -> Seq<u32> {
    fs.map_values(|f: AnimFrame| f.duration)
}

/// The color data of the frames.
pub open spec fn color_frames(fs: Seq<AnimFrame>) -> Seq<Seq<u8>> {
    fs.map_values(|f: AnimFrame| f.color@)
}

/// The alpha data of the frames, empty for a frame without alpha.
pub open spec fn alpha_frames(fs: Seq<AnimFrame>) -> Seq<Seq<u8>> {
    fs.map_values(
        |f: AnimFrame|
            match f.alpha {
                Some(a) => a@,
                None => Seq::empty(),
            },
    )
}

/// Whether any frame has alpha data.
pub open spec fn any_alpha(fs: Seq<AnimFrame>) -> bool {
    exists|i: int| 0 <= i < fs.len() && (#[trigger] fs[i]).alpha is Some
}

/// The sum of the frame durations.
pub open spec fn total_duration(fs: Seq<AnimFrame>) -> nat
    decreases fs.len(),
{
    if fs.len() == 0 {
        0
    } else {
        total_duration(fs.drop_last()) + fs.last().duration as nat
    }
}

/// The 1-based numbers of the sync frames, in order.
pub open spec fn sync_numbers(fs: Seq<AnimFrame>) -> Seq<u32>
    decreases fs.len(),
{
    if fs.len() == 0 {
        Seq::empty()
    } else {
        sync_numbers(fs.drop_last()) + if fs.last().is_sync {
            seq![fs.len() as u32]
        } else {
            Seq::empty()
        }
    }
}

/// Frame data, one after another.
pub open spec fn frames_concat(fs: Seq<Seq<u8>>) -> Seq<u8>
    decreases fs.len(),
{
    if fs.len() == 0 {
        Seq::empty()
    } else {
        frames_concat(fs.drop_last()) + fs.last()
    }
}

/// Appends the frames' data, one after another.
pub(crate) fn write_frames(out: &mut Vec<u8>, frames: &[&[u8]])
    ensures
        final(out)@ == old(out)@ + frames_concat(frames_view(frames@)),
{
    let ghost pre = out@;
    let ghost fv = frames_view(frames@);
    for i in 0..frames.len()
        invariant
            fv == frames_view(frames@),
            out@ == pre + frames_concat(fv.take(i as int)),
    {
        write_bytes(out, frames[i]);
        assert(fv.take(i + 1).drop_last() =~= fv.take(i as int));
        assert(out@ =~= pre + frames_concat(fv.take(i + 1)));
    }
    assert(fv.take(frames@.len() as int) =~= fv);
}

/// The settings of an animated image, as plain values.
pub struct AnimatedSettings {
    pub timescale: u32,
    pub loop_count: u32,
    pub color_config: Av1CBox,
    pub alpha_config: Option<Av1CBox>,
    pub colr: Option<ColrBox>,
    pub clli: Option<ClliBox>,
    pub mdcv: Option<MdcvBox>,
}

/// Builder for animated AVIF container serialization: codec configuration and optional
/// metadata; `serialize` takes the per-encode data.
pub struct AnimatedImage {
    timescale: u32,
    loop_count: u32,
    color_config: Av1CBox,
    alpha_config: Option<Av1CBox>,
    colr: Option<ColrBox>,
    clli: Option<ClliBox>,
    mdcv: Option<MdcvBox>,
}

impl View for AnimatedImage {
    type V = AnimatedSettings;

    closed spec fn view(&self) -> AnimatedSettings {
        AnimatedSettings {
            timescale: self.timescale,
            loop_count: self.loop_count,
            color_config: self.color_config,
            alpha_config: self.alpha_config,
            colr: self.colr,
            clli: self.clli,
            mdcv: self.mdcv,
        }
    }
}

impl AnimatedImage {
    /// The configuration `new` gives.
    pub closed spec fn initial() -> Self {
        AnimatedImage {
            timescale: 1000,
            loop_count: 0,
            color_config: crate::boxes::default_av1c(),
            alpha_config: None,
            colr: None,
            clli: None,
            mdcv: None,
        }
    }

    /// Whether an alpha track is written: some frame has alpha, and an alpha
    /// configuration and sequence header are given.
    pub closed spec fn writes_alpha(self, fs: Seq<AnimFrame>, alpha_seq_header: Option<Seq<u8>>) -> bool {
        any_alpha(fs) && self.alpha_config is Some && alpha_seq_header is Some
    }

    /// Everything before the media data.
    pub closed spec fn head_bytes(
        self,
        width: u32,
        height: u32,
        fs: Seq<AnimFrame>,
        color_seq_header: Seq<u8>,
        alpha_seq_header: Option<Seq<u8>>,
    ) -> Seq<u8> {
        let has_alpha = self.writes_alpha(fs, alpha_seq_header);
        let total = total_duration(fs) as u64;
        let first_len: u32 = if fs.len() > 0 { fs[0].color@.len() as u32 } else { 0 };
        anim_ftyp_bytes() + anim_meta_bytes(
            width,
            height,
            color_seq_header,
            first_len,
            self.color_config,
            self.colr,
            self.clli,
            self.mdcv,
        ) + mp4_box(
            MOOV,
            mvhd_bytes(self.timescale, edit_duration(total, self.loop_count), if has_alpha { 3 } else { 2 }) + trak_bytes(
                1,
                width,
                height,
                self.timescale,
                total,
                self.loop_count,
                color_frames(fs),
                frame_durations(fs),
                sync_numbers(fs),
                color_seq_header,
                self.color_config,
                false,
            ) + if has_alpha {
                trak_bytes(
                    2,
                    width,
                    height,
                    self.timescale,
                    total,
                    self.loop_count,
                    alpha_frames(fs),
                    frame_durations(fs),
                    sync_numbers(fs),
                    alpha_seq_header.unwrap(),
                    self.alpha_config.unwrap(),
                    true,
                )
            } else {
                Seq::empty()
            },
        )
    }

    /// The file before offsets are filled in: head, then the media data with the color
    /// frames followed by the alpha frames.
    pub closed spec fn unpatched_bytes(
        self,
        width: u32,
        height: u32,
        fs: Seq<AnimFrame>,
        color_seq_header: Seq<u8>,
        alpha_seq_header: Option<Seq<u8>>,
    ) -> Seq<u8> {
        self.head_bytes(width, height, fs, color_seq_header, alpha_seq_header) + mp4_box(
            MDAT,
            frames_concat(color_frames(fs)) + if self.writes_alpha(fs, alpha_seq_header) {
                frames_concat(alpha_frames(fs))
            } else {
                Seq::empty()
            },
        )
    }

    /// Where the media data payload starts.
    pub closed spec fn mdat_data_start(
        self,
        width: u32,
        height: u32,
        fs: Seq<AnimFrame>,
        color_seq_header: Seq<u8>,
        alpha_seq_header: Option<Seq<u8>>,
    ) -> nat {
        self.head_bytes(width, height, fs, color_seq_header, alpha_seq_header).len() + 8
    }

    /// The animated AVIF file: the unfilled file with three fields filled in, and nothing
    /// else changed. The primary item's offset (at `anim_iloc_place`) and the color track's
    /// chunk offset (at `color_stco_place`) become the start of the media data; the alpha
    /// track's chunk offset (at `alpha_stco_place`), when that track is written, becomes the
    /// start of the alpha frames, right behind the color frames. The loop count is recorded
    /// in the durations of `mvhd` and of each `tkhd` (see `edit_duration`) and in whether each
    /// track's edit list repeats (see `edts_bytes`).
    pub closed spec fn anim_bytes(
        self,
        width: u32,
        height: u32,
        fs: Seq<AnimFrame>,
        color_seq_header: Seq<u8>,
        alpha_seq_header: Option<Seq<u8>>,
    ) -> Seq<u8> {
        let u = self.unpatched_bytes(width, height, fs, color_seq_header, alpha_seq_header);
        let start = self.mdat_data_start(width, height, fs, color_seq_header, alpha_seq_header);
        let c = self.color_stco_place(width, height, fs, color_seq_header, alpha_seq_header);
        let a = self.alpha_stco_place(width, height, fs, color_seq_header, alpha_seq_header);
        let s1 = splice4(u, anim_iloc_place(), be32(start as u32));
        let s2 = splice4(s1, c, be32(start as u32));
        if self.writes_alpha(fs, alpha_seq_header) {
            splice4(s2, a, be32((start + frames_concat(color_frames(fs)).len()) as u32))
        } else {
            s2
        }
    }

    /// Defaults: timescale 1000 (milliseconds), infinite loop, 8-bit 4:2:0 configuration.
    pub fn new() -> (r: Self)
        ensures
            r == AnimatedImage::initial(),
    {
        Self {
            timescale: 1000,
            loop_count: 0,
            color_config: Av1CBox::default(),
            alpha_config: None,
            colr: None,
            clli: None,
            mdcv: None,
        }
    }

    /// Serializes an animated AVIF file from pre-encoded AV1 frame data.
    pub fn serialize(
        &self,
        width: u32,
        height: u32,
        frames: &[AnimFrame],
        color_seq_header: &[u8],
        alpha_seq_header: Option<&[u8]>,
    ) -> (r: Vec<u8>)
        requires
            frames@.len() <= u32::MAX,
        ensures
            r@ == self.anim_bytes(width, height, frames@, color_seq_header@, opt_view(alpha_seq_header)),
    {
        let ghost fs = frames@;
        let ghost ash = opt_view(alpha_seq_header);
        let (mut out, color_stco, alpha_stco, mdat_data_start, alpha_data_start) = self.write_unfilled(
            width,
            height,
            frames,
            color_seq_header,
            alpha_seq_header,
        );
        let has_alpha = alpha_stco.is_some();
        // Fill in the offsets, now that the media data is placed.
        proof {
            self.lemma_anim_places(width, height, fs, color_seq_header@, ash);
        }
        put_be32_at(&mut out, 117, mdat_data_start as u32);
        put_be32_at(&mut out, color_stco, mdat_data_start as u32);
        if let Some(pos) = alpha_stco {
            put_be32_at(&mut out, pos, alpha_data_start as u32);
        }
        out
    }

    /// The file with the offsets still to be filled in, where the chunk offset fields stand
    /// (the alpha track's only when it is written), where the media data starts, and where
    /// the alpha frames start in it.
    #[verifier::rlimit(60)]
    fn write_unfilled(
        &self,
        width: u32,
        height: u32,
        frames: &[AnimFrame],
        color_seq_header: &[u8],
        alpha_seq_header: Option<&[u8]>,
    ) -> (r: (Vec<u8>, usize, Option<usize>, usize, usize))
        requires
            frames@.len() <= u32::MAX,
        ensures
            r.0@ == self.unpatched_bytes(
                width,
                height,
                frames@,
                color_seq_header@,
                opt_view(alpha_seq_header),
            ),
            r.1 == self.color_stco_place(
                width,
                height,
                frames@,
                color_seq_header@,
                opt_view(alpha_seq_header),
            ),
            r.2 is Some <==> self.writes_alpha(frames@, opt_view(alpha_seq_header)),
            r.2 matches Some(a) ==> a == self.alpha_stco_place(
                width,
                height,
                frames@,
                color_seq_header@,
                opt_view(alpha_seq_header),
            ),
            r.3 == self.mdat_data_start(
                width,
                height,
                frames@,
                color_seq_header@,
                opt_view(alpha_seq_header),
            ),
            r.4 == r.3 + frames_concat(color_frames(frames@)).len(),
    {
        let ghost fs = frames@;
        let ghost ash = opt_view(alpha_seq_header);
        let mut any_alpha_frame = false;
        let mut total: u64 = 0;
        let mut durations: Vec<u32> = Vec::new();
        let mut color_v: Vec<&[u8]> = Vec::new();
        let mut sync_indices: Vec<u32> = Vec::new();
        for i in 0..frames.len()
            invariant
                fs == frames@,
                fs.len() <= u32::MAX,
                any_alpha_frame == (exists|j: int| 0 <= j < i && (#[trigger] fs[j]).alpha is Some),
                total == total_duration(fs.take(i as int)),
                total <= i * 0xffff_ffffu64,
                durations@ == frame_durations(fs.take(i as int)),
                color_v@.len() == i,
                forall|j: int| 0 <= j < i ==> (#[trigger] color_v@[j]) == fs[j].color,
                sync_indices@ == sync_numbers(fs.take(i as int)),
        {
            let f = frames[i];
            let ghost prev = fs.take(i as int);
            let ghost next = fs.take(i + 1);
            assert(next.drop_last() =~= prev);
            assert(next.last() == f);
            if f.alpha.is_some() {
                any_alpha_frame = true;
            }
            total = total + f.duration as u64;
            durations.push(f.duration);
            color_v.push(f.color);
            if f.is_sync {
                sync_indices.push((i + 1) as u32);
            }
            assert(durations@ =~= frame_durations(next));
            assert(sync_indices@ =~= sync_numbers(next));
        }
        assert(fs.take(fs.len() as int) =~= fs);
        assert(frames_view(color_v@) =~= color_frames(fs));
        let has_alpha = any_alpha_frame && self.alpha_config.is_some() && alpha_seq_header.is_some();
        assert(has_alpha == self.writes_alpha(fs, ash));

        let mut alpha_v: Vec<&[u8]> = Vec::new();
        if has_alpha {
            for i in 0..frames.len()
                invariant
                    fs == frames@,
                    alpha_v@.len() == i,
                    forall|j: int| 0 <= j < i ==> (#[trigger] alpha_v@[j])@ == alpha_frames(fs)[j],
            {
                let f = frames[i];
                let a: &[u8] = match f.alpha {
                    Some(a) => a,
                    None => &[],
                };
                alpha_v.push(a);
                assert(a@ == alpha_frames(fs)[i as int]);
            }
            assert(frames_view(alpha_v@) =~= alpha_frames(fs));
        }
        let ghost alpha_part: Seq<u8> = if has_alpha {
            frames_concat(alpha_frames(fs))
        } else {
            Seq::empty()
        };
        assert(frames_concat(frames_view(alpha_v@)) == alpha_part);

        let mut out: Vec<u8> = Vec::new();
        write_ftyp(&mut out);
        let first_len: u32 = if frames.len() > 0 {
            frames[0].color.len() as u32
        } else {
            0
        };
        write_meta(
            &mut out,
            width,
            height,
            color_seq_header,
            first_len,
            &self.color_config,
            self.colr,
            self.clli,
            self.mdcv,
        );
        let ghost meta = anim_meta_bytes(
            width,
            height,
            color_seq_header@,
            first_len,
            self.color_config,
            self.colr,
            self.clli,
            self.mdcv,
        );
        assert(out@ =~= anim_ftyp_bytes() + meta);

        // moov
        let ghost moov_pre = out@;
        let moov_pos = begin_box(&mut out, MOOV);
        let ghost moov_prefix = out@;
        let next_track_id: u32 = if has_alpha {
            3
        } else {
            2
        };
        let shown = presentation_duration(total, self.loop_count);
        write_mvhd(&mut out, self.timescale, shown, next_track_id);
        let color_stco = write_track(
            &mut out,
            1,
            width,
            height,
            self.timescale,
            total,
            self.loop_count,
            color_v.as_slice(),
            durations.as_slice(),
            sync_indices.as_slice(),
            color_seq_header,
            &self.color_config,
            false,
        );
        let ghost mv = mvhd_bytes(self.timescale, edit_duration(total, self.loop_count), next_track_id);
        let ghost t1 = trak_bytes(
            1,
            width,
            height,
            self.timescale,
            total,
            self.loop_count,
            color_frames(fs),
            frame_durations(fs),
            sync_numbers(fs),
            color_seq_header@,
            self.color_config,
            false,
        );
        assert(out@ =~= moov_prefix + (mv + t1));
        let ghost t2: Seq<u8> = if has_alpha {
            trak_bytes(
                2,
                width,
                height,
                self.timescale,
                total,
                self.loop_count,
                alpha_frames(fs),
                frame_durations(fs),
                sync_numbers(fs),
                ash.unwrap(),
                self.alpha_config.unwrap(),
                true,
            )
        } else {
            Seq::empty()
        };
        assert(color_stco == self.color_stco_place(width, height, fs, color_seq_header@, ash));
        let mut alpha_stco: usize = 0;
        if has_alpha {
            let alpha_seq = alpha_seq_header.unwrap();
            let alpha_cfg = self.alpha_config.unwrap();
            alpha_stco = write_track(
                &mut out,
                2,
                width,
                height,
                self.timescale,
                total,
                self.loop_count,
                alpha_v.as_slice(),
                durations.as_slice(),
                sync_indices.as_slice(),
                alpha_seq,
                &alpha_cfg,
                true,
            );
        }
        assert(has_alpha ==> alpha_stco == self.alpha_stco_place(
            width,
            height,
            fs,
            color_seq_header@,
            ash,
        ));
        assert(out@ =~= moov_pre + be32(0) + be32(MOOV) + (mv + t1 + t2));
        proof {
            lemma_close_box(moov_pre, MOOV, mv + t1 + t2);
        }
        end_box(&mut out, moov_pos);
        let ghost head = out@;
        assert(head =~= self.head_bytes(width, height, fs, color_seq_header@, ash));

        // mdat
        let mdat_pos = begin_box(&mut out, MDAT);
        let mdat_data_start = out.len();
        write_frames(&mut out, color_v.as_slice());
        let alpha_data_start = out.len();
        write_frames(&mut out, alpha_v.as_slice());
        let ghost media = frames_concat(color_frames(fs)) + alpha_part;
        assert(out@ =~= head + be32(0) + be32(MDAT) + media);
        proof {
            lemma_close_box(head, MDAT, media);
        }
        end_box(&mut out, mdat_pos);
        assert(out@ == self.unpatched_bytes(width, height, fs, color_seq_header@, ash));
        let alpha_place = if has_alpha {
            Some(alpha_stco)
        } else {
            None
        };
        (out, color_stco, alpha_place, mdat_data_start, alpha_data_start)
    }

    /// This configuration with the timescale set.
    pub closed spec fn with_timescale(self, timescale: u32) -> Self {
        AnimatedImage { timescale: timescale, ..self }
    }

    /// Timescale in ticks per second. Default: 1000 (milliseconds).
    pub fn set_timescale(&mut self, timescale: u32) -> (r: &mut Self)
        ensures
            *r == old(self).with_timescale(timescale),
            *final(self) == *final(r),
    {
        self.timescale = timescale;
        self
    }

    /// This configuration with the loop count set.
    pub closed spec fn with_loop_count(self, loop_count: u32) -> Self {
        AnimatedImage { loop_count: loop_count, ..self }
    }

    /// Loop count: 0 = infinite. Default: 0.
    pub fn set_loop_count(&mut self, loop_count: u32) -> (r: &mut Self)
        ensures
            *r == old(self).with_loop_count(loop_count),
            *final(self) == *final(r),
    {
        self.loop_count = loop_count;
        self
    }

    /// This configuration with the color config set.
    pub closed spec fn with_color_config(self, config: Av1CBox) -> Self {
        AnimatedImage { color_config: config, ..self }
    }

    /// AV1 codec configuration for the color track.
    pub fn set_color_config(&mut self, config: Av1CBox) -> (r: &mut Self)
        ensures
            *r == old(self).with_color_config(config),
            *final(self) == *final(r),
    {
        self.color_config = config;
        self
    }

    /// This configuration with the alpha config set.
    pub closed spec fn with_alpha_config(self, config: Av1CBox) -> Self {
        AnimatedImage { alpha_config: Some(config), ..self }
    }

    /// AV1 codec configuration for the alpha track.
    pub fn set_alpha_config(&mut self, config: Av1CBox) -> (r: &mut Self)
        ensures
            *r == old(self).with_alpha_config(config),
            *final(self) == *final(r),
    {
        self.alpha_config = Some(config);
        self
    }

    /// This configuration with the colr set.
    pub closed spec fn with_colr(self, colr: ColrBox) -> Self {
        AnimatedImage { colr: Some(colr), ..self }
    }

    /// CICP color info (nclx).
    pub fn set_colr(&mut self, colr: ColrBox) -> (r: &mut Self)
        ensures
            *r == old(self).with_colr(colr),
            *final(self) == *final(r),
    {
        self.colr = Some(colr);
        self
    }

    /// This configuration with the clli set.
    pub closed spec fn with_clli(self, clli: ClliBox) -> Self {
        AnimatedImage { clli: Some(clli), ..self }
    }

    /// Content Light Level Information (HDR).
    pub fn set_clli(&mut self, clli: ClliBox) -> (r: &mut Self)
        ensures
            *r == old(self).with_clli(clli),
            *final(self) == *final(r),
    {
        self.clli = Some(clli);
        self
    }

    /// This configuration with the mdcv set.
    pub closed spec fn with_mdcv(self, mdcv: MdcvBox) -> Self {
        AnimatedImage { mdcv: Some(mdcv), ..self }
    }

    /// Mastering Display Colour Volume (HDR).
    pub fn set_mdcv(&mut self, mdcv: MdcvBox) -> (r: &mut Self)
        ensures
            *r == old(self).with_mdcv(mdcv),
            *final(self) == *final(r),
    {
        self.mdcv = Some(mdcv);
        self
    }

}

impl Default for AnimatedImage {
    fn default() -> (r: Self)
        ensures
            r == AnimatedImage::initial(),
    {
        Self::new()
    }
}

impl AnimatedImage {
    /// What `new` and each setter leave in the settings: the defaults (timescale 1000,
    /// infinite loop, the default codec configuration, nothing optional), and each setter
    /// changes its own setting only.
    pub proof fn lemma_anim_settings(
        self,
        timescale: u32,
        loop_count: u32,
        config: Av1CBox,
        colr: ColrBox,
        clli: ClliBox,
        mdcv: MdcvBox,
    )
        ensures
            Self::initial()@ == (AnimatedSettings {
                timescale: 1000,
                loop_count: 0,
                color_config: crate::boxes::default_av1c(),
                alpha_config: None,
                colr: None,
                clli: None,
                mdcv: None,
            }),
            self.with_timescale(timescale)@ == (AnimatedSettings { timescale: timescale, ..self@ }),
            self.with_loop_count(loop_count)@ == (AnimatedSettings { loop_count: loop_count, ..self@ }),
            self.with_color_config(config)@ == (AnimatedSettings { color_config: config, ..self@ }),
            self.with_alpha_config(config)@ == (AnimatedSettings { alpha_config: Some(config), ..self@ }),
            self.with_colr(colr)@ == (AnimatedSettings { colr: Some(colr), ..self@ }),
            self.with_clli(clli)@ == (AnimatedSettings { clli: Some(clli), ..self@ }),
            self.with_mdcv(mdcv)@ == (AnimatedSettings { mdcv: Some(mdcv), ..self@ }),
    {
    }
}


// ─── Reading back ───────────────────────────────────────────────────

/// Where, within a track, the chunk offset field stands.
pub open spec fn trak_stco_place(
    track_id: u32,
    width: u32,
    height: u32,
    timescale: u32,
    duration: u64,
    loop_count: u32,
    frames: Seq<Seq<u8>>,
    durations: Seq<u32>,
    seq_header: Seq<u8>,
    av1c: Av1CBox,
    is_alpha: bool,
) -> int {
    (8 + tkhd_bytes(track_id, width, height, edit_duration(duration, loop_count), is_alpha).len() + edts_bytes(
        duration,
        loop_count,
    ).len() + 8 + mdhd_bytes(
        timescale,
        duration,
    ).len() + track_hdlr_bytes(is_alpha).len() + 8 + vmhd_bytes().len() + dinf_bytes().len() + 8
        + stsd_bytes(width, height, av1c, seq_header).len() + stts_bytes(durations).len() + stsc_bytes(
        frames.len() as u32,
    ).len() + stsz_bytes(frames).len() + 16) as int
}

/// A track holds the chunk offset placeholder at `trak_stco_place`.
#[verifier::rlimit(40)]
proof fn lemma_trak_stco(
    track_id: u32,
    width: u32,
    height: u32,
    timescale: u32,
    duration: u64,
    loop_count: u32,
    frames: Seq<Seq<u8>>,
    durations: Seq<u32>,
    sync: Seq<u32>,
    seq_header: Seq<u8>,
    av1c: Av1CBox,
    is_alpha: bool,
)
    ensures
        ({
            let t = trak_bytes(
                track_id,
                width,
                height,
                timescale,
                duration,
                loop_count,
                frames,
                durations,
                sync,
                seq_header,
                av1c,
                is_alpha,
            );
            let p = trak_stco_place(
                track_id,
                width,
                height,
                timescale,
                duration,
                loop_count,
                frames,
                durations,
                seq_header,
                av1c,
                is_alpha,
            );
            &&& 0 <= p
            &&& p + 4 <= t.len()
            &&& t.subrange(p, p + 4) == be32(STCO_PLACEHOLDER)
        }),
{
    reveal(trak_bytes);
    reveal(stco_bytes);
    let tkhd = tkhd_bytes(track_id, width, height, edit_duration(duration, loop_count), is_alpha);
    let mdhd = mdhd_bytes(timescale, duration);
    let hdlr = track_hdlr_bytes(is_alpha);
    let stsd = stsd_bytes(width, height, av1c, seq_header);
    let stts = stts_bytes(durations);
    let stsc = stsc_bytes(frames.len() as u32);
    let stsz = stsz_bytes(frames);
    let stco = stco_bytes();
    let stss = stss_bytes(sync);
    let ph = be32(STCO_PLACEHOLDER);
    // stco: header, version and flags, count, placeholder
    let stco_head = be32(20) + be32(STCO) + full_box_header(0, 0) + be32(1);
    assert(stco =~= stco_head + ph);
    lemma_subrange_right(stco_head, ph, 0, 4);
    assert(ph.subrange(0, 4) =~= ph);
    // stbl
    let before_stco = stsd + stts + stsc + stsz;
    let stbl_payload = before_stco + stco + stss;
    let bl: int = before_stco.len() as int;
    lemma_subrange_left(before_stco + stco, stss, bl + 16, bl + 20);
    lemma_subrange_right(before_stco, stco, 16, 20);
    let stbl = stbl_bytes(width, height, frames, durations, sync, seq_header, av1c);
    let stbl_head = be32((8 + stbl_payload.len()) as u32) + be32(STBL);
    assert(stbl == stbl_head + stbl_payload);
    let x: int = bl + 16;
    lemma_subrange_right(stbl_head, stbl_payload, x, x + 4);
    // minf
    let minf_payload = vmhd_bytes() + dinf_bytes() + stbl;
    let minf = mp4_box(MINF, minf_payload);
    let minf_head = be32((8 + minf_payload.len()) as u32) + be32(MINF);
    assert(minf == minf_head + minf_payload);
    let y: int = 8 + x;
    lemma_subrange_right(vmhd_bytes() + dinf_bytes(), stbl, y, y + 4);
    let z: int = (vmhd_bytes() + dinf_bytes()).len() + y;
    lemma_subrange_right(minf_head, minf_payload, z, z + 4);
    // mdia
    let mdia_payload = mdhd + hdlr + minf;
    let mdia = mp4_box(MDIA, mdia_payload);
    let mdia_head = be32((8 + mdia_payload.len()) as u32) + be32(MDIA);
    assert(mdia == mdia_head + mdia_payload);
    let w: int = 8 + z;
    lemma_subrange_right(mdhd + hdlr, minf, w, w + 4);
    let v: int = (mdhd + hdlr).len() + w;
    lemma_subrange_right(mdia_head, mdia_payload, v, v + 4);
    // trak
    let tref: Seq<u8> = if is_alpha {
        tref_bytes()
    } else {
        Seq::empty()
    };
    let head = tkhd + edts_bytes(duration, loop_count);
    let trak_payload = head + mdia + tref;
    let u: int = 8 + v;
    lemma_subrange_left(head + mdia, tref, head.len() + u, head.len() + u + 4);
    lemma_subrange_right(head, mdia, u, u + 4);
    let t = trak_bytes(
        track_id,
        width,
        height,
        timescale,
        duration,
        loop_count,
        frames,
        durations,
        sync,
        seq_header,
        av1c,
        is_alpha,
    );
    let trak_head = be32((8 + trak_payload.len()) as u32) + be32(TRAK);
    assert(t == trak_head + trak_payload);
    let r: int = head.len() + u;
    lemma_subrange_right(trak_head, trak_payload, r, r + 4);
}


/// A track standing at `t` in `f` opens, behind its own header, with `tkhd` and `edts`,
/// and, behind the header of `mdia`, with `mdhd`.
pub open spec fn track_timing_at(f: Seq<u8>, t: int, tkhd: Seq<u8>, edts: Seq<u8>, mdhd: Seq<u8>) -> bool {
    let e = t + 8 + tkhd.len();
    let m = e + edts.len() + 8;
    &&& 0 <= t
    &&& m + mdhd.len() <= f.len()
    &&& f.subrange(t + 8, e) == tkhd
    &&& f.subrange(e, e + edts.len()) == edts
    &&& f.subrange(m, m + mdhd.len()) == mdhd
}

/// A track opens with its header, its edit list and, inside `mdia`, its media header, all
/// before its chunk offset field.
proof fn lemma_trak_timing(
    track_id: u32,
    width: u32,
    height: u32,
    timescale: u32,
    duration: u64,
    loop_count: u32,
    frames: Seq<Seq<u8>>,
    durations: Seq<u32>,
    sync: Seq<u32>,
    seq_header: Seq<u8>,
    av1c: Av1CBox,
    is_alpha: bool,
)
    ensures
        ({
            let t = trak_bytes(
                track_id,
                width,
                height,
                timescale,
                duration,
                loop_count,
                frames,
                durations,
                sync,
                seq_header,
                av1c,
                is_alpha,
            );
            let tk = tkhd_bytes(track_id, width, height, edit_duration(duration, loop_count), is_alpha);
            let ed = edts_bytes(duration, loop_count);
            let md = mdhd_bytes(timescale, duration);
            &&& track_timing_at(t, 0, tk, ed, md)
            &&& 8 + tk.len() + ed.len() + 8 + md.len() <= trak_stco_place(
                track_id,
                width,
                height,
                timescale,
                duration,
                loop_count,
                frames,
                durations,
                seq_header,
                av1c,
                is_alpha,
            )
        }),
{
    reveal(trak_bytes);
    let tk = tkhd_bytes(track_id, width, height, edit_duration(duration, loop_count), is_alpha);
    let ed = edts_bytes(duration, loop_count);
    let md = mdhd_bytes(timescale, duration);
    let rest = track_hdlr_bytes(is_alpha) + mp4_box(
        MINF,
        vmhd_bytes() + dinf_bytes() + stbl_bytes(width, height, frames, durations, sync, seq_header, av1c),
    );
    let mdia_payload = md + rest;
    let mdia_head = be32((8 + mdia_payload.len()) as u32) + be32(MDIA);
    let tref: Seq<u8> = if is_alpha {
        tref_bytes()
    } else {
        Seq::empty()
    };
    let payload = tk + ed + mp4_box(MDIA, mdia_payload) + tref;
    let head = be32((8 + payload.len()) as u32) + be32(TRAK);
    let t = trak_bytes(
        track_id,
        width,
        height,
        timescale,
        duration,
        loop_count,
        frames,
        durations,
        sync,
        seq_header,
        av1c,
        is_alpha,
    );
    assert(t == head + payload);
    let e: int = 8 + tk.len() as int;
    let m: int = e + ed.len() + 8;
    assert(t.subrange(8, e) =~= tk);
    assert(t.subrange(e, e + ed.len()) =~= ed);
    assert(t.subrange(m, m + md.len()) =~= md);
}

/// A part of a stretch of `u` that equals `t`.
proof fn lemma_subrange_within(u: Seq<u8>, s: int, t: Seq<u8>, x: int, y: int)
    requires
        0 <= s,
        s + t.len() <= u.len(),
        u.subrange(s, s + t.len()) == t,
        0 <= x <= y <= t.len(),
    ensures
        u.subrange(s + x, s + y) == t.subrange(x, y),
{
    assert(u.subrange(s + x, s + y) =~= u.subrange(s, s + t.len()).subrange(x, y));
}

/// What holds of a track in `t` holds of it where `t` stands in `u`.
proof fn lemma_track_timing_within(
    u: Seq<u8>,
    s: int,
    t: Seq<u8>,
    tkhd: Seq<u8>,
    edts: Seq<u8>,
    mdhd: Seq<u8>,
)
    requires
        0 <= s,
        s + t.len() <= u.len(),
        u.subrange(s, s + t.len()) == t,
        track_timing_at(t, 0, tkhd, edts, mdhd),
    ensures
        track_timing_at(u, s, tkhd, edts, mdhd),
{
    let e: int = 8 + tkhd.len() as int;
    let m: int = e + edts.len() + 8;
    lemma_subrange_within(u, s, t, 8, e);
    lemma_subrange_within(u, s, t, e, e + edts.len());
    lemma_subrange_within(u, s, t, m, m + mdhd.len());
}

/// The `i`-th of a list of 32-bit values stands at `4 * i` in its encoding.
proof fn lemma_u32s_at(vs: Seq<u32>, i: int)
    requires
        0 <= i < vs.len(),
    ensures
        u32s_bytes(vs).len() == 4 * vs.len(),
        u32s_bytes(vs).subrange(4 * i, 4 * i + 4) == be32(vs[i]),
    decreases vs.len(),
{
    lemma_u32s_len(vs.drop_last());
    if i < vs.len() - 1 {
        lemma_u32s_at(vs.drop_last(), i);
        lemma_subrange_left(u32s_bytes(vs.drop_last()), be32(vs.last()), 4 * i, 4 * i + 4);
    } else {
        lemma_subrange_right(u32s_bytes(vs.drop_last()), be32(vs.last()), 0, 4);
        assert(be32(vs.last()).subrange(0, 4) =~= be32(vs.last()));
    }
}

proof fn lemma_u32s_len(vs: Seq<u32>)
    ensures
        u32s_bytes(vs).len() == 4 * vs.len(),
    decreases vs.len(),
{
    if vs.len() > 0 {
        lemma_u32s_len(vs.drop_last());
    }
}

/// A track's sample sizes, read back from the file: `stsz` ends 16 bytes before the chunk
/// offset field at `c`, and its last `4 * n` bytes give, in order, the size of each of the `n`
/// frames, right behind the sample count.
pub open spec fn sample_sizes_at(f: Seq<u8>, c: int, frames: Seq<Seq<u8>>) -> bool {
    let n = frames.len() as int;
    let z = c - 16 - 4 * n;
    &&& 4 <= z
    &&& c <= f.len()
    &&& be32_value(f.subrange(z - 4, z)) == n as u32
    &&& forall|i: int|
        0 <= i < n ==> be32_value(#[trigger] f.subrange(z + 4 * i, z + 4 * i + 4)) == frames[i].len() as u32
}

/// `stsz` is 20 bytes of header, version, flags, sample size and count, then one size per frame.
proof fn lemma_stsz_entries(frames: Seq<Seq<u8>>)
    ensures
        stsz_bytes(frames).len() == 20 + 4 * frames.len(),
        be32_value(stsz_bytes(frames).subrange(16, 20)) == frames.len() as u32,
        forall|i: int|
            0 <= i < frames.len() ==> be32_value(#[trigger] stsz_bytes(frames).subrange(20 + 4 * i, 24 + 4 * i))
                == frames[i].len() as u32,
{
    reveal(stsz_bytes);
    let sizes = frame_sizes(frames);
    let z = stsz_bytes(frames);
    let head = be32((8 + (full_box_header(0, 0) + (be32(0) + be32(frames.len() as u32) + u32s_bytes(
        sizes,
    ))).len()) as u32) + be32(STSZ) + full_box_header(0, 0) + be32(0) + be32(frames.len() as u32);
    lemma_u32s_len(sizes);
    assert(z =~= head + u32s_bytes(sizes));
    assert(head.len() == 20);
    assert(z.subrange(16, 20) =~= be32(frames.len() as u32));
    lemma_be32_roundtrip(frames.len() as u32);
    assert forall|i: int| 0 <= i < frames.len() implies be32_value(
        #[trigger] z.subrange(20 + 4 * i, 24 + 4 * i),
    ) == frames[i].len() as u32 by {
        lemma_u32s_at(sizes, i);
        lemma_subrange_right(head, u32s_bytes(sizes), 4 * i, 4 * i + 4);
        lemma_be32_roundtrip(sizes[i]);
    }
}

/// A track holds its `stsz` right before `stco`, whose offset field is at `trak_stco_place`.
#[verifier::rlimit(40)]
proof fn lemma_trak_stsz(
    track_id: u32,
    width: u32,
    height: u32,
    timescale: u32,
    duration: u64,
    loop_count: u32,
    frames: Seq<Seq<u8>>,
    durations: Seq<u32>,
    sync: Seq<u32>,
    seq_header: Seq<u8>,
    av1c: Av1CBox,
    is_alpha: bool,
)
    ensures
        ({
            let t = trak_bytes(
                track_id,
                width,
                height,
                timescale,
                duration,
                loop_count,
                frames,
                durations,
                sync,
                seq_header,
                av1c,
                is_alpha,
            );
            let p = trak_stco_place(
                track_id,
                width,
                height,
                timescale,
                duration,
                loop_count,
                frames,
                durations,
                seq_header,
                av1c,
                is_alpha,
            );
            let l = stsz_bytes(frames).len() as int;
            &&& 0 <= p - 16 - l
            &&& p <= t.len()
            &&& t.subrange(p - 16 - l, p - 16) == stsz_bytes(frames)
        }),
{
    reveal(trak_bytes);
    lemma_trak_stco(
        track_id,
        width,
        height,
        timescale,
        duration,
        loop_count,
        frames,
        durations,
        sync,
        seq_header,
        av1c,
        is_alpha,
    );
    let tkhd = tkhd_bytes(track_id, width, height, edit_duration(duration, loop_count), is_alpha);
    let mdhd = mdhd_bytes(timescale, duration);
    let hdlr = track_hdlr_bytes(is_alpha);
    let stsd = stsd_bytes(width, height, av1c, seq_header);
    let stts = stts_bytes(durations);
    let stsc = stsc_bytes(frames.len() as u32);
    let stsz = stsz_bytes(frames);
    let stco = stco_bytes();
    let stss = stss_bytes(sync);
    let l = stsz.len() as int;
    // stbl
    let before = stsd + stts + stsc;
    let stbl_payload = before + stsz + stco + stss;
    let bl: int = before.len() as int;
    lemma_subrange_left(before + stsz + stco, stss, bl, bl + l);
    lemma_subrange_left(before + stsz, stco, bl, bl + l);
    lemma_subrange_right(before, stsz, 0, l);
    assert(stsz.subrange(0, l) =~= stsz);
    let stbl = stbl_bytes(width, height, frames, durations, sync, seq_header, av1c);
    let stbl_head = be32((8 + stbl_payload.len()) as u32) + be32(STBL);
    assert(stbl == stbl_head + stbl_payload);
    lemma_subrange_right(stbl_head, stbl_payload, bl, bl + l);
    let x: int = bl + 8;
    // minf
    let minf_payload = vmhd_bytes() + dinf_bytes() + stbl;
    let minf = mp4_box(MINF, minf_payload);
    let minf_head = be32((8 + minf_payload.len()) as u32) + be32(MINF);
    assert(minf == minf_head + minf_payload);
    lemma_subrange_right(vmhd_bytes() + dinf_bytes(), stbl, x, x + l);
    let y: int = (vmhd_bytes() + dinf_bytes()).len() + x;
    lemma_subrange_right(minf_head, minf_payload, y, y + l);
    let z: int = y + 8;
    // mdia
    let mdia_payload = mdhd + hdlr + minf;
    let mdia = mp4_box(MDIA, mdia_payload);
    let mdia_head = be32((8 + mdia_payload.len()) as u32) + be32(MDIA);
    assert(mdia == mdia_head + mdia_payload);
    lemma_subrange_right(mdhd + hdlr, minf, z, z + l);
    let v: int = (mdhd + hdlr).len() + z;
    lemma_subrange_right(mdia_head, mdia_payload, v, v + l);
    let w: int = v + 8;
    // trak
    let tref: Seq<u8> = if is_alpha {
        tref_bytes()
    } else {
        Seq::empty()
    };
    let head = tkhd + edts_bytes(duration, loop_count);
    let trak_payload = head + mdia + tref;
    lemma_subrange_left(head + mdia, tref, head.len() + w, head.len() + w + l);
    lemma_subrange_right(head, mdia, w, w + l);
    let t = trak_bytes(
        track_id,
        width,
        height,
        timescale,
        duration,
        loop_count,
        frames,
        durations,
        sync,
        seq_header,
        av1c,
        is_alpha,
    );
    let trak_head = be32((8 + trak_payload.len()) as u32) + be32(TRAK);
    assert(t == trak_head + trak_payload);
    let r: int = head.len() + w;
    lemma_subrange_right(trak_head, trak_payload, r, r + l);
}

/// `meta` holds the item-offset placeholder at 81, followed by the first frame's length.
proof fn lemma_meta_iloc(
    width: u32,
    height: u32,
    seq_header: Seq<u8>,
    first_frame_len: u32,
    av1c: Av1CBox,
    colr: Option<ColrBox>,
    clli: Option<ClliBox>,
    mdcv: Option<MdcvBox>,
)
    ensures
        ({
            let m = anim_meta_bytes(width, height, seq_header, first_frame_len, av1c, colr, clli, mdcv);
            &&& 89 <= m.len()
            &&& m.subrange(81, 85) == be32(ILOC_PLACEHOLDER)
            &&& m.subrange(85, 89) == be32(first_frame_len)
        }),
{
    reveal(anim_meta_bytes);
    reveal(anim_iloc_bytes);
    let iloc = anim_iloc_bytes(first_frame_len);
    let iloc_head = be32(30) + be32(ILOC) + full_box_header(0, 0) + seq![0x44u8, 0x00u8] + be16(1)
        + be16(1) + be16(0) + be16(1);
    assert(iloc =~= iloc_head + be32(ILOC_PLACEHOLDER) + be32(first_frame_len));
    assert(iloc.subrange(22, 26) =~= be32(ILOC_PLACEHOLDER));
    assert(iloc.subrange(26, 30) =~= be32(first_frame_len));
    let before = full_box_header(0, 0) + hdlr_bytes() + pitm_bytes(1);
    assert(before.len() == 51);
    let rest = iinf_bytes(seq![(1u16, AV01, Seq::<u8>::empty())]) + mp4_box(
        IPRP,
        mp4_box(IPCO, anim_props_bytes(width, height, seq_header, av1c, colr, clli, mdcv))
            + anim_ipma_bytes(colr, clli, mdcv),
    );
    let payload = before + iloc + iinf_bytes(seq![(1u16, AV01, Seq::<u8>::empty())]) + mp4_box(
        IPRP,
        mp4_box(IPCO, anim_props_bytes(width, height, seq_header, av1c, colr, clli, mdcv))
            + anim_ipma_bytes(colr, clli, mdcv),
    );
    assert(payload =~= before + (iloc + rest));
    lemma_subrange_left(iloc, rest, 22, 26);
    lemma_subrange_left(iloc, rest, 26, 30);
    lemma_subrange_right(before, iloc + rest, 22, 26);
    lemma_subrange_right(before, iloc + rest, 26, 30);
    let head = be32((8 + payload.len()) as u32) + be32(META);
    let m = anim_meta_bytes(width, height, seq_header, first_frame_len, av1c, colr, clli, mdcv);
    assert(m == head + payload);
    lemma_subrange_right(head, payload, 73, 77);
    lemma_subrange_right(head, payload, 77, 81);
}

/// Replacing the four bytes at `i` leaves every stretch that does not overlap them as it was.
proof fn lemma_splice_outside(s: Seq<u8>, i: int, b: Seq<u8>, x: int, y: int)
    requires
        0 <= i,
        i + 4 <= s.len(),
        b.len() == 4,
        0 <= x <= y <= s.len(),
        y <= i || i + 4 <= x,
    ensures
        splice4(s, i, b).len() == s.len(),
        splice4(s, i, b).subrange(x, y) == s.subrange(x, y),
        splice4(s, i, b).subrange(i, i + 4) == b,
{
    assert(splice4(s, i, b).subrange(x, y) =~= s.subrange(x, y));
    assert(splice4(s, i, b).subrange(i, i + 4) =~= b);
}

/// The first frame's data opens the frames' data.
proof fn lemma_frames_concat_first(fs: Seq<Seq<u8>>)
    requires
        fs.len() > 0,
    ensures
        fs[0].len() <= frames_concat(fs).len(),
        frames_concat(fs).subrange(0, fs[0].len() as int) == fs[0],
    decreases fs.len(),
{
    if fs.len() > 1 {
        lemma_frames_concat_first(fs.drop_last());
        let a = frames_concat(fs.drop_last());
        assert((a + fs.last()).subrange(0, fs[0].len() as int) =~= a.subrange(0, fs[0].len() as int));
    } else {
        assert(fs.drop_last().len() == 0);
        assert(frames_concat(fs.drop_last()) == Seq::<u8>::empty());
        assert(frames_concat(fs) =~= fs[0]);
    }
}

/// Where the primary item's offset field stands in an animated file.
pub open spec fn anim_iloc_place() -> int {
    117
}

impl AnimatedImage {
    /// The length of the first frame's color data, as recorded for the primary item.
    pub closed spec fn first_frame_len(fs: Seq<AnimFrame>) -> u32 {
        if fs.len() > 0 {
            fs[0].color@.len() as u32
        } else {
            0
        }
    }

    /// Where `moov` starts.
    pub closed spec fn moov_start(
        self,
        width: u32,
        height: u32,
        fs: Seq<AnimFrame>,
        color_seq_header: Seq<u8>,
    ) -> int {
        (anim_ftyp_bytes() + anim_meta_bytes(
            width,
            height,
            color_seq_header,
            Self::first_frame_len(fs),
            self.color_config,
            self.colr,
            self.clli,
            self.mdcv,
        )).len() as int
    }

    /// Where the chunk offset field of the color track stands in the file.
    pub closed spec fn color_stco_place(
        self,
        width: u32,
        height: u32,
        fs: Seq<AnimFrame>,
        color_seq_header: Seq<u8>,
        alpha_seq_header: Option<Seq<u8>>,
    ) -> int {
        let total = total_duration(fs) as u64;
        let next: u32 = if self.writes_alpha(fs, alpha_seq_header) {
            3
        } else {
            2
        };
        self.moov_start(width, height, fs, color_seq_header) + 8 + mvhd_bytes(self.timescale, edit_duration(total, self.loop_count), next).len()
            + trak_stco_place(
            1,
            width,
            height,
            self.timescale,
            total,
            self.loop_count,
            color_frames(fs),
            frame_durations(fs),
            color_seq_header,
            self.color_config,
            false,
        )
    }

    /// Where the chunk offset field of the alpha track stands in the file.
    pub closed spec fn alpha_stco_place(
        self,
        width: u32,
        height: u32,
        fs: Seq<AnimFrame>,
        color_seq_header: Seq<u8>,
        alpha_seq_header: Option<Seq<u8>>,
    ) -> int {
        let total = total_duration(fs) as u64;
        let next: u32 = if self.writes_alpha(fs, alpha_seq_header) {
            3
        } else {
            2
        };
        self.moov_start(width, height, fs, color_seq_header) + 8 + mvhd_bytes(self.timescale, edit_duration(total, self.loop_count), next).len()
            + trak_bytes(
            1,
            width,
            height,
            self.timescale,
            total,
            self.loop_count,
            color_frames(fs),
            frame_durations(fs),
            sync_numbers(fs),
            color_seq_header,
            self.color_config,
            false,
        ).len() + trak_stco_place(
            2,
            width,
            height,
            self.timescale,
            total,
            self.loop_count,
            alpha_frames(fs),
            frame_durations(fs),
            alpha_seq_header.unwrap(),
            self.alpha_config.unwrap(),
            true,
        )
    }
}


impl AnimatedImage {
    /// Where the placeholders stand in the file before offsets are filled in.
    #[verifier::rlimit(40)]
    proof fn lemma_anim_places(
        self,
        width: u32,
        height: u32,
        fs: Seq<AnimFrame>,
        color_seq_header: Seq<u8>,
        alpha_seq_header: Option<Seq<u8>>,
    )
        ensures
            ({
                let u = self.unpatched_bytes(width, height, fs, color_seq_header, alpha_seq_header);
                let head = self.head_bytes(width, height, fs, color_seq_header, alpha_seq_header);
                let c = self.color_stco_place(width, height, fs, color_seq_header, alpha_seq_header);
                let a = self.alpha_stco_place(width, height, fs, color_seq_header, alpha_seq_header);
                &&& u.subrange(117, 121) == be32(ILOC_PLACEHOLDER)
                &&& u.subrange(121, 125) == be32(Self::first_frame_len(fs))
                &&& 125 <= c
                &&& c + 4 <= head.len()
                &&& u.subrange(c, c + 4) == be32(STCO_PLACEHOLDER)
                &&& self.writes_alpha(fs, alpha_seq_header) ==> c + 4 <= a && a + 4 <= head.len()
                    && u.subrange(a, a + 4) == be32(STCO_PLACEHOLDER)
            }),
    {
        let has_alpha = self.writes_alpha(fs, alpha_seq_header);
        let total = total_duration(fs) as u64;
        let first_len = Self::first_frame_len(fs);
        let u = self.unpatched_bytes(width, height, fs, color_seq_header, alpha_seq_header);
        let head = self.head_bytes(width, height, fs, color_seq_header, alpha_seq_header);
        let media = frames_concat(color_frames(fs)) + if has_alpha {
            frames_concat(alpha_frames(fs))
        } else {
            Seq::empty()
        };
        let mdat = mp4_box(MDAT, media);
        assert(u == head + mdat);
        let ftyp = anim_ftyp_bytes();
        assert(ftyp.len() == 36);
        let meta = anim_meta_bytes(
            width,
            height,
            color_seq_header,
            first_len,
            self.color_config,
            self.colr,
            self.clli,
            self.mdcv,
        );
        lemma_meta_iloc(
            width,
            height,
            color_seq_header,
            first_len,
            self.color_config,
            self.colr,
            self.clli,
            self.mdcv,
        );
        let next: u32 = if has_alpha {
            3
        } else {
            2
        };
        let mv = mvhd_bytes(self.timescale, edit_duration(total, self.loop_count), next);
        let t1 = trak_bytes(
            1,
            width,
            height,
            self.timescale,
            total,
            self.loop_count,
            color_frames(fs),
            frame_durations(fs),
            sync_numbers(fs),
            color_seq_header,
            self.color_config,
            false,
        );
        let t2: Seq<u8> = if has_alpha {
            trak_bytes(
                2,
                width,
                height,
                self.timescale,
                total,
                self.loop_count,
                alpha_frames(fs),
                frame_durations(fs),
                sync_numbers(fs),
                alpha_seq_header.unwrap(),
                self.alpha_config.unwrap(),
                true,
            )
        } else {
            Seq::empty()
        };
        let moov_payload = mv + t1 + t2;
        let moov = mp4_box(MOOV, moov_payload);
        assert(head == ftyp + meta + moov);
        // the item offset
        lemma_subrange_right(ftyp, meta, 81, 85);
        lemma_subrange_right(ftyp, meta, 85, 89);
        lemma_subrange_left(ftyp + meta, moov, 117, 121);
        lemma_subrange_left(ftyp + meta, moov, 121, 125);
        lemma_subrange_left(head, mdat, 117, 121);
        lemma_subrange_left(head, mdat, 121, 125);
        // the color track's chunk offset
        lemma_trak_stco(
            1,
            width,
            height,
            self.timescale,
            total,
            self.loop_count,
            color_frames(fs),
            frame_durations(fs),
            sync_numbers(fs),
            color_seq_header,
            self.color_config,
            false,
        );
        let tp1 = trak_stco_place(
            1,
            width,
            height,
            self.timescale,
            total,
            self.loop_count,
            color_frames(fs),
            frame_durations(fs),
            color_seq_header,
            self.color_config,
            false,
        );
        let moov_head = be32((8 + moov_payload.len()) as u32) + be32(MOOV);
        assert(moov == moov_head + moov_payload);
        let ms = (ftyp + meta).len() as int;
        let c = ms + 8 + mv.len() + tp1;
        lemma_subrange_left(mv + t1, t2, mv.len() + tp1, mv.len() + tp1 + 4);
        lemma_subrange_right(mv, t1, tp1, tp1 + 4);
        lemma_subrange_right(moov_head, moov_payload, mv.len() + tp1, mv.len() + tp1 + 4);
        lemma_subrange_right(ftyp + meta, moov, 8 + mv.len() + tp1, 8 + mv.len() + tp1 + 4);
        lemma_subrange_left(head, mdat, c, c + 4);
        // the alpha track's chunk offset
        if has_alpha {
            lemma_trak_stco(
                2,
                width,
                height,
                self.timescale,
                total,
                self.loop_count,
                alpha_frames(fs),
                frame_durations(fs),
                sync_numbers(fs),
                alpha_seq_header.unwrap(),
                self.alpha_config.unwrap(),
                true,
            );
            let tp2 = trak_stco_place(
                2,
                width,
                height,
                self.timescale,
                total,
                self.loop_count,
                alpha_frames(fs),
                frame_durations(fs),
                alpha_seq_header.unwrap(),
                self.alpha_config.unwrap(),
                true,
            );
            let off = mv.len() + t1.len() + tp2;
            lemma_subrange_right(mv + t1, t2, tp2, tp2 + 4);
            lemma_subrange_right(moov_head, moov_payload, off, off + 4);
            lemma_subrange_right(ftyp + meta, moov, 8 + off, 8 + off + 4);
            lemma_subrange_left(head, mdat, ms + 8 + off, ms + 8 + off + 4);
        }
    }
}


impl AnimatedImage {
    /// Reading back an animated file: it is the unfilled file, whose boxes hold the given
    /// frames, durations, sync frames, sizes and settings, with only three fields changed;
    /// the primary item's offset and each track's chunk offset point at the data they stand
    /// for. The color frames start the media data, the first of them being the primary item,
    /// and the alpha frames, when written, follow them.
    #[verifier::rlimit(60)]
    pub proof fn lemma_anim_roundtrip(
        self,
        width: u32,
        height: u32,
        fs: Seq<AnimFrame>,
        color_seq_header: Seq<u8>,
        alpha_seq_header: Option<Seq<u8>>,
    )
        ensures
            ({
                let f = self.anim_bytes(width, height, fs, color_seq_header, alpha_seq_header);
                let u = self.unpatched_bytes(width, height, fs, color_seq_header, alpha_seq_header);
                let start = self.mdat_data_start(width, height, fs, color_seq_header, alpha_seq_header) as int;
                let color = frames_concat(color_frames(fs));
                let alpha = frames_concat(alpha_frames(fs));
                let c = self.color_stco_place(width, height, fs, color_seq_header, alpha_seq_header);
                let a = self.alpha_stco_place(width, height, fs, color_seq_header, alpha_seq_header);
                let wa = self.writes_alpha(fs, alpha_seq_header);
                &&& f.len() == u.len()
                &&& forall|p: int|
                    0 <= p < u.len() && !(anim_iloc_place() <= p < anim_iloc_place() + 4) && !(c <= p
                        < c + 4) && !(wa && a <= p < a + 4) ==> #[trigger] f[p] == u[p]
                &&& f.subrange(anim_iloc_place(), anim_iloc_place() + 4) == be32(start as u32)
                &&& f.subrange(anim_iloc_place() + 4, anim_iloc_place() + 8) == be32(
                    Self::first_frame_len(fs),
                )
                &&& anim_iloc_place() + 8 <= c && c + 4 <= start
                &&& f.subrange(c, c + 4) == be32(start as u32)
                &&& start + color.len() <= f.len()
                &&& f.subrange(start, start + color.len()) == color
                &&& fs.len() > 0 ==> start + fs[0].color@.len() <= f.len() && f.subrange(
                    start,
                    start + fs[0].color@.len(),
                ) == fs[0].color@
                &&& wa ==> {
                    &&& c + 4 <= a && a + 4 <= start
                    &&& f.subrange(a, a + 4) == be32((start + color.len()) as u32)
                    &&& start + color.len() + alpha.len() == f.len()
                    &&& f.subrange(start + color.len(), start + color.len() + alpha.len()) == alpha
                }
                &&& !wa ==> start + color.len() == f.len()
            }),
    {
        let has_alpha = self.writes_alpha(fs, alpha_seq_header);
        let u = self.unpatched_bytes(width, height, fs, color_seq_header, alpha_seq_header);
        let head = self.head_bytes(width, height, fs, color_seq_header, alpha_seq_header);
        let start = self.mdat_data_start(width, height, fs, color_seq_header, alpha_seq_header) as int;
        let color = frames_concat(color_frames(fs));
        let alpha = frames_concat(alpha_frames(fs));
        let media = color + if has_alpha {
            alpha
        } else {
            Seq::empty()
        };
        let mdat = mp4_box(MDAT, media);
        assert(u == head + mdat);
        assert(start == head.len() + 8);
        assert(u.len() == start + media.len());
        let c = self.color_stco_place(width, height, fs, color_seq_header, alpha_seq_header);
        let a = self.alpha_stco_place(width, height, fs, color_seq_header, alpha_seq_header);
        self.lemma_anim_places(width, height, fs, color_seq_header, alpha_seq_header);
        let b0 = be32(start as u32);
        let u1 = splice4(u, 117, b0);
        let u2 = splice4(u1, c, b0);
        let f = self.anim_bytes(width, height, fs, color_seq_header, alpha_seq_header);
        lemma_splice_outside(u, 117, b0, 121, 125);
        lemma_splice_outside(u, 117, b0, start, u.len() as int);
        lemma_splice_outside(u1, c, b0, 117, 125);
        lemma_splice_outside(u1, c, b0, start, u.len() as int);
        assert forall|p: int| 0 <= p < u.len() && !(117 <= p < 121) && !(c <= p < c + 4) implies #[trigger] u2[p]
            == u[p] by {
        }
        if has_alpha {
            let b1 = be32((start + color.len()) as u32);
            let u3 = splice4(u2, a, b1);
            assert(f == u3);
            lemma_splice_outside(u2, a, b1, c, c + 4);
            lemma_splice_outside(u2, a, b1, 117, 125);
            lemma_splice_outside(u2, a, b1, start, u.len() as int);
        } else {
            assert(f == u2);
        }
        assert(f.subrange(117, 125).subrange(0, 4) =~= f.subrange(117, 121));
        assert(f.subrange(117, 125).subrange(4, 8) =~= f.subrange(121, 125));
        assert(u.subrange(117, 125).subrange(0, 4) =~= u.subrange(117, 121));
        assert(u.subrange(117, 125).subrange(4, 8) =~= u.subrange(121, 125));
        assert(u1.subrange(117, 125).subrange(0, 4) =~= u1.subrange(117, 121));
        assert(u1.subrange(117, 125).subrange(4, 8) =~= u1.subrange(121, 125));
        // the media data, as laid out before filling
        let mdat_head = be32((8 + media.len()) as u32) + be32(MDAT);
        assert(mdat == mdat_head + media);
        assert(u.subrange(start, u.len() as int) =~= media);
        assert(f.subrange(start, u.len() as int) == media);
        assert(f.subrange(start, start + color.len()) =~= media.subrange(0, color.len() as int));
        assert(media.subrange(0, color.len() as int) =~= color);
        if fs.len() > 0 {
            lemma_frames_concat_first(color_frames(fs));
            assert(f.subrange(start, start + fs[0].color@.len()) =~= color.subrange(
                0,
                fs[0].color@.len() as int,
            ));
        }
        if has_alpha {
            assert(f.subrange(start + color.len(), start + color.len() + alpha.len()) =~= media.subrange(
                color.len() as int,
                media.len() as int,
            ));
            assert(media.subrange(color.len() as int, media.len() as int) =~= alpha);
        }
    }
}

impl AnimatedImage {
    /// Where a track starts in the file: the color track right behind `mvhd`, the alpha
    /// track right behind the color track.
    pub closed spec fn trak_start(
        self,
        width: u32,
        height: u32,
        fs: Seq<AnimFrame>,
        color_seq_header: Seq<u8>,
        alpha_seq_header: Option<Seq<u8>>,
        is_alpha: bool,
    ) -> int {
        let total = total_duration(fs) as u64;
        let next: u32 = if self.writes_alpha(fs, alpha_seq_header) {
            3
        } else {
            2
        };
        let color = self.moov_start(width, height, fs, color_seq_header) + 8 + mvhd_bytes(
            self.timescale,
            edit_duration(total, self.loop_count),
            next,
        ).len();
        if is_alpha {
            color + trak_bytes(
                1,
                width,
                height,
                self.timescale,
                total,
                self.loop_count,
                color_frames(fs),
                frame_durations(fs),
                sync_numbers(fs),
                color_seq_header,
                self.color_config,
                false,
            ).len()
        } else {
            color
        }
    }

    /// The timing of an animated file: `mvhd` opens `moov` with the configured timescale,
    /// the presentation duration (the frames' total duration times the loop count, see
    /// `edit_duration`) and the next free track id; each written track opens with its `tkhd`
    /// (the presentation duration), its `edts` (one pass over the frames, repeating unless the
    /// loop count is 1) and, inside `mdia`, its `mdhd` (the configured timescale and the
    /// frames' total duration).
    #[verifier::rlimit(60)]
    pub proof fn lemma_anim_timing(
        self,
        width: u32,
        height: u32,
        fs: Seq<AnimFrame>,
        color_seq_header: Seq<u8>,
        alpha_seq_header: Option<Seq<u8>>,
    )
        ensures
            ({
                let f = self.anim_bytes(width, height, fs, color_seq_header, alpha_seq_header);
                let total = total_duration(fs) as u64;
                let wa = self.writes_alpha(fs, alpha_seq_header);
                let shown = edit_duration(total, self@.loop_count);
                let mv = mvhd_bytes(self@.timescale, shown, if wa { 3 } else { 2 });
                let m = self.moov_start(width, height, fs, color_seq_header) + 8;
                let ed = edts_bytes(total, self@.loop_count);
                let md = mdhd_bytes(self@.timescale, total);
                &&& 0 <= m
                &&& m + mv.len() <= f.len()
                &&& f.subrange(m, m + mv.len()) == mv
                &&& self.trak_start(width, height, fs, color_seq_header, alpha_seq_header, false) == m
                    + mv.len()
                &&& track_timing_at(
                    f,
                    self.trak_start(width, height, fs, color_seq_header, alpha_seq_header, false),
                    tkhd_bytes(1, width, height, shown, false),
                    ed,
                    md,
                )
                &&& wa ==> track_timing_at(
                    f,
                    self.trak_start(width, height, fs, color_seq_header, alpha_seq_header, true),
                    tkhd_bytes(2, width, height, shown, true),
                    ed,
                    md,
                )
            }),
    {
        let has_alpha = self.writes_alpha(fs, alpha_seq_header);
        let total = total_duration(fs) as u64;
        let first_len = Self::first_frame_len(fs);
        let f = self.anim_bytes(width, height, fs, color_seq_header, alpha_seq_header);
        let u = self.unpatched_bytes(width, height, fs, color_seq_header, alpha_seq_header);
        let head = self.head_bytes(width, height, fs, color_seq_header, alpha_seq_header);
        let media = frames_concat(color_frames(fs)) + if has_alpha {
            frames_concat(alpha_frames(fs))
        } else {
            Seq::empty()
        };
        let mdat = mp4_box(MDAT, media);
        assert(u == head + mdat);
        let ftyp = anim_ftyp_bytes();
        assert(ftyp.len() == 36);
        let meta = anim_meta_bytes(
            width,
            height,
            color_seq_header,
            first_len,
            self.color_config,
            self.colr,
            self.clli,
            self.mdcv,
        );
        lemma_meta_iloc(
            width,
            height,
            color_seq_header,
            first_len,
            self.color_config,
            self.colr,
            self.clli,
            self.mdcv,
        );
        let next: u32 = if has_alpha {
            3
        } else {
            2
        };
        let mv = mvhd_bytes(self.timescale, edit_duration(total, self.loop_count), next);
        let t1 = trak_bytes(
            1,
            width,
            height,
            self.timescale,
            total,
            self.loop_count,
            color_frames(fs),
            frame_durations(fs),
            sync_numbers(fs),
            color_seq_header,
            self.color_config,
            false,
        );
        let t2: Seq<u8> = if has_alpha {
            trak_bytes(
                2,
                width,
                height,
                self.timescale,
                total,
                self.loop_count,
                alpha_frames(fs),
                frame_durations(fs),
                sync_numbers(fs),
                alpha_seq_header.unwrap(),
                self.alpha_config.unwrap(),
                true,
            )
        } else {
            Seq::empty()
        };
        let moov_payload = mv + t1 + t2;
        let moov = mp4_box(MOOV, moov_payload);
        assert(head == ftyp + meta + moov);
        let moov_head = be32((8 + moov_payload.len()) as u32) + be32(MOOV);
        assert(moov == moov_head + moov_payload);
        let ms = (ftyp + meta).len() as int;
        let m = ms + 8;
        let s1 = m + mv.len();
        let s2 = s1 + t1.len();
        // each piece of moov, where it stands in the unfilled file
        assert(u.subrange(m, s1) =~= mv);
        assert(u.subrange(s1, s2) =~= t1);
        self.lemma_anim_places(width, height, fs, color_seq_header, alpha_seq_header);
        self.lemma_anim_roundtrip(width, height, fs, color_seq_header, alpha_seq_header);
        let c = self.color_stco_place(width, height, fs, color_seq_header, alpha_seq_header);
        let a = self.alpha_stco_place(width, height, fs, color_seq_header, alpha_seq_header);
        let ed = edts_bytes(total, self.loop_count);
        let md = mdhd_bytes(self.timescale, total);
        // mvhd
        assert(f.subrange(m, s1) =~= u.subrange(m, s1));
        // the color track
        let tk1 = tkhd_bytes(1, width, height, edit_duration(total, self.loop_count), false);
        lemma_trak_timing(
            1,
            width,
            height,
            self.timescale,
            total,
            self.loop_count,
            color_frames(fs),
            frame_durations(fs),
            sync_numbers(fs),
            color_seq_header,
            self.color_config,
            false,
        );
        lemma_track_timing_within(u, s1, t1, tk1, ed, md);
        let e1 = s1 + 8 + tk1.len();
        let m1 = e1 + ed.len() + 8;
        assert(f.subrange(s1 + 8, e1) =~= u.subrange(s1 + 8, e1));
        assert(f.subrange(e1, e1 + ed.len()) =~= u.subrange(e1, e1 + ed.len()));
        assert(f.subrange(m1, m1 + md.len()) =~= u.subrange(m1, m1 + md.len()));
        // the alpha track
        if has_alpha {
            let tk2 = tkhd_bytes(2, width, height, edit_duration(total, self.loop_count), true);
            assert(u.subrange(s2, s2 + t2.len()) =~= t2);
            lemma_trak_timing(
                2,
                width,
                height,
                self.timescale,
                total,
                self.loop_count,
                alpha_frames(fs),
                frame_durations(fs),
                sync_numbers(fs),
                alpha_seq_header.unwrap(),
                self.alpha_config.unwrap(),
                true,
            );
            lemma_trak_stco(
                1,
                width,
                height,
                self.timescale,
                total,
                self.loop_count,
                color_frames(fs),
                frame_durations(fs),
                sync_numbers(fs),
                color_seq_header,
                self.color_config,
                false,
            );
            lemma_track_timing_within(u, s2, t2, tk2, ed, md);
            let e2 = s2 + 8 + tk2.len();
            let m2 = e2 + ed.len() + 8;
            assert(f.subrange(s2 + 8, e2) =~= u.subrange(s2 + 8, e2));
            assert(f.subrange(e2, e2 + ed.len()) =~= u.subrange(e2, e2 + ed.len()));
            assert(f.subrange(m2, m2 + md.len()) =~= u.subrange(m2, m2 + md.len()));
        }
    }

    /// The layout of an animated file: `ftyp` (major brand `avis`), then `meta`, `moov` and
    /// `mdat`, each opening with its own length and type, one right behind the other and
    /// together making up the whole file.
    #[verifier::rlimit(40)]
    pub proof fn lemma_anim_layout(
        self,
        width: u32,
        height: u32,
        fs: Seq<AnimFrame>,
        color_seq_header: Seq<u8>,
        alpha_seq_header: Option<Seq<u8>>,
    )
        ensures
            ({
                let f = self.anim_bytes(width, height, fs, color_seq_header, alpha_seq_header);
                let ms = self.moov_start(width, height, fs, color_seq_header);
                let start = self.mdat_data_start(width, height, fs, color_seq_header, alpha_seq_header) as int;
                &&& 44 <= ms
                &&& ms + 8 <= start - 8
                &&& start <= f.len()
                &&& f.subrange(0, 36) == anim_ftyp_bytes()
                &&& f.subrange(36, 44) == be32((ms - 36) as u32) + be32(META)
                &&& f.subrange(ms, ms + 8) == be32((start - 8 - ms) as u32) + be32(MOOV)
                &&& f.subrange(start - 8, start) == be32((f.len() - start + 8) as u32) + be32(MDAT)
            }),
    {
        let has_alpha = self.writes_alpha(fs, alpha_seq_header);
        let total = total_duration(fs) as u64;
        let first_len = Self::first_frame_len(fs);
        let f = self.anim_bytes(width, height, fs, color_seq_header, alpha_seq_header);
        let u = self.unpatched_bytes(width, height, fs, color_seq_header, alpha_seq_header);
        let head = self.head_bytes(width, height, fs, color_seq_header, alpha_seq_header);
        let media = frames_concat(color_frames(fs)) + if has_alpha {
            frames_concat(alpha_frames(fs))
        } else {
            Seq::empty()
        };
        let mdat_head = be32((8 + media.len()) as u32) + be32(MDAT);
        assert(u == head + (mdat_head + media));
        let ftyp = anim_ftyp_bytes();
        assert(ftyp.len() == 36);
        let meta = anim_meta_bytes(
            width,
            height,
            color_seq_header,
            first_len,
            self.color_config,
            self.colr,
            self.clli,
            self.mdcv,
        );
        lemma_meta_iloc(
            width,
            height,
            color_seq_header,
            first_len,
            self.color_config,
            self.colr,
            self.clli,
            self.mdcv,
        );
        let meta_payload = full_box_header(0, 0) + hdlr_bytes() + pitm_bytes(1) + anim_iloc_bytes(first_len)
            + iinf_bytes(seq![(1u16, AV01, Seq::<u8>::empty())]) + mp4_box(
            IPRP,
            mp4_box(
                IPCO,
                anim_props_bytes(
                    width,
                    height,
                    color_seq_header,
                    self.color_config,
                    self.colr,
                    self.clli,
                    self.mdcv,
                ),
            ) + anim_ipma_bytes(self.colr, self.clli, self.mdcv),
        );
        let meta_head = be32((8 + meta_payload.len()) as u32) + be32(META);
        assert(meta == meta_head + meta_payload) by {
            reveal(anim_meta_bytes);
        }
        let next: u32 = if has_alpha {
            3
        } else {
            2
        };
        let mv = mvhd_bytes(self.timescale, edit_duration(total, self.loop_count), next);
        let t1 = trak_bytes(
            1,
            width,
            height,
            self.timescale,
            total,
            self.loop_count,
            color_frames(fs),
            frame_durations(fs),
            sync_numbers(fs),
            color_seq_header,
            self.color_config,
            false,
        );
        let t2: Seq<u8> = if has_alpha {
            trak_bytes(
                2,
                width,
                height,
                self.timescale,
                total,
                self.loop_count,
                alpha_frames(fs),
                frame_durations(fs),
                sync_numbers(fs),
                alpha_seq_header.unwrap(),
                self.alpha_config.unwrap(),
                true,
            )
        } else {
            Seq::empty()
        };
        let moov_payload = mv + t1 + t2;
        let moov_head = be32((8 + moov_payload.len()) as u32) + be32(MOOV);
        assert(head == ftyp + (meta_head + meta_payload) + (moov_head + moov_payload));
        let ms = (ftyp + meta).len() as int;
        let start: int = head.len() as int + 8;
        assert(u.subrange(0, 36) =~= ftyp);
        assert(u.subrange(36, 44) =~= meta_head);
        assert(u.subrange(ms, ms + 8) =~= moov_head);
        assert(u.subrange(start - 8, start) =~= mdat_head);
        self.lemma_anim_places(width, height, fs, color_seq_header, alpha_seq_header);
        self.lemma_anim_roundtrip(width, height, fs, color_seq_header, alpha_seq_header);
        // none of the filled-in fields is among these
        assert(f.subrange(0, 36) =~= u.subrange(0, 36));
        assert(f.subrange(36, 44) =~= u.subrange(36, 44));
        assert(f.subrange(ms, ms + 8) =~= u.subrange(ms, ms + 8));
        assert(f.subrange(start - 8, start) =~= u.subrange(start - 8, start));
    }
}

/// `mvhd` is 120 bytes long, with its duration at 32.
proof fn lemma_mvhd_duration(timescale: u32, duration: u64, next_track_id: u32)
    ensures
        mvhd_bytes(timescale, duration, next_track_id).len() == 120,
        mvhd_bytes(timescale, duration, next_track_id).subrange(32, 40) == be64(duration),
{
    reveal(mvhd_bytes);
    let m = mvhd_bytes(timescale, duration, next_track_id);
    assert(identity_matrix_bytes().len() == 36);
    assert(m.subrange(32, 40) =~= be64(duration));
}

/// Different loop counts give different presentation durations, when the media lasts some
/// time and neither count times its duration reaches the 64-bit limit.
proof fn lemma_edit_durations_differ(duration: u64, a: u32, b: u32)
    requires
        a != b,
        duration > 0,
        duration * a < u64::MAX,
        duration * b < u64::MAX,
    ensures
        edit_duration(duration, a) != edit_duration(duration, b),
{
    assert(duration * a != duration * b) by (nonlinear_arith)
        requires
            a != b,
            duration > 0,
    ;
}

impl AnimatedImage {
    /// Images that differ only in their loop count serialize to different files, whenever the
    /// frames last some time and neither loop count times the frames' total duration reaches
    /// the 64-bit limit: the presentation duration in `mvhd` tells them apart. (With frames
    /// that last no time, or with durations that saturate, the loop count of 0 and a large
    /// count can give the same file.)
    pub proof fn lemma_loop_count_distinguishes(
        self,
        other: Self,
        width: u32,
        height: u32,
        fs: Seq<AnimFrame>,
        color_seq_header: Seq<u8>,
        alpha_seq_header: Option<Seq<u8>>,
    )
        requires
            other@ == (AnimatedSettings { loop_count: other@.loop_count, ..self@ }),
            self@.loop_count != other@.loop_count,
            total_duration(fs) as u64 > 0,
            (total_duration(fs) as u64) * self@.loop_count < u64::MAX,
            (total_duration(fs) as u64) * other@.loop_count < u64::MAX,
        ensures
            self.anim_bytes(width, height, fs, color_seq_header, alpha_seq_header) != other.anim_bytes(
                width,
                height,
                fs,
                color_seq_header,
                alpha_seq_header,
            ),
    {
        let total = total_duration(fs) as u64;
        let next: u32 = if self.writes_alpha(fs, alpha_seq_header) {
            3
        } else {
            2
        };
        self.lemma_anim_timing(width, height, fs, color_seq_header, alpha_seq_header);
        other.lemma_anim_timing(width, height, fs, color_seq_header, alpha_seq_header);
        assert(other.writes_alpha(fs, alpha_seq_header) == self.writes_alpha(fs, alpha_seq_header));
        assert(other.moov_start(width, height, fs, color_seq_header) == self.moov_start(
            width,
            height,
            fs,
            color_seq_header,
        ));
        let ex = edit_duration(total, self.loop_count);
        let ey = edit_duration(total, other.loop_count);
        lemma_edit_durations_differ(total, self.loop_count, other.loop_count);
        lemma_mvhd_duration(self.timescale, ex, next);
        lemma_mvhd_duration(self.timescale, ey, next);
        let fx = self.anim_bytes(width, height, fs, color_seq_header, alpha_seq_header);
        let fy = other.anim_bytes(width, height, fs, color_seq_header, alpha_seq_header);
        let m = self.moov_start(width, height, fs, color_seq_header) + 8;
        let mx = mvhd_bytes(self.timescale, ex, next);
        let my = mvhd_bytes(self.timescale, ey, next);
        if fx == fy {
            assert(mx == my);
            assert(mx.subrange(32, 40) == my.subrange(32, 40));
            lemma_be64_injective(ex, ey);
        }
    }
}

/// Where `stsz` stands in `f`, `f` gives back its sample count and sizes.
proof fn lemma_sample_sizes_from(f: Seq<u8>, ws: int, frames: Seq<Seq<u8>>)
    requires
        0 <= ws,
        ws + stsz_bytes(frames).len() + 16 <= f.len(),
        f.subrange(ws, ws + stsz_bytes(frames).len()) == stsz_bytes(frames),
    ensures
        sample_sizes_at(f, ws + stsz_bytes(frames).len() + 16, frames),
{
    let st = stsz_bytes(frames);
    lemma_stsz_entries(frames);
    let n = frames.len() as int;
    let z = ws + 20;
    lemma_subrange_within(f, ws, st, 16, 20);
    assert forall|i: int| 0 <= i < n implies be32_value(#[trigger] f.subrange(z + 4 * i, z + 4 * i + 4))
        == frames[i].len() as u32 by {
        lemma_subrange_within(f, ws, st, 20 + 4 * i, 24 + 4 * i);
        assert(st.subrange(20 + 4 * i, 24 + 4 * i) == f.subrange(z + 4 * i, z + 4 * i + 4));
    }
}

impl AnimatedImage {
    /// The sample sizes of an animated file: in each written track, `stsz` records one entry
    /// per frame, and reading back the `i`-th entry gives the length of frame `i`'s data for
    /// that track (its color data, or its alpha data), so that a reader that walks the chunk
    /// from its offset by these sizes finds each frame where it stands.
    #[verifier::rlimit(60)]
    pub proof fn lemma_anim_sample_sizes(
        self,
        width: u32,
        height: u32,
        fs: Seq<AnimFrame>,
        color_seq_header: Seq<u8>,
        alpha_seq_header: Option<Seq<u8>>,
    )
        ensures
            ({
                let f = self.anim_bytes(width, height, fs, color_seq_header, alpha_seq_header);
                let c = self.color_stco_place(width, height, fs, color_seq_header, alpha_seq_header);
                let a = self.alpha_stco_place(width, height, fs, color_seq_header, alpha_seq_header);
                &&& sample_sizes_at(f, c, color_frames(fs))
                &&& self.writes_alpha(fs, alpha_seq_header) ==> sample_sizes_at(f, a, alpha_frames(fs))
            }),
    {
        let has_alpha = self.writes_alpha(fs, alpha_seq_header);
        let total = total_duration(fs) as u64;
        let first_len = Self::first_frame_len(fs);
        let f = self.anim_bytes(width, height, fs, color_seq_header, alpha_seq_header);
        let u = self.unpatched_bytes(width, height, fs, color_seq_header, alpha_seq_header);
        let head = self.head_bytes(width, height, fs, color_seq_header, alpha_seq_header);
        let media = frames_concat(color_frames(fs)) + if has_alpha {
            frames_concat(alpha_frames(fs))
        } else {
            Seq::empty()
        };
        let mdat = mp4_box(MDAT, media);
        assert(u == head + mdat);
        let ftyp = anim_ftyp_bytes();
        assert(ftyp.len() == 36);
        let meta = anim_meta_bytes(
            width,
            height,
            color_seq_header,
            first_len,
            self.color_config,
            self.colr,
            self.clli,
            self.mdcv,
        );
        lemma_meta_iloc(
            width,
            height,
            color_seq_header,
            first_len,
            self.color_config,
            self.colr,
            self.clli,
            self.mdcv,
        );
        let next: u32 = if has_alpha {
            3
        } else {
            2
        };
        let mv = mvhd_bytes(self.timescale, edit_duration(total, self.loop_count), next);
        let t1 = trak_bytes(
            1,
            width,
            height,
            self.timescale,
            total,
            self.loop_count,
            color_frames(fs),
            frame_durations(fs),
            sync_numbers(fs),
            color_seq_header,
            self.color_config,
            false,
        );
        let t2: Seq<u8> = if has_alpha {
            trak_bytes(
                2,
                width,
                height,
                self.timescale,
                total,
                self.loop_count,
                alpha_frames(fs),
                frame_durations(fs),
                sync_numbers(fs),
                alpha_seq_header.unwrap(),
                self.alpha_config.unwrap(),
                true,
            )
        } else {
            Seq::empty()
        };
        let moov_payload = mv + t1 + t2;
        let moov = mp4_box(MOOV, moov_payload);
        assert(head == ftyp + meta + moov);
        let moov_head = be32((8 + moov_payload.len()) as u32) + be32(MOOV);
        assert(moov == moov_head + moov_payload);
        let ms = (ftyp + meta).len() as int;
        let m = ms + 8;
        let s1 = m + mv.len();
        let s2 = s1 + t1.len();
        assert(u.subrange(s1, s2) =~= t1);
        self.lemma_anim_places(width, height, fs, color_seq_header, alpha_seq_header);
        self.lemma_anim_roundtrip(width, height, fs, color_seq_header, alpha_seq_header);
        let c = self.color_stco_place(width, height, fs, color_seq_header, alpha_seq_header);
        let a = self.alpha_stco_place(width, height, fs, color_seq_header, alpha_seq_header);
        // the color track
        let st1 = stsz_bytes(color_frames(fs));
        let l1 = st1.len() as int;
        let tp1 = trak_stco_place(
            1,
            width,
            height,
            self.timescale,
            total,
            self.loop_count,
            color_frames(fs),
            frame_durations(fs),
            color_seq_header,
            self.color_config,
            false,
        );
        lemma_trak_stsz(
            1,
            width,
            height,
            self.timescale,
            total,
            self.loop_count,
            color_frames(fs),
            frame_durations(fs),
            sync_numbers(fs),
            color_seq_header,
            self.color_config,
            false,
        );
        assert(c == s1 + tp1);
        lemma_subrange_within(u, s1, t1, tp1 - 16 - l1, tp1 - 16);
        let w1 = c - 16 - l1;
        assert(f.subrange(w1, w1 + l1) =~= u.subrange(w1, w1 + l1));
        lemma_sample_sizes_from(f, w1, color_frames(fs));
        // the alpha track
        if has_alpha {
            let st2 = stsz_bytes(alpha_frames(fs));
            let l2 = st2.len() as int;
            let tp2 = trak_stco_place(
                2,
                width,
                height,
                self.timescale,
                total,
                self.loop_count,
                alpha_frames(fs),
                frame_durations(fs),
                alpha_seq_header.unwrap(),
                self.alpha_config.unwrap(),
                true,
            );
            lemma_trak_stsz(
                2,
                width,
                height,
                self.timescale,
                total,
                self.loop_count,
                alpha_frames(fs),
                frame_durations(fs),
                sync_numbers(fs),
                alpha_seq_header.unwrap(),
                self.alpha_config.unwrap(),
                true,
            );
            lemma_trak_stco(
                1,
                width,
                height,
                self.timescale,
                total,
                self.loop_count,
                color_frames(fs),
                frame_durations(fs),
                sync_numbers(fs),
                color_seq_header,
                self.color_config,
                false,
            );
            assert(u.subrange(s2, s2 + t2.len()) =~= t2);
            assert(a == s2 + tp2);
            lemma_subrange_within(u, s2, t2, tp2 - 16 - l2, tp2 - 16);
            let w2 = a - 16 - l2;
            assert(f.subrange(w2, w2 + l2) =~= u.subrange(w2, w2 + l2));
            lemma_sample_sizes_from(f, w2, alpha_frames(fs));
        }
    }
}
} // verus!
