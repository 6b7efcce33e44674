//! Grid (tiled) AVIF image serialization.
//!
//! Writes an AVIF file whose primary item is an image grid descriptor with
//! `dimg` references to the individual AV1 tile items.

use vstd::prelude::*;
use vstd::seq_lib::lemma_concat_associative;

use crate::writer::{
    be16, be16_value, be32, be32_value, begin_box, read_be32_at, lemma_be16_roundtrip,
    lemma_be32_roundtrip, lemma_subrange_left, lemma_subrange_right, end_box, full_box, full_box_header, lemma_close_box,
    mp4_box, put_be32_at, splice4, write_bytes, write_fullbox, write_u16, write_u32,
};
use crate::animated::{frames_concat, frames_view, shows_colr, write_frames};
use crate::bounded::{association_list, associations_new, associations_push};
use crate::boxes::{
    default_colr, hdlr_bytes, iinf_bytes, infe_view, ipma_view, iprp_bytes, iref_bytes, pitm_bytes,
    props_bytes, write_hdlr, write_iinf, write_ipma, write_iref, write_pitm, Av1CBox, AuxCBox,
    ColrBox, FourCC, InfeBox, InfeView, IlocView, data_concat, data_offset, iloc_entry_bytes,
    lemma_item_data_at_offset, IpcoBox, IpcoProp, IpmaEntry, IpmaView, IrefEntryBox, IspeBox,
    PixiBox, AUXL, AV01, AVIF, DIMG, FTYP, GRID, ILOC, IPRP, META, MDAT, MIAF, MIF1, PREM,
};
use crate::SerializeError;

verus! {

/// Written where an item's data offset goes, and replaced once the media data is placed.
pub const ILOC_PLACEHOLDER: u32 = 0xBAAD_F00D;

// ─── The grid descriptor ────────────────────────────────────────────

/// Whether the output size needs 32-bit fields in the grid descriptor.
pub open spec fn needs_wide_fields(width: u32, height: u32) -> bool {
    width > u16::MAX || height > u16::MAX
}

/// The image grid descriptor: version 0, flags (1 for 32-bit fields), rows − 1,
/// columns − 1 (never below zero), output width and height.
pub open spec fn grid_descriptor(rows: u8, columns: u8, width: u32, height: u32) -> Seq<u8> {
    let wide = needs_wide_fields(width, height);
    seq![
        0u8,
        if wide {
            1u8
        } else {
            0u8
        },
        rows.saturating_sub(1),
        columns.saturating_sub(1),
    ] + if wide {
        be32(width) + be32(height)
    } else {
        be16(width as u16) + be16(height as u16)
    }
}

/// Reading back the grid descriptor: version 0; the flag is 1, for 32-bit fields, exactly
/// when the output width or height exceeds 16 bits; rows − 1 and columns − 1; and fields that
/// hold the exact output width and height.
pub proof fn lemma_grid_descriptor_fields(rows: u8, columns: u8, width: u32, height: u32)
    ensures
        ({
            let d = grid_descriptor(rows, columns, width, height);
            &&& d.len() >= 8
            &&& d[0] == 0
            &&& d[1] == (if needs_wide_fields(width, height) {
                1u8
            } else {
                0u8
            })
            &&& d[2] == rows.saturating_sub(1)
            &&& d[3] == columns.saturating_sub(1)
            &&& needs_wide_fields(width, height) ==> d.len() == 12 && be32_value(d.subrange(4, 8))
                == width && be32_value(d.subrange(8, 12)) == height
            &&& !needs_wide_fields(width, height) ==> d.len() == 8 && be16_value(d.subrange(4, 6))
                as u32 == width && be16_value(d.subrange(6, 8)) as u32 == height
        }),
{
    let d = grid_descriptor(rows, columns, width, height);
    if needs_wide_fields(width, height) {
        assert(d.subrange(4, 8) =~= be32(width));
        assert(d.subrange(8, 12) =~= be32(height));
        lemma_be32_roundtrip(width);
        lemma_be32_roundtrip(height);
    } else {
        assert(d.subrange(4, 6) =~= be16(width as u16));
        assert(d.subrange(6, 8) =~= be16(height as u16));
        lemma_be16_roundtrip(width as u16);
        lemma_be16_roundtrip(height as u16);
    }
}

/// Builds the image grid descriptor.
fn make_grid_descriptor(rows: u8, columns: u8, width: u32, height: u32) -> (r: Vec<u8>)
    ensures
        r@ == grid_descriptor(rows, columns, width, height),
{
    let mut desc: Vec<u8> = Vec::new();
    desc.push(0);  // version
    let wide = width > 0xffff || height > 0xffff;
    if wide {
        desc.push(1);  // flags: 32-bit fields
    } else {
        desc.push(0);  // flags: 16-bit fields
    }
    desc.push(rows.saturating_sub(1));
    desc.push(columns.saturating_sub(1));
    if wide {
        write_u32(&mut desc, width);
        write_u32(&mut desc, height);
    } else {
        write_u16(&mut desc, width as u16);
        write_u16(&mut desc, height as u16);
    }
    assert(desc@ =~= grid_descriptor(rows, columns, width, height));
    desc
}

// ─── File type ──────────────────────────────────────────────────────

/// `ftyp` of a grid image: brand `avif`, version 0, compatible with `avif`, `mif1`, `miaf`.
pub open spec fn grid_ftyp_bytes() -> Seq<u8> {
    mp4_box(FTYP, be32(AVIF) + be32(0) + be32(AVIF) + be32(MIF1) + be32(MIAF))
}

fn write_ftyp(out: &mut Vec<u8>)
    ensures
        final(out)@ == old(out)@ + grid_ftyp_bytes(),
{
    let ghost pre = old(out)@;
    let pos = begin_box(out, FTYP);
    write_u32(out, AVIF);
    write_u32(out, 0);
    write_u32(out, AVIF);
    write_u32(out, MIF1);
    write_u32(out, MIAF);
    let ghost payload = be32(AVIF) + be32(0) + be32(AVIF) + be32(MIF1) + be32(MIAF);
    assert(out@ =~= pre + be32(0) + be32(FTYP) + payload);
    proof {
        lemma_close_box(pre, FTYP, payload);
    }
    end_box(out, pos);
}

// ─── Filling in offsets ─────────────────────────────────────────────

/// Positions at or after `lo`, at least eight apart, each followed by eight bytes before `n`.
pub open spec fn spaced_positions(ps: Seq<int>, lo: int, n: int) -> bool {
    &&& forall|j: int| 0 <= j < ps.len() ==> lo <= #[trigger] ps[j] && ps[j] + 8 <= n
    &&& forall|j1: int, j2: int| 0 <= j1 < j2 < ps.len() ==> #[trigger] ps[j1] + 8 <= #[trigger] ps[j2]
}

/// Whether position `p` lies outside the four-byte places at `ps`.
pub open spec fn outside_places(ps: Seq<int>, p: int) -> bool {
    forall|j: int| 0 <= j < ps.len() ==> !(#[trigger] ps[j] <= p < ps[j] + 4)
}

/// The sum of some lengths.
pub open spec fn sum_lens(lens: Seq<u32>) -> nat
    decreases lens.len(),
{
    if lens.len() == 0 {
        0
    } else {
        sum_lens(lens.drop_last()) + lens.last() as nat
    }
}

proof fn lemma_sum_lens_first(lens: Seq<u32>)
    requires
        lens.len() > 0,
    ensures
        sum_lens(lens) == lens[0] + sum_lens(lens.drop_first()),
    decreases lens.len(),
{
    if lens.len() > 1 {
        lemma_sum_lens_first(lens.drop_last());
        assert(lens.drop_last().drop_first() =~= lens.drop_first().drop_last());
        assert(lens.drop_first().last() == lens.last());
        assert(sum_lens(lens.drop_first()) == sum_lens(lens.drop_first().drop_last())
            + lens.drop_first().last() as nat);
    } else {
        assert(lens.drop_first().len() == 0);
        assert(lens.drop_last().len() == 0);
        assert(sum_lens(lens.drop_last()) == 0);
    }
}

/// Writes `cur` at `ps[0]`, `cur + lens[0]` at `ps[1]`, and so on (modulo 2^32).
pub open spec fn fill_offsets(s: Seq<u8>, ps: Seq<int>, lens: Seq<u32>, cur: u32) -> Seq<u8>
    decreases ps.len(),
{
    if ps.len() == 0 {
        s
    } else {
        fill_offsets(
            splice4(s, ps[0], be32(cur)),
            ps.drop_first(),
            lens.drop_first(),
            cur.wrapping_add(lens[0]),
        )
    }
}

/// What filling does: the length stays, bytes outside the filled places stay, and the
/// `k`-th place gets `cur` plus the lengths before it.
proof fn lemma_fill_offsets(s: Seq<u8>, ps: Seq<int>, lens: Seq<u32>, cur: u32)
    requires
        spaced_positions(ps, 0, s.len() as int),
        lens.len() == ps.len(),
        cur + sum_lens(lens) <= u32::MAX,
    ensures
        fill_offsets(s, ps, lens, cur).len() == s.len(),
        forall|p: int|
            0 <= p < s.len() && outside_places(ps, p) ==> #[trigger] fill_offsets(s, ps, lens, cur)[p]
                == s[p],
        forall|k: int|
            0 <= k < ps.len() ==> #[trigger] fill_offsets(s, ps, lens, cur).subrange(ps[k], ps[k] + 4)
                == be32((cur + sum_lens(lens.take(k))) as u32),
    decreases ps.len(),
{
    if ps.len() > 0 {
        let t = splice4(s, ps[0], be32(cur));
        let ps2 = ps.drop_first();
        let lens2 = lens.drop_first();
        lemma_sum_lens_first(lens);
        let cur2 = cur.wrapping_add(lens[0]);
        assert(cur2 == cur + lens[0]);
        assert forall|j1: int, j2: int| 0 <= j1 < j2 < ps2.len() implies #[trigger] ps2[j1] + 8
            <= #[trigger] ps2[j2] by {
            assert(ps[j1 + 1] + 8 <= ps[j2 + 1]);
        }
        assert forall|j: int| 0 <= j < ps2.len() implies 0 <= #[trigger] ps2[j] && ps2[j] + 8 <= t.len() by {
            assert(ps[j + 1] == ps2[j]);
        }
        lemma_fill_offsets(t, ps2, lens2, cur2);
        let f = fill_offsets(s, ps, lens, cur);
        assert(f == fill_offsets(t, ps2, lens2, cur2));
        assert forall|p: int|
            0 <= p < s.len() && outside_places(ps, p) implies #[trigger] f[p] == s[p] by {
            assert(!(ps[0] <= p < ps[0] + 4));
            assert forall|j: int| 0 <= j < ps2.len() implies !(#[trigger] ps2[j] <= p < ps2[j] + 4) by {
                assert(ps[j + 1] == ps2[j]);
            }
            assert(t[p] == s[p]);
        }
        assert forall|k: int| 0 <= k < ps.len() implies #[trigger] f.subrange(ps[k], ps[k] + 4) == be32(
            (cur + sum_lens(lens.take(k))) as u32,
        ) by {
            if k == 0 {
                assert forall|p: int| ps[0] <= p < ps[0] + 4 implies f[p] == t[p] by {
                    assert forall|j: int| 0 <= j < ps2.len() implies !(#[trigger] ps2[j] <= p < ps2[j] + 4) by {
                        assert(ps[0] + 8 <= ps[j + 1]);
                    }
                }
                assert(f.subrange(ps[0], ps[0] + 4) =~= t.subrange(ps[0], ps[0] + 4));
                assert(t.subrange(ps[0], ps[0] + 4) =~= be32(cur));
                assert(lens.take(0).len() == 0);
            } else {
                assert(ps2[k - 1] == ps[k]);
                assert(lens.take(k).len() > 0);
                lemma_sum_lens_first(lens.take(k));
                assert(lens.take(k).drop_first() =~= lens2.take(k - 1));
            }
        }
    }
}

/// The sums of the lengths before position `k` never exceed the whole sum.
proof fn lemma_sum_lens_prefix(lens: Seq<u32>, k: int)
    requires
        0 <= k <= lens.len(),
    ensures
        sum_lens(lens.take(k)) <= sum_lens(lens),
    decreases lens.len() - k,
{
    if k < lens.len() {
        lemma_sum_lens_prefix(lens, k + 1);
        assert(lens.take(k + 1).drop_last() =~= lens.take(k));
    } else {
        assert(lens.take(k) =~= lens);
    }
}

/// Positions as integers.
pub open spec fn places_view(places: Seq<usize>) -> Seq<int> {
    places.map_values(|p: usize| p as int)
}

/// The lengths stored in `s` right behind each of the offset fields at `ps`.
pub open spec fn stored_lens(s: Seq<u8>, ps: Seq<int>) -> Seq<u32> {
    Seq::new(ps.len(), |j: int| be32_value(s.subrange(ps[j] + 4, ps[j] + 8)))
}

/// Fills in the location offsets at `places`: each place holds a four-byte offset field
/// followed by the four-byte length of the data it locates. The data lies one item after
/// another from `mdat_data_start`, in the order of the places, so the first field gets
/// `mdat_data_start` and each next one the previous offset plus the previous length. The
/// lengths stay, and so does every byte outside the offset fields.
pub fn patch_iloc_offsets(out: &mut Vec<u8>, places: &[usize], mdat_data_start: u32)
    requires
        spaced_positions(places_view(places@), 0, old(out)@.len() as int),
        mdat_data_start + sum_lens(stored_lens(old(out)@, places_view(places@))) <= u32::MAX,
    ensures
        final(out)@ == fill_offsets(
            old(out)@,
            places_view(places@),
            stored_lens(old(out)@, places_view(places@)),
            mdat_data_start,
        ),
{
    let ghost ps = places_view(places@);
    let ghost lens = stored_lens(out@, ps);
    let ghost orig = out@;
    let ghost target = fill_offsets(out@, ps, lens, mdat_data_start);
    let buf_len = out.len();
    let mut current_offset = mdat_data_start;
    let mut j: usize = 0;
    assert(ps.skip(0) =~= ps);
    assert(lens.skip(0) =~= lens);
    assert(lens.take(0).len() == 0);
    while j < places.len()
        invariant
            j <= places@.len(),
            ps == places_view(places@),
            lens == stored_lens(orig, ps),
            spaced_positions(ps, 0, orig.len() as int),
            out@.len() == orig.len(),
            orig.len() == buf_len,
            forall|k: int| j <= k < ps.len() ==> #[trigger] out@.subrange(ps[k], ps[k] + 8) == orig.subrange(
                ps[k],
                ps[k] + 8,
            ),
            mdat_data_start + sum_lens(lens) <= u32::MAX,
            current_offset == mdat_data_start + sum_lens(lens.take(j as int)),
            fill_offsets(out@, ps.skip(j as int), lens.skip(j as int), current_offset) == target,
        decreases places@.len() - j,
    {
        let p = places[j];
        let ghost jj = j as int;
        assert(ps[jj] == p);
        let len = read_be32_at(out, p + 4);
        proof {
            assert(out@.subrange(p + 4, p + 8) =~= out@.subrange(ps[jj], ps[jj] + 8).subrange(4, 8));
            assert(orig.subrange(p + 4, p + 8) =~= orig.subrange(ps[jj], ps[jj] + 8).subrange(4, 8));
            assert(len == lens[jj]);
            lemma_sum_lens_prefix(lens, j + 1);
            assert(lens.take(j + 1).drop_last() =~= lens.take(j as int));
            assert(ps.skip(j as int).drop_first() =~= ps.skip(j + 1));
            assert(lens.skip(j as int).drop_first() =~= lens.skip(j + 1));
        }
        let ghost before = out@;
        put_be32_at(out, p, current_offset);
        proof {
            assert forall|k: int| j + 1 <= k < ps.len() implies #[trigger] out@.subrange(ps[k], ps[k] + 8)
                == orig.subrange(ps[k], ps[k] + 8) by {
                assert(ps[jj] + 8 <= ps[k]);
                assert(out@.subrange(ps[k], ps[k] + 8) =~= before.subrange(ps[k], ps[k] + 8));
            }
        }
        current_offset = current_offset + len;
        j = j + 1;
    }
    assert(ps.skip(j as int).len() == 0);
}

// ─── Item locations ─────────────────────────────────────────────────

/// One `iloc` entry: id, data reference 0, one extent at a placeholder offset, length.
pub open spec fn grid_iloc_entry(id: u16, len: u32) -> Seq<u8> {
    be16(id) + be16(0) + be16(1) + be32(ILOC_PLACEHOLDER) + be32(len)
}

/// The `iloc` entries of tiles numbered from `base`.
pub open spec fn tile_iloc_entries(base: int, tiles: Seq<Seq<u8>>) -> Seq<u8>
    decreases tiles.len(),
{
    if tiles.len() == 0 {
        Seq::empty()
    } else {
        tile_iloc_entries(base, tiles.drop_last()) + grid_iloc_entry(
            (base + tiles.len() - 1) as u16,
            tiles.last().len() as u32,
        )
    }
}

/// `iloc` with 32-bit offsets and lengths: the grid item, the alpha grid item if any, the
/// color tiles, the alpha tiles.
#[verifier::opaque]
pub open spec fn grid_iloc_bytes(
    item_count: u16,
    primary_id: u16,
    desc_len: u32,
    alpha_grid: Option<(u16, u32)>,
    color_base: int,
    tiles: Seq<Seq<u8>>,
    alpha_base: int,
    alpha_tiles: Seq<Seq<u8>>,
) -> Seq<u8> {
    full_box(
        ILOC,
        0,
        0,
        seq![0x44u8, 0u8] + be16(item_count) + grid_iloc_entry(primary_id, desc_len) + match alpha_grid {
            Some(g) => grid_iloc_entry(g.0, g.1),
            None => Seq::empty(),
        } + tile_iloc_entries(color_base, tiles) + tile_iloc_entries(alpha_base, alpha_tiles),
    )
}

/// Appends the `iloc` entries of tiles numbered from `base`.
fn write_tile_entries(out: &mut Vec<u8>, base: u16, tiles: &[&[u8]])
    requires
        base + tiles@.len() <= 0x1_0000,
    ensures
        final(out)@ == old(out)@ + tile_iloc_entries(base as int, frames_view(tiles@)),
{
    let ghost pre = out@;
    let ghost tv = frames_view(tiles@);
    for i in 0..tiles.len()
        invariant
            base + tiles@.len() <= 0x1_0000,
            tv == frames_view(tiles@),
            out@ == pre + tile_iloc_entries(base as int, tv.take(i as int)),
    {
        let id = base + i as u16;
        write_u16(out, id);
        write_u16(out, 0);  // data_reference_index
        write_u16(out, 1);  // extent_count
        write_u32(out, ILOC_PLACEHOLDER);
        write_u32(out, tiles[i].len() as u32);
        assert(tv.take(i + 1).drop_last() =~= tv.take(i as int));
        assert(out@ =~= pre + tile_iloc_entries(base as int, tv.take(i + 1)));
    }
    assert(tv.take(tiles@.len() as int) =~= tv);
}

/// Appends one `iloc` entry with a placeholder offset.
fn write_grid_iloc_entry(out: &mut Vec<u8>, id: u16, len: u32)
    ensures
        final(out)@ == old(out)@ + grid_iloc_entry(id, len),
{
    write_u16(out, id);
    write_u16(out, 0);  // data_reference_index
    write_u16(out, 1);  // extent_count
    write_u32(out, ILOC_PLACEHOLDER);
    write_u32(out, len);
    assert(final(out)@ =~= old(out)@ + grid_iloc_entry(id, len));
}

#[allow(clippy::too_many_arguments)]
fn write_grid_iloc(
    out: &mut Vec<u8>,
    primary_id: u16,
    grid_descriptor: &[u8],
    alpha_grid_descriptor: Option<&[u8]>,
    alpha_grid_id: u16,
    tile_data: &[&[u8]],
    alpha_data: Option<&[&[u8]]>,
    color_tile_base: u16,
    alpha_tile_base: u16,
    tile_count: usize,
    has_alpha: bool,
)
    requires
        has_alpha ==> 2 + 2 * tile_count <= 0xffff,
        !has_alpha ==> 1 + tile_count <= 0xffff,
        color_tile_base + tile_data@.len() <= 0x1_0000,
        alpha_data matches Some(a) ==> alpha_tile_base + a@.len() <= 0x1_0000,
    ensures
        final(out)@ == old(out)@ + grid_iloc_bytes(
            if has_alpha {
                (2 + 2 * tile_count) as u16
            } else {
                (1 + tile_count) as u16
            },
            primary_id,
            grid_descriptor@.len() as u32,
            if has_alpha {
                Some(
                    (
                        alpha_grid_id,
                        match alpha_grid_descriptor {
                            Some(d) => d@.len() as u32,
                            None => 0u32,
                        },
                    ),
                )
            } else {
                None
            },
            color_tile_base as int,
            frames_view(tile_data@),
            alpha_tile_base as int,
            match alpha_data {
                Some(a) => frames_view(a@),
                None => Seq::empty(),
            },
        ),
{
    reveal(grid_iloc_bytes);
    let ghost pre = out@;
    let pos = begin_box(out, ILOC);
    write_fullbox(out, 0, 0);
    out.push(0x44);  // offset_size=4, length_size=4
    out.push(0x00);  // base_offset_size=0, reserved=0
    let mut item_count: u16 = 1 + tile_count as u16;  // color grid + color tiles
    if has_alpha {
        item_count = item_count + 1 + tile_count as u16;  // alpha grid + alpha tiles
    }
    write_u16(out, item_count);
    let ghost start = out@;

    // the color grid item
    write_grid_iloc_entry(out, primary_id, grid_descriptor.len() as u32);
    let ghost e1 = grid_iloc_entry(primary_id, grid_descriptor@.len() as u32);

    // the alpha grid item
    let ghost alpha_grid: Option<(u16, u32)> = None;
    if has_alpha {
        let len: u32 = match alpha_grid_descriptor {
            Some(d) => d.len() as u32,
            None => 0,
        };
        write_grid_iloc_entry(out, alpha_grid_id, len);
        proof {
            alpha_grid = Some((alpha_grid_id, len));
        }
    }
    let ghost e2: Seq<u8> = match alpha_grid {
        Some(g) => grid_iloc_entry(g.0, g.1),
        None => Seq::empty(),
    };
    assert(out@ =~= start + e1 + e2);

    // the color tiles
    write_tile_entries(out, color_tile_base, tile_data);
    let ghost e3 = tile_iloc_entries(color_tile_base as int, frames_view(tile_data@));

    // the alpha tiles
    match alpha_data {
        Some(alpha) => {
            write_tile_entries(out, alpha_tile_base, alpha);
        },
        None => {},
    }
    let ghost alpha_tiles: Seq<Seq<u8>> = match alpha_data {
        Some(a) => frames_view(a@),
        None => Seq::empty(),
    };
    let ghost e4 = tile_iloc_entries(alpha_tile_base as int, alpha_tiles);
    assert(out@ =~= start + e1 + e2 + e3 + e4);
    let ghost payload = full_box_header(0, 0) + (seq![0x44u8, 0u8] + be16(item_count) + e1 + e2 + e3
        + e4);
    assert(out@ =~= pre + be32(0) + be32(ILOC) + payload);
    proof {
        lemma_close_box(pre, ILOC, payload);
    }
    end_box(out, pos);
}

/// The tile data as byte sequences, empty when there is none.
pub open spec fn tiles_opt(tiles: Option<&[&[u8]]>) -> Seq<Seq<u8>> {
    match tiles {
        Some(a) => frames_view(a@),
        None => Seq::empty(),
    }
}

// ─── The `meta` box ─────────────────────────────────────────────────

/// `meta` of a grid image: handler, primary item, locations, items, references, properties.
#[verifier::opaque]
pub open spec fn grid_meta_bytes(
    primary_id: u16,
    iloc: Seq<u8>,
    items: Seq<InfeView>,
    irefs: Seq<IrefEntryBox>,
    props: Seq<IpcoProp>,
    ipma: Seq<IpmaView>,
) -> Seq<u8> {
    mp4_box(
        META,
        full_box_header(0, 0) + hdlr_bytes() + pitm_bytes(primary_id) + iloc + iinf_bytes(items)
            + iref_bytes(irefs) + iprp_bytes(props_bytes(props), ipma),
    )
}

#[allow(clippy::too_many_arguments)]
fn write_meta_grid(
    out: &mut Vec<u8>,
    image_items: &[InfeBox],
    ipma_entries: &[IpmaEntry],
    ipco: &IpcoBox,
    irefs: &[IrefEntryBox],
    primary_id: u16,
    grid_descriptor: &[u8],
    alpha_grid_descriptor: Option<&[u8]>,
    alpha_grid_id: u16,
    tile_data: &[&[u8]],
    alpha_data: Option<&[&[u8]]>,
    color_tile_base: u16,
    alpha_tile_base: u16,
    tile_count: usize,
    has_alpha: bool,
)
    requires
        has_alpha ==> 2 + 2 * tile_count <= 0xffff,
        !has_alpha ==> 1 + tile_count <= 0xffff,
        color_tile_base + tile_data@.len() <= 0x1_0000,
        alpha_data matches Some(a) ==> alpha_tile_base + a@.len() <= 0x1_0000,
    ensures
        final(out)@ == old(out)@ + grid_meta_bytes(
            primary_id,
            grid_iloc_bytes(
                if has_alpha {
                    (2 + 2 * tile_count) as u16
                } else {
                    (1 + tile_count) as u16
                },
                primary_id,
                grid_descriptor@.len() as u32,
                if has_alpha {
                    Some(
                        (
                            alpha_grid_id,
                            match alpha_grid_descriptor {
                                Some(d) => d@.len() as u32,
                                None => 0u32,
                            },
                        ),
                    )
                } else {
                    None
                },
                color_tile_base as int,
                frames_view(tile_data@),
                alpha_tile_base as int,
                tiles_opt(alpha_data),
            ),
            image_items@.map_values(|i: InfeBox| infe_view(i)),
            irefs@,
            ipco@,
            ipma_entries@.map_values(|e: IpmaEntry| ipma_view(e)),
        ),
{
    reveal(grid_meta_bytes);
    let ghost pre = out@;
    let meta_pos = begin_box(out, META);
    let ghost start = out@;
    let ghost mut acc = Seq::<u8>::empty();
    assert(out@ =~= start + acc);
    write_fullbox(out, 0, 0);
    proof {
        lemma_concat_associative(start, acc, full_box_header(0, 0));
        acc = acc + full_box_header(0, 0);
    }
    write_hdlr(out);
    proof {
        lemma_concat_associative(start, acc, hdlr_bytes());
        acc = acc + hdlr_bytes();
    }
    write_pitm(out, primary_id);
    proof {
        lemma_concat_associative(start, acc, pitm_bytes(primary_id));
        acc = acc + pitm_bytes(primary_id);
    }
    write_grid_iloc(
        out,
        primary_id,
        grid_descriptor,
        alpha_grid_descriptor,
        alpha_grid_id,
        tile_data,
        alpha_data,
        color_tile_base,
        alpha_tile_base,
        tile_count,
        has_alpha,
    );
    let ghost iloc = grid_iloc_bytes(
        if has_alpha {
            (2 + 2 * tile_count) as u16
        } else {
            (1 + tile_count) as u16
        },
        primary_id,
        grid_descriptor@.len() as u32,
        if has_alpha {
            Some(
                (
                    alpha_grid_id,
                    match alpha_grid_descriptor {
                        Some(d) => d@.len() as u32,
                        None => 0u32,
                    },
                ),
            )
        } else {
            None
        },
        color_tile_base as int,
        frames_view(tile_data@),
        alpha_tile_base as int,
        tiles_opt(alpha_data),
    );
    proof {
        lemma_concat_associative(start, acc, iloc);
        acc = acc + iloc;
    }
    let ghost items = image_items@.map_values(|i: InfeBox| infe_view(i));
    write_iinf(out, image_items);
    proof {
        lemma_concat_associative(start, acc, iinf_bytes(items));
        acc = acc + iinf_bytes(items);
    }
    write_iref(out, irefs);
    proof {
        lemma_concat_associative(start, acc, iref_bytes(irefs@));
        acc = acc + iref_bytes(irefs@);
    }
    let ghost ipma = ipma_entries@.map_values(|e: IpmaEntry| ipma_view(e));

    // iprp
    let ghost iprp_pre = out@;
    let iprp_pos = begin_box(out, IPRP);
    let ghost iprp_start = out@;
    ipco.write(out);
    write_ipma(out, ipma_entries);
    let ghost ipco_part = mp4_box(crate::boxes::IPCO, props_bytes(ipco@));
    let ghost ipma_part = crate::boxes::ipma_bytes(ipma);
    proof {
        lemma_concat_associative(iprp_start, ipco_part, ipma_part);
        lemma_close_box(iprp_pre, IPRP, ipco_part + ipma_part);
    }
    end_box(out, iprp_pos);
    proof {
        lemma_concat_associative(start, acc, iprp_bytes(props_bytes(ipco@), ipma));
        acc = acc + iprp_bytes(props_bytes(ipco@), ipma);
        lemma_close_box(pre, META, acc);
    }
    end_box(out, meta_pos);
}


// ─── The grid image ─────────────────────────────────────────────────

/// Configuration and data of a grid AVIF image.
pub struct GridImage<'a> {
    /// Number of tile rows.
    pub rows: u8,
    /// Number of tile columns.
    pub columns: u8,
    /// Output image width in pixels.
    pub output_width: u32,
    /// Output image height in pixels.
    pub output_height: u32,
    /// Tile width in pixels (all tiles same width).
    pub tile_width: u32,
    /// Tile height in pixels (all tiles same height).
    pub tile_height: u32,
    /// AV1-encoded data for each tile, in row-major order; `rows * columns` of them.
    pub tile_data: &'a [&'a [u8]],
    /// Optional alpha data for each tile (same order as `tile_data`); `rows * columns` of them.
    pub alpha_data: Option<&'a [&'a [u8]]>,
    /// AV1 codec configuration for color tiles.
    pub color_config: Av1CBox,
    /// AV1 codec configuration for alpha tiles (used when `alpha_data` is present).
    pub alpha_config: Option<Av1CBox>,
    /// Bit depth (8, 10, or 12).
    pub depth_bits: u8,
    /// CICP color info. `None` omits the colr box.
    pub colr: Option<ColrBox>,
    /// Whether alpha is premultiplied.
    pub premultiplied_alpha: bool,
}

impl<'a> GridImage<'a> {
    /// rows × columns.
    pub open spec fn expected_tiles(&self) -> nat {
        self.rows as nat * self.columns as nat
    }

    /// Whether as many tiles are given as the grid has cells, for color and, if given, alpha.
    pub open spec fn counts_match(&self) -> bool {
        &&& self.tile_data@.len() == self.expected_tiles()
        &&& self.alpha_data matches Some(a) ==> a@.len() == self.expected_tiles()
    }

    /// Whether an alpha grid is written: alpha data and an alpha configuration are both given.
    pub open spec fn has_alpha(&self) -> bool {
        self.alpha_data is Some && self.alpha_config is Some
    }

    /// Whether all item ids and the item count fit in 16 bits. Items are numbered: 1 the
    /// grid, 2 the alpha grid (if written), then the color tiles, then the alpha tiles.
    pub open spec fn tile_ids_fit(&self) -> bool {
        self.has_alpha() ==> self.expected_tiles() + 1 <= 32767
    }

    /// The alpha tiles that are written: those given, when an alpha configuration is given
    /// too; alpha tiles without a configuration are left out.
    pub open spec fn alpha_in_use(&self) -> Option<&'a [&'a [u8]]> {
        if self.has_alpha() {
            self.alpha_data
        } else {
            None
        }
    }

    /// The id of the first color tile.
    pub open spec fn color_tile_base(&self) -> int {
        if self.has_alpha() {
            3
        } else {
            2
        }
    }

    /// The id of the first alpha tile.
    pub open spec fn alpha_tile_base(&self) -> int {
        self.color_tile_base() + self.expected_tiles()
    }

    /// The grid descriptor of this image.
    pub open spec fn descriptor(&self) -> Seq<u8> {
        grid_descriptor(self.rows, self.columns, self.output_width, self.output_height)
    }

    /// The declared items: the grid, the alpha grid, the color tiles, the alpha tiles.
    pub open spec fn items(&self) -> Seq<InfeView> {
        let n = self.expected_tiles();
        let ctb = self.color_tile_base();
        let atb = self.alpha_tile_base();
        seq![(1u16, GRID, Seq::<u8>::empty())] + (if self.has_alpha() {
            seq![(2u16, GRID, Seq::<u8>::empty())]
        } else {
            Seq::empty()
        }) + Seq::new(n, |i: int| ((ctb + i) as u16, AV01, Seq::<u8>::empty())) + if self.has_alpha() {
            Seq::new(n, |i: int| ((atb + i) as u16, AV01, Seq::<u8>::empty()))
        } else {
            Seq::empty()
        }
    }

    /// The references: the alpha grid is auxiliary to the grid (and, premultiplied, the grid
    /// premultiplied by it), and each grid derives from its tiles.
    pub open spec fn irefs(&self) -> Seq<IrefEntryBox> {
        let n = self.expected_tiles();
        let ctb = self.color_tile_base();
        let atb = self.alpha_tile_base();
        (if self.has_alpha() {
            seq![IrefEntryBox { from_id: 2, to_id: 1, typ: FourCC(AUXL) }] + if self.premultiplied_alpha {
                seq![IrefEntryBox { from_id: 1, to_id: 2, typ: FourCC(PREM) }]
            } else {
                Seq::empty()
            }
        } else {
            Seq::empty()
        }) + Seq::new(n, |i: int| IrefEntryBox { from_id: 1, to_id: (ctb + i) as u16, typ: FourCC(DIMG) })
            + if self.has_alpha() {
            Seq::new(n, |i: int| IrefEntryBox { from_id: 2, to_id: (atb + i) as u16, typ: FourCC(DIMG) })
        } else {
            Seq::empty()
        }
    }

    /// The properties: output extent, tile extent, color configuration, color pixel
    /// information, the colour information unless default, then for alpha its
    /// configuration, one-channel pixel information and the alpha auxiliary type.
    pub open spec fn props(&self) -> Seq<IpcoProp> {
        seq![
            IpcoProp::Ispe(IspeBox { width: self.output_width, height: self.output_height }),
            IpcoProp::Ispe(IspeBox { width: self.tile_width, height: self.tile_height }),
            IpcoProp::Av1C(self.color_config),
            IpcoProp::Pixi(
                PixiBox {
                    channels: if self.color_config.monochrome {
                        1
                    } else {
                        3
                    },
                    depth: self.depth_bits,
                },
            ),
        ] + (if shows_colr(self.colr) {
            seq![IpcoProp::Colr(self.colr.unwrap())]
        } else {
            Seq::empty()
        }) + if self.has_alpha() {
            seq![
                IpcoProp::Av1C(self.alpha_config.unwrap()),
                IpcoProp::Pixi(PixiBox { channels: 1, depth: self.depth_bits }),
                IpcoProp::AuxC(AuxCBox {  }),
            ]
        } else {
            Seq::empty()
        }
    }

    /// The property associations, by 1-based index into `props` (0x80: essential).
    pub open spec fn ipma(&self) -> Seq<IpmaView> {
        let n = self.expected_tiles();
        let ctb = self.color_tile_base();
        let atb = self.alpha_tile_base();
        let alpha_av1c: u8 = if shows_colr(self.colr) {
            6
        } else {
            5
        };
        seq![
            (
                1u16,
                seq![1u8, 4u8] + if shows_colr(self.colr) {
                    seq![5u8]
                } else {
                    Seq::empty()
                },
            ),
        ] + (if self.has_alpha() {
            seq![(2u16, seq![1u8, (alpha_av1c + 1) as u8, (alpha_av1c + 2) as u8])]
        } else {
            Seq::empty()
        }) + Seq::new(n, |i: int| ((ctb + i) as u16, seq![2u8, 3u8 | 0x80u8])) + if self.has_alpha() {
            Seq::new(n, |i: int| ((atb + i) as u16, seq![2u8, alpha_av1c | 0x80u8]))
        } else {
            Seq::empty()
        }
    }

    /// The item count that `iloc` records: the grids and the tiles declared as items.
    pub open spec fn iloc_item_count(&self) -> u16 {
        let n = self.expected_tiles();
        if self.has_alpha() {
            (2 + 2 * n) as u16
        } else {
            (1 + n) as u16
        }
    }

    /// The item locations.
    pub open spec fn iloc(&self) -> Seq<u8> {
        grid_iloc_bytes(
            self.iloc_item_count(),
            1,
            self.descriptor().len() as u32,
            if self.has_alpha() {
                Some((2u16, self.descriptor().len() as u32))
            } else {
                None
            },
            self.color_tile_base(),
            frames_view(self.tile_data@),
            self.alpha_tile_base(),
            tiles_opt(self.alpha_in_use()),
        )
    }

    /// Everything before the media data.
    pub open spec fn head_bytes(&self) -> Seq<u8> {
        grid_ftyp_bytes() + grid_meta_bytes(1, self.iloc(), self.items(), self.irefs(), self.props(), self.ipma())
    }

    /// The media data: the grid descriptor(s), the color tiles, the alpha tiles.
    pub open spec fn media(&self) -> Seq<u8> {
        self.descriptor() + (if self.has_alpha() {
            self.descriptor()
        } else {
            Seq::empty()
        }) + frames_concat(frames_view(self.tile_data@)) + frames_concat(tiles_opt(self.alpha_in_use()))
    }

    /// Where the media data payload starts.
    pub open spec fn mdat_data_start(&self) -> nat {
        self.head_bytes().len() + 8
    }

    /// The file before the offsets are filled in.
    pub open spec fn unpatched_bytes(&self) -> Seq<u8> {
        self.head_bytes() + mp4_box(MDAT, self.media())
    }

    /// The grid AVIF file: the unfilled file with the offset field of each location entry
    /// (at `offset_place(j)`) set to where that item's data starts; nothing else changes.
    pub open spec fn grid_bytes(&self) -> Seq<u8> {
        fill_offsets(
            self.unpatched_bytes(),
            Seq::new(self.located().len(), |j: int| offset_place(j)),
            located_lens(self.located()),
            self.mdat_data_start() as u32,
        )
    }
}

/// Declares `count` tiles numbered from `base`, each derived into grid `grid_id` and
/// associated with the tile extent and, as essential, the given configuration.
fn push_tile_items(
    image_items: &mut Vec<InfeBox>,
    irefs: &mut Vec<IrefEntryBox>,
    ipma_entries: &mut Vec<IpmaEntry>,
    grid_id: u16,
    base: u16,
    count: usize,
    ispe_tile: u8,
    av1c_assoc: u8,
)
    requires
        base + count <= 0x1_0000,
    ensures
        final(image_items)@.map_values(|i: InfeBox| infe_view(i)) == old(image_items)@.map_values(
            |i: InfeBox| infe_view(i),
        ) + Seq::new(count as nat, |i: int| ((base + i) as u16, AV01, Seq::<u8>::empty())),
        final(irefs)@ == old(irefs)@ + Seq::new(
            count as nat,
            |i: int| IrefEntryBox { from_id: grid_id, to_id: (base + i) as u16, typ: FourCC(DIMG) },
        ),
        final(ipma_entries)@.map_values(|e: IpmaEntry| ipma_view(e)) == old(ipma_entries)@.map_values(
            |e: IpmaEntry| ipma_view(e),
        ) + Seq::new(count as nat, |i: int| ((base + i) as u16, seq![ispe_tile, av1c_assoc])),
{
    let ghost items0 = image_items@.map_values(|i: InfeBox| infe_view(i));
    let ghost irefs0 = irefs@;
    let ghost ipma0 = ipma_entries@.map_values(|e: IpmaEntry| ipma_view(e));
    for i in 0..count
        invariant
            base + count <= 0x1_0000,
            image_items@.map_values(|i: InfeBox| infe_view(i)) == items0 + Seq::new(
                i as nat,
                |k: int| ((base + k) as u16, AV01, Seq::<u8>::empty()),
            ),
            irefs@ == irefs0 + Seq::new(
                i as nat,
                |k: int| IrefEntryBox { from_id: grid_id, to_id: (base + k) as u16, typ: FourCC(DIMG) },
            ),
            ipma_entries@.map_values(|e: IpmaEntry| ipma_view(e)) == ipma0 + Seq::new(
                i as nat,
                |k: int| ((base + k) as u16, seq![ispe_tile, av1c_assoc]),
            ),
    {
        let tile_id = base + i as u16;
        let ghost iv_before = image_items@.map_values(|i: InfeBox| infe_view(i));
        image_items.push(InfeBox { id: tile_id, typ: FourCC(AV01), content_type: Vec::new() });
        assert(image_items@.map_values(|i: InfeBox| infe_view(i)) =~= iv_before.push(
            (tile_id, AV01, Seq::<u8>::empty()),
        ));
        irefs.push(IrefEntryBox { from_id: grid_id, to_id: tile_id, typ: FourCC(DIMG) });
        let mut ids = associations_new();
        associations_push(&mut ids, ispe_tile);
        associations_push(&mut ids, av1c_assoc);
        assert(association_list(ids) =~= seq![ispe_tile, av1c_assoc]);
        let ghost pv_before = ipma_entries@.map_values(|e: IpmaEntry| ipma_view(e));
        ipma_entries.push(IpmaEntry { item_id: tile_id, prop_ids: ids });
        assert(ipma_entries@.map_values(|e: IpmaEntry| ipma_view(e)) =~= pv_before.push(
            (tile_id, seq![ispe_tile, av1c_assoc]),
        ));
        assert(image_items@.map_values(|i: InfeBox| infe_view(i)) =~= items0 + Seq::new(
            (i + 1) as nat,
            |k: int| ((base + k) as u16, AV01, Seq::<u8>::empty()),
        ));
        assert(irefs@ =~= irefs0 + Seq::new(
            (i + 1) as nat,
            |k: int| IrefEntryBox { from_id: grid_id, to_id: (base + k) as u16, typ: FourCC(DIMG) },
        ));
        assert(ipma_entries@.map_values(|e: IpmaEntry| ipma_view(e)) =~= ipma0 + Seq::new(
            (i + 1) as nat,
            |k: int| ((base + k) as u16, seq![ispe_tile, av1c_assoc]),
        ));
    }
}


/// Serializes a grid AVIF image: the complete file, or an error when the number of color
/// or alpha tiles is not rows × columns.
#[verifier::rlimit(90)]
pub fn serialize_grid(image: &GridImage) -> (r: Result<Vec<u8>, SerializeError>)
    requires
        image.counts_match() ==> image.tile_ids_fit(),
    ensures
        image.tile_data@.len() != image.expected_tiles() ==> r == Err::<Vec<u8>, SerializeError>(
            SerializeError::TileCountMismatch {
                tiles: image.tile_data@.len() as usize,
                expected: image.expected_tiles() as usize,
            },
        ),
        image.tile_data@.len() == image.expected_tiles() ==> match image.alpha_data {
            Some(a) => a@.len() != image.expected_tiles() ==> r == Err::<Vec<u8>, SerializeError>(
                SerializeError::AlphaTileCountMismatch {
                    tiles: a@.len() as usize,
                    expected: image.expected_tiles() as usize,
                },
            ),
            None => true,
        },
        image.counts_match() && image.unpatched_bytes().len() > u32::MAX ==> r == Err::<
            Vec<u8>,
            SerializeError,
        >(SerializeError::TooLarge),
        image.counts_match() && image.unpatched_bytes().len() <= u32::MAX ==> (r matches Ok(v) && v@
            == image.grid_bytes()),
{
    assert(image.rows as nat * image.columns as nat <= 255 * 255) by (nonlinear_arith);
    let tile_count = image.rows as usize * image.columns as usize;
    if image.tile_data.len() != tile_count {
        return Err(
            SerializeError::TileCountMismatch { tiles: image.tile_data.len(), expected: tile_count },
        );
    }
    if let Some(alpha) = image.alpha_data {
        if alpha.len() != tile_count {
            return Err(
                SerializeError::AlphaTileCountMismatch { tiles: alpha.len(), expected: tile_count },
            );
        }
    }
    assert(image.counts_match());

    let has_alpha = image.alpha_data.is_some() && image.alpha_config.is_some();
    // Alpha tiles are written only together with an alpha configuration.
    let alpha_used: Option<&[&[u8]]> = if has_alpha {
        image.alpha_data
    } else {
        None
    };

    // Item ids: 1 the color grid, 2 the alpha grid (if any), then the color tiles, then the
    // alpha tiles.
    let color_grid_id: u16 = 1;
    let alpha_grid_id: u16 = 2;
    let color_tile_base: u16 = if has_alpha {
        3
    } else {
        2
    };
    let alpha_tile_base: u16 = color_tile_base + tile_count as u16;

    let grid_descriptor = make_grid_descriptor(
        image.rows,
        image.columns,
        image.output_width,
        image.output_height,
    );
    let alpha_grid_descriptor: Option<Vec<u8>> = if has_alpha {
        Some(
            make_grid_descriptor(
                image.rows,
                image.columns,
                image.output_width,
                image.output_height,
            ),
        )
    } else {
        None
    };

    let mut image_items: Vec<InfeBox> = Vec::new();
    let mut ipma_entries: Vec<IpmaEntry> = Vec::new();
    let mut irefs: Vec<IrefEntryBox> = Vec::new();
    let mut ipco = IpcoBox::new();
    let essential_bit: u8 = 0x80;

    // shared properties
    let ispe_output = match ipco.push(
        IpcoProp::Ispe(IspeBox { width: image.output_width, height: image.output_height }),
    ) {
        Some(id) => id,
        None => return Err(SerializeError::TooManyProperties),
    };
    let ispe_tile = match ipco.push(
        IpcoProp::Ispe(IspeBox { width: image.tile_width, height: image.tile_height }),
    ) {
        Some(id) => id,
        None => return Err(SerializeError::TooManyProperties),
    };
    let av1c_color = match ipco.push(IpcoProp::Av1C(image.color_config)) {
        Some(id) => id,
        None => return Err(SerializeError::TooManyProperties),
    };
    let channels: u8 = if image.color_config.monochrome {
        1
    } else {
        3
    };
    let pixi_color = match ipco.push(
        IpcoProp::Pixi(PixiBox { channels, depth: image.depth_bits }),
    ) {
        Some(id) => id,
        None => return Err(SerializeError::TooManyProperties),
    };
    assert(ispe_output == 1 && ispe_tile == 2 && av1c_color == 3 && pixi_color == 4);

    // optional colour information
    let colr_prop: Option<u8> = match image.colr {
        Some(colr) => {
            if colr != ColrBox::default() {
                match ipco.push(IpcoProp::Colr(colr)) {
                    Some(id) => Some(id),
                    None => return Err(SerializeError::TooManyProperties),
                }
            } else {
                None
            }
        },
        None => None,
    };
    assert(colr_prop is Some <==> shows_colr(image.colr));
    assert(colr_prop matches Some(c) ==> c == 5);

    // alpha configuration, pixel information and auxiliary type
    let mut av1c_alpha: u8 = 0;
    let mut pixi_alpha: u8 = 0;
    let mut auxc_alpha: u8 = 0;
    if has_alpha {
        let alpha_config = image.alpha_config.unwrap();
        av1c_alpha = match ipco.push(IpcoProp::Av1C(alpha_config)) {
            Some(id) => id,
            None => return Err(SerializeError::TooManyProperties),
        };
        pixi_alpha = match ipco.push(IpcoProp::Pixi(PixiBox { channels: 1, depth: image.depth_bits })) {
            Some(id) => id,
            None => return Err(SerializeError::TooManyProperties),
        };
        auxc_alpha = match ipco.push(IpcoProp::AuxC(AuxCBox {  })) {
            Some(id) => id,
            None => return Err(SerializeError::TooManyProperties),
        };
    }
    assert(ipco@ =~= image.props());
    let ghost alpha_av1c: u8 = if shows_colr(image.colr) {
        6
    } else {
        5
    };
    assert(has_alpha ==> av1c_alpha == alpha_av1c && pixi_alpha == alpha_av1c + 1 && auxc_alpha
        == alpha_av1c + 2);

    // the color grid item
    image_items.push(InfeBox { id: color_grid_id, typ: FourCC(GRID), content_type: Vec::new() });
    let mut grid_ids = associations_new();
    associations_push(&mut grid_ids, ispe_output);
    associations_push(&mut grid_ids, pixi_color);
    if let Some(colr_p) = colr_prop {
        associations_push(&mut grid_ids, colr_p);
    }
    assert(association_list(grid_ids) =~= image.ipma()[0].1);
    ipma_entries.push(IpmaEntry { item_id: color_grid_id, prop_ids: grid_ids });

    // the alpha grid item
    if has_alpha {
        image_items.push(InfeBox { id: alpha_grid_id, typ: FourCC(GRID), content_type: Vec::new() });
        irefs.push(IrefEntryBox { from_id: alpha_grid_id, to_id: color_grid_id, typ: FourCC(AUXL) });
        if image.premultiplied_alpha {
            irefs.push(IrefEntryBox { from_id: color_grid_id, to_id: alpha_grid_id, typ: FourCC(PREM) });
        }
        let mut ids = associations_new();
        associations_push(&mut ids, ispe_output);
        associations_push(&mut ids, pixi_alpha);
        associations_push(&mut ids, auxc_alpha);
        assert(association_list(ids) =~= seq![1u8, (alpha_av1c + 1) as u8, (alpha_av1c + 2) as u8]);
        ipma_entries.push(IpmaEntry { item_id: alpha_grid_id, prop_ids: ids });
    }
    let ghost items_head = image_items@.map_values(|i: InfeBox| infe_view(i));
    let ghost irefs_head = irefs@;
    let ghost ipma_head = ipma_entries@.map_values(|e: IpmaEntry| ipma_view(e));

    // the color tiles
    push_tile_items(
        &mut image_items,
        &mut irefs,
        &mut ipma_entries,
        color_grid_id,
        color_tile_base,
        tile_count,
        ispe_tile,
        av1c_color | essential_bit,
    );

    // the alpha tiles
    if has_alpha {
        push_tile_items(
            &mut image_items,
            &mut irefs,
            &mut ipma_entries,
            alpha_grid_id,
            alpha_tile_base,
            tile_count,
            ispe_tile,
            av1c_alpha | essential_bit,
        );
    }
    assert(image_items@.map_values(|i: InfeBox| infe_view(i)) =~= image.items());
    assert(irefs@ =~= image.irefs());
    assert(ipma_entries@.map_values(|e: IpmaEntry| ipma_view(e)) =~= image.ipma());

    let mut out: Vec<u8> = Vec::new();
    write_ftyp(&mut out);
    let agd: Option<&[u8]> = match &alpha_grid_descriptor {
        Some(d) => Some(d.as_slice()),
        None => None,
    };
    write_meta_grid(
        &mut out,
        image_items.as_slice(),
        ipma_entries.as_slice(),
        &ipco,
        irefs.as_slice(),
        color_grid_id,
        grid_descriptor.as_slice(),
        agd,
        alpha_grid_id,
        image.tile_data,
        alpha_used,
        color_tile_base,
        alpha_tile_base,
        tile_count,
        has_alpha,
    );
    let ghost head = out@;
    assert(head =~= image.head_bytes());

    // mdat: the grid descriptors, then the tiles, in the order of the iloc entries
    let mdat_pos = begin_box(&mut out, MDAT);
    let mdat_data_start = out.len() as u32;
    let ghost media_start = out@;
    write_bytes(&mut out, grid_descriptor.as_slice());
    if let Some(d) = agd {
        write_bytes(&mut out, d);
    }
    write_frames(&mut out, image.tile_data);
    if let Some(alpha) = alpha_used {
        write_frames(&mut out, alpha);
    }
    assert(out@ =~= head + be32(0) + be32(MDAT) + image.media());
    proof {
        lemma_close_box(head, MDAT, image.media());
    }
    end_box(&mut out, mdat_pos);
    assert(out@ == image.unpatched_bytes());
    if out.len() > 0xFFFF_FFFF {
        return Err(SerializeError::TooLarge);
    }

    fill_grid_offsets(&mut out, image, has_alpha, tile_count, mdat_data_start);
    Ok(out)
}


// ─── Reading back ───────────────────────────────────────────────────

/// Tiles numbered from `base`, each with its data.
pub open spec fn tiles_located(base: int, tiles: Seq<Seq<u8>>) -> Seq<IlocView> {
    Seq::new(tiles.len(), |i: int| ((base + i) as u16, tiles[i]))
}

/// The `iloc` entries of located items, offsets still to be filled in.
pub open spec fn located_entries(its: Seq<IlocView>) -> Seq<u8>
    decreases its.len(),
{
    if its.len() == 0 {
        Seq::empty()
    } else {
        located_entries(its.drop_last()) + grid_iloc_entry(its.last().0, its.last().1.len() as u32)
    }
}

impl<'a> GridImage<'a> {
    /// The items whose data the file holds, in the order of their locations: the grid
    /// descriptor (id 1), the alpha grid descriptor (id 2) when written, the color tiles,
    /// then the alpha tiles.
    pub open spec fn located(&self) -> Seq<IlocView> {
        seq![(1u16, self.descriptor())] + (if self.has_alpha() {
            seq![(2u16, self.descriptor())]
        } else {
            Seq::empty()
        }) + tiles_located(self.color_tile_base(), frames_view(self.tile_data@)) + tiles_located(
            self.alpha_tile_base(),
            tiles_opt(self.alpha_in_use()),
        )
    }
}

/// Where the `iloc` entries start in a grid file: behind `ftyp` (28 bytes), the `meta`
/// header (12), `hdlr` (33), `pitm` (14) and the `iloc` header (16).
pub open spec fn grid_iloc_entries_start() -> int {
    103
}

proof fn lemma_located_entries_append(a: Seq<IlocView>, b: Seq<IlocView>)
    ensures
        located_entries(a + b) == located_entries(a) + located_entries(b),
    decreases b.len(),
{
    if b.len() == 0 {
        assert(a + b =~= a);
        assert(located_entries(a) + located_entries(b) =~= located_entries(a));
    } else {
        lemma_located_entries_append(a, b.drop_last());
        assert((a + b).drop_last() =~= a + b.drop_last());
        assert((a + b).last() == b.last());
        assert(located_entries(a + b) =~= located_entries(a) + located_entries(b));
    }
}

proof fn lemma_data_concat_append(a: Seq<IlocView>, b: Seq<IlocView>)
    ensures
        data_concat(a + b) == data_concat(a) + data_concat(b),
    decreases b.len(),
{
    if b.len() == 0 {
        assert(a + b =~= a);
        assert(data_concat(a) + data_concat(b) =~= data_concat(a));
    } else {
        lemma_data_concat_append(a, b.drop_last());
        assert((a + b).drop_last() =~= a + b.drop_last());
        assert((a + b).last() == b.last());
        assert(data_concat(a + b) =~= data_concat(a) + data_concat(b));
    }
}

proof fn lemma_tiles_located(base: int, tiles: Seq<Seq<u8>>)
    ensures
        tile_iloc_entries(base, tiles) == located_entries(tiles_located(base, tiles)),
        frames_concat(tiles) == data_concat(tiles_located(base, tiles)),
    decreases tiles.len(),
{
    if tiles.len() > 0 {
        lemma_tiles_located(base, tiles.drop_last());
        assert(tiles_located(base, tiles).drop_last() =~= tiles_located(base, tiles.drop_last()));
    } else {
        assert(tiles_located(base, tiles) =~= Seq::<IlocView>::empty());
    }
}

proof fn lemma_located_entry_at(its: Seq<IlocView>, k: int)
    requires
        0 <= k < its.len(),
    ensures
        located_entries(its).len() == 14 * its.len(),
        located_entries(its).subrange(14 * k, 14 * k + 14) == grid_iloc_entry(
            its[k].0,
            its[k].1.len() as u32,
        ),
    decreases its.len(),
{
    let init = its.drop_last();
    let e = located_entries(init);
    let last = grid_iloc_entry(its.last().0, its.last().1.len() as u32);
    if k == its.len() - 1 {
        if init.len() > 0 {
            lemma_located_entry_at(init, 0);
        }
        assert((e + last).subrange(14 * k, 14 * k + 14) =~= last);
    } else {
        lemma_located_entry_at(init, k);
        assert((e + last).subrange(14 * k, 14 * k + 14) =~= e.subrange(14 * k, 14 * k + 14));
    }
}


/// The location entries of a grid file, item by item, and its media data.
#[verifier::rlimit(30)]
proof fn lemma_grid_entries(img: GridImage)
    ensures
        located_entries(img.located()) == grid_iloc_entry(1, img.descriptor().len() as u32) + (if img.has_alpha() {
            grid_iloc_entry(2, img.descriptor().len() as u32)
        } else {
            Seq::empty()
        }) + tile_iloc_entries(img.color_tile_base(), frames_view(img.tile_data@)) + tile_iloc_entries(
            img.alpha_tile_base(),
            tiles_opt(img.alpha_in_use()),
        ),
        img.media() == data_concat(img.located()),
{
    let d = img.descriptor();
    let l1 = seq![(1u16, d)];
    let l2: Seq<IlocView> = if img.has_alpha() {
        seq![(2u16, d)]
    } else {
        Seq::empty()
    };
    let color = frames_view(img.tile_data@);
    let alpha = tiles_opt(img.alpha_in_use());
    let l3 = tiles_located(img.color_tile_base(), color);
    let l4 = tiles_located(img.alpha_tile_base(), alpha);
    let located = img.located();
    assert(located == l1 + l2 + l3 + l4);
    lemma_located_entries_append(l1 + l2 + l3, l4);
    lemma_located_entries_append(l1 + l2, l3);
    lemma_located_entries_append(l1, l2);
    lemma_data_concat_append(l1 + l2 + l3, l4);
    lemma_data_concat_append(l1 + l2, l3);
    lemma_data_concat_append(l1, l2);
    lemma_tiles_located(img.color_tile_base(), color);
    lemma_tiles_located(img.alpha_tile_base(), alpha);
    assert(l1.drop_last() =~= Seq::<IlocView>::empty());
    assert(located_entries(l1.drop_last()) == Seq::<u8>::empty());
    assert(data_concat(l1.drop_last()) == Seq::<u8>::empty());
    assert(located_entries(l1) =~= grid_iloc_entry(1, d.len() as u32));
    assert(data_concat(l1) =~= d);
    if img.has_alpha() {
        assert(l2.drop_last() =~= Seq::<IlocView>::empty());
        assert(located_entries(l2.drop_last()) == Seq::<u8>::empty());
        assert(data_concat(l2.drop_last()) == Seq::<u8>::empty());
        assert(located_entries(l2) =~= grid_iloc_entry(2, d.len() as u32));
        assert(data_concat(l2) =~= d);
    } else {
        assert(located_entries(l2) =~= Seq::<u8>::empty());
        assert(data_concat(l2) =~= Seq::<u8>::empty());
    }
    assert(img.media() =~= data_concat(located));
}

/// In a grid file the `iloc` entries stand at a fixed place in the header, and the media
/// data holds the located items' data one after another.
#[verifier::rlimit(40)]
proof fn lemma_grid_layout(img: GridImage)
    ensures
        grid_iloc_entries_start() + 14 * img.located().len() <= img.head_bytes().len(),
        img.unpatched_bytes().subrange(
            grid_iloc_entries_start(),
            grid_iloc_entries_start() + 14 * img.located().len(),
        ) == located_entries(img.located()),
        img.media() == data_concat(img.located()),
{
    reveal(grid_iloc_bytes);
    reveal(grid_meta_bytes);
    lemma_grid_entries(img);
    let located = img.located();
    if located.len() > 0 {
        lemma_located_entry_at(located, 0);
    }
    let es = located_entries(located);
    let el = es.len() as int;
    let iloc_head = seq![0x44u8, 0u8] + be16(img.iloc_item_count());
    let iloc_payload = full_box_header(0, 0) + (iloc_head + es);
    assert(img.iloc() =~= be32((8 + iloc_payload.len()) as u32) + be32(ILOC) + iloc_payload);
    let ilocb = img.iloc();
    let pre_es = be32((8 + iloc_payload.len()) as u32) + be32(ILOC) + full_box_header(0, 0) + iloc_head;
    assert(ilocb =~= pre_es + es);
    lemma_subrange_right(pre_es, es, 0, es.len() as int);
    let before = full_box_header(0, 0) + hdlr_bytes() + pitm_bytes(1);
    assert(before.len() == 51);
    let rest = iinf_bytes(img.items()) + iref_bytes(img.irefs()) + iprp_bytes(props_bytes(img.props()), img.ipma());
    let meta_payload = before + ilocb + iinf_bytes(img.items()) + iref_bytes(img.irefs()) + iprp_bytes(
        props_bytes(img.props()),
        img.ipma(),
    );
    assert(meta_payload =~= before + (ilocb + rest));
    lemma_subrange_left(ilocb, rest, 16, 16 + el);
    lemma_subrange_right(before, ilocb + rest, 16, 16 + el);
    let meta_head = be32((8 + meta_payload.len()) as u32) + be32(META);
    let meta = grid_meta_bytes(1, ilocb, img.items(), img.irefs(), img.props(), img.ipma());
    assert(meta == meta_head + meta_payload);
    lemma_subrange_right(meta_head, meta_payload, 67, 67 + el);
    assert(grid_ftyp_bytes().len() == 28);
    lemma_subrange_right(grid_ftyp_bytes(), meta, 75, 75 + el);
    let head = img.head_bytes();
    lemma_subrange_left(head, mp4_box(MDAT, img.media()), 103, 103 + el);
}


/// Where the offset field of the `j`-th location entry stands in a grid file.
pub open spec fn offset_place(j: int) -> int {
    grid_iloc_entries_start() + 14 * j + 6
}

/// The lengths of the located items' data, as 32-bit values.
pub open spec fn located_lens(its: Seq<IlocView>) -> Seq<u32> {
    Seq::new(its.len(), |j: int| its[j].1.len() as u32)
}

proof fn lemma_sum_located_lens(its: Seq<IlocView>, k: int)
    requires
        0 <= k <= its.len(),
        data_concat(its).len() <= u32::MAX,
    ensures
        sum_lens(located_lens(its).take(k)) == data_offset(its, k),
    decreases k,
{
    if k > 0 {
        lemma_sum_located_lens(its, k - 1);
        lemma_item_data_at_offset(its, k - 1);
        assert(located_lens(its).take(k).drop_last() =~= located_lens(its).take(k - 1));
        assert(its.take(k).drop_last() =~= its.take(k - 1));
        assert(its.take(k).last() == its[k - 1]);
    } else {
        assert(located_lens(its).take(0).len() == 0);
        assert(its.take(0) =~= Seq::<IlocView>::empty());
    }
}

/// Fills in the offset field of every location entry of an unfilled grid file.
fn fill_grid_offsets(
    out: &mut Vec<u8>,
    image: &GridImage,
    has_alpha: bool,
    tile_count: usize,
    mdat_data_start: u32,
)
    requires
        old(out)@ == image.unpatched_bytes(),
        old(out)@.len() <= u32::MAX,
        image.counts_match(),
        image.tile_ids_fit(),
        has_alpha == image.has_alpha(),
        tile_count == image.expected_tiles(),
        mdat_data_start == image.mdat_data_start(),
    ensures
        final(out)@ == image.grid_bytes(),
{
    proof {
        lemma_grid_iloc_count(*image);
        lemma_grid_layout(*image);
        lemma_grid_stored_lens(*image);
        assert(image.rows as nat * image.columns as nat <= 255 * 255) by (nonlinear_arith);
    }
    let ghost located = image.located();
    let entry_count: usize = if has_alpha {
        2 * (tile_count + 1)
    } else {
        tile_count + 1
    };
    assert(entry_count == located.len());
    let places = entry_offset_places(entry_count);
    proof {
        lemma_sum_located_lens(located, located.len() as int);
        assert(located.take(located.len() as int) =~= located);
        assert(located_lens(located).take(located.len() as int) =~= located_lens(located));
    }
    patch_iloc_offsets(out, places.as_slice(), mdat_data_start);
}

/// The offset fields of `count` location entries, one entry after another.
fn entry_offset_places(count: usize) -> (r: Vec<usize>)
    requires
        grid_iloc_entries_start() + 14 * count <= usize::MAX,
    ensures
        places_view(r@) == Seq::new(count as nat, |j: int| offset_place(j)),
        spaced_positions(places_view(r@), 0, grid_iloc_entries_start() + 14 * count),
{
    let mut places: Vec<usize> = Vec::new();
    for j in 0..count
        invariant
            grid_iloc_entries_start() + 14 * count <= usize::MAX,
            places@.len() == j,
            forall|k: int| 0 <= k < j ==> #[trigger] places@[k] == offset_place(k),
    {
        places.push(109 + 14 * j);
    }
    let ghost ps = Seq::new(count as nat, |j: int| offset_place(j));
    assert(places_view(places@) =~= ps);
    assert forall|j1: int, j2: int| 0 <= j1 < j2 < ps.len() implies #[trigger] ps[j1] + 8
        <= #[trigger] ps[j2] by {
    }
    places
}

/// Each location entry of the unfilled file stores its item's length right behind its
/// offset field.
proof fn lemma_grid_stored_lens(img: GridImage)
    ensures
        stored_lens(img.unpatched_bytes(), Seq::new(img.located().len(), |j: int| offset_place(j)))
            == located_lens(img.located()),
{
    let u = img.unpatched_bytes();
    let located = img.located();
    let m = located.len() as int;
    let ps = Seq::new(located.len(), |j: int| offset_place(j));
    lemma_grid_layout(img);
    let es = located_entries(located);
    assert forall|j: int| 0 <= j < m implies #[trigger] stored_lens(u, ps)[j] == located_lens(located)[j] by {
        lemma_located_entry_at(located, j);
        let len = located[j].1.len() as u32;
        let at = 103 + 14 * j;
        assert(u.subrange(at + 10, at + 14) =~= es.subrange(14 * j, 14 * j + 14).subrange(10, 14));
        assert(grid_iloc_entry(located[j].0, len).subrange(10, 14) =~= be32(len));
        lemma_be32_roundtrip(len);
    }
    assert(stored_lens(u, ps) =~= located_lens(located));
}

/// Reading back a grid file (of any file that fits the 32-bit offsets, as every file that
/// `serialize_grid` returns does): the `k`-th location entry, at its fixed place in the
/// file, records the item's id, the offset of its data and its length, and the file holds
/// exactly that item's data at that offset; every byte outside the offset fields is the
/// unfilled file's.
#[verifier::rlimit(60)]
pub proof fn lemma_grid_roundtrip(img: GridImage, k: int)
    requires
        0 <= k < img.located().len(),
        img.unpatched_bytes().len() <= u32::MAX,
    ensures
        forall|p: int|
            0 <= p < img.unpatched_bytes().len() && outside_places(
                Seq::new(img.located().len(), |j: int| offset_place(j)),
                p,
            ) ==> #[trigger] img.grid_bytes()[p] == img.unpatched_bytes()[p],
        ({
            let f = img.grid_bytes();
            let item = img.located()[k];
            let off = img.mdat_data_start() + data_offset(img.located(), k);
            let at = grid_iloc_entries_start() + 14 * k;
            &&& f.len() == img.unpatched_bytes().len()
            &&& off + item.1.len() <= f.len()
            &&& at + 14 <= f.len()
            &&& f.subrange(at, at + 14) == iloc_entry_bytes(item.0, off as u32, item.1.len() as u32)
            &&& f.subrange(off as int, (off + item.1.len()) as int) == item.1
        }),
{
    let u = img.unpatched_bytes();
    let located = img.located();
    let m = located.len() as int;
    lemma_grid_layout(img);
    let es = located_entries(located);
    let head = img.head_bytes();
    let media = img.media();
    let start = img.mdat_data_start() as int;
    assert(u == head + (be32((8 + media.len()) as u32) + be32(MDAT) + media));
    assert(u.len() == start + media.len());
    lemma_located_entry_at(located, k);
    let ps = Seq::new(m as nat, |j: int| offset_place(j));
    let lens = located_lens(located);
    assert forall|j1: int, j2: int| 0 <= j1 < j2 < ps.len() implies #[trigger] ps[j1] + 8
        <= #[trigger] ps[j2] by {
    }
    // offsets fit: the data ends with the file
    lemma_sum_located_lens(located, m);
    assert(located.take(m) =~= located);
    assert(lens.take(m) =~= lens);
    lemma_fill_offsets(u, ps, lens, start as u32);
    let f = img.grid_bytes();
    assert(f == fill_offsets(u, ps, lens, start as u32));
    // the entry
    lemma_sum_located_lens(located, k);
    let item = located[k];
    let off = start + data_offset(located, k);
    let at = 103 + 14 * k;
    let e = grid_iloc_entry(item.0, item.1.len() as u32);
    assert(u.subrange(at, at + 14) =~= es.subrange(14 * k, 14 * k + 14));
    assert forall|p: int| at <= p < at + 6 || at + 10 <= p < at + 14 implies f[p] == u[p] by {
        assert(outside_places(ps, p));
    }
    assert(f.subrange(ps[k], ps[k] + 4) == be32(off as u32));
    assert(f.subrange(at, at + 14) =~= iloc_entry_bytes(item.0, off as u32, item.1.len() as u32)) by {
        assert forall|p: int| at <= p < at + 14 implies f[p] == iloc_entry_bytes(
            item.0,
            off as u32,
            item.1.len() as u32,
        )[p - at] by {
            if at + 6 <= p < at + 10 {
                assert(f.subrange(ps[k], ps[k] + 4)[p - at - 6] == f[p]);
            } else {
                assert(u.subrange(at, at + 14)[p - at] == u[p]);
            }
        }
    }
    // the data
    lemma_item_data_at_offset(located, k);
    let doff = data_offset(located, k) as int;
    let len = item.1.len() as int;
    assert forall|p: int| off <= p < off + len implies f[p] == u[p] by {
        assert(outside_places(ps, p));
    }
    assert(u.subrange(off, off + len) =~= media.subrange(doff, doff + len));
    assert(f.subrange(off, off + len) =~= item.1);
}


/// Every alpha plane of a grid file is declared as one: each item that an `auxl` reference
/// comes from is associated (by its 1-based property index, essential bit cleared) with an
/// auxiliary-type property, the alpha `auxC`.
pub proof fn lemma_grid_auxl_sources_declare_alpha(img: GridImage)
    ensures
        forall|r: int|
            0 <= r < img.irefs().len() && (#[trigger] img.irefs()[r]).typ == FourCC(AUXL) ==> exists|
                e: int,
                b: int,
            |
                0 <= e < img.ipma().len() && img.ipma()[e].0 == img.irefs()[r].from_id && 0 <= b
                    < img.ipma()[e].1.len() && 1 <= (#[trigger] img.ipma()[e].1[b] & 0x7fu8) <= img.props().len()
                    && img.props()[(img.ipma()[e].1[b] & 0x7fu8) - 1] is AuxC,
{
    let irefs = img.irefs();
    let ipma = img.ipma();
    let props = img.props();
    let n = img.expected_tiles();
    let s: int = if shows_colr(img.colr) {
        1
    } else {
        0
    };
    let alpha_av1c: u8 = if shows_colr(img.colr) {
        6
    } else {
        5
    };
    assert forall|r: int|
        0 <= r < irefs.len() && (#[trigger] irefs[r]).typ == FourCC(AUXL) implies exists|e: int, b: int|
            0 <= e < ipma.len() && ipma[e].0 == irefs[r].from_id && 0 <= b < ipma[e].1.len() && 1 <= (
            #[trigger] ipma[e].1[b] & 0x7fu8) <= props.len() && props[(ipma[e].1[b] & 0x7fu8) - 1] is AuxC by {
        let head: Seq<IrefEntryBox> = if img.has_alpha() {
            seq![IrefEntryBox { from_id: 2, to_id: 1, typ: FourCC(AUXL) }] + if img.premultiplied_alpha {
                seq![IrefEntryBox { from_id: 1, to_id: 2, typ: FourCC(PREM) }]
            } else {
                Seq::empty()
            }
        } else {
            Seq::empty()
        };
        assert(PREM != AUXL && DIMG != AUXL);
        if r >= head.len() {
            assert(irefs[r].typ == FourCC(DIMG));
        }
        if r >= 1 {
            assert(irefs[r].typ != FourCC(AUXL));
        }
        assert(img.has_alpha() && r == 0);
        assert(irefs[0].from_id == 2);
        assert(ipma[1] == (2u16, seq![1u8, (alpha_av1c + 1) as u8, (alpha_av1c + 2) as u8]));
        let x = ipma[1].1[2];
        assert(x == alpha_av1c + 2);
        assert(x & 0x7fu8 == x) by (bit_vector)
            requires
                x < 0x80u8,
        ;
        assert(props.len() == 4 + s + 3);
        assert(props[(x & 0x7fu8) - 1] is AuxC);
    }
}

/// The property that an association byte names (1-based, essential bit cleared).
pub open spec fn named_prop(props: Seq<IpcoProp>, assoc: u8) -> IpcoProp {
    props[(assoc & 0x7fu8) - 1]
}

/// What the items of a grid file are associated with: the grid with the output extent; each
/// color tile (by its id) with the tile extent and, as essential, the color configuration;
/// each alpha tile, when alpha is written, with the tile extent and, as essential, the alpha
/// configuration. (Item ids are 16-bit: this holds whenever they fit, as `serialize_grid`
/// requires.)
pub proof fn lemma_grid_item_properties(img: GridImage)
    requires
        img.tile_ids_fit(),
    ensures
        ({
            let ipma = img.ipma();
            let props = img.props();
            let n = img.expected_tiles() as int;
            let ha: int = if img.has_alpha() {
                1
            } else {
                0
            };
            &&& ipma[0].0 == 1
            &&& named_prop(props, ipma[0].1[0]) == IpcoProp::Ispe(
                IspeBox { width: img.output_width, height: img.output_height },
            )
            &&& forall|i: int|
                0 <= i < n ==> {
                    let e = #[trigger] ipma[1 + ha + i];
                    &&& e.0 == img.color_tile_base() + i
                    &&& e.1.len() == 2
                    &&& named_prop(props, e.1[0]) == IpcoProp::Ispe(
                        IspeBox { width: img.tile_width, height: img.tile_height },
                    )
                    &&& named_prop(props, e.1[1]) == IpcoProp::Av1C(img.color_config)
                    &&& e.1[1] & 0x80u8 != 0
                }
            &&& img.has_alpha() ==> forall|i: int|
                0 <= i < n ==> {
                    let e = #[trigger] ipma[2 + n + i];
                    &&& e.0 == img.alpha_tile_base() + i
                    &&& e.1.len() == 2
                    &&& named_prop(props, e.1[0]) == IpcoProp::Ispe(
                        IspeBox { width: img.tile_width, height: img.tile_height },
                    )
                    &&& named_prop(props, e.1[1]) == IpcoProp::Av1C(img.alpha_config.unwrap())
                    &&& e.1[1] & 0x80u8 != 0
                }
        }),
{
    let ipma = img.ipma();
    let props = img.props();
    let n = img.expected_tiles() as int;
    let ha: int = if img.has_alpha() {
        1
    } else {
        0
    };
    let s: int = if shows_colr(img.colr) {
        1
    } else {
        0
    };
    let alpha_av1c: u8 = if shows_colr(img.colr) {
        6
    } else {
        5
    };
    assert(props.len() == 4 + s + 3 * ha);
    assert(1u8 & 0x7fu8 == 1u8 && 2u8 & 0x7fu8 == 2u8 && (3u8 | 0x80u8) & 0x7fu8 == 3u8
        && (3u8 | 0x80u8) & 0x80u8 != 0u8) by (bit_vector);
    assert((5u8 | 0x80u8) & 0x7fu8 == 5u8 && (5u8 | 0x80u8) & 0x80u8 != 0u8 && (6u8 | 0x80u8) & 0x7fu8
        == 6u8 && (6u8 | 0x80u8) & 0x80u8 != 0u8) by (bit_vector);
    let head_len: int = 1 + ha;
    assert forall|i: int| 0 <= i < n implies {
        let e = #[trigger] ipma[1 + ha + i];
        &&& e.0 == img.color_tile_base() + i
        &&& e.1.len() == 2
        &&& named_prop(props, e.1[0]) == IpcoProp::Ispe(IspeBox { width: img.tile_width, height: img.tile_height })
        &&& named_prop(props, e.1[1]) == IpcoProp::Av1C(img.color_config)
        &&& e.1[1] & 0x80u8 != 0
    } by {
        assert(ipma[1 + ha + i] == ((img.color_tile_base() + i) as u16, seq![2u8, 3u8 | 0x80u8]));
        assert(img.color_tile_base() + i <= 0xffff) by {
            assert(img.rows as nat * img.columns as nat <= 255 * 255) by (nonlinear_arith);
        }
    }
    if img.has_alpha() {
        assert forall|i: int| 0 <= i < n implies {
            let e = #[trigger] ipma[2 + n + i];
            &&& e.0 == img.alpha_tile_base() + i
            &&& e.1.len() == 2
            &&& named_prop(props, e.1[0]) == IpcoProp::Ispe(
                IspeBox { width: img.tile_width, height: img.tile_height },
            )
            &&& named_prop(props, e.1[1]) == IpcoProp::Av1C(img.alpha_config.unwrap())
            &&& e.1[1] & 0x80u8 != 0
        } by {
            assert(ipma[2 + n + i] == ((img.alpha_tile_base() + i) as u16, seq![2u8, alpha_av1c | 0x80u8]));
            assert(img.alpha_tile_base() + i <= 0xffff) by {
                assert(img.rows as nat * img.columns as nat <= 255 * 255) by (nonlinear_arith);
            }
        }
    }
}

/// Clearing the essential bit of a property index gives the index back.
proof fn lemma_essential_bit(x: u8)
    by (bit_vector)
    ensures
        x < 0x80u8 ==> (x & 0x7fu8) == x && ((x | 0x80u8) & 0x7fu8) == x,
{
}

/// Every property association of a grid file names one of its properties: with the
/// essential bit cleared, each association byte lies between 1 and the number of properties.
pub proof fn lemma_grid_associations_valid(img: GridImage)
    ensures
        forall|e: int, b: int|
            0 <= e < img.ipma().len() && 0 <= b < img.ipma()[e].1.len() ==> 1 <= (#[trigger] img.ipma()[e].1[b]
                & 0x7fu8) <= img.props().len(),
{
    let ipma = img.ipma();
    let n = img.expected_tiles();
    let head: Seq<IpmaView> = seq![
        (
            1u16,
            seq![1u8, 4u8] + if shows_colr(img.colr) {
                seq![5u8]
            } else {
                Seq::empty()
            },
        ),
    ];
    let alpha_av1c: u8 = if shows_colr(img.colr) {
        6
    } else {
        5
    };
    let alpha_grid: Seq<IpmaView> = if img.has_alpha() {
        seq![(2u16, seq![1u8, (alpha_av1c + 1) as u8, (alpha_av1c + 2) as u8])]
    } else {
        Seq::empty()
    };
    let s: int = if shows_colr(img.colr) {
        1
    } else {
        0
    };
    assert(img.props().len() == 4 + s + if img.has_alpha() {
        3int
    } else {
        0int
    });
    let ctb = img.color_tile_base();
    let atb = img.alpha_tile_base();
    let tiles = Seq::new(n, |i: int| ((ctb + i) as u16, seq![2u8, 3u8 | 0x80u8]));
    let alpha_tiles: Seq<IpmaView> = if img.has_alpha() {
        Seq::new(n, |i: int| ((atb + i) as u16, seq![2u8, alpha_av1c | 0x80u8]))
    } else {
        Seq::empty()
    };
    assert(ipma == head + alpha_grid + tiles + alpha_tiles);
    assert((3u8 | 0x80u8) & 0x7fu8 == 3u8) by (bit_vector);
    assert forall|e: int, b: int|
        0 <= e < ipma.len() && 0 <= b < ipma[e].1.len() implies 1 <= (#[trigger] ipma[e].1[b] & 0x7fu8)
        <= img.props().len() by {
        let x = ipma[e].1[b];
        let h = 1 + alpha_grid.len();
        if e == 0 {
            assert(ipma[e] == head[0]);
            assert(x == 1 || x == 4 || (s == 1 && x == 5));
        } else if e < h {
            assert(ipma[e] == alpha_grid[0]);
            assert(x == 1 || x == alpha_av1c + 1 || x == alpha_av1c + 2);
        } else if e < h + n {
            assert(ipma[e] == tiles[e - h]);
            assert(x == 2 || x == 3u8 | 0x80u8);
        } else {
            assert(ipma[e] == alpha_tiles[e - h - n]);
            assert(x == 2 || x == alpha_av1c | 0x80u8);
            lemma_essential_bit(alpha_av1c);
        }
        lemma_essential_bit(x);
    }
}

/// The item count recorded in `iloc` is the number of location entries.
pub proof fn lemma_grid_iloc_count(img: GridImage)
    requires
        img.counts_match(),
        img.tile_ids_fit(),
    ensures
        img.iloc_item_count() == img.located().len(),
{
    let n = img.expected_tiles();
    assert(img.rows as nat * img.columns as nat <= 255 * 255) by (nonlinear_arith);
    assert(frames_view(img.tile_data@).len() == n);
    assert(tiles_opt(img.alpha_in_use()).len() == if img.has_alpha() {
        n
    } else {
        0
    });
    assert(tiles_located(img.color_tile_base(), frames_view(img.tile_data@)).len() == n);
    assert(tiles_located(img.alpha_tile_base(), tiles_opt(img.alpha_in_use())).len() == tiles_opt(
        img.alpha_in_use(),
    ).len());
}

} // verus!
