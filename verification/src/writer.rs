//! Byte-level writing of ISO-BMFF boxes: big-endian integers, box headers
//! whose size is patched in once the payload is known, and full-box headers.

use vstd::prelude::*;

verus! {

/// Big-endian encoding of a 16-bit value.
pub open spec fn be16(v: u16) -> Seq<u8> {
    seq![(v >> 8u16) as u8, v as u8]
}

/// Big-endian encoding of a 32-bit value.
pub open spec fn be32(v: u32) -> Seq<u8> {
    seq![(v >> 24u32) as u8, (v >> 16u32) as u8, (v >> 8u32) as u8, v as u8]
}

/// Big-endian encoding of a 64-bit value.
pub open spec fn be64(v: u64) -> Seq<u8> {
    seq![
        (v >> 56u64) as u8, (v >> 48u64) as u8, (v >> 40u64) as u8, (v >> 32u64) as u8,
        (v >> 24u64) as u8, (v >> 16u64) as u8, (v >> 8u64) as u8, v as u8,
    ]
}

/// The version byte and the 24-bit flags that open every full box.
pub open spec fn full_box_header(version: u8, flags: u32) -> Seq<u8> {
    seq![version, (flags >> 16u32) as u8, (flags >> 8u32) as u8, flags as u8]
}

/// A plain box: 32-bit size (header included, truncated to 32 bits), four-character type, payload.
pub open spec fn mp4_box(typ: u32, payload: Seq<u8>) -> Seq<u8> {
    be32((8 + payload.len()) as u32) + be32(typ) + payload
}

/// A full box: a plain box whose payload starts with version and flags.
pub open spec fn full_box(typ: u32, version: u8, flags: u32, payload: Seq<u8>) -> Seq<u8> {
    mp4_box(typ, full_box_header(version, flags) + payload)
}

/// `n` zero bytes.
pub open spec fn zeros(n: nat) -> Seq<u8> {
    Seq::new(n, |i: int| 0u8)
}

/// Appends `v` in big-endian order.
pub fn write_u16(out: &mut Vec<u8>, v: u16)
    ensures
        final(out)@ == old(out)@ + be16(v),
{
    out.push((v >> 8u16) as u8);
    out.push(v as u8);
    assert(out@ =~= old(out)@ + be16(v));
}

/// Appends `v` in big-endian order.
pub fn write_u32(out: &mut Vec<u8>, v: u32)
    ensures
        final(out)@ == old(out)@ + be32(v),
{
    out.push((v >> 24u32) as u8);
    out.push((v >> 16u32) as u8);
    out.push((v >> 8u32) as u8);
    out.push(v as u8);
    assert(out@ =~= old(out)@ + be32(v));
}

/// Appends `v` in big-endian order.
pub fn write_u64(out: &mut Vec<u8>, v: u64)
    ensures
        final(out)@ == old(out)@ + be64(v),
{
    out.push((v >> 56u64) as u8);
    out.push((v >> 48u64) as u8);
    out.push((v >> 40u64) as u8);
    out.push((v >> 32u64) as u8);
    out.push((v >> 24u64) as u8);
    out.push((v >> 16u64) as u8);
    out.push((v >> 8u64) as u8);
    out.push(v as u8);
    assert(out@ =~= old(out)@ + be64(v));
}

/// Appends a copy of `bytes`.
pub fn write_bytes(out: &mut Vec<u8>, bytes: &[u8])
    ensures
        final(out)@ == old(out)@ + bytes@,
{
    out.extend_from_slice(bytes);
    assert(out@ =~= old(out)@ + bytes@);
}

/// Appends `n` zero bytes.
pub fn write_zeros(out: &mut Vec<u8>, n: usize)
    ensures
        final(out)@ == old(out)@ + zeros(n as nat),
{
    let mut i: usize = 0;
    while i < n
        invariant
            i <= n,
            out@ == old(out)@ + zeros(i as nat),
        decreases n - i,
    {
        out.push(0u8);
        i = i + 1;
        assert(out@ =~= old(out)@ + zeros(i as nat));
    }
}

/// Appends the version and flags of a full box.
pub fn write_fullbox(out: &mut Vec<u8>, version: u8, flags: u32)
    ensures
        final(out)@ == old(out)@ + full_box_header(version, flags),
{
    out.push(version);
    out.push((flags >> 16u32) as u8);
    out.push((flags >> 8u32) as u8);
    out.push(flags as u8);
    assert(out@ =~= old(out)@ + full_box_header(version, flags));
}

/// Starts a box with a zero size placeholder; returns the position of the size field.
pub fn begin_box(out: &mut Vec<u8>, box_type: u32) -> (pos: usize)
    ensures
        pos == old(out)@.len(),
        final(out)@ == old(out)@ + be32(0) + be32(box_type),
{
    let pos = out.len();
    write_u32(out, 0);
    write_u32(out, box_type);
    pos
}

/// Writes the size of the box that starts at `pos`: everything from `pos` to the end.
pub fn end_box(out: &mut Vec<u8>, pos: usize)
    requires
        pos + 4 <= old(out)@.len(),
    ensures
        final(out)@ == old(out)@.subrange(0, pos as int) + be32((old(out)@.len() - pos) as u32)
            + old(out)@.subrange(pos + 4, old(out)@.len() as int),
{
    let size = (out.len() - pos) as u32;
    out.set(pos, (size >> 24u32) as u8);
    out.set(pos + 1, (size >> 16u32) as u8);
    out.set(pos + 2, (size >> 8u32) as u8);
    out.set(pos + 3, size as u8);
    assert(out@ =~= old(out)@.subrange(0, pos as int) + be32(size) + old(out)@.subrange(
        pos + 4,
        old(out)@.len() as int,
    ));
}

/// Closing a box whose payload has been appended after its header yields the framed box.
pub proof fn lemma_close_box(pre: Seq<u8>, typ: u32, payload: Seq<u8>)
    ensures
        ({
            let s = pre + be32(0) + be32(typ) + payload;
            s.subrange(0, pre.len() as int) + be32((s.len() - pre.len()) as u32) + s.subrange(
                pre.len() + 4int,
                s.len() as int,
            ) == pre + mp4_box(typ, payload)
        }),
{
    let s = pre + be32(0) + be32(typ) + payload;
    assert(s.subrange(0, pre.len() as int) =~= pre);
    assert(s.subrange(pre.len() + 4int, s.len() as int) =~= be32(typ) + payload);
    assert(s.len() - pre.len() == 8 + payload.len());
    assert(pre + be32((8 + payload.len()) as u32) + (be32(typ) + payload) =~= pre + mp4_box(
        typ,
        payload,
    ));
}

/// The 16-bit value of two big-endian bytes.
pub open spec fn be16_value(b: Seq<u8>) -> u16 {
    ((b[0] as u16) << 8u16) | (b[1] as u16)
}

/// The 32-bit value of four big-endian bytes.
pub open spec fn be32_value(b: Seq<u8>) -> u32 {
    ((b[0] as u32) << 24u32) | ((b[1] as u32) << 16u32) | ((b[2] as u32) << 8u32) | (b[3] as u32)
}

/// Reading back a big-endian 16-bit value gives the value written.
pub proof fn lemma_be16_roundtrip(v: u16)
    ensures
        be16_value(be16(v)) == v,
{
    assert((((((v >> 8u16) as u8) as u16) << 8u16) | ((v as u8) as u16)) == v) by (bit_vector);
}

/// Reading back a big-endian 32-bit value gives the value written.
pub proof fn lemma_be32_roundtrip(v: u32)
    ensures
        be32_value(be32(v)) == v,
{
    assert((((((v >> 24u32) as u8) as u32) << 24u32) | ((((v >> 16u32) as u8) as u32) << 16u32)
        | ((((v >> 8u32) as u8) as u32) << 8u32) | ((v as u8) as u32)) == v) by (bit_vector);
}

/// Every box opens with its own size: read as a big-endian number, its first four bytes
/// give the box's length (when that fits in 32 bits), and the next four its type.
pub proof fn lemma_box_size_field(typ: u32, payload: Seq<u8>)
    requires
        8 + payload.len() <= u32::MAX,
    ensures
        mp4_box(typ, payload).len() == 8 + payload.len(),
        be32_value(mp4_box(typ, payload).subrange(0, 4)) == mp4_box(typ, payload).len(),
        be32_value(mp4_box(typ, payload).subrange(4, 8)) == typ,
        mp4_box(typ, payload).subrange(8, mp4_box(typ, payload).len() as int) == payload,
{
    let b = mp4_box(typ, payload);
    let n = (8 + payload.len()) as u32;
    assert(b.subrange(0, 4) =~= be32(n));
    assert(b.subrange(4, 8) =~= be32(typ));
    assert(b.subrange(8, b.len() as int) =~= payload);
    lemma_be32_roundtrip(n);
    lemma_be32_roundtrip(typ);
}

/// A part of the second of two joined sequences.
pub proof fn lemma_subrange_right(a: Seq<u8>, b: Seq<u8>, i: int, j: int)
    requires
        0 <= i <= j <= b.len(),
    ensures
        (a + b).subrange(a.len() + i, a.len() + j) == b.subrange(i, j),
{
    assert((a + b).subrange(a.len() + i, a.len() + j) =~= b.subrange(i, j));
}

/// A part of the first of two joined sequences.
pub proof fn lemma_subrange_left(a: Seq<u8>, b: Seq<u8>, i: int, j: int)
    requires
        0 <= i <= j <= a.len(),
    ensures
        (a + b).subrange(i, j) == a.subrange(i, j),
{
    assert((a + b).subrange(i, j) =~= a.subrange(i, j));
}

/// `s` with the four bytes at `i` replaced by `b`.
pub open spec fn splice4(s: Seq<u8>, i: int, b: Seq<u8>) -> Seq<u8> {
    s.subrange(0, i) + b + s.subrange(i + 4, s.len() as int)
}

/// The big-endian bytes of `v`.
pub fn be_bytes(v: u32) -> (r: [u8; 4])
    ensures
        r@ == be32(v),
{
    let r = [(v >> 24u32) as u8, (v >> 16u32) as u8, (v >> 8u32) as u8, v as u8];
    assert(r@ =~= be32(v));
    r
}

/// Replaces the four bytes at `i`, where there are four, by the big-endian bytes of `v`.
pub fn put_be32_at(out: &mut Vec<u8>, i: usize, v: u32)
    ensures
        i + 4 <= old(out)@.len() ==> final(out)@ == splice4(old(out)@, i as int, be32(v)),
        i + 4 > old(out)@.len() ==> final(out)@ == old(out)@,
{
    if out.len() < 4 || i > out.len() - 4 {
        return;
    }
    let b = be_bytes(v);
    out.set(i, b[0]);
    out.set(i + 1, b[1]);
    out.set(i + 2, b[2]);
    out.set(i + 3, b[3]);
    assert(out@ =~= splice4(old(out)@, i as int, be32(v)));
}


/// Equal big-endian encodings come from equal values.
pub proof fn lemma_be64_injective(x: u64, y: u64)
    requires
        be64(x) == be64(y),
    ensures
        x == y,
{
    assert(be64(x)[0] == be64(y)[0] && be64(x)[1] == be64(y)[1] && be64(x)[2] == be64(y)[2]
        && be64(x)[3] == be64(y)[3]);
    assert(be64(x)[4] == be64(y)[4] && be64(x)[5] == be64(y)[5] && be64(x)[6] == be64(y)[6]
        && be64(x)[7] == be64(y)[7]);
    assert(x == y) by (bit_vector)
        requires
            (x >> 56u64) as u8 == (y >> 56u64) as u8,
            (x >> 48u64) as u8 == (y >> 48u64) as u8,
            (x >> 40u64) as u8 == (y >> 40u64) as u8,
            (x >> 32u64) as u8 == (y >> 32u64) as u8,
            (x >> 24u64) as u8 == (y >> 24u64) as u8,
            (x >> 16u64) as u8 == (y >> 16u64) as u8,
            (x >> 8u64) as u8 == (y >> 8u64) as u8,
            x as u8 == y as u8,
    ;
}

/// The value of the four bytes at `i`.
pub fn read_be32_at(s: &Vec<u8>, i: usize) -> (r: u32)
    requires
        i + 4 <= s@.len(),
    ensures
        r == be32_value(s@.subrange(i as int, i + 4)),
{
    let _len = s.len();  // bounds the indices below by usize::MAX
    proof {
        let b = s@.subrange(i as int, i + 4);
        assert(b[0] == s@[i as int] && b[1] == s@[i + 1] && b[2] == s@[i + 2] && b[3] == s@[i + 3]);
    }
    ((s[i] as u32) << 24u32) | ((s[i + 1] as u32) << 16u32) | ((s[i + 2] as u32) << 8u32) | (s[i + 3] as u32)
}

} // verus!
