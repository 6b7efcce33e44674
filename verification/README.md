# avif-serialize

An AVIF muxer: it wraps already-encoded AV1 data in the HEIF/ISO-BMFF
container of an AVIF file. Still images (with optional alpha, Exif, XMP and
HDR/colour metadata), grid (tiled) images and image sequences are supported.

The library is written in Verus. Every function states, in its contract, the
exact bytes it produces; laws proved alongside state what a reader of the file
gets back (item data at the offsets the file records, run-length-encoded
durations that expand to the given ones, and so on). Offsets are filled in
at the fields that hold them and nowhere else, so these laws hold whatever the
frame or tile data contain. An image sequence records its loop count in the
presentation duration of `mvhd` and of each `tkhd` (the frames' total duration
times the loop count, or without end for 0), against one pass over the frames
in each track's edit list (`edts`/`elst`), which repeats unless the count is 1.

- `src/writer.rs`: big-endian integers and box framing.
- `src/boxes.rs`: the boxes of a still image and the still file as a whole.
- `src/lib.rs`: the `Aviffy` configuration and the still-image entry points.
- `src/animated.rs`: image sequences (`ftyp` + `meta` + `moov` + `mdat`).
- `src/grid.rs`: grid images.
- `src/bounded.rs`: the fixed-capacity lists from `arrayvec`.
- `app/`: `std::io` front end (writers and `io::Error`).
