# mp4parse

A verified parser for the boxes of the ISO Base Media File Format
(video/mp4), written in Verus.

- `src/reader.rs`: `ByteReader`, a window over a byte slice; the big-endian
  encodings (decoded with the `byteorder` crate) and the spec types that
  describe what a parser does with the bytes that remain (`Step`).
- `src/header.rs`: box headers, full-box version and flags, skipping content,
  `limit`.
- `src/movie.rs`: 'ftyp', 'mvhd', 'tkhd', 'elst', 'mdhd', 'hdlr'.
- `src/sample_table.rs`: 'stco', 'co64', 'stss', 'stsc', 'stsz', 'stts'.
- `src/sample_description.rs`: 'stsd' and its audio and video sample entries.
- `src/tree.rs`: `read_box`, which descends into container boxes and collects
  tracks, `read_box_from_buffer`, and the laws about reading whole boxes.
- `src/fourcc.rs`: four-character codes and `fourcc_to_string`.
- `app/lib.rs`: the C entry point and text descriptions of the boxes.
