use mp4parse::{
    fourcc_to_string, limit, read_box, read_box_from_buffer, read_box_header, read_co64,
    read_elst, read_ftyp, read_hdlr, read_mvhd, read_stco, read_stsc, read_stsd, read_stss,
    read_stsz, read_stts, read_tkhd, skip_box_content, skip_remaining_box_content, BoxHeader,
    ByteReader, Error, MediaContext, SampleEntry, Track, TrackType,
};

/// A box of type `name` around `content`, with a 32-bit size.
fn make_box(name: &[u8; 4], content: &[u8]) -> Vec<u8> {
    let size = (content.len() + 8) as u32;
    let mut v = size.to_be_bytes().to_vec();
    v.extend_from_slice(name);
    v.extend_from_slice(content);
    v
}

/// A full box of type `name`: version, flags, then `content`.
fn make_full_box(name: &[u8; 4], version: u8, flags: u32, content: &[u8]) -> Vec<u8> {
    let mut c = vec![version];
    c.extend_from_slice(&flags.to_be_bytes()[1..]);
    c.extend_from_slice(content);
    make_box(name, &c)
}

fn header_of(data: &[u8]) -> (BoxHeader, ByteReader<'_>) {
    let mut r = ByteReader::new(data);
    let h = read_box_header(&mut r).unwrap();
    (h, r)
}

fn mvhd_box(version: u8, timescale: u32, duration: u64) -> Vec<u8> {
    let mut c = Vec::new();
    if version == 1 {
        c.extend(vec![0u8; 16]);
        c.extend_from_slice(&timescale.to_be_bytes());
        c.extend_from_slice(&duration.to_be_bytes());
    } else {
        c.extend(vec![0u8; 8]);
        c.extend_from_slice(&timescale.to_be_bytes());
        c.extend_from_slice(&(duration as u32).to_be_bytes());
    }
    c.extend(vec![0u8; 80]);
    make_full_box(b"mvhd", version, 0, &c)
}

fn hdlr_box(handler: &[u8; 4]) -> Vec<u8> {
    let mut c = vec![0u8; 4];
    c.extend_from_slice(handler);
    c.extend(vec![0u8; 12]);
    c.extend_from_slice(b"name\0");
    make_full_box(b"hdlr", 0, 0, &c)
}

#[test]
fn header_of_truncated_data_is_eof() {
    let data = [0u8, 0, 0];
    let mut r = ByteReader::new(&data);
    assert_eq!(read_box_header(&mut r).unwrap_err(), Error::UnexpectedEof);
    assert_eq!(r.remaining(), 0);
    let data = [0u8, 0, 0, 1, b'l', b'o', b'n', b'g', 0, 0];
    let mut r = ByteReader::new(&data);
    assert!(read_box_header(&mut r).is_err());
    assert_eq!(r.remaining(), 0);
}

#[test]
fn header_consumes_its_offset() {
    let data = [0u8, 0, 0, 1, b'l', b'o', b'n', b'g', 0, 0, 0, 0, 0, 0, 0, 20, 1, 2, 3, 4];
    let mut r = ByteReader::new(&data);
    let h = read_box_header(&mut r).unwrap();
    assert_eq!(h.offset, 16);
    assert_eq!(h.size, 20);
    assert_eq!(r.remaining(), 4);
    let data = make_box(b"free", &[9, 9]);
    let mut r = ByteReader::new(&data);
    let h = read_box_header(&mut r).unwrap();
    assert_eq!(h.offset, 8);
    assert!(h.offset <= h.size);
    assert_eq!(r.remaining(), 2);
}

#[test]
fn fourcc_of_ascii_and_other_bytes() {
    assert_eq!(fourcc_to_string(0x6674_7970), "ftyp");
    assert_eq!(fourcc_to_string(0x6d6f_6f76), "moov");
    assert_eq!(fourcc_to_string(0xff00_0041), "\u{FFFD}\u{0}\u{0}A");
}

#[test]
fn ftyp_without_brands_and_truncated() {
    let data = make_box(b"ftyp", b"isom\0\0\0\x01");
    let (h, mut r) = header_of(&data);
    let f = read_ftyp(&mut r, &h).unwrap();
    assert_eq!(f.minor_version, 1);
    assert!(f.compatible_brands.is_empty());
    // The header promises one brand that is not there.
    let mut data = make_box(b"ftyp", b"isom\0\0\0\x01mp");
    data[3] = 20;
    let (h, mut r) = header_of(&data);
    assert_eq!(read_ftyp(&mut r, &h).unwrap_err(), Error::UnexpectedEof);
    assert_eq!(r.remaining(), 0);
}

#[test]
fn mvhd_v0_and_v1() {
    let data = mvhd_box(0, 1000, 5000);
    let (h, mut r) = header_of(&data);
    let m = read_mvhd(&mut r, &h).unwrap();
    assert_eq!(m.timescale, 1000);
    assert_eq!(m.duration, 5000);
    assert_eq!(m.size, 108);
    assert_eq!(r.remaining(), 0);
    let data = mvhd_box(1, 90000, 0x1_0000_0001);
    let (h, mut r) = header_of(&data);
    let m = read_mvhd(&mut r, &h).unwrap();
    assert_eq!(m.timescale, 90000);
    assert_eq!(m.duration, 0x1_0000_0001);
}

fn tkhd_box(version: u8, flags: u32, track_id: u32, duration: u64, w: u32, h: u32) -> Vec<u8> {
    let mut c = Vec::new();
    c.extend(vec![0u8; if version == 1 { 16 } else { 8 }]);
    c.extend_from_slice(&track_id.to_be_bytes());
    c.extend(vec![0u8; 4]);
    if version == 1 {
        c.extend_from_slice(&duration.to_be_bytes());
    } else {
        c.extend_from_slice(&(duration as u32).to_be_bytes());
    }
    c.extend(vec![0u8; 8 + 44]);
    c.extend_from_slice(&w.to_be_bytes());
    c.extend_from_slice(&h.to_be_bytes());
    make_full_box(b"tkhd", version, flags, &c)
}

#[test]
fn tkhd_enabled_flags() {
    let data = tkhd_box(0, 3, 7, 1234, 320 << 16, 240 << 16);
    let (h, mut r) = header_of(&data);
    let t = read_tkhd(&mut r, &h).unwrap();
    assert_eq!(t.track_id, 7);
    assert!(t.enabled);
    assert_eq!(t.duration, 1234);
    assert_eq!(t.width, 320 << 16);
    assert_eq!(t.height, 240 << 16);
    assert_eq!(r.remaining(), 0);
    // Enabled but not in the movie.
    let data = tkhd_box(1, 1, 2, 99, 1, 2);
    let (h, mut r) = header_of(&data);
    let t = read_tkhd(&mut r, &h).unwrap();
    assert!(!t.enabled);
    assert_eq!(t.duration, 99);
}

#[test]
fn elst_negative_media_time_and_empty_list() {
    let mut c = vec![0u8, 0, 0, 1];
    c.extend_from_slice(&10u32.to_be_bytes());
    c.extend_from_slice(&(-1i32).to_be_bytes());
    c.extend_from_slice(&(-2i16).to_be_bytes());
    c.extend_from_slice(&0i16.to_be_bytes());
    let data = make_full_box(b"elst", 0, 0, &c);
    let (h, mut r) = header_of(&data);
    let e = read_elst(&mut r, &h).unwrap();
    assert_eq!(e.edits[0].segment_duration, 10);
    assert_eq!(e.edits[0].media_time, -1);
    assert_eq!(e.edits[0].media_rate_integer, -2);
    // Any version passes when there are no entries.
    let data = make_full_box(b"elst", 7, 0, &[0, 0, 0, 0]);
    let (h, mut r) = header_of(&data);
    assert!(read_elst(&mut r, &h).unwrap().edits.is_empty());
}

#[test]
fn chunk_offsets() {
    let data = make_full_box(b"stco", 0, 0, &[0, 0, 0, 2, 0, 0, 1, 0, 0, 0, 2, 0]);
    let (h, mut r) = header_of(&data);
    let s = read_stco(&mut r, &h).unwrap();
    assert_eq!(s.offsets, vec![256, 512]);
    let data = make_full_box(
        b"co64",
        0,
        0,
        &[0, 0, 0, 1, 0, 0, 0, 1, 0, 0, 0, 0],
    );
    let (h, mut r) = header_of(&data);
    let s = read_co64(&mut r, &h).unwrap();
    assert_eq!(s.offsets, vec![0x1_0000_0000]);
    // A count larger than the data.
    let data = make_full_box(b"stco", 0, 0, &[0, 0, 0, 3, 0, 0, 1, 0]);
    let (h, mut r) = header_of(&data);
    assert_eq!(read_stco(&mut r, &h).unwrap_err(), Error::UnexpectedEof);
}

#[test]
fn sample_tables() {
    let data = make_full_box(b"stss", 0, 0, &[0, 0, 0, 2, 0, 0, 0, 1, 0, 0, 0, 9]);
    let (h, mut r) = header_of(&data);
    assert_eq!(read_stss(&mut r, &h).unwrap().samples, vec![1, 9]);

    let data = make_full_box(b"stsc", 0, 0, &[0, 0, 0, 1, 0, 0, 0, 1, 0, 0, 0, 5, 0, 0, 0, 1]);
    let (h, mut r) = header_of(&data);
    let s = read_stsc(&mut r, &h).unwrap();
    assert_eq!(s.samples.len(), 1);
    assert_eq!(s.samples[0].first_chunk, 1);
    assert_eq!(s.samples[0].samples_per_chunk, 5);
    assert_eq!(s.samples[0].sample_description_index, 1);

    let data = make_full_box(b"stts", 0, 0, &[0, 0, 0, 1, 0, 0, 0, 3, 0, 0, 2, 0]);
    let (h, mut r) = header_of(&data);
    let s = read_stts(&mut r, &h).unwrap();
    assert_eq!(s.samples[0].sample_count, 3);
    assert_eq!(s.samples[0].sample_delta, 512);
}

#[test]
fn stsz_with_and_without_table() {
    let data = make_full_box(b"stsz", 0, 0, &[0, 0, 0, 0, 0, 0, 0, 2, 0, 0, 0, 7, 0, 0, 0, 8]);
    let (h, mut r) = header_of(&data);
    let s = read_stsz(&mut r, &h).unwrap();
    assert_eq!(s.sample_size, 0);
    assert_eq!(s.sample_sizes, vec![7, 8]);
    // A common sample size: the count is read but no table follows.
    let data = make_full_box(b"stsz", 0, 0, &[0, 0, 1, 0, 0, 0, 0, 9]);
    let (h, mut r) = header_of(&data);
    let s = read_stsz(&mut r, &h).unwrap();
    assert_eq!(s.sample_size, 256);
    assert!(s.sample_sizes.is_empty());
    assert_eq!(r.remaining(), 0);
}

#[test]
fn hdlr_skips_the_rest_of_the_box() {
    let data = hdlr_box(b"vide");
    let (h, mut r) = header_of(&data);
    let hd = read_hdlr(&mut r, &h).unwrap();
    assert_eq!(fourcc_to_string(hd.handler_type), "vide");
    assert_eq!(r.remaining(), 0);
}

#[test]
fn skipping_box_content() {
    let mut data = make_box(b"free", &[1, 2, 3, 4]);
    data.extend_from_slice(&[5, 6]);
    let (h, mut r) = header_of(&data);
    assert_eq!(skip_box_content(&mut r, &h).unwrap(), 4);
    assert_eq!(r.remaining(), 2);
    // Content cut short.
    let data = make_box(b"free", &[1, 2, 3, 4]);
    let (h, mut r) = header_of(&data[..10]);
    assert_eq!(skip_box_content(&mut r, &h).unwrap_err(), Error::UnexpectedEof);
    assert_eq!(r.remaining(), 0);
    let (h, mut r) = header_of(&data[..10]);
    assert!(skip_remaining_box_content(&mut r, &h).is_ok());
    assert_eq!(r.remaining(), 0);
}

#[test]
fn limit_is_the_box_content() {
    let mut data = make_box(b"free", &[1, 2, 3]);
    data.extend_from_slice(&[4, 5]);
    let (h, r) = header_of(&data);
    let content = limit(&r, &h);
    assert_eq!(content.remaining(), 3);
    assert_eq!(r.remaining(), 5);
    let (h, r) = header_of(&data[..9]);
    assert_eq!(limit(&r, &h).remaining(), 1);
}

fn video_stsd() -> Vec<u8> {
    let mut avc1 = vec![0u8; 6];
    avc1.extend_from_slice(&1u16.to_be_bytes()); // data reference index
    avc1.extend(vec![0u8; 16]);
    avc1.extend_from_slice(&320u16.to_be_bytes());
    avc1.extend_from_slice(&240u16.to_be_bytes());
    avc1.extend_from_slice(&0x0048_0000u32.to_be_bytes());
    avc1.extend_from_slice(&0x0048_0000u32.to_be_bytes());
    avc1.extend(vec![0u8; 4]);
    avc1.extend_from_slice(&1u16.to_be_bytes()); // frame count
    avc1.extend(vec![0u8; 32]);
    avc1.extend_from_slice(&24u16.to_be_bytes()); // depth
    avc1.extend(vec![0xff, 0xff]);
    avc1.extend(make_box(b"avcC", &[1, 2, 3]));
    let mut c = vec![0u8, 0, 0, 1];
    c.extend(make_box(b"avc1", &avc1));
    make_full_box(b"stsd", 0, 0, &c)
}

fn audio_stsd() -> Vec<u8> {
    let mut mp4a = vec![0u8; 6];
    mp4a.extend_from_slice(&1u16.to_be_bytes());
    mp4a.extend(vec![0u8; 8]);
    mp4a.extend_from_slice(&2u16.to_be_bytes());
    mp4a.extend_from_slice(&16u16.to_be_bytes());
    mp4a.extend(vec![0u8; 4]);
    mp4a.extend_from_slice(&(44100u32 << 16).to_be_bytes());
    mp4a.extend(make_full_box(b"esds", 0, 0, &[3, 4, 5, 6]));
    let mut c = vec![0u8, 0, 0, 1];
    c.extend(make_box(b"mp4a", &mp4a));
    make_full_box(b"stsd", 0, 0, &c)
}

#[test]
fn stsd_video_entry() {
    let data = video_stsd();
    let (h, mut r) = header_of(&data);
    let track = Track { track_type: TrackType::Video };
    let s = read_stsd(&mut r, &h, &track).unwrap();
    assert_eq!(s.descriptions.len(), 1);
    match &s.descriptions[0] {
        SampleEntry::Video { data_reference_index, width, height, frame_count, depth, avcc, calp, .. } => {
            assert_eq!(*data_reference_index, 1);
            assert_eq!(*width, 320);
            assert_eq!(*height, 240);
            assert_eq!(*frame_count, 1);
            assert_eq!(*depth, 24);
            assert_eq!(avcc.data, vec![1, 2, 3]);
            assert!(calp.is_none());
        },
        _ => panic!("expected a video entry"),
    }
    assert_eq!(r.remaining(), 0);
}

#[test]
fn stsd_audio_entry() {
    let data = audio_stsd();
    let (h, mut r) = header_of(&data);
    let track = Track { track_type: TrackType::Audio };
    let s = read_stsd(&mut r, &h, &track).unwrap();
    match &s.descriptions[0] {
        SampleEntry::Audio { channelcount, samplesize, samplerate, esds, .. } => {
            assert_eq!(*channelcount, 2);
            assert_eq!(*samplesize, 16);
            assert_eq!(*samplerate, 44100u32 << 16);
            assert_eq!(esds.data, vec![3, 4, 5, 6]);
        },
        _ => panic!("expected an audio entry"),
    }
    assert_eq!(r.remaining(), 0);
}

fn movie() -> Vec<u8> {
    let mut stbl_content = video_stsd();
    stbl_content.extend(make_full_box(b"stco", 0, 0, &[0, 0, 0, 1, 0, 0, 0, 40]));
    let stbl = make_box(b"stbl", &stbl_content);
    let minf = make_box(b"minf", &stbl);
    let mut mdia_content = hdlr_box(b"vide");
    mdia_content.extend(minf);
    let mdia = make_box(b"mdia", &mdia_content);
    let mut trak_content = tkhd_box(0, 3, 1, 10, 0, 0);
    trak_content.extend(mdia);
    let trak = make_box(b"trak", &trak_content);
    let mut moov_content = mvhd_box(0, 1000, 10);
    moov_content.extend(trak);
    make_box(b"moov", &moov_content)
}

#[test]
fn read_box_finds_tracks_and_consumes_the_box() {
    let mut data = movie();
    let size = data.len();
    data.extend_from_slice(&[0xaa, 0xbb]);
    let mut r = ByteReader::new(&data);
    let mut context = MediaContext { tracks: Vec::new() };
    read_box(&mut r, &mut context).unwrap();
    assert_eq!(context.tracks.len(), 1);
    assert_eq!(context.tracks[0].track_type, TrackType::Video);
    assert_eq!(r.remaining(), data.len() - size);
}

#[test]
fn read_box_keeps_earlier_tracks() {
    let data = make_box(b"mdia", &hdlr_box(b"soun"));
    let mut r = ByteReader::new(&data);
    let mut context = MediaContext { tracks: vec![Track { track_type: TrackType::Video }] };
    read_box(&mut r, &mut context).unwrap();
    assert_eq!(context.tracks.len(), 2);
    assert_eq!(context.tracks[0].track_type, TrackType::Video);
    assert_eq!(context.tracks[1].track_type, TrackType::Audio);
    // An unknown handler type adds nothing.
    let data = hdlr_box(b"text");
    let mut r = ByteReader::new(&data);
    read_box(&mut r, &mut context).unwrap();
    assert_eq!(context.tracks.len(), 2);
}

#[test]
fn read_box_skips_unknown_boxes_and_reports_truncation() {
    let data = make_box(b"free", &[0; 10]);
    let mut r = ByteReader::new(&data);
    let mut context = MediaContext { tracks: Vec::new() };
    read_box(&mut r, &mut context).unwrap();
    assert_eq!(r.remaining(), 0);
    let mut r = ByteReader::new(&data[..12]);
    assert_eq!(read_box(&mut r, &mut context).unwrap_err(), Error::UnexpectedEof);
    assert_eq!(r.remaining(), 0);
}

#[test]
fn read_box_ignores_what_follows_a_box() {
    let data = movie();
    let mut longer = data.clone();
    longer.extend(make_box(b"free", &[1, 2, 3]));
    let mut a = ByteReader::new(&data);
    let mut b = ByteReader::new(&longer);
    let mut ca = MediaContext { tracks: Vec::new() };
    let mut cb = MediaContext { tracks: Vec::new() };
    read_box(&mut a, &mut ca).unwrap();
    read_box(&mut b, &mut cb).unwrap();
    assert_eq!(ca.tracks, cb.tracks);
    assert_eq!(data.len() - a.remaining(), longer.len() - b.remaining());
}

#[test]
fn buffer_checks() {
    assert!(!read_box_from_buffer(&[0, 0, 0, 8, b'f', b'r', b'e']));
    assert!(read_box_from_buffer(&movie()));
    // A box that runs to the end of the file is not handled.
    assert!(!read_box_from_buffer(&[0, 0, 0, 0, b'f', b'r', b'e', b'e']));
    // Sizes 2 to 7 are not handled.
    assert!(!read_box_from_buffer(&[0, 0, 0, 5, b'f', b'r', b'e', b'e']));
    // Running out of data in a box without nested boxes is no failure.
    assert!(read_box_from_buffer(&make_box(b"ftyp", b"mp4")));
    // Nested boxes that stop short of their container's end are not handled.
    let data = movie();
    assert!(!read_box_from_buffer(&data[..data.len() - 3]));
    // An 'stsd' box before any track is not handled.
    assert!(!read_box_from_buffer(&video_stsd()));
    // A 'mvhd' box of an unknown version is not handled.
    assert!(!read_box_from_buffer(&mvhd_box(2, 1, 1)));
    // A box whose contents are not used up is not handled.
    let mut c = mvhd_box(0, 1, 1)[8..].to_vec();
    c.push(0);
    assert!(!read_box_from_buffer(&make_box(b"mvhd", &c)));
}
