//! The sample description box 'stsd' and the sample entries that it holds.
use crate::fourcc::{AVC1, AVCC, ESDS, MP4A};
use crate::header::{
    content_len, header_step, parse_box_header, read_fullbox_extra, remaining_skip_len, skip,
    skip_remaining_box_content, BoxHeader,
};
use crate::reader::{
    api_agrees, api_result, be16, be32, engine_agrees, fixed_read, ByteReader, Error, Fault, Step,
};
use vstd::prelude::*;

verus! {

/// The kind of media that a track carries.
#[derive(Debug, Clone, Copy, PartialEq, Eq, Structural)]
pub enum TrackType {
    Video,
    Audio,
}

/// A track of the movie.
#[derive(Debug, Clone, Copy, PartialEq, Eq, Structural)]
pub struct Track {
    pub track_type: TrackType,
}

#[allow(non_snake_case)]
#[derive(Debug, Clone, Copy, PartialEq, Eq, Structural)]
pub struct CleanApertureBox {
    pub cleanApertureWidthN: u32,
    pub cleanApertureWidthD: u32,
    pub cleanApertureHeightN: u32,
    pub cleanApertureHeightD: u32,
    pub horizOffN: u32,
    pub horizOffD: u32,
    pub vertOffN: u32,
    pub vertOffD: u32,
}

#[allow(non_snake_case)]
#[derive(Debug, Clone, Copy, PartialEq, Eq, Structural)]
pub struct PixelAspectRatioBox {
    pub hSpacing: u32,
    pub vSpacing: u32,
}

/// The contents of an 'avcC' box, kept as they are.
#[derive(Debug)]
pub struct AVCDecoderConfigurationRecord {
    pub data: Vec<u8>,
}

/// The contents of an 'esds' box after its version and flags, kept as they
/// are.
#[allow(non_camel_case_types)]
#[derive(Debug)]
pub struct ES_Descriptor {
    pub data: Vec<u8>,
}

/// A sample entry of a sample description box.
#[derive(Debug)]
pub enum SampleEntry {
    Audio {
        data_reference_index: u16,
        channelcount: u16,
        samplesize: u16,
        samplerate: u32,
        esds: ES_Descriptor,
    },
    Video {
        data_reference_index: u16,
        width: u16,
        height: u16,
        horizresolution: u32,
        vertresolution: u32,
        frame_count: u16,
        depth: u16,
        avcc: AVCDecoderConfigurationRecord,
        calp: Option<CleanApertureBox>,
        pasp: Option<PixelAspectRatioBox>,
    },
}

/// The value of a [`SampleEntry`], with the stashed box contents as bytes.
pub enum SampleEntryModel {
    Audio {
        data_reference_index: u16,
        channelcount: u16,
        samplesize: u16,
        samplerate: u32,
        esds: Seq<u8>,
    },
    Video {
        data_reference_index: u16,
        width: u16,
        height: u16,
        horizresolution: u32,
        vertresolution: u32,
        frame_count: u16,
        depth: u16,
        avcc: Seq<u8>,
        calp: Option<CleanApertureBox>,
        pasp: Option<PixelAspectRatioBox>,
    },
}

impl View for SampleEntry {
    type V = SampleEntryModel;

    open spec fn view(&self) -> SampleEntryModel {
        match self {
            SampleEntry::Audio {
                data_reference_index,
                channelcount,
                samplesize,
                samplerate,
                esds,
            } => SampleEntryModel::Audio {
                data_reference_index: *data_reference_index,
                channelcount: *channelcount,
                samplesize: *samplesize,
                samplerate: *samplerate,
                esds: esds.data@,
            },
            SampleEntry::Video {
                data_reference_index,
                width,
                height,
                horizresolution,
                vertresolution,
                frame_count,
                depth,
                avcc,
                calp,
                pasp,
            } => SampleEntryModel::Video {
                data_reference_index: *data_reference_index,
                width: *width,
                height: *height,
                horizresolution: *horizresolution,
                vertresolution: *vertresolution,
                frame_count: *frame_count,
                depth: *depth,
                avcc: avcc.data@,
                calp: *calp,
                pasp: *pasp,
            },
        }
    }
}

// Sample description box 'stsd'
#[derive(Debug)]
pub struct SampleDescriptionBox {
    pub name: u32,
    pub size: u64,
    pub descriptions: Vec<SampleEntry>,
}

/// The value of a [`SampleDescriptionBox`].
pub struct SampleDescriptionModel {
    pub name: u32,
    pub size: u64,
    pub descriptions: Seq<SampleEntryModel>,
}

impl View for SampleDescriptionBox {
    type V = SampleDescriptionModel;

    open spec fn view(&self) -> SampleDescriptionModel {
        SampleDescriptionModel {
            name: self.name,
            size: self.size,
            descriptions: self.descriptions@.map_values(|e: SampleEntry| e@),
        }
    }
}

/// The visual sample entry fields: `t` holds the 78 bytes that follow the
/// entry's box header.
pub open spec fn visual_fields(t: Seq<u8>) -> (u16, u16, u16, u32, u32, u16, u16) {
    (
        be16(t, 6) as u16,
        be16(t, 24) as u16,
        be16(t, 26) as u16,
        be32(t, 28) as u32,
        be32(t, 32) as u32,
        be16(t, 40) as u16,
        be16(t, 74) as u16,
    )
}

/// A video sample entry whose fields follow the entry's header in `t` and
/// whose 'avcC' contents are `avcc`.
pub open spec fn video_entry_model(t: Seq<u8>, avcc: Seq<u8>) -> SampleEntryModel {
    let f = visual_fields(t);
    SampleEntryModel::Video {
        data_reference_index: f.0,
        width: f.1,
        height: f.2,
        horizresolution: f.3,
        vertresolution: f.4,
        frame_count: f.5,
        depth: f.6,
        avcc,
        calp: None,
        pasp: None,
    }
}

/// The audio sample entry fields: `t` holds the 28 bytes that follow the
/// entry's box header.
pub open spec fn audio_fields(t: Seq<u8>) -> (u16, u16, u16, u32) {
    (be16(t, 6) as u16, be16(t, 16) as u16, be16(t, 18) as u16, be32(t, 24) as u32)
}

/// An audio sample entry whose fields follow the entry's header in `t` and
/// whose descriptor is `esds`.
pub open spec fn audio_entry_model(t: Seq<u8>, esds: Seq<u8>) -> SampleEntryModel {
    let f = audio_fields(t);
    SampleEntryModel::Audio {
        data_reference_index: f.0,
        channelcount: f.1,
        samplesize: f.2,
        samplerate: f.3,
        esds,
    }
}

/// A video sample entry: an 'avc1' box header, the visual sample entry
/// fields (78 bytes in all), then an 'avcC' box whose contents are kept;
/// then as much of the rest of the data as the enclosing 'stsd' header's
/// content length covers is skipped. Another entry type, a second box that is
/// not 'avcC', 'avcC' contents that the data cuts short, and the headers that
/// `header_step` does not handle, are not handled.
pub open spec fn video_entry_step(s: Seq<u8>, stsd: BoxHeader) -> Step<SampleEntryModel> {
    match header_step(s) {
        Step::Eof => Step::Eof,
        Step::Invalid => Step::Invalid,
        Step::Done(h, hl) => {
            let p = hl as int;
            if h.name != AVC1 {
                Step::Invalid
            } else if s.len() < p + 78 {
                Step::Eof
            } else {
                match header_step(s.skip(p + 78)) {
                    Step::Eof => Step::Eof,
                    Step::Invalid => Step::Invalid,
                    Step::Done(h2, hl2) => {
                        let q = p + 78 + hl2;
                        let len = content_len(h2);
                        if h2.name != AVCC {
                            Step::Invalid
                        } else if s.len() < q + len {
                            Step::Invalid
                        } else if stsd.size < stsd.offset {
                            Step::Invalid
                        } else {
                            Step::Done(
                                video_entry_model(s.skip(p), s.subrange(q, q + len)),
                                (q + len + remaining_skip_len(s.skip(q + len), stsd)) as nat,
                            )
                        }
                    },
                }
            }
        },
    }
}

/// The length of the descriptor that an 'esds' box of this header holds
/// after its version and flags.
pub open spec fn esds_len(h: BoxHeader) -> nat {
    (h.size - h.offset - 4) as nat
}

/// An audio sample entry: an 'mp4a' box header, the audio sample entry
/// fields (28 bytes in all), then an 'esds' box whose version and flags are
/// read and whose other contents are kept. Another entry type, a second box
/// that is not 'esds', an 'esds' box with less than 4 bytes of content or
/// whose contents the data cuts short, and the headers that `header_step`
/// does not handle, are not handled.
pub open spec fn audio_entry_step(s: Seq<u8>) -> Step<SampleEntryModel> {
    match header_step(s) {
        Step::Eof => Step::Eof,
        Step::Invalid => Step::Invalid,
        Step::Done(h, hl) => {
            let p = hl as int;
            if h.name != MP4A {
                Step::Invalid
            } else if s.len() < p + 28 {
                Step::Eof
            } else {
                match header_step(s.skip(p + 28)) {
                    Step::Eof => Step::Eof,
                    Step::Invalid => Step::Invalid,
                    Step::Done(h2, hl2) => {
                        let q = p + 28 + hl2 + 4;
                        if h2.name != ESDS {
                            Step::Invalid
                        } else if s.len() < q {
                            Step::Eof
                        } else if h2.size - h2.offset < 4 {
                            Step::Invalid
                        } else if s.len() < q + esds_len(h2) {
                            Step::Invalid
                        } else {
                            Step::Done(
                                audio_entry_model(s.skip(p), s.subrange(q, q + esds_len(h2))),
                                (q + esds_len(h2)) as nat,
                            )
                        }
                    },
                }
            }
        },
    }
}

/// A sample entry of the kind that the track's type calls for.
#[verifier::opaque]
pub open spec fn entry_step(s: Seq<u8>, kind: TrackType, stsd: BoxHeader) -> Step<
    SampleEntryModel,
> {
    match kind {
        TrackType::Video => video_entry_step(s, stsd),
        TrackType::Audio => audio_entry_step(s),
    }
}

/// `n` sample entries, one after another.
pub open spec fn entries_step(s: Seq<u8>, n: nat, kind: TrackType, stsd: BoxHeader) -> Step<
    Seq<SampleEntryModel>,
>
    decreases n,
{
    if n == 0 {
        Step::Done(Seq::empty(), 0)
    } else {
        match entries_step(s, (n - 1) as nat, kind, stsd) {
            Step::Done(es, k) => match entry_step(s.skip(k as int), kind, stsd) {
                Step::Done(e, m) => Step::Done(es.push(e), k + m),
                Step::Eof => Step::Eof,
                Step::Invalid => Step::Invalid,
            },
            Step::Eof => Step::Eof,
            Step::Invalid => Step::Invalid,
        }
    }
}

/// An 'stsd' box: version and flags, an entry count, then the entries.
pub open spec fn stsd_step(s: Seq<u8>, head: BoxHeader, track: Track) -> Step<
    SampleDescriptionModel,
> {
    if s.len() < 8 {
        Step::Eof
    } else {
        match entries_step(s.skip(8), be32(s, 4), track.track_type, head) {
            Step::Done(es, k) => Step::Done(
                SampleDescriptionModel { name: head.name, size: head.size, descriptions: es },
                8 + k,
            ),
            Step::Eof => Step::Eof,
            Step::Invalid => Step::Invalid,
        }
    }
}

/// Reads the 78 bytes of visual sample entry fields.
fn read_visual_fields(src: &mut ByteReader) -> (r: Result<(u16, u16, u16, u32, u32, u16, u16), Fault>)
    ensures
        fixed_read(old(src)@, final(src)@, r, 78, visual_fields(old(src)@)),
{
    let ghost s = src@;
    if src.remaining() < 78 {
        src.exhaust();
        return Err(Fault::Eof);
    }
    let _ = skip(src, 6);
    let data_reference_index = src.read_u16()?;
    let _ = skip(src, 16);
    assert(src@ =~= s.skip(24));
    let width = src.read_u16()?;
    let height = src.read_u16()?;
    let horizresolution = src.read_u32()?;
    let vertresolution = src.read_u32()?;
    assert(src@ =~= s.skip(36));
    let _ = skip(src, 4);
    let frame_count = src.read_u16()?;
    let _ = skip(src, 32);
    assert(src@ =~= s.skip(74));
    let depth = src.read_u16()?;
    let _ = skip(src, 2);
    assert(src@ =~= s.skip(78));
    Ok((data_reference_index, width, height, horizresolution, vertresolution, frame_count, depth))
}

/// Reads the 28 bytes of audio sample entry fields.
fn read_audio_fields(src: &mut ByteReader) -> (r: Result<(u16, u16, u16, u32), Fault>)
    ensures
        fixed_read(old(src)@, final(src)@, r, 28, audio_fields(old(src)@)),
{
    let ghost s = src@;
    if src.remaining() < 28 {
        src.exhaust();
        return Err(Fault::Eof);
    }
    let _ = skip(src, 6);
    let data_reference_index = src.read_u16()?;
    let _ = skip(src, 8);
    assert(src@ =~= s.skip(16));
    let channelcount = src.read_u16()?;
    let samplesize = src.read_u16()?;
    let _ = skip(src, 4);
    assert(src@ =~= s.skip(24));
    let samplerate = src.read_u32()?;
    assert(src@ =~= s.skip(28));
    Ok((data_reference_index, channelcount, samplesize, samplerate))
}

#[verifier::rlimit(40)]
#[verifier::spinoff_prover]
fn parse_video_entry(src: &mut ByteReader, stsd: &BoxHeader) -> (r: Result<SampleEntry, Fault>)
    ensures
        engine_agrees(r, old(src)@, final(src)@, video_entry_step(old(src)@, *stsd)),
{
    let ghost s = src@;
    let h = parse_box_header(src)?;
    if h.name != AVC1 {
        return Err(Fault::Malformed);
    }
    let ghost p = h.offset as int;
    assert(src@ =~= s.skip(p));
    let (data_reference_index, width, height, horizresolution, vertresolution, frame_count, depth) =
        read_visual_fields(src)?;
    assert(src@ =~= s.skip(p + 78));
    let h2 = parse_box_header(src)?;
    if h2.name != AVCC {
        return Err(Fault::Malformed);
    }
    let ghost q = p + 78 + h2.offset;
    assert(src@ =~= s.skip(q));
    let len64 = h2.size - h2.offset;
    if (src.remaining() as u64) < len64 {
        return Err(Fault::Malformed);
    }
    let len = len64 as usize;
    let data = src.take_bytes(len);
    assert(data@ =~= s.subrange(q, q + len));
    assert(src@ =~= s.skip(q + len));
    if stsd.size < stsd.offset {
        return Err(Fault::Malformed);
    }
    let _ = skip_remaining_box_content(src, stsd);
    assert(src@ =~= s.skip(q + len + remaining_skip_len(s.skip(q + len), *stsd)));
    Ok(
        SampleEntry::Video {
            data_reference_index,
            width,
            height,
            horizresolution,
            vertresolution,
            frame_count,
            depth,
            avcc: AVCDecoderConfigurationRecord { data },
            calp: None,
            pasp: None,
        },
    )
}

#[verifier::rlimit(40)]
#[verifier::spinoff_prover]
fn parse_audio_entry(src: &mut ByteReader) -> (r: Result<SampleEntry, Fault>)
    ensures
        engine_agrees(r, old(src)@, final(src)@, audio_entry_step(old(src)@)),
{
    let ghost s = src@;
    let h = parse_box_header(src)?;
    if h.name != MP4A {
        return Err(Fault::Malformed);
    }
    let ghost p = h.offset as int;
    assert(src@ =~= s.skip(p));
    let (data_reference_index, channelcount, samplesize, samplerate) = read_audio_fields(src)?;
    assert(src@ =~= s.skip(p + 28));
    let h2 = parse_box_header(src)?;
    if h2.name != ESDS {
        return Err(Fault::Malformed);
    }
    let (_, _) = read_fullbox_extra(src)?;
    let ghost q = p + 28 + h2.offset + 4;
    assert(src@ =~= s.skip(q));
    if h2.size - h2.offset < 4 {
        return Err(Fault::Malformed);
    }
    let len64 = h2.size - h2.offset - 4;
    if (src.remaining() as u64) < len64 {
        return Err(Fault::Malformed);
    }
    let len = len64 as usize;
    let data = src.take_bytes(len);
    assert(data@ =~= s.subrange(q, q + len));
    assert(src@ =~= s.skip(q + len));
    Ok(
        SampleEntry::Audio {
            data_reference_index,
            channelcount,
            samplesize,
            samplerate,
            esds: ES_Descriptor { data },
        },
    )
}

fn parse_sample_entry(src: &mut ByteReader, stsd: &BoxHeader, track: &Track) -> (r: Result<
    SampleEntry,
    Fault,
>)
    ensures
        engine_agrees(r, old(src)@, final(src)@, entry_step(old(src)@, track.track_type, *stsd)),
{
    proof {
        reveal(entry_step);
    }
    match track.track_type {
        TrackType::Video => parse_video_entry(src, stsd),
        TrackType::Audio => parse_audio_entry(src),
    }
}

/// Once the first `i` entries run out of data, or hold one that is not
/// handled, so do the first `j` for every `j >= i`.
proof fn lemma_entries_stay_stopped(s: Seq<u8>, i: nat, j: nat, kind: TrackType, stsd: BoxHeader)
    requires
        i <= j,
        !(entries_step(s, i, kind, stsd) is Done),
    ensures
        entries_step(s, j, kind, stsd) == entries_step(s, i, kind, stsd),
    decreases j - i,
{
    if i < j {
        lemma_entries_stay_stopped(s, i, (j - 1) as nat, kind, stsd);
    }
}

pub(crate) fn parse_stsd(src: &mut ByteReader, head: &BoxHeader, track: &Track) -> (r: Result<
    SampleDescriptionBox,
    Fault,
>)
    ensures
        engine_agrees(r, old(src)@, final(src)@, stsd_step(old(src)@, *head, *track)),
{
    let ghost s = src@;
    let (_, _) = read_fullbox_extra(src)?;
    let description_count = src.read_u32()?;
    let ghost body = s.skip(8);
    assert(src@ =~= body);
    let mut descriptions: Vec<SampleEntry> = Vec::new();
    let mut i: u32 = 0;
    let ghost mut consumed: nat = 0;
    assert(descriptions@.map_values(|e: SampleEntry| e@) =~= Seq::<SampleEntryModel>::empty());
    assert(body.skip(0) =~= body);
    while i < description_count
        invariant
            s == old(src)@,
            s.len() >= 8,
            body == s.skip(8),
            description_count == be32(s, 4),
            i <= description_count,
            entries_step(body, i as nat, track.track_type, *head) == Step::Done(
                descriptions@.map_values(|e: SampleEntry| e@),
                consumed,
            ),
            consumed <= body.len(),
            src@ == body.skip(consumed as int),
        decreases description_count - i,
    {
        let ghost before = src@;
        let description = match parse_sample_entry(src, head, track) {
            Ok(d) => d,
            Err(e) => {
                proof {
                    lemma_entries_stay_stopped(
                        body,
                        (i + 1) as nat,
                        description_count as nat,
                        track.track_type,
                        *head,
                    );
                }
                return Err(e);
            },
        };
        let ghost m: nat = match entry_step(before, track.track_type, *head) {
            Step::Done(_, k) => k,
            _ => 0,
        };
        let ghost es = descriptions@.map_values(|e: SampleEntry| e@);
        assert(src@ =~= body.skip((consumed + m) as int));
        descriptions.push(description);
        i = i + 1;
        assert(descriptions@.map_values(|e: SampleEntry| e@) =~= es.push(description@));
        proof {
            consumed = consumed + m;
        }
    }
    assert(src@ =~= s.skip(8 + consumed as int));
    Ok(SampleDescriptionBox { name: head.name, size: head.size, descriptions })
}

/// Parse a stsd box.
pub fn read_stsd(src: &mut ByteReader, head: &BoxHeader, track: &Track) -> (r: Result<
    SampleDescriptionBox,
    Error,
>)
    requires
        !(stsd_step(old(src)@, *head, *track) is Invalid),
    ensures
        api_agrees(r, old(src)@, final(src)@, stsd_step(old(src)@, *head, *track)),
{
    let ghost before = src@;
    let r = parse_stsd(src, head, track);
    api_result(r, Ghost(before), Ghost(src@), Ghost(stsd_step(before, *head, *track)))
}

/// A sample entry that is read lies within the data.
pub proof fn lemma_entry_within(s: Seq<u8>, kind: TrackType, stsd: BoxHeader)
    ensures
        entry_step(s, kind, stsd) matches Step::Done(_, m) ==> m <= s.len(),
{
    reveal(entry_step);
    match kind {
        TrackType::Video => {
            if let Step::Done(h, hl) = header_step(s) {
                let p = hl as int;
                if h.name == AVC1 && s.len() >= p + 78 {
                    if let Step::Done(h2, hl2) = header_step(s.skip(p + 78)) {
                        let q = p + 78 + hl2;
                        let len = content_len(h2);
                        if s.len() >= q + len {
                            assert(remaining_skip_len(s.skip(q + len), stsd) <= s.len() - (q
                                + len));
                        }
                    }
                }
            }
        },
        TrackType::Audio => {},
    }
}

/// The sample entries that are read lie within the data.
pub proof fn lemma_entries_within(s: Seq<u8>, n: nat, kind: TrackType, stsd: BoxHeader)
    ensures
        entries_step(s, n, kind, stsd) matches Step::Done(_, k) ==> k <= s.len(),
    decreases n,
{
    if n > 0 {
        lemma_entries_within(s, (n - 1) as nat, kind, stsd);
        if let Step::Done(es, k) = entries_step(s, (n - 1) as nat, kind, stsd) {
            lemma_entry_within(s.skip(k as int), kind, stsd);
        }
    }
}

/// Where the fields of a video sample entry sit. After the entry's header
/// (16 bytes where its size field is 1, else 8) come: the data reference index
/// at 6, width at 24, height at 26, horizontal resolution at 28, vertical
/// resolution at 32, frame count at 40 and depth at 74; then, at 78, an 'avcC'
/// box whose contents are kept as they are. The entry must be an 'avc1' box.
#[verifier::rlimit(40)]
pub proof fn lemma_video_entry_fields(s: Seq<u8>, stsd: BoxHeader)
    ensures
        video_entry_step(s, stsd) matches Step::Done(e, _) ==> {
            let p = if be32(s, 0) == 1 {
                16int
            } else {
                8int
            };
            let q = p + 78 + if be32(s, p + 78) == 1 {
                16int
            } else {
                8int
            };
            &&& be32(s, 4) == AVC1 && be32(s, p + 82) == AVCC
            &&& e matches SampleEntryModel::Video {
                data_reference_index,
                width,
                height,
                horizresolution,
                vertresolution,
                frame_count,
                depth,
                avcc,
                calp,
                pasp,
            } && data_reference_index == be16(s, p + 6) && width == be16(s, p + 24) && height
                == be16(s, p + 26) && horizresolution == be32(s, p + 28) && vertresolution == be32(
                s,
                p + 32,
            ) && frame_count == be16(s, p + 40) && depth == be16(s, p + 74) && avcc
                == s.subrange(q, q + avcc.len()) && calp is None && pasp is None
        },
{
    if let Step::Done(h, hl) = header_step(s) {
        let p = hl as int;
        if s.len() >= p + 78 {
            let t = s.skip(p + 78);
            if let Step::Done(h2, hl2) = header_step(t) {
                assert(be32(t, 0) == be32(s, p + 78));
                assert(be32(t, 4) == be32(s, p + 82));
            }
        }
    }
}

/// Where the fields of an audio sample entry sit. After the entry's header
/// come: the data reference index at 6, the channel count at 16, the sample
/// size at 18 and the sample rate at 24; then, at 28, an 'esds' box whose
/// contents after its version and flags are kept as they are. The entry must
/// be an 'mp4a' box.
#[verifier::rlimit(40)]
pub proof fn lemma_audio_entry_fields(s: Seq<u8>)
    ensures
        audio_entry_step(s) matches Step::Done(e, _) ==> {
            let p = if be32(s, 0) == 1 {
                16int
            } else {
                8int
            };
            let q = p + 28 + 4 + if be32(s, p + 28) == 1 {
                16int
            } else {
                8int
            };
            &&& be32(s, 4) == MP4A && be32(s, p + 32) == ESDS
            &&& e matches SampleEntryModel::Audio {
                data_reference_index,
                channelcount,
                samplesize,
                samplerate,
                esds,
            } && data_reference_index == be16(s, p + 6) && channelcount == be16(s, p + 16)
                && samplesize == be16(s, p + 18) && samplerate == be32(s, p + 24) && esds
                == s.subrange(q, q + esds.len())
        },
{
    if let Step::Done(h, hl) = header_step(s) {
        let p = hl as int;
        if s.len() >= p + 28 {
            let t = s.skip(p + 28);
            if let Step::Done(h2, hl2) = header_step(t) {
                assert(be32(t, 0) == be32(s, p + 28));
                assert(be32(t, 4) == be32(s, p + 32));
            }
        }
    }
}

/// Sample entries are read one after another: `n` of them, every one of the
/// kind that the track calls for, the first being the entry at the start.
pub proof fn lemma_entries_in_order(s: Seq<u8>, n: nat, kind: TrackType, stsd: BoxHeader)
    ensures
        entries_step(s, n, kind, stsd) matches Step::Done(es, _) ==> {
            &&& es.len() == n
            &&& forall|i: int|
                0 <= i < n ==> (#[trigger] es[i] is Video <==> kind == TrackType::Video)
            &&& n > 0 ==> (entry_step(s, kind, stsd) matches Step::Done(e, _) && es[0] == e)
        },
    decreases n,
{
    reveal(entry_step);
    if n > 0 {
        lemma_entries_in_order(s, (n - 1) as nat, kind, stsd);
        if let Step::Done(es, k) = entries_step(s, (n - 1) as nat, kind, stsd) {
            if n == 1 {
                assert(s.skip(0) =~= s);
            }
        }
    }
}

/// The descriptions of an 'stsd' box: as many as content bytes 4..8 say,
/// each of the kind that the track calls for, the first being the entry
/// that starts at content byte 8.
pub proof fn lemma_stsd_descriptions(s: Seq<u8>, head: BoxHeader, track: Track)
    ensures
        stsd_step(s, head, track) matches Step::Done(m, _) ==> {
            &&& m.name == head.name && m.size == head.size
            &&& m.descriptions.len() == be32(s, 4)
            &&& forall|i: int|
                0 <= i < m.descriptions.len() ==> (#[trigger] m.descriptions[i] is Video
                    <==> track.track_type == TrackType::Video)
            &&& m.descriptions.len() > 0 ==> (entry_step(s.skip(8), track.track_type, head) matches Step::Done(
                e,
                _,
            ) && m.descriptions[0] == e)
        },
{
    if s.len() >= 8 {
        lemma_entries_in_order(s.skip(8), be32(s, 4), track.track_type, head);
    }
}

} // verus!
