//! The boxes that describe the file, the movie and its tracks: 'ftyp',
//! 'mvhd', 'tkhd', 'elst', 'mdhd' and 'hdlr'.
use crate::header::{
    block_step, discard_block, read_fullbox_extra, remaining_skip_len, skip,
    skip_remaining_box_content, BoxHeader,
};
use crate::reader::{
    api_agrees, api_result, be16, be32, be64, engine_agrees, signed16, signed32, signed64,
    ByteReader, Error, Fault, Step,
};
use vstd::prelude::*;

verus! {

/// File type box 'ftyp'.
#[derive(Debug)]
pub struct FileTypeBox {
    pub name: u32,
    pub size: u64,
    pub major_brand: u32,
    pub minor_version: u32,
    pub compatible_brands: Vec<u32>,
}

/// The value of a [`FileTypeBox`].
pub struct FileTypeModel {
    pub name: u32,
    pub size: u64,
    pub major_brand: u32,
    pub minor_version: u32,
    pub compatible_brands: Seq<u32>,
}

impl View for FileTypeBox {
    type V = FileTypeModel;

    open spec fn view(&self) -> FileTypeModel {
        FileTypeModel {
            name: self.name,
            size: self.size,
            major_brand: self.major_brand,
            minor_version: self.minor_version,
            compatible_brands: self.compatible_brands@,
        }
    }
}

/// `n` big-endian 32-bit values laid out one after another from `start`.
pub open spec fn u32_table(s: Seq<u8>, start: int, n: nat) -> Seq<u32> {
    Seq::new(n, |i: int| be32(s, start + 4 * i) as u32)
}

/// The number of compatible brands that an 'ftyp' box of this header holds:
/// what follows the 16 bytes of header, major brand and minor version, in
/// whole 4-byte brands.
pub open spec fn ftyp_brand_count(head: BoxHeader) -> nat {
    ((head.size - 16) / 4) as nat
}

/// An 'ftyp' box: major brand, minor version, then the compatible brands. A
/// header whose size is under 16 is not handled.
pub open spec fn ftyp_step(s: Seq<u8>, head: BoxHeader) -> Step<FileTypeModel> {
    if s.len() < 8 {
        Step::Eof
    } else if head.size < 16 {
        Step::Invalid
    } else if s.len() < 8 + 4 * ftyp_brand_count(head) {
        Step::Eof
    } else {
        Step::Done(
            FileTypeModel {
                name: head.name,
                size: head.size,
                major_brand: be32(s, 0) as u32,
                minor_version: be32(s, 4) as u32,
                compatible_brands: u32_table(s, 8, ftyp_brand_count(head)),
            },
            8 + 4 * ftyp_brand_count(head),
        )
    }
}

pub(crate) fn parse_ftyp(src: &mut ByteReader, head: &BoxHeader) -> (r: Result<
    FileTypeBox,
    Fault,
>)
    ensures
        engine_agrees(r, old(src)@, final(src)@, ftyp_step(old(src)@, *head)),
{
    let ghost s = src@;
    let major = src.read_u32()?;
    let minor = src.read_u32()?;
    assert(src@ =~= s.skip(8));
    if head.size < 16 {
        return Err(Fault::Malformed);
    }
    let brand_count = (head.size - 8 - 8) / 4;
    let mut brands: Vec<u32> = Vec::new();
    let mut i: u64 = 0;
    while i < brand_count
        invariant
            s == old(src)@,
            i <= brand_count,
            brand_count == ftyp_brand_count(*head),
            head.size >= 16,
            s.len() >= 8 + 4 * i,
            src@ == s.skip(8 + 4 * i),
            brands@ == u32_table(s, 8, i as nat),
        decreases brand_count - i,
    {
        let b = src.read_u32()?;
        brands.push(b);
        i = i + 1;
        assert(src@ =~= s.skip(8 + 4 * i));
        assert(brands@ =~= u32_table(s, 8, i as nat));
    }
    Ok(
        FileTypeBox {
            name: head.name,
            size: head.size,
            major_brand: major,
            minor_version: minor,
            compatible_brands: brands,
        },
    )
}

/// Parse an ftyp box.
pub fn read_ftyp(src: &mut ByteReader, head: &BoxHeader) -> (r: Result<FileTypeBox, Error>)
    requires
        !(ftyp_step(old(src)@, *head) is Invalid),
    ensures
        api_agrees(r, old(src)@, final(src)@, ftyp_step(old(src)@, *head)),
{
    let ghost before = src@;
    let r = parse_ftyp(src, head);
    api_result(r, Ghost(before), Ghost(src@), Ghost(ftyp_step(before, *head)))
}

/// Movie header box 'mvhd'.
#[derive(Debug, Clone, Copy, PartialEq, Eq, Structural)]
pub struct MovieHeaderBox {
    pub name: u32,
    pub size: u64,
    pub timescale: u32,
    pub duration: u64,
}

impl View for MovieHeaderBox {
    type V = MovieHeaderBox;

    open spec fn view(&self) -> MovieHeaderBox {
        *self
    }
}

/// The length of the creation and modification times in a full box of this
/// version (64-bit times in version 1, 32-bit ones otherwise).
pub open spec fn times_len(version: u8) -> int {
    if version == 1 {
        16
    } else {
        8
    }
}

/// The length of a duration in a full box of this version.
pub open spec fn duration_len(version: u8) -> int {
    if version == 1 {
        8
    } else {
        4
    }
}

/// A duration of this version's width, read at `p`.
pub open spec fn duration_at(s: Seq<u8>, p: int, version: u8) -> u64 {
    if version == 1 {
        be64(s, p) as u64
    } else {
        be32(s, p) as u64
    }
}

/// An 'mvhd' box: version and flags, the creation and modification times, the
/// timescale, the duration, then 80 bytes of other fields. Versions other
/// than 0 and 1 are not handled, nor times, a timescale or the last 80 bytes
/// that the data cuts short.
pub open spec fn mvhd_step(s: Seq<u8>, head: BoxHeader) -> Step<MovieHeaderBox> {
    if s.len() < 4 {
        Step::Eof
    } else {
        let v = s[0];
        let t = times_len(v);
        let d = duration_len(v);
        if v > 1 {
            Step::Invalid
        } else if s.len() < 8 + t {
            Step::Invalid
        } else if s.len() < 8 + t + d {
            Step::Eof
        } else if s.len() < 88 + t + d {
            Step::Invalid
        } else {
            Step::Done(
                MovieHeaderBox {
                    name: head.name,
                    size: head.size,
                    timescale: be32(s, 4 + t) as u32,
                    duration: duration_at(s, 8 + t, v),
                },
                (88 + t + d) as nat,
            )
        }
    }
}

pub(crate) fn parse_mvhd(src: &mut ByteReader, head: &BoxHeader) -> (r: Result<
    MovieHeaderBox,
    Fault,
>)
    ensures
        engine_agrees(r, old(src)@, final(src)@, mvhd_step(old(src)@, *head)),
{
    let ghost s = src@;
    let (version, _) = read_fullbox_extra(src)?;
    if version == 1 {
        discard_block(src, 16)?;
    } else if version == 0 {
        discard_block(src, 8)?;
    } else {
        return Err(Fault::Malformed);
    }
    let ghost t = times_len(version);
    assert(src@ =~= s.skip(4 + t));
    let timescale = match src.read_u32() {
        Ok(v) => v,
        Err(_) => {
            return Err(Fault::Malformed);
        },
    };
    assert(src@ =~= s.skip(8 + t));
    let duration = if version == 1 {
        src.read_u64()?
    } else {
        src.read_u32()? as u64
    };
    assert(src@ =~= s.skip(8 + t + duration_len(version)));
    discard_block(src, 80)?;
    assert(src@ =~= s.skip(88 + t + duration_len(version)));
    Ok(MovieHeaderBox { name: head.name, size: head.size, timescale, duration })
}

/// Parse an mvhd box.
pub fn read_mvhd(src: &mut ByteReader, head: &BoxHeader) -> (r: Result<MovieHeaderBox, Error>)
    requires
        !(mvhd_step(old(src)@, *head) is Invalid),
    ensures
        api_agrees(r, old(src)@, final(src)@, mvhd_step(old(src)@, *head)),
{
    let ghost before = src@;
    let r = parse_mvhd(src, head);
    api_result(r, Ghost(before), Ghost(src@), Ghost(mvhd_step(before, *head)))
}

/// Track header box 'tkhd'
#[derive(Debug, Clone, Copy, PartialEq, Eq, Structural)]
pub struct TrackHeaderBox {
    pub name: u32,
    pub size: u64,
    pub track_id: u32,
    pub enabled: bool,
    pub duration: u64,
    pub width: u32,
    pub height: u32,
}

impl View for TrackHeaderBox {
    type V = TrackHeaderBox;

    open spec fn view(&self) -> TrackHeaderBox {
        *self
    }
}

/// The 24-bit flags of a full box whose version and flags start `s`.
pub open spec fn flags_of(s: Seq<u8>) -> u32 {
    (s[1] as nat * 0x1_0000 + s[2] as nat * 0x100 + s[3] as nat) as u32
}

/// A track is enabled when its flags have both the enabled bit (1) and the
/// in-movie bit (2) set.
pub open spec fn track_enabled(flags: u32) -> bool {
    !(flags & 0x1u32 == 0 || flags & 0x2u32 == 0)
}

/// The length of a 'tkhd' box's fields before its width and height: version
/// and flags, times, track id, a reserved word, the duration, two reserved
/// words and 44 bytes of other fields.
pub open spec fn tkhd_dims_at(v: u8) -> int {
    12 + times_len(v) + duration_len(v) + 8 + 44
}

/// A 'tkhd' box. Versions other than 0 and 1 are not handled, nor times that
/// the data cuts short, nor a reserved word after the track id that is not 0.
pub open spec fn tkhd_step(s: Seq<u8>, head: BoxHeader) -> Step<TrackHeaderBox> {
    if s.len() < 4 {
        Step::Eof
    } else {
        let v = s[0];
        let t = times_len(v);
        if v > 1 {
            Step::Invalid
        } else if s.len() < 4 + t {
            Step::Invalid
        } else if s.len() < 12 + t {
            Step::Eof
        } else if be32(s, 8 + t) != 0 {
            Step::Invalid
        } else if s.len() < tkhd_dims_at(v) + 8 {
            Step::Eof
        } else {
            Step::Done(
                TrackHeaderBox {
                    name: head.name,
                    size: head.size,
                    track_id: be32(s, 4 + t) as u32,
                    enabled: track_enabled(flags_of(s)),
                    duration: duration_at(s, 12 + t, v),
                    width: be32(s, tkhd_dims_at(v)) as u32,
                    height: be32(s, tkhd_dims_at(v) + 4) as u32,
                },
                (tkhd_dims_at(v) + 8) as nat,
            )
        }
    }
}

pub(crate) fn parse_tkhd(src: &mut ByteReader, head: &BoxHeader) -> (r: Result<
    TrackHeaderBox,
    Fault,
>)
    ensures
        engine_agrees(r, old(src)@, final(src)@, tkhd_step(old(src)@, *head)),
{
    let ghost s = src@;
    let (version, flags) = read_fullbox_extra(src)?;
    let disabled = flags & 0x1u32 == 0 || flags & 0x2u32 == 0;
    if version == 1 {
        discard_block(src, 16)?;
    } else if version == 0 {
        discard_block(src, 8)?;
    } else {
        return Err(Fault::Malformed);
    }
    let ghost t = times_len(version);
    assert(src@ =~= s.skip(4 + t));
    let track_id = src.read_u32()?;
    let reserved = src.read_u32()?;
    assert(src@ =~= s.skip(12 + t));
    if reserved != 0 {
        return Err(Fault::Malformed);
    }
    let duration = if version == 1 {
        src.read_u64()?
    } else {
        src.read_u32()? as u64
    };
    let _reserved = src.read_u32()?;
    let _reserved = src.read_u32()?;
    assert(src@ =~= s.skip(20 + t + duration_len(version)));
    skip(src, 44)?;
    assert(src@ =~= s.skip(tkhd_dims_at(version)));
    let width = src.read_u32()?;
    let height = src.read_u32()?;
    assert(src@ =~= s.skip(tkhd_dims_at(version) + 8));
    Ok(
        TrackHeaderBox {
            name: head.name,
            size: head.size,
            track_id,
            enabled: !disabled,
            duration,
            width,
            height,
        },
    )
}

/// Parse a tkhd box.
pub fn read_tkhd(src: &mut ByteReader, head: &BoxHeader) -> (r: Result<TrackHeaderBox, Error>)
    requires
        !(tkhd_step(old(src)@, *head) is Invalid),
    ensures
        api_agrees(r, old(src)@, final(src)@, tkhd_step(old(src)@, *head)),
{
    let ghost before = src@;
    let r = parse_tkhd(src, head);
    api_result(r, Ghost(before), Ghost(src@), Ghost(tkhd_step(before, *head)))
}

/// Media header box 'mdhd'
#[derive(Debug, Clone, Copy, PartialEq, Eq, Structural)]
pub struct MediaHeaderBox {
    pub name: u32,
    pub size: u64,
    pub timescale: u32,
    pub duration: u64,
}

impl View for MediaHeaderBox {
    type V = MediaHeaderBox;

    open spec fn view(&self) -> MediaHeaderBox {
        *self
    }
}

/// An 'mdhd' box: version and flags, times, timescale, duration, then 4 bytes
/// of other fields. Versions other than 0 and 1 are not handled, nor times
/// that the data cuts short.
pub open spec fn mdhd_step(s: Seq<u8>, head: BoxHeader) -> Step<MediaHeaderBox> {
    if s.len() < 4 {
        Step::Eof
    } else {
        let v = s[0];
        let t = times_len(v);
        let d = duration_len(v);
        if v > 1 {
            Step::Invalid
        } else if s.len() < 4 + t {
            Step::Invalid
        } else if s.len() < 12 + t + d {
            Step::Eof
        } else {
            Step::Done(
                MediaHeaderBox {
                    name: head.name,
                    size: head.size,
                    timescale: be32(s, 4 + t) as u32,
                    duration: duration_at(s, 8 + t, v),
                },
                (12 + t + d) as nat,
            )
        }
    }
}

pub(crate) fn parse_mdhd(src: &mut ByteReader, head: &BoxHeader) -> (r: Result<
    MediaHeaderBox,
    Fault,
>)
    ensures
        engine_agrees(r, old(src)@, final(src)@, mdhd_step(old(src)@, *head)),
{
    let ghost s = src@;
    let (version, _) = read_fullbox_extra(src)?;
    let (timescale, duration) = if version == 1 {
        discard_block(src, 16)?;
        assert(src@ =~= s.skip(20));
        let timescale = src.read_u32()?;
        let duration = src.read_u64()?;
        (timescale, duration)
    } else if version == 0 {
        discard_block(src, 8)?;
        assert(src@ =~= s.skip(12));
        let timescale = src.read_u32()?;
        let duration = src.read_u32()? as u64;
        (timescale, duration)
    } else {
        return Err(Fault::Malformed);
    };
    assert(src@ =~= s.skip(8 + times_len(version) + duration_len(version)));
    skip(src, 4)?;
    assert(src@ =~= s.skip(12 + times_len(version) + duration_len(version)));
    Ok(MediaHeaderBox { name: head.name, size: head.size, timescale, duration })
}

/// Parse a mdhd box.
pub fn read_mdhd(src: &mut ByteReader, head: &BoxHeader) -> (r: Result<MediaHeaderBox, Error>)
    requires
        !(mdhd_step(old(src)@, *head) is Invalid),
    ensures
        api_agrees(r, old(src)@, final(src)@, mdhd_step(old(src)@, *head)),
{
    let ghost before = src@;
    let r = parse_mdhd(src, head);
    api_result(r, Ghost(before), Ghost(src@), Ghost(mdhd_step(before, *head)))
}

/// Handler reference box 'hdlr'
#[derive(Debug, Clone, Copy, PartialEq, Eq, Structural)]
pub struct HandlerBox {
    pub name: u32,
    pub size: u64,
    pub handler_type: u32,
}

impl View for HandlerBox {
    type V = HandlerBox;

    open spec fn view(&self) -> HandlerBox {
        *self
    }
}

/// An 'hdlr' box: version and flags, 4 bytes, the handler type and 12 more
/// bytes; then as much of the rest of the data as the header's content length
/// covers is skipped. A header whose offset exceeds its size is not handled.
pub open spec fn hdlr_step(s: Seq<u8>, head: BoxHeader) -> Step<HandlerBox> {
    if s.len() < 24 {
        Step::Eof
    } else if head.size < head.offset {
        Step::Invalid
    } else {
        Step::Done(
            HandlerBox { name: head.name, size: head.size, handler_type: be32(s, 8) as u32 },
            24 + remaining_skip_len(s.skip(24), head),
        )
    }
}

pub(crate) fn parse_hdlr(src: &mut ByteReader, head: &BoxHeader) -> (r: Result<
    HandlerBox,
    Fault,
>)
    ensures
        engine_agrees(r, old(src)@, final(src)@, hdlr_step(old(src)@, *head)),
{
    let ghost s = src@;
    let (_, _) = read_fullbox_extra(src)?;
    skip(src, 4)?;
    let handler_type = src.read_u32()?;
    skip(src, 12)?;
    assert(src@ =~= s.skip(24));
    if head.size < head.offset {
        return Err(Fault::Malformed);
    }
    let _ = skip_remaining_box_content(src, head);
    assert(src@ =~= s.skip(24 + remaining_skip_len(s.skip(24), *head) as int));
    Ok(HandlerBox { name: head.name, size: head.size, handler_type })
}

/// Parse a hdlr box.
pub fn read_hdlr(src: &mut ByteReader, head: &BoxHeader) -> (r: Result<HandlerBox, Error>)
    requires
        !(hdlr_step(old(src)@, *head) is Invalid),
    ensures
        api_agrees(r, old(src)@, final(src)@, hdlr_step(old(src)@, *head)),
{
    let ghost before = src@;
    let r = parse_hdlr(src, head);
    api_result(r, Ghost(before), Ghost(src@), Ghost(hdlr_step(before, *head)))
}

/// One entry of an edit list.
#[derive(Debug, Clone, Copy, PartialEq, Eq, Structural)]
pub struct Edit {
    pub segment_duration: u64,
    pub media_time: i64,
    pub media_rate_integer: i16,
    pub media_rate_fraction: i16,
}

/// Edit list box 'elst'
#[derive(Debug)]
pub struct EditListBox {
    pub name: u32,
    pub size: u64,
    pub edits: Vec<Edit>,
}

/// The value of an [`EditListBox`].
pub struct EditListModel {
    pub name: u32,
    pub size: u64,
    pub edits: Seq<Edit>,
}

impl View for EditListBox {
    type V = EditListModel;

    open spec fn view(&self) -> EditListModel {
        EditListModel { name: self.name, size: self.size, edits: self.edits@ }
    }
}

/// The length of one edit list entry of this version: 64-bit duration and
/// media time in version 1, 32-bit ones in version 0, then two 16-bit rates.
pub open spec fn edit_len(version: u8) -> int {
    if version == 1 {
        20
    } else {
        12
    }
}

/// The edit list entry of this version that starts at `p`.
pub open spec fn edit_at(s: Seq<u8>, p: int, version: u8) -> Edit {
    if version == 1 {
        Edit {
            segment_duration: be64(s, p) as u64,
            media_time: signed64(be64(s, p + 8)) as i64,
            media_rate_integer: signed16(be16(s, p + 16)) as i16,
            media_rate_fraction: signed16(be16(s, p + 18)) as i16,
        }
    } else {
        Edit {
            segment_duration: be32(s, p) as u64,
            media_time: signed32(be32(s, p + 4)) as i64,
            media_rate_integer: signed16(be16(s, p + 8)) as i16,
            media_rate_fraction: signed16(be16(s, p + 10)) as i16,
        }
    }
}

/// The bytes that `n` edit list entries of this version take.
pub open spec fn edits_len(version: u8, n: nat) -> int {
    if version == 1 {
        20 * n as int
    } else {
        12 * n as int
    }
}

/// An 'elst' box: version and flags, the entry count, then the entries. A
/// version other than 0 and 1 is not handled where there is an entry to read.
pub open spec fn elst_step(s: Seq<u8>, head: BoxHeader) -> Step<EditListModel> {
    if s.len() < 8 {
        Step::Eof
    } else {
        let v = s[0];
        let n = be32(s, 4);
        if n > 0 && v > 1 {
            Step::Invalid
        } else if s.len() < 8 + edits_len(v, n) {
            Step::Eof
        } else {
            Step::Done(
                EditListModel {
                    name: head.name,
                    size: head.size,
                    edits: Seq::new(n, |i: int| edit_at(s, 8 + edit_len(v) * i, v)),
                },
                (8 + edits_len(v, n)) as nat,
            )
        }
    }
}

pub(crate) fn parse_elst(src: &mut ByteReader, head: &BoxHeader) -> (r: Result<
    EditListBox,
    Fault,
>)
    ensures
        engine_agrees(r, old(src)@, final(src)@, elst_step(old(src)@, *head)),
{
    let ghost s = src@;
    let (version, _) = read_fullbox_extra(src)?;
    let edit_count = src.read_u32()?;
    assert(src@ =~= s.skip(8));
    let mut edits: Vec<Edit> = Vec::new();
    let mut i: u32 = 0;
    while i < edit_count
        invariant
            s == old(src)@,
            s.len() >= 8,
            version == s[0],
            edit_count == be32(s, 4),
            i <= edit_count,
            i > 0 ==> version <= 1,
            s.len() >= 8 + edits_len(version, i as nat),
            src@ == s.skip(8 + edits_len(version, i as nat)),
            edits@ == Seq::new(i as nat, |j: int| edit_at(s, 8 + edit_len(version) * j, version)),
        decreases edit_count - i,
    {
        let ghost p = 8 + edits_len(version, i as nat);
        let (segment_duration, media_time) = if version == 1 {
            let d = src.read_u64()?;
            let t = src.read_i64()?;
            (d, t)
        } else if version == 0 {
            let d = src.read_u32()? as u64;
            let t = src.read_i32()? as i64;
            (d, t)
        } else {
            return Err(Fault::Malformed);
        };
        let media_rate_integer = src.read_i16()?;
        let media_rate_fraction = src.read_i16()?;
        assert(src@ =~= s.skip(p + edit_len(version)));
        let e = Edit { segment_duration, media_time, media_rate_integer, media_rate_fraction };
        assert(e == edit_at(s, p, version));
        edits.push(e);
        i = i + 1;
        assert(edits@ =~= Seq::new(
            i as nat,
            |j: int| edit_at(s, 8 + edit_len(version) * j, version),
        ));
    }
    Ok(EditListBox { name: head.name, size: head.size, edits })
}

/// Parse a elst box.
pub fn read_elst(src: &mut ByteReader, head: &BoxHeader) -> (r: Result<EditListBox, Error>)
    requires
        !(elst_step(old(src)@, *head) is Invalid),
    ensures
        api_agrees(r, old(src)@, final(src)@, elst_step(old(src)@, *head)),
{
    let ghost before = src@;
    let r = parse_elst(src, head);
    api_result(r, Ghost(before), Ghost(src@), Ghost(elst_step(before, *head)))
}

/// Where the fields of an 'ftyp' box sit: the major brand in content bytes
/// 0..4, the minor version in 4..8, and brand `i` in `8 + 4i .. 12 + 4i`, in
/// file order, as many as fit in the declared size after 16 bytes.
pub proof fn lemma_ftyp_fields(s: Seq<u8>, head: BoxHeader)
    ensures
        ftyp_step(s, head) matches Step::Done(f, k) ==> {
            &&& f.name == head.name && f.size == head.size
            &&& f.major_brand == be32(s, 0) && f.minor_version == be32(s, 4)
            &&& f.compatible_brands.len() == (head.size - 16) / 4
            &&& k == 8 + 4 * f.compatible_brands.len()
            &&& forall|i: int|
                0 <= i < f.compatible_brands.len() ==> #[trigger] f.compatible_brands[i] == be32(
                    s,
                    8 + 4 * i,
                )
        },
{
}

/// Where the fields of an 'mvhd' box sit: in version 0 the timescale is in
/// content bytes 12..16 and a 32-bit duration in 16..20, and the box content
/// is 100 bytes; in version 1 they are in 20..24 and 24..32 (64 bits), and the
/// content is 112 bytes. Other versions are never read.
pub proof fn lemma_mvhd_fields(s: Seq<u8>, head: BoxHeader)
    ensures
        mvhd_step(s, head) matches Step::Done(m, k) ==> {
            &&& m.name == head.name && m.size == head.size
            &&& s[0] == 0 ==> m.timescale == be32(s, 12) && m.duration == be32(s, 16) && k == 100
            &&& s[0] == 1 ==> m.timescale == be32(s, 20) && m.duration == be64(s, 24) && k == 112
            &&& s[0] <= 1
        },
{
}

/// A track is reported enabled exactly when both of the two lowest flag bits
/// are set: bit 0 (track enabled) and bit 1 (track in movie). The flags are
/// the 24 bits of content bytes 1..4, so those bits are the two lowest bits
/// of byte 3; a track with flags 0x000002 is not enabled.
pub proof fn lemma_tkhd_enabled(s: Seq<u8>, head: BoxHeader)
    ensures
        tkhd_step(s, head) matches Step::Done(t, _) ==> t.enabled == (s[3] % 2 == 1 && (s[3]
            / 2) % 2 == 1),
{
    if let Step::Done(t, _) = tkhd_step(s, head) {
        let a = s[1] as u32;
        let b = s[2] as u32;
        let c = s[3] as u32;
        let f = flags_of(s);
        assert(f == a * 0x1_0000 + b * 0x100 + c);
        assert((f & 0x1u32 == 0) == (c % 2 == 0) && (f & 0x2u32 == 0) == ((c / 2) % 2 == 0))
            by (bit_vector)
            requires
                f == a * 0x1_0000 + b * 0x100 + c,
                a < 0x100,
                b < 0x100,
                c < 0x100,
        ;
    }
}

/// Where the fields of a 'tkhd' box sit. Version 0: track id in content bytes
/// 12..16, a 32-bit duration in 20..24, width in 76..80, height in 80..84, 84
/// bytes in all. Version 1: track id in 20..24, a 64-bit duration in 28..36,
/// width in 88..92, height in 92..96, 96 bytes in all.
pub proof fn lemma_tkhd_fields(s: Seq<u8>, head: BoxHeader)
    ensures
        tkhd_step(s, head) matches Step::Done(t, k) ==> {
            &&& t.name == head.name && t.size == head.size
            &&& s[0] == 0 ==> t.track_id == be32(s, 12) && t.duration == be32(s, 20) && t.width
                == be32(s, 76) && t.height == be32(s, 80) && k == 84
            &&& s[0] == 1 ==> t.track_id == be32(s, 20) && t.duration == be64(s, 28) && t.width
                == be32(s, 88) && t.height == be32(s, 92) && k == 96
            &&& s[0] <= 1
        },
{
}

/// Where the fields of an 'mdhd' box sit: in version 0 the timescale is in
/// content bytes 12..16 and a 32-bit duration in 16..20, 24 bytes in all; in
/// version 1 they are in 20..24 and 24..32, 36 bytes in all.
pub proof fn lemma_mdhd_fields(s: Seq<u8>, head: BoxHeader)
    ensures
        mdhd_step(s, head) matches Step::Done(m, k) ==> {
            &&& m.name == head.name && m.size == head.size
            &&& s[0] == 0 ==> m.timescale == be32(s, 12) && m.duration == be32(s, 16) && k == 24
            &&& s[0] == 1 ==> m.timescale == be32(s, 20) && m.duration == be64(s, 24) && k == 36
            &&& s[0] <= 1
        },
{
}

/// The handler type of an 'hdlr' box is content bytes 8..12.
pub proof fn lemma_hdlr_fields(s: Seq<u8>, head: BoxHeader)
    ensures
        hdlr_step(s, head) matches Step::Done(hd, k) ==> hd.name == head.name && hd.size
            == head.size && hd.handler_type == be32(s, 8) && 24 <= k <= s.len(),
{
    if s.len() >= 24 {
        assert(remaining_skip_len(s.skip(24), head) <= s.len() - 24);
    }
}

/// The entries of an 'elst' box, in file order: as many as content bytes
/// 4..8 say, entry `i` starting at `8 + 12i` in version 0 (32-bit duration,
/// signed 32-bit media time, signed 16-bit rate integer and fraction) and at
/// `8 + 20i` in version 1 (64-bit duration and signed media time).
pub proof fn lemma_elst_entries(s: Seq<u8>, head: BoxHeader)
    ensures
        elst_step(s, head) matches Step::Done(e, k) ==> {
            &&& e.name == head.name && e.size == head.size
            &&& e.edits.len() == be32(s, 4)
            &&& (e.edits.len() > 0 ==> s[0] <= 1)
            &&& s[0] == 0 ==> k == 8 + 12 * e.edits.len() && forall|i: int|
                0 <= i < e.edits.len() ==> {
                    &&& (#[trigger] e.edits[i]).segment_duration == be32(s, 8 + 12 * i)
                    &&& e.edits[i].media_time == signed32(be32(s, 12 + 12 * i))
                    &&& e.edits[i].media_rate_integer == signed16(be16(s, 16 + 12 * i))
                    &&& e.edits[i].media_rate_fraction == signed16(be16(s, 18 + 12 * i))
                }
            &&& s[0] == 1 ==> k == 8 + 20 * e.edits.len() && forall|i: int|
                0 <= i < e.edits.len() ==> {
                    &&& (#[trigger] e.edits[i]).segment_duration == be64(s, 8 + 20 * i)
                    &&& e.edits[i].media_time == signed64(be64(s, 16 + 20 * i))
                    &&& e.edits[i].media_rate_integer == signed16(be16(s, 24 + 20 * i))
                    &&& e.edits[i].media_rate_fraction == signed16(be16(s, 26 + 20 * i))
                }
        },
{
}

} // verus!
