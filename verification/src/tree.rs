//! Reading a box and, for the container boxes, the boxes nested in it.
use crate::fourcc::{
    CO64, EDTS, FTYP, HDLR, MDHD, MDIA, MINF, MOOV, MVHD, SOUN, STBL, STCO, STSC, STSD, STSS,
    STSZ, STTS, TKHD, TRAK, ELST, VIDE,
};
use crate::header::{
    content_len, header_step, lemma_header_ignores_what_follows, limit, parse_box_header, remaining_skip_len, skip_step, skip_u64,
    BoxHeader,
};
use crate::movie::{
    lemma_elst_entries, lemma_ftyp_fields, lemma_hdlr_fields, lemma_mdhd_fields, lemma_mvhd_fields,
    lemma_tkhd_fields,
    elst_step, ftyp_step, hdlr_step, mdhd_step, mvhd_step, parse_elst, parse_ftyp, parse_hdlr,
    parse_mdhd, parse_mvhd, parse_tkhd, tkhd_step,
};
use crate::reader::{drop_value, engine_agrees, erase, ByteReader, Error, Fault, Step};
use crate::reader::be32;
use crate::sample_description::{lemma_entries_within, parse_stsd, stsd_step, Track, TrackType};
use crate::sample_table::{
    lemma_co64_entries, lemma_stco_entries, lemma_stsc_entries, lemma_stss_entries,
    lemma_stsz_entries, lemma_stts_entries,
    co64_step, parse_co64, parse_stco, parse_stsc, parse_stss, parse_stsz, parse_stts, stco_step,
    stsc_step, stss_step, stsz_step, stts_step,
};
use vstd::prelude::*;

verus! {

/// What the parser has learned of the movie so far.
#[derive(Debug)]
pub struct MediaContext {
    pub tracks: Vec<Track>,
}

/// What reading a box does with the bytes that remain in its reader and with
/// the tracks found so far.
pub enum BoxOutcome {
    /// The box was read; that many bytes were consumed and these are the
    /// tracks now.
    Parsed(nat, Seq<Track>),
    /// The data ended inside the box; that many bytes were consumed and the
    /// tracks are unchanged.
    Eof(nat),
    /// The box is of a kind that the parser does not handle.
    Invalid,
}

/// The boxes that hold only other boxes: 'moov', 'trak', 'edts', 'mdia',
/// 'minf' and 'stbl'.
pub open spec fn is_container(name: u32) -> bool {
    name == MOOV || name == TRAK || name == EDTS || name == MDIA || name == MINF || name == STBL
}

/// Reading the contents `c` of a box that holds no other boxes. Known types
/// are parsed; the contents of any other box are skipped. An 'stsd' box is
/// not handled before a track has been found.
#[verifier::opaque]
pub open spec fn leaf_step(c: Seq<u8>, h: BoxHeader, tracks: Seq<Track>) -> Step<()> {
    if h.name == FTYP {
        erase(ftyp_step(c, h))
    } else if h.name == MVHD {
        erase(mvhd_step(c, h))
    } else if h.name == TKHD {
        erase(tkhd_step(c, h))
    } else if h.name == ELST {
        erase(elst_step(c, h))
    } else if h.name == MDHD {
        erase(mdhd_step(c, h))
    } else if h.name == STCO {
        erase(stco_step(c, h))
    } else if h.name == CO64 {
        erase(co64_step(c, h))
    } else if h.name == STSS {
        erase(stss_step(c, h))
    } else if h.name == STSC {
        erase(stsc_step(c, h))
    } else if h.name == STSZ {
        erase(stsz_step(c, h))
    } else if h.name == STTS {
        erase(stts_step(c, h))
    } else if h.name == HDLR {
        erase(hdlr_step(c, h))
    } else if h.name == STSD {
        if tracks.len() == 0 {
            Step::Invalid
        } else {
            erase(stsd_step(c, h, tracks.last()))
        }
    } else {
        erase(skip_step(c, content_len(h)))
    }
}

/// The track that a handler of this type adds: video for 'vide', audio for
/// 'soun', none for any other.
pub open spec fn handler_track(handler_type: u32) -> Option<Track> {
    if handler_type == VIDE {
        Some(Track { track_type: TrackType::Video })
    } else if handler_type == SOUN {
        Some(Track { track_type: TrackType::Audio })
    } else {
        None
    }
}

/// The tracks after reading the contents `c` of a box that holds no other
/// boxes: an 'hdlr' box of a known handler type adds a track.
pub open spec fn leaf_tracks(c: Seq<u8>, h: BoxHeader, tracks: Seq<Track>) -> Seq<Track> {
    if h.name == HDLR {
        match hdlr_step(c, h) {
            Step::Done(hdlr, _) => match handler_track(hdlr.handler_type) {
                Some(t) => tracks.push(t),
                None => tracks,
            },
            _ => tracks,
        }
    } else {
        tracks
    }
}

/// Reading one box from `s`: its header, then its contents, which are the
/// next `size - offset` bytes or all that remain where fewer remain. A box
/// must use up exactly the content that its header declares; else it is not
/// handled. (The first test on the header never holds, as
/// `lemma_box_bounds` shows; it bounds the recursion.)
pub open spec fn box_outcome(s: Seq<u8>, tracks: Seq<Track>) -> BoxOutcome
    decreases s.len(), 0nat,
{
    match header_step(s) {
        Step::Eof => BoxOutcome::Eof(s.len()),
        Step::Invalid => BoxOutcome::Invalid,
        Step::Done(h, hl) => {
            if hl < 8 || hl > s.len() || h.offset > h.size {
                BoxOutcome::Invalid
            } else {
                let rest = s.skip(hl as int);
                let n = remaining_skip_len(rest, h);
                let c = rest.take(n as int);
                let full = content_len(h);
                if is_container(h.name) {
                    match children_outcome(c, tracks) {
                        Some((pos, t2)) => if pos == full {
                            BoxOutcome::Parsed(hl + n, t2)
                        } else {
                            BoxOutcome::Invalid
                        },
                        None => BoxOutcome::Invalid,
                    }
                } else {
                    match leaf_step(c, h, tracks) {
                        Step::Done(_, k) => if k == full {
                            BoxOutcome::Parsed(hl + n, leaf_tracks(c, h, tracks))
                        } else {
                            BoxOutcome::Invalid
                        },
                        Step::Eof => BoxOutcome::Eof(hl + n),
                        Step::Invalid => BoxOutcome::Invalid,
                    }
                }
            }
        },
    }
}

/// Reading boxes from the contents `c` of a container until the data ends:
/// the position reached and the tracks found, or `None` where a box is not
/// handled.
pub open spec fn children_outcome(c: Seq<u8>, tracks: Seq<Track>) -> Option<(nat, Seq<Track>)>
    decreases c.len(), 1nat,
{
    match box_outcome(c, tracks) {
        BoxOutcome::Parsed(k, t2) => if 0 < k && k <= c.len() {
            shift(k, children_outcome(c.skip(k as int), t2))
        } else {
            None
        },
        BoxOutcome::Eof(k) => Some((k, tracks)),
        BoxOutcome::Invalid => None,
    }
}

/// A position reached after `p` more bytes.
pub open spec fn shift(p: nat, o: Option<(nat, Seq<Track>)>) -> Option<(nat, Seq<Track>)> {
    match o {
        Some((q, t)) => Some((p + q, t)),
        None => None,
    }
}

/// The header of a box that is read is one that `header_step` yields, so the
/// guard in `box_outcome` never applies: a box is read from its whole header
/// and consumes at least that header and at most what remains.
pub proof fn lemma_box_bounds(s: Seq<u8>, tracks: Seq<Track>)
    ensures
        header_step(s) matches Step::Done(h, hl) ==> 8 <= hl <= s.len() && h.offset <= h.size,
        box_outcome(s, tracks) matches BoxOutcome::Parsed(k, _) ==> 8 <= k <= s.len(),
        box_outcome(s, tracks) matches BoxOutcome::Eof(k) ==> k <= s.len(),
{
    if let Step::Done(h, hl) = header_step(s) {
        let rest = s.skip(hl as int);
        assert(remaining_skip_len(rest, h) <= rest.len());
    }
}

/// Reading the boxes of a container stops within its contents.
pub proof fn lemma_children_bound(c: Seq<u8>, tracks: Seq<Track>)
    ensures
        children_outcome(c, tracks) matches Some((p, _)) ==> p <= c.len(),
    decreases c.len(),
{
    lemma_box_bounds(c, tracks);
    if let BoxOutcome::Parsed(k, t2) = box_outcome(c, tracks) {
        if 0 < k && k <= c.len() {
            lemma_children_bound(c.skip(k as int), t2);
        }
    }
}

/// A result `r` of reading a box, with `before`/`after` the bytes that
/// remained and `t0`/`t1` the tracks before and after, is what `o` says.
pub open spec fn box_agrees(
    r: Result<(), Fault>,
    before: Seq<u8>,
    after: Seq<u8>,
    t0: Seq<Track>,
    t1: Seq<Track>,
    o: BoxOutcome,
) -> bool {
    match o {
        BoxOutcome::Parsed(k, t) => r == Ok::<(), Fault>(()) && after == before.skip(k as int)
            && t1 == t,
        BoxOutcome::Eof(k) => r == Err::<(), Fault>(Fault::Eof) && after == before.skip(k as int)
            && t1 == t0,
        BoxOutcome::Invalid => r == Err::<(), Fault>(Fault::Malformed),
    }
}

/// Reads the boxes in the contents of a container until the data ends, and
/// insists that they fill the contents that its header declares.
fn recurse(f: &mut ByteReader, h: &BoxHeader, context: &mut MediaContext) -> (r: Result<
    (),
    Fault,
>)
    requires
        h.offset <= h.size,
    ensures
        final(f)@.len() == 0,
        match children_outcome(old(f)@, old(context).tracks@) {
            Some((pos, t)) => if pos == content_len(*h) {
                r == Ok::<(), Fault>(()) && final(context).tracks@ == t
            } else {
                r == Err::<(), Fault>(Fault::Malformed)
            },
            None => r == Err::<(), Fault>(Fault::Malformed),
        },
    decreases old(f)@.len(), 1nat,
{
    let ghost c = f@;
    let ghost t0 = context.tracks@;
    let total = f.remaining();
    let mut content = f.window(total);
    f.exhaust();
    assert(content@ =~= c);
    loop
        invariant_except_break
            c == old(f)@,
            t0 == old(context).tracks@,
            f@.len() == 0,
            content@.len() <= c.len(),
            total == c.len(),
            children_outcome(c, t0) == shift(
                (c.len() - content@.len()) as nat,
                children_outcome(content@, context.tracks@),
            ),
        ensures
            c == old(f)@,
            t0 == old(context).tracks@,
            f@.len() == 0,
            content@.len() <= c.len(),
            total == c.len(),
            children_outcome(c, t0) == Some(
                ((c.len() - content@.len()) as nat, context.tracks@),
            ),
        decreases content@.len(),
    {
        let ghost before = content@;
        let ghost tracks = context.tracks@;
        proof {
            lemma_box_bounds(before, tracks);
        }
        match parse_box(&mut content, context) {
            Ok(()) => {
                proof {
                    if let BoxOutcome::Parsed(k, t2) = box_outcome(before, tracks) {
                        assert(content@ == before.skip(k as int));
                    }
                }
            },
            Err(Fault::Eof) => {
                break ;
            },
            Err(Fault::Malformed) => {
                return Err(Fault::Malformed);
            },
        }
    }
    let position = total - content.remaining();
    if position as u64 != h.size - h.offset {
        return Err(Fault::Malformed);
    }
    Ok(())
}

/// Reads the contents of a box that holds no other boxes.
fn read_leaf(content: &mut ByteReader, h: &BoxHeader, context: &mut MediaContext) -> (r: Result<
    (),
    Fault,
>)
    requires
        h.offset <= h.size,
    ensures
        engine_agrees(r, old(content)@, final(content)@, leaf_step(old(content)@, *h, old(context).tracks@)),
        final(context).tracks@ == if r is Ok {
            leaf_tracks(old(content)@, *h, old(context).tracks@)
        } else {
            old(context).tracks@
        },
{
    let ghost c = content@;
    proof {
        reveal(leaf_step);
    }
    let res: Result<(), Fault> = if h.name == FTYP {
        let r = parse_ftyp(content, h);
        drop_value(r, Ghost(c), Ghost(content@), Ghost(ftyp_step(c, *h)))
    } else if h.name == MVHD {
        let r = parse_mvhd(content, h);
        drop_value(r, Ghost(c), Ghost(content@), Ghost(mvhd_step(c, *h)))
    } else if h.name == TKHD {
        let r = parse_tkhd(content, h);
        drop_value(r, Ghost(c), Ghost(content@), Ghost(tkhd_step(c, *h)))
    } else if h.name == ELST {
        let r = parse_elst(content, h);
        drop_value(r, Ghost(c), Ghost(content@), Ghost(elst_step(c, *h)))
    } else if h.name == MDHD {
        let r = parse_mdhd(content, h);
        drop_value(r, Ghost(c), Ghost(content@), Ghost(mdhd_step(c, *h)))
    } else if h.name == STCO {
        let r = parse_stco(content, h);
        drop_value(r, Ghost(c), Ghost(content@), Ghost(stco_step(c, *h)))
    } else if h.name == CO64 {
        let r = parse_co64(content, h);
        drop_value(r, Ghost(c), Ghost(content@), Ghost(co64_step(c, *h)))
    } else if h.name == STSS {
        let r = parse_stss(content, h);
        drop_value(r, Ghost(c), Ghost(content@), Ghost(stss_step(c, *h)))
    } else if h.name == STSC {
        let r = parse_stsc(content, h);
        drop_value(r, Ghost(c), Ghost(content@), Ghost(stsc_step(c, *h)))
    } else if h.name == STSZ {
        let r = parse_stsz(content, h);
        drop_value(r, Ghost(c), Ghost(content@), Ghost(stsz_step(c, *h)))
    } else if h.name == STTS {
        let r = parse_stts(content, h);
        drop_value(r, Ghost(c), Ghost(content@), Ghost(stts_step(c, *h)))
    } else if h.name == HDLR {
        match parse_hdlr(content, h) {
            Ok(hdlr) => {
                // Ignore unrecognized track types.
                if hdlr.handler_type == VIDE {
                    context.tracks.push(Track { track_type: TrackType::Video });
                } else if hdlr.handler_type == SOUN {
                    context.tracks.push(Track { track_type: TrackType::Audio });
                }
                Ok(())
            },
            Err(e) => Err(e),
        }
    } else if h.name == STSD {
        if context.tracks.len() == 0 {
            Err(Fault::Malformed)
        } else {
            let track = context.tracks[context.tracks.len() - 1];
            let r = parse_stsd(content, h, &track);
            drop_value(r, Ghost(c), Ghost(content@), Ghost(stsd_step(c, *h, track)))
        }
    } else {
        // Skip the contents of unknown chunks.
        let r = skip_u64(content, h.size - h.offset);
        drop_value(r, Ghost(c), Ghost(content@), Ghost(skip_step(c, content_len(*h))))
    };
    res
}

/// Reads one box: its header, then its contents.
pub(crate) fn parse_box(f: &mut ByteReader, context: &mut MediaContext) -> (r: Result<(), Fault>)
    ensures
        box_agrees(
            r,
            old(f)@,
            final(f)@,
            old(context).tracks@,
            final(context).tracks@,
            box_outcome(old(f)@, old(context).tracks@),
        ),
    decreases old(f)@.len(), 0nat,
{
    let ghost s = f@;
    let ghost t0 = context.tracks@;
    proof {
        lemma_box_bounds(s, t0);
    }
    let h = match parse_box_header(f) {
        Ok(h) => h,
        Err(e) => {
            if e == Fault::Eof {
                assert(f@ =~= s.skip(s.len() as int));
            }
            return Err(e);
        },
    };
    let ghost hl = h.offset as nat;
    let ghost rest = s.skip(hl as int);
    assert(f@ == rest);
    let mut content = limit(f, &h);
    let ghost c = content@;
    let n = content.remaining();
    let res: Result<(), Fault> = if h.name == MOOV || h.name == TRAK || h.name == EDTS || h.name
        == MDIA || h.name == MINF || h.name == STBL {
        proof {
            lemma_children_bound(c, t0);
        }
        recurse(&mut content, &h, context)
    } else {
        read_leaf(&mut content, &h, context)
    };
    if let Err(Fault::Malformed) = res {
        return Err(Fault::Malformed);
    }
    let used = n - content.remaining();
    f.advance(used);
    assert(f@ =~= s.skip(hl + used));
    match res {
        Err(e) => {
            return Err(e);
        },
        Ok(()) => {},
    }
    if used as u64 != h.size - h.offset {
        return Err(Fault::Malformed);
    }
    assert(f@ =~= s.skip(hl + n));
    Ok(())
}

/// The contents that a box without nested boxes uses up lie within what
/// it was given.
pub proof fn lemma_leaf_within(c: Seq<u8>, h: BoxHeader, tracks: Seq<Track>)
    ensures
        leaf_step(c, h, tracks) matches Step::Done(_, k) ==> k <= c.len(),
{
    reveal(leaf_step);
    if h.name == HDLR && c.len() >= 24 {
        assert(remaining_skip_len(c.skip(24), h) <= c.len() - 24);
    }
    if h.name == STSD && c.len() >= 8 && tracks.len() > 0 {
        lemma_entries_within(c.skip(8), be32(c, 4), tracks.last().track_type, h);
    }
}

/// A box that is read uses up exactly the size that its header declares.
pub proof fn lemma_box_consumes_its_size(s: Seq<u8>, tracks: Seq<Track>)
    ensures
        box_outcome(s, tracks) matches BoxOutcome::Parsed(k, _) ==> (header_step(s) matches Step::Done(
            h,
            _,
        ) && k == h.size),
{
    lemma_box_bounds(s, tracks);
    if let Step::Done(h, hl) = header_step(s) {
        let rest = s.skip(hl as int);
        let n = remaining_skip_len(rest, h);
        let c = rest.take(n as int);
        lemma_children_bound(c, tracks);
        lemma_leaf_within(c, h, tracks);
    }
}

/// Reading boxes keeps the tracks already found, in order, and only adds
/// tracks after them.
pub proof fn lemma_tracks_grow(s: Seq<u8>, tracks: Seq<Track>)
    ensures
        box_outcome(s, tracks) matches BoxOutcome::Parsed(_, t2) ==> t2.len() >= tracks.len()
            && t2.subrange(0, tracks.len() as int) == tracks,
    decreases s.len(), 0nat,
{
    if let Step::Done(h, hl) = header_step(s) {
        if 8 <= hl <= s.len() && h.offset <= h.size {
            let rest = s.skip(hl as int);
            let n = remaining_skip_len(rest, h);
            let c = rest.take(n as int);
            if is_container(h.name) {
                lemma_children_tracks_grow(c, tracks);
            } else {
                assert(leaf_tracks(c, h, tracks).subrange(0, tracks.len() as int) =~= tracks);
            }
        }
    }
}

/// Reading the boxes of a container keeps the tracks already found, in
/// order, and only adds tracks after them.
pub proof fn lemma_children_tracks_grow(c: Seq<u8>, tracks: Seq<Track>)
    ensures
        children_outcome(c, tracks) matches Some((_, t2)) ==> t2.len() >= tracks.len()
            && t2.subrange(0, tracks.len() as int) == tracks,
    decreases c.len(), 1nat,
{
    lemma_tracks_grow(c, tracks);
    if let BoxOutcome::Parsed(k, t2) = box_outcome(c, tracks) {
        if 0 < k && k <= c.len() {
            lemma_children_tracks_grow(c.skip(k as int), t2);
            if let Some((_, t3)) = children_outcome(c.skip(k as int), t2) {
                assert(t3.subrange(0, tracks.len() as int) =~= t2.subrange(
                    0,
                    tracks.len() as int,
                ));
            }
        }
    }
}

/// A box that is read is read the same whatever follows it: its header says
/// where it ends.
pub proof fn lemma_box_ignores_what_follows(s: Seq<u8>, t: Seq<u8>, tracks: Seq<Track>)
    ensures
        box_outcome(s, tracks) is Parsed ==> box_outcome(s + t, tracks) == box_outcome(s, tracks),
{
    if box_outcome(s, tracks) is Parsed {
        lemma_box_bounds(s, tracks);
        lemma_box_consumes_its_size(s, tracks);
        lemma_header_ignores_what_follows(s, t);
        if let Step::Done(h, hl) = header_step(s) {
            let st = s + t;
            let rest = s.skip(hl as int);
            let rest2 = st.skip(hl as int);
            let n = remaining_skip_len(rest, h);
            assert(n == content_len(h));
            assert(remaining_skip_len(rest2, h) == n);
            assert(rest2.take(n as int) =~= rest.take(n as int));
        }
    }
}

/// Read the contents of a box, including sub boxes. Known boxes are parsed
/// and checked; a handler box of a video or audio track adds the track to
/// `context`.
pub fn read_box(f: &mut ByteReader, context: &mut MediaContext) -> (r: Result<(), Error>)
    requires
        !(box_outcome(old(f)@, old(context).tracks@) is Invalid),
    ensures
        match box_outcome(old(f)@, old(context).tracks@) {
            BoxOutcome::Parsed(k, t) => r is Ok && final(f)@ == old(f)@.skip(k as int)
                && final(context).tracks@ == t,
            BoxOutcome::Eof(k) => r is Err && final(f)@ == old(f)@.skip(k as int)
                && final(context).tracks@ == old(context).tracks@,
            BoxOutcome::Invalid => false,
        },
{
    match parse_box(f, context) {
        Ok(()) => Ok(()),
        Err(_) => Err(Error::UnexpectedEof),
    }
}

/// Reads the first box of `buffer` with no tracks known. The buffer is
/// accepted unless it is shorter than a box header or its first box is of a
/// kind that the parser does not handle; running out of data is no failure.
pub fn read_box_from_buffer(buffer: &[u8]) -> (ok: bool)
    ensures
        ok == (buffer@.len() >= 8 && !(box_outcome(buffer@, Seq::<Track>::empty()) is Invalid)),
{
    if buffer.len() < 8 {
        return false;
    }
    let mut c = ByteReader::new(buffer);
    let mut context = MediaContext { tracks: Vec::new() };
    assert(context.tracks@ =~= Seq::<Track>::empty());
    match parse_box(&mut c, &mut context) {
        Ok(()) => true,
        Err(Fault::Eof) => true,
        Err(Fault::Malformed) => false,
    }
}

/// An 'stsd' box is read with the type of the most recently found track:
/// reading it with any list of tracks goes exactly as reading it with that
/// last track alone, and leaves the list unchanged.
pub proof fn lemma_stsd_uses_last_track(s: Seq<u8>, tracks: Seq<Track>)
    requires
        tracks.len() > 0,
    ensures
        header_step(s) matches Step::Done(h, _) && h.name == STSD ==> match (
            box_outcome(s, tracks),
            box_outcome(s, seq![tracks.last()]),
        ) {
            (BoxOutcome::Parsed(k1, t1), BoxOutcome::Parsed(k2, t2)) => k1 == k2 && t1 == tracks
                && t2 == seq![tracks.last()],
            (BoxOutcome::Eof(k1), BoxOutcome::Eof(k2)) => k1 == k2,
            (BoxOutcome::Invalid, BoxOutcome::Invalid) => true,
            _ => false,
        },
{
    reveal(leaf_step);
    let one = seq![tracks.last()];
    assert(one.last() == tracks.last());
}

/// An 'stsd' box is not handled before any track has been found.
pub proof fn lemma_stsd_needs_a_track(s: Seq<u8>)
    ensures
        header_step(s) matches Step::Done(h, _) && h.name == STSD ==> box_outcome(
            s,
            Seq::<Track>::empty(),
        ) is Invalid,
{
    reveal(leaf_step);
}

/// A handler box that is read adds a video track where its handler type
/// (content bytes 8..12) is 'vide', an audio track where it is 'soun', and
/// nothing otherwise.
pub proof fn lemma_hdlr_adds_track(s: Seq<u8>, tracks: Seq<Track>)
    ensures
        match (header_step(s), box_outcome(s, tracks)) {
            (Step::Done(h, hl), BoxOutcome::Parsed(_, t2)) => h.name == HDLR ==> {
                let ht = be32(s, hl as int + 8);
                t2 == if ht == VIDE {
                    tracks.push(Track { track_type: TrackType::Video })
                } else if ht == SOUN {
                    tracks.push(Track { track_type: TrackType::Audio })
                } else {
                    tracks
                }
            },
            _ => true,
        },
{
    reveal(leaf_step);
    if let Step::Done(h, hl) = header_step(s) {
        if h.name == HDLR && 8 <= hl <= s.len() && h.offset <= h.size {
            let rest = s.skip(hl as int);
            let n = remaining_skip_len(rest, h);
            let c = rest.take(n as int);
            lemma_hdlr_fields(c, h);
            if c.len() >= 24 {
                assert(be32(c, 8) == be32(s, hl as int + 8));
            }
        }
    }
}

/// Boxes other than handler boxes and containers never change the tracks.
pub proof fn lemma_other_boxes_keep_tracks(s: Seq<u8>, tracks: Seq<Track>)
    ensures
        header_step(s) matches Step::Done(h, _) && h.name != HDLR && !is_container(h.name) ==> (
        box_outcome(s, tracks) matches BoxOutcome::Parsed(_, t2) ==> t2 == tracks),
{
}

/// A box of a type that is not known is skipped: it is read whole where all
/// of it is there, and otherwise the data runs out at its end.
pub proof fn lemma_unknown_box_is_skipped(s: Seq<u8>, tracks: Seq<Track>)
    ensures
        match header_step(s) {
            Step::Done(h, _) => (h.name != FTYP && h.name != MVHD && h.name != TKHD && h.name
                != ELST && h.name != MDHD && h.name != STCO && h.name != CO64 && h.name != STSS
                && h.name != STSC && h.name != STSZ && h.name != STTS && h.name != HDLR && h.name
                != STSD && h.name != MOOV && h.name != TRAK && h.name != EDTS && h.name != MDIA
                && h.name != MINF && h.name != STBL) ==> box_outcome(s, tracks) == if s.len()
                >= h.size {
                BoxOutcome::Parsed(h.size as nat, tracks)
            } else {
                BoxOutcome::Eof(s.len())
            },
            _ => true,
        },
{
    reveal(leaf_step);
    lemma_box_bounds(s, tracks);
}

/// The sizes of the boxes that are read, from their contents `b` (the bytes
/// after the header): an 'mvhd' box holds 100 content bytes in version 0 and
/// 112 in version 1; a 'tkhd' box 84 or 96; an 'mdhd' box 24 or 36; the
/// sample tables a full-box header, a count and that many entries of 4
/// ('stco', 'stss'), 8 ('co64', 'stts') or 12 ('stsc') bytes; an 'elst' box
/// entries of 12 or 20 bytes; an 'stsz' box a table of 4-byte sizes only
/// where its sample size is 0; an 'hdlr' box at least 24 bytes; an 'ftyp' box
/// 8 bytes and whole 4-byte brands.
#[verifier::rlimit(40)]
pub proof fn lemma_known_box_sizes(s: Seq<u8>, tracks: Seq<Track>)
    ensures
        match (header_step(s), box_outcome(s, tracks)) {
            (Step::Done(h, hl), BoxOutcome::Parsed(_, _)) => {
                let b = s.skip(hl as int);
                let full = h.size - h.offset;
                &&& h.name == MVHD ==> full == if b[0] == 1 {
                    112int
                } else {
                    100int
                }
                &&& h.name == TKHD ==> full == if b[0] == 1 {
                    96int
                } else {
                    84int
                }
                &&& h.name == MDHD ==> full == if b[0] == 1 {
                    36int
                } else {
                    24int
                }
                &&& h.name == STCO ==> full == 8 + 4 * be32(b, 4)
                &&& h.name == STSS ==> full == 8 + 4 * be32(b, 4)
                &&& h.name == CO64 ==> full == 8 + 8 * be32(b, 4)
                &&& h.name == STTS ==> full == 8 + 8 * be32(b, 4)
                &&& h.name == STSC ==> full == 8 + 12 * be32(b, 4)
                &&& (h.name == ELST && b[0] == 1) ==> full == 8 + 20 * be32(b, 4)
                &&& (h.name == ELST && b[0] != 1) ==> full == 8 + 12 * be32(b, 4)
                &&& (h.name == STSZ && be32(b, 4) == 0) ==> full == 12 + 4 * be32(b, 8)
                &&& (h.name == STSZ && be32(b, 4) != 0) ==> full == 12
                &&& h.name == HDLR ==> full >= 24
                &&& h.name == FTYP ==> full == 8 + 4 * ((h.size - 16) / 4)
            },
            _ => true,
        },
{
    reveal(leaf_step);
    lemma_box_bounds(s, tracks);
    lemma_box_consumes_its_size(s, tracks);
    if let (Step::Done(h, hl), BoxOutcome::Parsed(_, _)) = (header_step(s), box_outcome(s, tracks)) {
        let b = s.skip(hl as int);
        let n = remaining_skip_len(b, h);
        let c = b.take(n as int);
        assert(n == h.size - h.offset);
        if !is_container(h.name) && n >= 12 {
            assert(c[0] == b[0]);
            assert(be32(c, 4) == be32(b, 4));
            assert(be32(c, 8) == be32(b, 8));
        }
        lemma_ftyp_fields(c, h);
        lemma_mvhd_fields(c, h);
        lemma_tkhd_fields(c, h);
        lemma_mdhd_fields(c, h);
        lemma_hdlr_fields(c, h);
        lemma_elst_entries(c, h);
        lemma_stco_entries(c, h);
        lemma_co64_entries(c, h);
        lemma_stss_entries(c, h);
        lemma_stsc_entries(c, h);
        lemma_stsz_entries(c, h);
        lemma_stts_entries(c, h);
    }
}

/// A container box whose contents are exactly one box that is read ends with
/// the tracks that reading that inner box gives: the container adds none of
/// its own and loses none.
pub proof fn lemma_container_of_one_box(s: Seq<u8>, tracks: Seq<Track>)
    ensures
        match (header_step(s), box_outcome(s, tracks)) {
            (Step::Done(h, hl), BoxOutcome::Parsed(_, t2)) => {
                let c = s.skip(hl as int).take(h.size - h.offset);
                (h.name == MOOV || h.name == TRAK || h.name == EDTS || h.name == MDIA || h.name
                    == MINF || h.name == STBL) ==> match box_outcome(c, tracks) {
                    BoxOutcome::Parsed(m, t3) => m == c.len() ==> t2 == t3,
                    _ => true,
                }
            },
            _ => true,
        },
{
    lemma_box_bounds(s, tracks);
    lemma_box_consumes_its_size(s, tracks);
    if let (Step::Done(h, hl), BoxOutcome::Parsed(_, t2)) = (header_step(s), box_outcome(s, tracks)) {
        let c = s.skip(hl as int).take(h.size - h.offset);
        let rest = s.skip(hl as int);
        assert(remaining_skip_len(rest, h) == h.size - h.offset);
        if let BoxOutcome::Parsed(m, t3) = box_outcome(c, tracks) {
            if m == c.len() {
                lemma_box_bounds(c, tracks);
                let e = c.skip(m as int);
                assert(e.len() == 0);
                assert(box_outcome(e, t3) == BoxOutcome::Eof(0));
                assert(children_outcome(e, t3) == Some((0nat, t3)));
                assert(children_outcome(c, tracks) == Some((m, t3)));
            }
        }
    }
}

} // verus!
