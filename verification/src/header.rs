//! Box headers, the extra fields of a full box, and skipping over content.
use crate::reader::{api_agrees, api_result, be32, be64, engine_agrees, ByteReader, Error, Fault, Step};
use vstd::prelude::*;

verus! {

/// Basic ISO box structure.
#[derive(Debug, Clone, Copy, PartialEq, Eq, Structural)]
pub struct BoxHeader {
    /// Four character box type
    pub name: u32,
    /// Size of the box in bytes
    pub size: u64,
    /// Offset to the start of the contained data (or header size).
    pub offset: u64,
}

impl View for BoxHeader {
    type V = BoxHeader;

    open spec fn view(&self) -> BoxHeader {
        *self
    }
}

/// The header at the start of `s`: a 32-bit size and a 32-bit type, then,
/// where the size field is 1, a 64-bit size. A size field of 0 (a box that runs
/// to the end of the data), one of 2 to 7, and a 64-bit size under 16 are not
/// handled.
pub open spec fn header_step(s: Seq<u8>) -> Step<BoxHeader> {
    if s.len() < 8 {
        Step::Eof
    } else {
        let size32 = be32(s, 0);
        let name = be32(s, 4) as u32;
        if size32 == 0 || (2 <= size32 && size32 <= 7) {
            Step::Invalid
        } else if size32 == 1 {
            if s.len() < 16 {
                Step::Eof
            } else if be64(s, 8) < 16 {
                Step::Invalid
            } else {
                Step::Done(BoxHeader { name, size: be64(s, 8) as u64, offset: 16 }, 16)
            }
        } else {
            Step::Done(BoxHeader { name, size: size32 as u64, offset: 8 }, 8)
        }
    }
}

/// A header as the parser yields them: its offset is the length of the header
/// itself, 8 or 16 bytes, and lies within the box.
pub open spec fn header_wf(h: BoxHeader) -> bool {
    (h.offset == 8 || h.offset == 16) && h.offset <= h.size
}

/// Every header that `header_step` yields is well formed and consumes exactly
/// its own offset.
pub proof fn lemma_header_wf(s: Seq<u8>)
    ensures
        header_step(s) matches Step::Done(h, n) ==> header_wf(h) && n == h.offset,
{
}

/// Where the fields of a header sit: the type is bytes 4..8; a size field
/// (bytes 0..4) of 1 means the size is the 64-bit value in bytes 8..16 and
/// the header is 16 bytes long; any other accepted size field is the size
/// itself and the header is 8 bytes long. Sizes under 8 are never accepted.
pub proof fn lemma_header_fields(s: Seq<u8>)
    ensures
        header_step(s) matches Step::Done(h, k) ==> {
            &&& h.name == be32(s, 4) && h.size >= 8 && h.offset == k
            &&& be32(s, 0) == 1 ==> h.size == be64(s, 8) && k == 16
            &&& be32(s, 0) != 1 ==> h.size == be32(s, 0) && k == 8
        },
{
}

/// A header that is read is read the same whatever follows it.
pub proof fn lemma_header_ignores_what_follows(s: Seq<u8>, t: Seq<u8>)
    ensures
        header_step(s) is Done ==> header_step(s + t) == header_step(s),
{
    if header_step(s) is Done {
        let st = s + t;
        assert(st[0] == s[0] && st[1] == s[1] && st[2] == s[2] && st[3] == s[3]);
        assert(st[4] == s[4] && st[5] == s[5] && st[6] == s[6] && st[7] == s[7]);
        if be32(s, 0) == 1 {
            assert(st[8] == s[8] && st[9] == s[9] && st[10] == s[10] && st[11] == s[11]);
            assert(st[12] == s[12] && st[13] == s[13] && st[14] == s[14] && st[15] == s[15]);
        }
    }
}

pub(crate) fn parse_box_header(src: &mut ByteReader) -> (r: Result<BoxHeader, Fault>)
    ensures
        engine_agrees(r, old(src)@, final(src)@, header_step(old(src)@)),
{
    let ghost s = src@;
    let size32 = src.read_u32()?;
    let name = src.read_u32()?;
    assert(src@ =~= s.skip(8));
    let size: u64 = if size32 == 0 {
        return Err(Fault::Malformed);
    } else if size32 == 1 {
        let size64 = src.read_u64()?;
        assert(src@ =~= s.skip(16));
        if size64 < 16 {
            return Err(Fault::Malformed);
        }
        size64
    } else if size32 <= 7 {
        return Err(Fault::Malformed);
    } else {
        size32 as u64
    };
    let offset: u64 = if size32 == 1 { 16 } else { 8 };
    Ok(BoxHeader { name, size, offset })
}

/// Parse a box out of a data buffer.
pub fn read_box_header(src: &mut ByteReader) -> (r: Result<BoxHeader, Error>)
    requires
        !(header_step(old(src)@) is Invalid),
    ensures
        api_agrees(r, old(src)@, final(src)@, header_step(old(src)@)),
        r matches Ok(h) ==> header_wf(h),
{
    let ghost before = src@;
    let r = parse_box_header(src);
    api_result(r, Ghost(before), Ghost(src@), Ghost(header_step(before)))
}

/// The version and the 24-bit flags that follow the header of a full box.
pub open spec fn fullbox_step(s: Seq<u8>) -> Step<(u8, u32)> {
    if s.len() < 4 {
        Step::Eof
    } else {
        Step::Done((s[0], (s[1] as nat * 0x1_0000 + s[2] as nat * 0x100 + s[3] as nat) as u32), 4)
    }
}

/// Parse the extra header fields for a full box.
pub(crate) fn read_fullbox_extra(src: &mut ByteReader) -> (r: Result<(u8, u32), Fault>)
    ensures
        engine_agrees(r, old(src)@, final(src)@, fullbox_step(old(src)@)),
{
    let ghost s = src@;
    let version = src.read_u8()?;
    let flags_a = src.read_u8()?;
    let flags_b = src.read_u8()?;
    let flags_c = src.read_u8()?;
    assert(src@ =~= s.skip(4));
    Ok((version, (flags_a as u32) * 0x1_0000 + (flags_b as u32) * 0x100 + (flags_c as u32)))
}

/// Skipping `n` bytes: they are consumed if there are that many, else the
/// data ends.
pub open spec fn skip_step(s: Seq<u8>, n: nat) -> Step<usize> {
    if s.len() < n {
        Step::Eof
    } else {
        Step::Done(n as usize, n)
    }
}

/// Skip a number of bytes that we don't care to parse.
pub(crate) fn skip(src: &mut ByteReader, bytes: usize) -> (r: Result<usize, Fault>)
    ensures
        engine_agrees(r, old(src)@, final(src)@, skip_step(old(src)@, bytes as nat)),
{
    if src.remaining() < bytes {
        src.exhaust();
        return Err(Fault::Eof);
    }
    src.advance(bytes);
    Ok(bytes)
}

/// Reading a block of `n` bytes in one call, where the caller insists on
/// getting all of them: with fewer than `n` left the data is not handled.
pub open spec fn block_step(s: Seq<u8>, n: nat) -> Step<()> {
    if s.len() < n {
        Step::Invalid
    } else {
        Step::Done((), n)
    }
}

/// Reads and drops a block of `bytes` bytes, all of which must be there.
pub(crate) fn discard_block(src: &mut ByteReader, bytes: usize) -> (r: Result<(), Fault>)
    ensures
        engine_agrees(r, old(src)@, final(src)@, block_step(old(src)@, bytes as nat)),
{
    if src.remaining() < bytes {
        return Err(Fault::Malformed);
    }
    src.advance(bytes);
    Ok(())
}

/// The number of content bytes that a box declares.
pub open spec fn content_len(h: BoxHeader) -> nat {
    (h.size - h.offset) as nat
}

/// Skips `n` bytes, a count that may exceed what a `usize` holds.
pub(crate) fn skip_u64(src: &mut ByteReader, n: u64) -> (r: Result<usize, Fault>)
    ensures
        engine_agrees(r, old(src)@, final(src)@, skip_step(old(src)@, n as nat)),
{
    if (src.remaining() as u64) < n {
        src.exhaust();
        return Err(Fault::Eof);
    }
    src.advance(n as usize);
    Ok(n as usize)
}

/// Reading a header and then skipping the content that it declares uses up
/// exactly the size that the header declares.
pub proof fn lemma_header_then_skip_is_whole_box(s: Seq<u8>)
    ensures
        header_step(s) matches Step::Done(h, hl) ==> (skip_step(s.skip(hl as int), content_len(h))
            matches Step::Done(_, n) ==> hl + n == h.size),
{
}

/// Skip over the entire contents of a box.
pub fn skip_box_content(src: &mut ByteReader, header: &BoxHeader) -> (r: Result<usize, Error>)
    requires
        header.offset <= header.size,
    ensures
        api_agrees(r, old(src)@, final(src)@, skip_step(old(src)@, content_len(*header))),
{
    let ghost before = src@;
    let r = skip_u64(src, header.size - header.offset);
    api_result(r, Ghost(before), Ghost(src@), Ghost(skip_step(before, content_len(*header))))
}

/// The bytes that skipping the rest of a box consumes: its declared content,
/// or all that remains where less remains.
pub open spec fn remaining_skip_len(s: Seq<u8>, h: BoxHeader) -> nat {
    if s.len() < content_len(h) {
        s.len()
    } else {
        content_len(h)
    }
}

/// Skip over the remaining contents of a box.
pub fn skip_remaining_box_content(src: &mut ByteReader, header: &BoxHeader) -> (r: Result<
    (),
    Error,
>)
    requires
        header.offset <= header.size,
    ensures
        r == Ok::<(), Error>(()),
        final(src)@ == old(src)@.skip(remaining_skip_len(old(src)@, *header) as int),
{
    match skip_u64(src, header.size - header.offset) {
        Ok(_) => {},
        Err(_) => {
            assert(src@ =~= old(src)@.skip(old(src)@.len() as int));
        },
    }
    Ok(())
}

/// Helper to construct a reader over the contents of a box: the next
/// `size - offset` bytes, or all that remain where fewer remain.
pub fn limit<'a>(f: &ByteReader<'a>, h: &BoxHeader) -> (r: ByteReader<'a>)
    requires
        h.offset <= h.size,
    ensures
        r@ == f@.take(remaining_skip_len(f@, *h) as int),
{
    let n = h.size - h.offset;
    let avail = f.remaining();
    if (avail as u64) < n {
        f.window(avail)
    } else {
        f.window(n as usize)
    }
}

} // verus!
