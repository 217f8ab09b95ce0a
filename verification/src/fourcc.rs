//! Four-character codes: box types, brands and handler types.
use vstd::prelude::*;

verus! {

/// File type box.
pub const FTYP: u32 = 0x6674_7970;

/// Movie box (a container).
pub const MOOV: u32 = 0x6d6f_6f76;

/// Movie header box.
pub const MVHD: u32 = 0x6d76_6864;

/// Track box (a container).
pub const TRAK: u32 = 0x7472_616b;

/// Track header box.
pub const TKHD: u32 = 0x746b_6864;

/// Edit box (a container).
pub const EDTS: u32 = 0x6564_7473;

/// Edit list box.
pub const ELST: u32 = 0x656c_7374;

/// Media box (a container).
pub const MDIA: u32 = 0x6d64_6961;

/// Media header box.
pub const MDHD: u32 = 0x6d64_6864;

/// Media information box (a container).
pub const MINF: u32 = 0x6d69_6e66;

/// Sample table box (a container).
pub const STBL: u32 = 0x7374_626c;

/// Chunk offset box, 32-bit offsets.
pub const STCO: u32 = 0x7374_636f;

/// Chunk offset box, 64-bit offsets.
pub const CO64: u32 = 0x636f_3634;

/// Sync sample box.
pub const STSS: u32 = 0x7374_7373;

/// Sample to chunk box.
pub const STSC: u32 = 0x7374_7363;

/// Sample size box.
pub const STSZ: u32 = 0x7374_737a;

/// Time to sample box.
pub const STTS: u32 = 0x7374_7473;

/// Handler reference box.
pub const HDLR: u32 = 0x6864_6c72;

/// Sample description box.
pub const STSD: u32 = 0x7374_7364;

/// Handler type of a video track.
pub const VIDE: u32 = 0x7669_6465;

/// Handler type of an audio track.
pub const SOUN: u32 = 0x736f_756e;

/// AVC video sample entry.
pub const AVC1: u32 = 0x6176_6331;

/// AVC decoder configuration box.
pub const AVCC: u32 = 0x6176_6343;

/// MPEG-4 audio sample entry.
pub const MP4A: u32 = 0x6d70_3461;

/// Elementary stream descriptor box.
pub const ESDS: u32 = 0x6573_6473;

/// The four bytes of a code, most significant first.
pub open spec fn fourcc_bytes(name: u32) -> Seq<u8> {
    seq![
        (name / 0x100_0000) as u8,
        (name / 0x1_0000 % 0x100) as u8,
        (name / 0x100 % 0x100) as u8,
        (name % 0x100) as u8,
    ]
}

/// Whether every byte of a code is ASCII.
pub open spec fn fourcc_is_ascii(name: u32) -> bool {
    forall|i: int| 0 <= i < 4 ==> #[trigger] fourcc_bytes(name)[i] < 0x80
}

/// The text that `String::from_utf8_lossy` makes of `bytes`: the UTF-8 text
/// that they encode, with U+FFFD in place of each invalid sequence.
pub uninterp spec fn utf8_lossy(bytes: Seq<u8>) -> Seq<char>;

/// Calls `String::from_utf8_lossy` and makes the result an owned `String`.
/// Trusted, not proved: the result is `utf8_lossy(bytes)`, and bytes that are
/// all ASCII come out one character each, unchanged. What it makes of other
/// bytes is left to the name.
#[verifier::external_body]
fn string_from_utf8_lossy(bytes: &[u8]) -> (s: String)
    ensures
        s@ == utf8_lossy(bytes@),
        (forall|i: int| 0 <= i < bytes@.len() ==> #[trigger] bytes@[i] < 0x80) ==> s@
            == bytes@.map_values(|b: u8| b as char),
{
    String::from_utf8_lossy(bytes).into_owned()
}

/// Convert the iso box type or other 4-character value to a string.
pub fn fourcc_to_string(name: u32) -> (s: String)
    ensures
        s@ == utf8_lossy(fourcc_bytes(name)),
        fourcc_is_ascii(name) ==> s@ == fourcc_bytes(name).map_values(|b: u8| b as char),
{
    let name_bytes: Vec<u8> = vec![
        (name / 0x100_0000) as u8,
        (name / 0x1_0000 % 0x100) as u8,
        (name / 0x100 % 0x100) as u8,
        (name % 0x100) as u8,
    ];
    assert(name_bytes@ =~= fourcc_bytes(name));
    string_from_utf8_lossy(name_bytes.as_slice())
}

} // verus!
