//! The sample table boxes: 'stco', 'co64', 'stss', 'stsc', 'stsz' and 'stts'.
use crate::header::{read_fullbox_extra, BoxHeader};
use crate::movie::u32_table;
use crate::reader::{api_agrees, api_result, be32, be64, engine_agrees, ByteReader, Error, Fault, Step};
use vstd::prelude::*;

verus! {

/// Chunk offset box 'stco' or 'co64'
#[derive(Debug)]
pub struct ChunkOffsetBox {
    pub name: u32,
    pub size: u64,
    pub offsets: Vec<u64>,
}

/// The value of a [`ChunkOffsetBox`].
pub struct ChunkOffsetModel {
    pub name: u32,
    pub size: u64,
    pub offsets: Seq<u64>,
}

impl View for ChunkOffsetBox {
    type V = ChunkOffsetModel;

    open spec fn view(&self) -> ChunkOffsetModel {
        ChunkOffsetModel { name: self.name, size: self.size, offsets: self.offsets@ }
    }
}

/// An 'stco' box: version and flags, a count, then that many 32-bit offsets.
pub open spec fn stco_step(s: Seq<u8>, head: BoxHeader) -> Step<ChunkOffsetModel> {
    if s.len() < 8 || s.len() < 8 + 4 * be32(s, 4) {
        Step::Eof
    } else {
        let n = be32(s, 4);
        Step::Done(
            ChunkOffsetModel {
                name: head.name,
                size: head.size,
                offsets: Seq::new(n, |i: int| be32(s, 8 + 4 * i) as u64),
            },
            8 + 4 * n,
        )
    }
}

pub(crate) fn parse_stco(src: &mut ByteReader, head: &BoxHeader) -> (r: Result<
    ChunkOffsetBox,
    Fault,
>)
    ensures
        engine_agrees(r, old(src)@, final(src)@, stco_step(old(src)@, *head)),
{
    let ghost s = src@;
    let (_, _) = read_fullbox_extra(src)?;
    let offset_count = src.read_u32()?;
    assert(src@ =~= s.skip(8));
    let mut offsets: Vec<u64> = Vec::new();
    let mut i: u32 = 0;
    while i < offset_count
        invariant
            s == old(src)@,
            offset_count == be32(s, 4),
            i <= offset_count,
            s.len() >= 8 + 4 * i,
            src@ == s.skip(8 + 4 * i),
            offsets@ == Seq::new(i as nat, |j: int| be32(s, 8 + 4 * j) as u64),
        decreases offset_count - i,
    {
        let v = src.read_u32()?;
        offsets.push(v as u64);
        i = i + 1;
        assert(src@ =~= s.skip(8 + 4 * i));
        assert(offsets@ =~= Seq::new(i as nat, |j: int| be32(s, 8 + 4 * j) as u64));
    }
    Ok(ChunkOffsetBox { name: head.name, size: head.size, offsets })
}

/// Parse a stco box.
pub fn read_stco(src: &mut ByteReader, head: &BoxHeader) -> (r: Result<ChunkOffsetBox, Error>)
    ensures
        api_agrees(r, old(src)@, final(src)@, stco_step(old(src)@, *head)),
{
    let ghost before = src@;
    let r = parse_stco(src, head);
    api_result(r, Ghost(before), Ghost(src@), Ghost(stco_step(before, *head)))
}

/// A 'co64' box: version and flags, a count, then that many 64-bit offsets.
pub open spec fn co64_step(s: Seq<u8>, head: BoxHeader) -> Step<ChunkOffsetModel> {
    if s.len() < 8 || s.len() < 8 + 8 * be32(s, 4) {
        Step::Eof
    } else {
        let n = be32(s, 4);
        Step::Done(
            ChunkOffsetModel {
                name: head.name,
                size: head.size,
                offsets: Seq::new(n, |i: int| be64(s, 8 + 8 * i) as u64),
            },
            8 + 8 * n,
        )
    }
}

pub(crate) fn parse_co64(src: &mut ByteReader, head: &BoxHeader) -> (r: Result<
    ChunkOffsetBox,
    Fault,
>)
    ensures
        engine_agrees(r, old(src)@, final(src)@, co64_step(old(src)@, *head)),
{
    let ghost s = src@;
    let (_, _) = read_fullbox_extra(src)?;
    let offset_count = src.read_u32()?;
    assert(src@ =~= s.skip(8));
    let mut offsets: Vec<u64> = Vec::new();
    let mut i: u32 = 0;
    while i < offset_count
        invariant
            s == old(src)@,
            offset_count == be32(s, 4),
            i <= offset_count,
            s.len() >= 8 + 8 * i,
            src@ == s.skip(8 + 8 * i),
            offsets@ == Seq::new(i as nat, |j: int| be64(s, 8 + 8 * j) as u64),
        decreases offset_count - i,
    {
        let v = src.read_u64()?;
        offsets.push(v);
        i = i + 1;
        assert(src@ =~= s.skip(8 + 8 * i));
        assert(offsets@ =~= Seq::new(i as nat, |j: int| be64(s, 8 + 8 * j) as u64));
    }
    Ok(ChunkOffsetBox { name: head.name, size: head.size, offsets })
}

/// Parse a co64 box.
pub fn read_co64(src: &mut ByteReader, head: &BoxHeader) -> (r: Result<ChunkOffsetBox, Error>)
    ensures
        api_agrees(r, old(src)@, final(src)@, co64_step(old(src)@, *head)),
{
    let ghost before = src@;
    let r = parse_co64(src, head);
    api_result(r, Ghost(before), Ghost(src@), Ghost(co64_step(before, *head)))
}

/// Sync sample box 'stss'
#[derive(Debug)]
pub struct SyncSampleBox {
    pub name: u32,
    pub size: u64,
    pub samples: Vec<u32>,
}

/// The value of a [`SyncSampleBox`].
pub struct SyncSampleModel {
    pub name: u32,
    pub size: u64,
    pub samples: Seq<u32>,
}

impl View for SyncSampleBox {
    type V = SyncSampleModel;

    open spec fn view(&self) -> SyncSampleModel {
        SyncSampleModel { name: self.name, size: self.size, samples: self.samples@ }
    }
}

/// An 'stss' box: version and flags, a count, then that many sample numbers.
pub open spec fn stss_step(s: Seq<u8>, head: BoxHeader) -> Step<SyncSampleModel> {
    if s.len() < 8 || s.len() < 8 + 4 * be32(s, 4) {
        Step::Eof
    } else {
        let n = be32(s, 4);
        Step::Done(
            SyncSampleModel { name: head.name, size: head.size, samples: u32_table(s, 8, n) },
            8 + 4 * n,
        )
    }
}

/// Reads `count` big-endian 32-bit values.
fn read_u32_table(src: &mut ByteReader, count: u32) -> (r: Result<Vec<u32>, Fault>)
    ensures
        old(src)@.len() >= 4 * count ==> (r matches Ok(v) && v@ == u32_table(old(src)@, 0, count as nat))
            && final(src)@ == old(src)@.skip(4 * count),
        old(src)@.len() < 4 * count ==> r == Err::<Vec<u32>, Fault>(Fault::Eof) && final(src)@.len() == 0,
{
    let ghost s = src@;
    let mut values: Vec<u32> = Vec::new();
    let mut i: u32 = 0;
    assert(src@ =~= s.skip(0));
    while i < count
        invariant
            s == old(src)@,
            i <= count,
            s.len() >= 4 * i,
            src@ == s.skip(4 * i),
            values@ == u32_table(s, 0, i as nat),
        decreases count - i,
    {
        let v = src.read_u32()?;
        values.push(v);
        i = i + 1;
        assert(src@ =~= s.skip(4 * i));
        assert(values@ =~= u32_table(s, 0, i as nat));
    }
    Ok(values)
}

pub(crate) fn parse_stss(src: &mut ByteReader, head: &BoxHeader) -> (r: Result<
    SyncSampleBox,
    Fault,
>)
    ensures
        engine_agrees(r, old(src)@, final(src)@, stss_step(old(src)@, *head)),
{
    let ghost s = src@;
    let (_, _) = read_fullbox_extra(src)?;
    let sample_count = src.read_u32()?;
    assert(src@ =~= s.skip(8));
    let samples = read_u32_table(src, sample_count)?;
    assert(samples@ =~= u32_table(s, 8, sample_count as nat));
    assert(src@ =~= s.skip(8 + 4 * sample_count));
    Ok(SyncSampleBox { name: head.name, size: head.size, samples })
}

/// Parse a stss box.
pub fn read_stss(src: &mut ByteReader, head: &BoxHeader) -> (r: Result<SyncSampleBox, Error>)
    ensures
        api_agrees(r, old(src)@, final(src)@, stss_step(old(src)@, *head)),
{
    let ghost before = src@;
    let r = parse_stss(src, head);
    api_result(r, Ghost(before), Ghost(src@), Ghost(stss_step(before, *head)))
}

/// One entry of a sample to chunk table.
#[derive(Debug, Clone, Copy, PartialEq, Eq, Structural)]
pub struct SampleToChunk {
    pub first_chunk: u32,
    pub samples_per_chunk: u32,
    pub sample_description_index: u32,
}

/// Sample to chunk box 'stsc'
#[derive(Debug)]
pub struct SampleToChunkBox {
    pub name: u32,
    pub size: u64,
    pub samples: Vec<SampleToChunk>,
}

/// The value of a [`SampleToChunkBox`].
pub struct SampleToChunkModel {
    pub name: u32,
    pub size: u64,
    pub samples: Seq<SampleToChunk>,
}

impl View for SampleToChunkBox {
    type V = SampleToChunkModel;

    open spec fn view(&self) -> SampleToChunkModel {
        SampleToChunkModel { name: self.name, size: self.size, samples: self.samples@ }
    }
}

/// The sample to chunk entry that starts at `p`.
pub open spec fn stsc_entry_at(s: Seq<u8>, p: int) -> SampleToChunk {
    SampleToChunk {
        first_chunk: be32(s, p) as u32,
        samples_per_chunk: be32(s, p + 4) as u32,
        sample_description_index: be32(s, p + 8) as u32,
    }
}

/// An 'stsc' box: version and flags, a count, then that many 12-byte entries.
pub open spec fn stsc_step(s: Seq<u8>, head: BoxHeader) -> Step<SampleToChunkModel> {
    if s.len() < 8 || s.len() < 8 + 12 * be32(s, 4) {
        Step::Eof
    } else {
        let n = be32(s, 4);
        Step::Done(
            SampleToChunkModel {
                name: head.name,
                size: head.size,
                samples: Seq::new(n, |i: int| stsc_entry_at(s, 8 + 12 * i)),
            },
            8 + 12 * n,
        )
    }
}

pub(crate) fn parse_stsc(src: &mut ByteReader, head: &BoxHeader) -> (r: Result<
    SampleToChunkBox,
    Fault,
>)
    ensures
        engine_agrees(r, old(src)@, final(src)@, stsc_step(old(src)@, *head)),
{
    let ghost s = src@;
    let (_, _) = read_fullbox_extra(src)?;
    let sample_count = src.read_u32()?;
    assert(src@ =~= s.skip(8));
    let mut samples: Vec<SampleToChunk> = Vec::new();
    let mut i: u32 = 0;
    while i < sample_count
        invariant
            s == old(src)@,
            sample_count == be32(s, 4),
            i <= sample_count,
            s.len() >= 8 + 12 * i,
            src@ == s.skip(8 + 12 * i),
            samples@ == Seq::new(i as nat, |j: int| stsc_entry_at(s, 8 + 12 * j)),
        decreases sample_count - i,
    {
        let first_chunk = src.read_u32()?;
        let samples_per_chunk = src.read_u32()?;
        let sample_description_index = src.read_u32()?;
        assert(src@ =~= s.skip(8 + 12 * i + 12));
        samples.push(SampleToChunk { first_chunk, samples_per_chunk, sample_description_index });
        i = i + 1;
        assert(samples@ =~= Seq::new(i as nat, |j: int| stsc_entry_at(s, 8 + 12 * j)));
    }
    Ok(SampleToChunkBox { name: head.name, size: head.size, samples })
}

/// Parse a stsc box.
pub fn read_stsc(src: &mut ByteReader, head: &BoxHeader) -> (r: Result<SampleToChunkBox, Error>)
    ensures
        api_agrees(r, old(src)@, final(src)@, stsc_step(old(src)@, *head)),
{
    let ghost before = src@;
    let r = parse_stsc(src, head);
    api_result(r, Ghost(before), Ghost(src@), Ghost(stsc_step(before, *head)))
}

/// Sample size box 'stsz'
#[derive(Debug)]
pub struct SampleSizeBox {
    pub name: u32,
    pub size: u64,
    pub sample_size: u32,
    pub sample_sizes: Vec<u32>,
}

/// The value of a [`SampleSizeBox`].
pub struct SampleSizeModel {
    pub name: u32,
    pub size: u64,
    pub sample_size: u32,
    pub sample_sizes: Seq<u32>,
}

impl View for SampleSizeBox {
    type V = SampleSizeModel;

    open spec fn view(&self) -> SampleSizeModel {
        SampleSizeModel {
            name: self.name,
            size: self.size,
            sample_size: self.sample_size,
            sample_sizes: self.sample_sizes@,
        }
    }
}

/// An 'stsz' box: version and flags, a sample size, a count, then, only where
/// the sample size is 0, that many per-sample sizes.
pub open spec fn stsz_step(s: Seq<u8>, head: BoxHeader) -> Step<SampleSizeModel> {
    if s.len() < 12 {
        Step::Eof
    } else {
        let sample_size = be32(s, 4);
        let n = if sample_size == 0 {
            be32(s, 8)
        } else {
            0
        };
        if s.len() < 12 + 4 * n {
            Step::Eof
        } else {
            Step::Done(
                SampleSizeModel {
                    name: head.name,
                    size: head.size,
                    sample_size: sample_size as u32,
                    sample_sizes: u32_table(s, 12, n),
                },
                12 + 4 * n,
            )
        }
    }
}

pub(crate) fn parse_stsz(src: &mut ByteReader, head: &BoxHeader) -> (r: Result<
    SampleSizeBox,
    Fault,
>)
    ensures
        engine_agrees(r, old(src)@, final(src)@, stsz_step(old(src)@, *head)),
{
    let ghost s = src@;
    let (_, _) = read_fullbox_extra(src)?;
    let sample_size = src.read_u32()?;
    let sample_count = src.read_u32()?;
    assert(src@ =~= s.skip(12));
    let mut sample_sizes: Vec<u32> = Vec::new();
    if sample_size == 0 {
        sample_sizes = read_u32_table(src, sample_count)?;
        assert(src@ =~= s.skip(12 + 4 * sample_count));
    }
    assert(sample_sizes@ =~= u32_table(s, 12, if sample_size == 0 { sample_count as nat } else { 0 }));
    Ok(SampleSizeBox { name: head.name, size: head.size, sample_size, sample_sizes })
}

/// Parse a stsz box.
pub fn read_stsz(src: &mut ByteReader, head: &BoxHeader) -> (r: Result<SampleSizeBox, Error>)
    ensures
        api_agrees(r, old(src)@, final(src)@, stsz_step(old(src)@, *head)),
{
    let ghost before = src@;
    let r = parse_stsz(src, head);
    api_result(r, Ghost(before), Ghost(src@), Ghost(stsz_step(before, *head)))
}

/// One entry of a time to sample table.
#[derive(Debug, Clone, Copy, PartialEq, Eq, Structural)]
pub struct Sample {
    pub sample_count: u32,
    pub sample_delta: u32,
}

/// Time to sample box 'stts'
#[derive(Debug)]
pub struct TimeToSampleBox {
    pub name: u32,
    pub size: u64,
    pub samples: Vec<Sample>,
}

/// The value of a [`TimeToSampleBox`].
pub struct TimeToSampleModel {
    pub name: u32,
    pub size: u64,
    pub samples: Seq<Sample>,
}

impl View for TimeToSampleBox {
    type V = TimeToSampleModel;

    open spec fn view(&self) -> TimeToSampleModel {
        TimeToSampleModel { name: self.name, size: self.size, samples: self.samples@ }
    }
}

/// The time to sample entry that starts at `p`.
pub open spec fn stts_entry_at(s: Seq<u8>, p: int) -> Sample {
    Sample { sample_count: be32(s, p) as u32, sample_delta: be32(s, p + 4) as u32 }
}

/// An 'stts' box: version and flags, a count, then that many 8-byte entries.
pub open spec fn stts_step(s: Seq<u8>, head: BoxHeader) -> Step<TimeToSampleModel> {
    if s.len() < 8 || s.len() < 8 + 8 * be32(s, 4) {
        Step::Eof
    } else {
        let n = be32(s, 4);
        Step::Done(
            TimeToSampleModel {
                name: head.name,
                size: head.size,
                samples: Seq::new(n, |i: int| stts_entry_at(s, 8 + 8 * i)),
            },
            8 + 8 * n,
        )
    }
}

pub(crate) fn parse_stts(src: &mut ByteReader, head: &BoxHeader) -> (r: Result<
    TimeToSampleBox,
    Fault,
>)
    ensures
        engine_agrees(r, old(src)@, final(src)@, stts_step(old(src)@, *head)),
{
    let ghost s = src@;
    let (_, _) = read_fullbox_extra(src)?;
    let sample_count = src.read_u32()?;
    assert(src@ =~= s.skip(8));
    let mut samples: Vec<Sample> = Vec::new();
    let mut i: u32 = 0;
    while i < sample_count
        invariant
            s == old(src)@,
            sample_count == be32(s, 4),
            i <= sample_count,
            s.len() >= 8 + 8 * i,
            src@ == s.skip(8 + 8 * i),
            samples@ == Seq::new(i as nat, |j: int| stts_entry_at(s, 8 + 8 * j)),
        decreases sample_count - i,
    {
        let count = src.read_u32()?;
        let delta = src.read_u32()?;
        assert(src@ =~= s.skip(8 + 8 * i + 8));
        samples.push(Sample { sample_count: count, sample_delta: delta });
        i = i + 1;
        assert(samples@ =~= Seq::new(i as nat, |j: int| stts_entry_at(s, 8 + 8 * j)));
    }
    Ok(TimeToSampleBox { name: head.name, size: head.size, samples })
}

/// Parse a stts box.
pub fn read_stts(src: &mut ByteReader, head: &BoxHeader) -> (r: Result<TimeToSampleBox, Error>)
    ensures
        api_agrees(r, old(src)@, final(src)@, stts_step(old(src)@, *head)),
{
    let ghost before = src@;
    let r = parse_stts(src, head);
    api_result(r, Ghost(before), Ghost(src@), Ghost(stts_step(before, *head)))
}

/// The offsets of an 'stco' box, in file order: as many as content bytes
/// 4..8 say, offset `i` being the 32-bit value at `8 + 4i`.
pub proof fn lemma_stco_entries(s: Seq<u8>, head: BoxHeader)
    ensures
        stco_step(s, head) matches Step::Done(m, k) ==> {
            &&& m.name == head.name && m.size == head.size
            &&& m.offsets.len() == be32(s, 4) && k == 8 + 4 * m.offsets.len()
            &&& forall|i: int| 0 <= i < m.offsets.len() ==> #[trigger] m.offsets[i] == be32(s, 8 + 4 * i)
        },
{
}

/// The offsets of a 'co64' box, in file order: as many as content bytes
/// 4..8 say, offset `i` being the 64-bit value at `8 + 8i`.
pub proof fn lemma_co64_entries(s: Seq<u8>, head: BoxHeader)
    ensures
        co64_step(s, head) matches Step::Done(m, k) ==> {
            &&& m.name == head.name && m.size == head.size
            &&& m.offsets.len() == be32(s, 4) && k == 8 + 8 * m.offsets.len()
            &&& forall|i: int| 0 <= i < m.offsets.len() ==> #[trigger] m.offsets[i] == be64(s, 8 + 8 * i)
        },
{
}

/// The sample numbers of an 'stss' box, in file order: as many as content
/// bytes 4..8 say, number `i` being the 32-bit value at `8 + 4i`.
pub proof fn lemma_stss_entries(s: Seq<u8>, head: BoxHeader)
    ensures
        stss_step(s, head) matches Step::Done(m, k) ==> {
            &&& m.name == head.name && m.size == head.size
            &&& m.samples.len() == be32(s, 4) && k == 8 + 4 * m.samples.len()
            &&& forall|i: int| 0 <= i < m.samples.len() ==> #[trigger] m.samples[i] == be32(s, 8 + 4 * i)
        },
{
}

/// The entries of an 'stsc' box, in file order: as many as content bytes
/// 4..8 say, entry `i` holding the first chunk at `8 + 12i`, the samples per
/// chunk at `12 + 12i` and the sample description index at `16 + 12i`.
pub proof fn lemma_stsc_entries(s: Seq<u8>, head: BoxHeader)
    ensures
        stsc_step(s, head) matches Step::Done(m, k) ==> {
            &&& m.name == head.name && m.size == head.size
            &&& m.samples.len() == be32(s, 4) && k == 8 + 12 * m.samples.len()
            &&& forall|i: int|
                0 <= i < m.samples.len() ==> {
                    &&& (#[trigger] m.samples[i]).first_chunk == be32(s, 8 + 12 * i)
                    &&& m.samples[i].samples_per_chunk == be32(s, 12 + 12 * i)
                    &&& m.samples[i].sample_description_index == be32(s, 16 + 12 * i)
                }
        },
{
}

/// An 'stsz' box: the sample size is content bytes 4..8; where it is 0, as
/// many per-sample sizes follow as bytes 8..12 say, size `i` at `12 + 4i`;
/// otherwise there are none and only 12 bytes are read.
pub proof fn lemma_stsz_entries(s: Seq<u8>, head: BoxHeader)
    ensures
        stsz_step(s, head) matches Step::Done(m, k) ==> {
            &&& m.name == head.name && m.size == head.size
            &&& m.sample_size == be32(s, 4)
            &&& m.sample_size != 0 ==> m.sample_sizes.len() == 0 && k == 12
            &&& m.sample_size == 0 ==> m.sample_sizes.len() == be32(s, 8) && k == 12 + 4
                * m.sample_sizes.len()
            &&& forall|i: int|
                0 <= i < m.sample_sizes.len() ==> #[trigger] m.sample_sizes[i] == be32(s, 12 + 4 * i)
        },
{
}

/// The entries of an 'stts' box, in file order: as many as content bytes
/// 4..8 say, entry `i` holding the sample count at `8 + 8i` and the sample
/// delta at `12 + 8i`.
pub proof fn lemma_stts_entries(s: Seq<u8>, head: BoxHeader)
    ensures
        stts_step(s, head) matches Step::Done(m, k) ==> {
            &&& m.name == head.name && m.size == head.size
            &&& m.samples.len() == be32(s, 4) && k == 8 + 8 * m.samples.len()
            &&& forall|i: int|
                0 <= i < m.samples.len() ==> {
                    &&& (#[trigger] m.samples[i]).sample_count == be32(s, 8 + 8 * i)
                    &&& m.samples[i].sample_delta == be32(s, 12 + 8 * i)
                }
        },
{
}

} // verus!
