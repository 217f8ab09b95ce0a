//! Parsing of ISO Base Media File Format (video/mp4) boxes.
//!
//! Every parser reads from a [`ByteReader`], a window over a byte slice. Each
//! public parser states, over the bytes that remain in the reader when it is
//! called, exactly what it returns, how many bytes it consumes and when it
//! reports an unexpected end of the data. Inputs that the parsers do not
//! handle (unknown versions, unsupported box sizes, truncated fixed blocks)
//! are ruled out by their preconditions; [`read_box_from_buffer`] decides for
//! any buffer whether its first box is one of them.

pub mod fourcc;
pub mod header;
pub mod movie;
pub mod reader;
pub mod sample_description;
pub mod sample_table;
pub mod tree;

pub use crate::fourcc::fourcc_to_string;
pub use crate::header::{
    limit, read_box_header, skip_box_content, skip_remaining_box_content, BoxHeader,
};
pub use crate::movie::{
    read_elst, read_ftyp, read_hdlr, read_mdhd, read_mvhd, read_tkhd, Edit, EditListBox,
    FileTypeBox, HandlerBox, MediaHeaderBox, MovieHeaderBox, TrackHeaderBox,
};
pub use crate::reader::{ByteReader, Error};
pub use crate::sample_description::{
    read_stsd, AVCDecoderConfigurationRecord, CleanApertureBox, ES_Descriptor,
    PixelAspectRatioBox, SampleDescriptionBox, SampleEntry, Track, TrackType,
};
pub use crate::sample_table::{
    read_co64, read_stco, read_stsc, read_stss, read_stsz, read_stts, ChunkOffsetBox, Sample,
    SampleSizeBox, SampleToChunk, SampleToChunkBox, SyncSampleBox, TimeToSampleBox,
};
pub use crate::tree::{read_box, read_box_from_buffer, MediaContext};
