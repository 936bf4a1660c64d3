//! The framing of the picture stream that viewers receive.
//!
//! A frame is a header of 34 bytes, the metadata (JSON text, or nothing) and the payload. Every
//! number in the header is big-endian.
use crate::streaming::delta::{Grid, delta_records};
use crate::streaming::picture::{push_rect, rect_in_bounds, rect_rgba};
use crate::text::join2;
use crate::wire::{
    be16, be16_at, be32, be32_at, copy_range, law_be16_read_back, law_be32_read_back, len_low32,
    push_be16, push_be32, push_bytes, read_be32,
};
use std::io::Write;
use vstd::prelude::*;

pub mod flags;

pub use crate::streaming::control::{
    ClientMetrics, ViewerControl, parse_viewer_control_message,
};

verus! {

broadcast use crate::wire::group_number_lengths;

/// How many bytes stand before the metadata.
pub const STREAM_HEADER_SIZE: usize = 34;

/// The longest control message that is read.
pub const VIEWER_CONTROL_MAX_BYTES: usize = 4096;

/// The version of the framing.
pub const STREAM_FORMAT: u8 = 2;

/// The first bytes of each frame.
pub const MAGIC: [u8; 4] = [80, 83, 77, 71];

/// What a frame carries.
#[derive(Debug, Clone, Copy, PartialEq, Eq, Structural)]
pub enum StreamFrameType {
    /// A whole picture.
    Keyframe,
    /// The tiles that differ from the picture before.
    Delta,
    /// An H.264 access unit.
    H264,
}

impl StreamFrameType {
    /// The number of the type in the header.
    pub open spec fn number(self) -> u8 {
        match self {
            StreamFrameType::Keyframe => 1,
            StreamFrameType::Delta => 2,
            StreamFrameType::H264 => 3,
        }
    }

    /// The number of the type in the header.
    pub fn code(self) -> (n: u8)
        ensures
            n == self.number(),
    {
        match self {
            StreamFrameType::Keyframe => 1,
            StreamFrameType::Delta => 2,
            StreamFrameType::H264 => 3,
        }
    }
}

/// What a frame is made of.
#[derive(Debug)]
pub struct EncodeParams {
    pub frame_type: StreamFrameType,
    pub instance_index: u8,
    pub sequence: u32,
    pub timestamp_ms: u32,
    pub width: u16,
    pub height: u16,
    pub tile_size: u16,
    /// The size of the payload before compression.
    pub raw_bytes: u32,
    /// The metadata as JSON text, or nothing.
    pub metadata: Vec<u8>,
    pub payload: Vec<u8>,
}

/// The header of a frame. The two lengths stand there by their low 32 bits.
pub open spec fn header_bytes(
    frame_type: StreamFrameType,
    instance_index: u8,
    flags: u8,
    sequence: u32,
    timestamp_ms: u32,
    width: u16,
    height: u16,
    tile_size: u16,
    raw_bytes: u32,
    payload_len: nat,
    metadata_len: nat,
) -> Seq<u8> {
    MAGIC@ + seq![STREAM_FORMAT, frame_type.number(), instance_index, flags] + be32(
        sequence as int,
    ) + be32(timestamp_ms as int) + be16(width as int) + be16(height as int) + be16(
        tile_size as int,
    ) + be32(raw_bytes as int) + be32(payload_len as int) + be32(metadata_len as int)
}

impl EncodeParams {
    /// The frame on the wire.
    pub open spec fn frame(self, flags: u8) -> Seq<u8> {
        header_bytes(
            self.frame_type,
            self.instance_index,
            flags,
            self.sequence,
            self.timestamp_ms,
            self.width,
            self.height,
            self.tile_size,
            self.raw_bytes,
            self.payload@.len(),
            self.metadata@.len(),
        ) + self.metadata@ + self.payload@
    }
}

/// A frame with an H.264 access unit on the wire.
pub open spec fn h264_frame(
    nal_data: Seq<u8>,
    instance_index: u8,
    sequence: u32,
    timestamp_ms: u32,
    width: u16,
    height: u16,
) -> Seq<u8> {
    header_bytes(
        StreamFrameType::H264,
        instance_index,
        flags::H264_PAYLOAD,
        sequence,
        timestamp_ms,
        width,
        height,
        0,
        0,
        nal_data.len(),
        0,
    ) + nal_data
}

/// Why a message cannot be read.
#[derive(Debug)]
pub enum ProtocolError {
    /// The message is longer than is read.
    TooLarge,
    /// The message is malformed.
    InvalidJson(String),
    /// The message is of a type that nothing handles.
    UnknownType(String),
}

impl ProtocolError {
    /// The error in words.
    pub open spec fn words(self) -> Seq<char> {
        match self {
            ProtocolError::TooLarge => "message too large"@,
            ProtocolError::InvalidJson(why) => "invalid JSON: "@ + why@,
            ProtocolError::UnknownType(name) => "unknown message type: "@ + name@,
        }
    }

    /// The error in words.
    pub fn message(&self) -> (text: String)
        ensures
            text@ == self.words(),
    {
        match self {
            ProtocolError::TooLarge => "message too large".to_owned(),
            ProtocolError::InvalidJson(why) => join2("invalid JSON: ", why),
            ProtocolError::UnknownType(name) => join2("unknown message type: ", name),
        }
    }
}

fn push_frame(params: &EncodeParams, flags: u8) -> (buf: Vec<u8>)
    ensures
        buf@ == params.frame(flags),
{
    let mut buf: Vec<u8> = Vec::new();
    push_bytes(&mut buf, &MAGIC);
    buf.push(STREAM_FORMAT);
    buf.push(params.frame_type.code());
    buf.push(params.instance_index);
    buf.push(flags);
    assert(buf@ =~= MAGIC@ + seq![
        STREAM_FORMAT,
        params.frame_type.number(),
        params.instance_index,
        flags,
    ]);
    push_be32(&mut buf, params.sequence);
    push_be32(&mut buf, params.timestamp_ms);
    push_be16(&mut buf, params.width);
    push_be16(&mut buf, params.height);
    push_be16(&mut buf, params.tile_size);
    push_be32(&mut buf, params.raw_bytes);
    push_be32(&mut buf, len_low32(params.payload.len()));
    push_be32(&mut buf, len_low32(params.metadata.len()));
    proof {
        crate::wire::lemma_be32_low(params.payload@.len() as int);
        crate::wire::lemma_be32_low(params.metadata@.len() as int);
    }
    push_bytes(&mut buf, &params.metadata);
    push_bytes(&mut buf, &params.payload);
    buf
}

/// A frame whose payload is a raw DEFLATE stream.
pub fn encode_stream_frame(params: EncodeParams) -> (buf: Vec<u8>)
    ensures
        buf@ == params.frame(flags::DEFLATE_RAW),
{
    push_frame(&params, flags::DEFLATE_RAW)
}

/// A frame that carries an H.264 access unit: no tiles, no metadata, nothing compressed.
pub fn encode_h264_frame(
    nal_data: Vec<u8>,
    instance_index: u8,
    sequence: u32,
    timestamp_ms: u32,
    width: u16,
    height: u16,
) -> (buf: Vec<u8>)
    ensures
        buf@ == h264_frame(nal_data@, instance_index, sequence, timestamp_ms, width, height),
{
    let params = EncodeParams {
        frame_type: StreamFrameType::H264,
        instance_index,
        sequence,
        timestamp_ms,
        width,
        height,
        tile_size: 0,
        raw_bytes: 0,
        metadata: Vec::new(),
        payload: nal_data,
    };
    let buf = push_frame(&params, flags::H264_PAYLOAD);
    assert(buf@ =~= h264_frame(nal_data@, instance_index, sequence, timestamp_ms, width, height));
    buf
}

/// How hard payloads are compressed: the fastest way.
pub const DEFLATE_LEVEL: u32 = 1;

/// What `flate2::write::DeflateEncoder` makes of some bytes at a level of compression.
pub uninterp spec fn deflate_stream(data: Seq<u8>, level: u32) -> Seq<u8>;

/// Writes all of `data` into a `flate2::write::DeflateEncoder` over an empty vector and finishes the
/// stream. The result is a raw DEFLATE stream, which depends on the data and the level alone. Levels
/// go from 0 to 9.
#[verifier::external_body]
fn deflate_at(data: &[u8], level: u32) -> (out: Vec<u8>)
    requires
        level <= 9,
    ensures
        out@ == deflate_stream(data@, level),
{
    let level = flate2::Compression::new(level);
    let mut encoder = flate2::write::DeflateEncoder::new(Vec::new(), level);
    encoder.write_all(data).unwrap();
    encoder.finish().unwrap()
}

/// A compressed payload.
pub open spec fn deflated(data: Seq<u8>) -> Seq<u8> {
    deflate_stream(data, DEFLATE_LEVEL)
}

/// Compresses a payload.
pub fn deflate_raw(data: &[u8]) -> (out: Vec<u8>)
    ensures
        out@ == deflated(data@),
{
    deflate_at(data, DEFLATE_LEVEL)
}

/// The RGBA bytes of a whole picture.
pub fn keyframe_rgba(pixels: &[u8], width: u32, height: u32, pitch: u32) -> (rgba: Vec<u8>)
    requires
        rect_in_bounds(pixels@.len(), 0, 0, width as int, height as int, pitch as int),
    ensures
        rgba@ == rect_rgba(pixels@, 0, 0, width as int, height as int, pitch as int),
        rgba@.len() == width * height * 4,
        forall|i: int|
            0 <= i < rgba@.len() ==> #[trigger] rgba@[i] == if i % 4 == 3 {
                255u8
            } else {
                pixels@[i / 4 / (width as int) * pitch + i / 4 % (width as int) * 4 + 2 - i % 4]
            },
{
    assert(0 <= width * height) by (nonlinear_arith)
        requires
            0 <= width,
            0 <= height,
    ;
    let mut rgba: Vec<u8> = Vec::new();
    push_rect(&mut rgba, pixels, 0, 0, width, height, pitch);
    assert(rgba@ =~= rect_rgba(pixels@, 0, 0, width as int, height as int, pitch as int));
    rgba
}

/// The payload of a keyframe: the RGBA bytes of the picture, compressed.
pub fn encode_keyframe(pixels: &[u8], width: u32, height: u32, pitch: u32) -> (payload: Vec<u8>)
    requires
        rect_in_bounds(pixels@.len(), 0, 0, width as int, height as int, pitch as int),
    ensures
        payload@ == deflated(
            rect_rgba(pixels@, 0, 0, width as int, height as int, pitch as int),
        ),
{
    let rgba = keyframe_rgba(pixels, width, height, pitch);
    deflate_raw(&rgba)
}

/// The payload of a delta frame: the number of changed tiles and a record of each, compressed.
pub fn encode_delta(
    prev_pixels: &[u8],
    curr_pixels: &[u8],
    width: u32,
    height: u32,
    pitch: u32,
    tile_size: u32,
) -> (payload: Vec<u8>)
    requires
        tile_size > 0,
        Grid::of(width, height, pitch, tile_size).readable(prev_pixels@, curr_pixels@),
    ensures
        payload@ == deflated(
            Grid::of(width, height, pitch, tile_size).delta(prev_pixels@, curr_pixels@),
        ),
{
    match delta_records(prev_pixels, curr_pixels, width, height, pitch, tile_size) {
        Some(raw) => deflate_raw(&raw),
        None => Vec::new(),
    }
}

/// What a frame holds: its metadata and its payload.
pub open spec fn decoded_frame(bytes: Seq<u8>) -> Result<(Seq<u8>, Seq<u8>), &'static str> {
    let payload = be32_at(bytes, 26);
    let metadata = be32_at(bytes, 30);
    if bytes.len() < STREAM_HEADER_SIZE {
        Err("frame too short")
    } else if bytes.subrange(0, 4) != MAGIC@ {
        Err("invalid magic")
    } else if bytes[4] != STREAM_FORMAT {
        Err("invalid format")
    } else if bytes.len() != STREAM_HEADER_SIZE + metadata + payload {
        Err("length mismatch")
    } else {
        Ok(
            (
                bytes.subrange(STREAM_HEADER_SIZE as int, STREAM_HEADER_SIZE + metadata),
                bytes.skip(STREAM_HEADER_SIZE + metadata),
            ),
        )
    }
}

fn malformed<T>(why: &'static str) -> (res: Result<T, ProtocolError>)
    ensures
        res matches Err(ProtocolError::InvalidJson(text)) && text@ == why@,
{
    Err(ProtocolError::InvalidJson(why.to_owned()))
}

/// Splits a frame into its metadata (JSON text, or nothing) and its payload.
pub fn decode_stream_frame(bytes: &[u8]) -> (res: Result<(Vec<u8>, Vec<u8>), ProtocolError>)
    ensures
        match decoded_frame(bytes@) {
            Ok((metadata, payload)) => res matches Ok(parts) && parts.0@ == metadata && parts.1@
                == payload,
            Err(why) => res matches Err(ProtocolError::InvalidJson(text)) && text@ == why@,
        },
{
    if bytes.len() < STREAM_HEADER_SIZE {
        return malformed("frame too short");
    }
    if !(bytes[0] == MAGIC[0] && bytes[1] == MAGIC[1] && bytes[2] == MAGIC[2] && bytes[3]
        == MAGIC[3]) {
        proof {
            let s = bytes@.subrange(0, 4);
            assert(s[0] == bytes[0] && s[1] == bytes[1] && s[2] == bytes[2] && s[3] == bytes[3]);
        }
        return malformed("invalid magic");
    }
    assert(bytes@.subrange(0, 4) =~= MAGIC@);
    if bytes[4] != STREAM_FORMAT {
        return malformed("invalid format");
    }
    let payload_bytes: u32 = read_be32(bytes, 26);
    let metadata_bytes: u32 = read_be32(bytes, 30);
    if bytes.len() as u64 != 34 + metadata_bytes as u64 + payload_bytes as u64 {
        return malformed("length mismatch");
    }
    let payload_start: usize = STREAM_HEADER_SIZE + metadata_bytes as usize;
    let metadata = copy_range(bytes, STREAM_HEADER_SIZE, payload_start);
    let payload = copy_range(bytes, payload_start, bytes.len());
    Ok((metadata, payload))
}

/// Ten fields of the sizes that a header has, one after the other.
#[verifier::rlimit(30)]
proof fn lemma_fields(
    a: Seq<u8>,
    b: Seq<u8>,
    c: Seq<u8>,
    d: Seq<u8>,
    e: Seq<u8>,
    f: Seq<u8>,
    g: Seq<u8>,
    h: Seq<u8>,
    i: Seq<u8>,
    j: Seq<u8>,
)
    requires
        a.len() == 4,
        b.len() == 4,
        c.len() == 4,
        d.len() == 4,
        e.len() == 2,
        f.len() == 2,
        g.len() == 2,
        h.len() == 4,
        i.len() == 4,
        j.len() == 4,
    ensures
        ({
            let all = a + b + c + d + e + f + g + h + i + j;
            &&& all.len() == 34
            &&& all.subrange(0, 4) == a
            &&& all.subrange(4, 8) == b
            &&& all.subrange(8, 12) == c
            &&& all.subrange(12, 16) == d
            &&& all.subrange(16, 18) == e
            &&& all.subrange(18, 20) == f
            &&& all.subrange(20, 22) == g
            &&& all.subrange(22, 26) == h
            &&& all.subrange(26, 30) == i
            &&& all.subrange(30, 34) == j
        }),
{
    let all = a + b + c + d + e + f + g + h + i + j;
    assert(all.subrange(0, 4) =~= a);
    assert(all.subrange(4, 8) =~= b);
    assert(all.subrange(8, 12) =~= c);
    assert(all.subrange(12, 16) =~= d);
    assert(all.subrange(16, 18) =~= e);
    assert(all.subrange(18, 20) =~= f);
    assert(all.subrange(20, 22) =~= g);
    assert(all.subrange(22, 26) =~= h);
    assert(all.subrange(26, 30) =~= i);
    assert(all.subrange(30, 34) =~= j);
}

/// The single bytes of a header stand at their places, however long the frame is.
pub proof fn lemma_header_tags(
    frame_type: StreamFrameType,
    instance_index: u8,
    flags: u8,
    sequence: u32,
    timestamp_ms: u32,
    width: u16,
    height: u16,
    tile_size: u16,
    raw_bytes: u32,
    payload_len: nat,
    metadata_len: nat,
)
    ensures
        ({
            let header = header_bytes(
                frame_type,
                instance_index,
                flags,
                sequence,
                timestamp_ms,
                width,
                height,
                tile_size,
                raw_bytes,
                payload_len,
                metadata_len,
            );
            &&& header.len() == STREAM_HEADER_SIZE
            &&& header[5] == frame_type.number()
            &&& header[6] == instance_index
            &&& header[7] == flags
        }),
{
    let start = seq![STREAM_FORMAT, frame_type.number(), instance_index, flags];
    lemma_fields(
        MAGIC@,
        start,
        be32(sequence as int),
        be32(timestamp_ms as int),
        be16(width as int),
        be16(height as int),
        be16(tile_size as int),
        be32(raw_bytes as int),
        be32(payload_len as int),
        be32(metadata_len as int),
    );
    let header = header_bytes(
        frame_type,
        instance_index,
        flags,
        sequence,
        timestamp_ms,
        width,
        height,
        tile_size,
        raw_bytes,
        payload_len,
        metadata_len,
    );
    let tags = header.subrange(4, 8);
    assert(header[5] == tags[1] && header[6] == tags[2] && header[7] == tags[3]);
}

/// Each field of a frame stands at its place and can be read back, and the frame decodes to its
/// metadata and payload.
#[verifier::rlimit(30)]
pub proof fn law_frame_fields(
    frame_type: StreamFrameType,
    instance_index: u8,
    flags: u8,
    sequence: u32,
    timestamp_ms: u32,
    width: u16,
    height: u16,
    tile_size: u16,
    raw_bytes: u32,
    metadata: Seq<u8>,
    payload: Seq<u8>,
)
    requires
        metadata.len() < 0x1_0000_0000,
        payload.len() < 0x1_0000_0000,
    ensures
        ({
            let bytes = header_bytes(
                frame_type,
                instance_index,
                flags,
                sequence,
                timestamp_ms,
                width,
                height,
                tile_size,
                raw_bytes,
                payload.len(),
                metadata.len(),
            ) + metadata + payload;
            &&& bytes.len() == STREAM_HEADER_SIZE + metadata.len() + payload.len()
            &&& bytes.subrange(0, 4) == MAGIC@
            &&& bytes[4] == STREAM_FORMAT
            &&& bytes[5] == frame_type.number()
            &&& bytes[6] == instance_index
            &&& bytes[7] == flags
            &&& be32_at(bytes, 8) == sequence
            &&& be32_at(bytes, 12) == timestamp_ms
            &&& be16_at(bytes, 16) == width
            &&& be16_at(bytes, 18) == height
            &&& be16_at(bytes, 20) == tile_size
            &&& be32_at(bytes, 22) == raw_bytes
            &&& be32_at(bytes, 26) == payload.len()
            &&& be32_at(bytes, 30) == metadata.len()
            &&& decoded_frame(bytes) == Ok::<(Seq<u8>, Seq<u8>), &'static str>((metadata, payload))
        }),
{
    let header = header_bytes(
        frame_type,
        instance_index,
        flags,
        sequence,
        timestamp_ms,
        width,
        height,
        tile_size,
        raw_bytes,
        payload.len(),
        metadata.len(),
    );
    let start = seq![STREAM_FORMAT, frame_type.number(), instance_index, flags];
    lemma_fields(
        MAGIC@,
        start,
        be32(sequence as int),
        be32(timestamp_ms as int),
        be16(width as int),
        be16(height as int),
        be16(tile_size as int),
        be32(raw_bytes as int),
        be32(payload.len() as int),
        be32(metadata.len() as int),
    );
    law_be32_read_back(sequence as int, header, 8);
    law_be32_read_back(timestamp_ms as int, header, 12);
    law_be16_read_back(width as int, header, 16);
    law_be16_read_back(height as int, header, 18);
    law_be16_read_back(tile_size as int, header, 20);
    law_be32_read_back(raw_bytes as int, header, 22);
    law_be32_read_back(payload.len() as int, header, 26);
    law_be32_read_back(metadata.len() as int, header, 30);
    let tags = header.subrange(4, 8);
    assert(header[4] == tags[0] && header[5] == tags[1] && header[6] == tags[2] && header[7]
        == tags[3]);
    lemma_frame_splits(header, metadata, payload);
}

/// A frame splits where its header says.
proof fn lemma_frame_splits(header: Seq<u8>, metadata: Seq<u8>, payload: Seq<u8>)
    requires
        header.len() == STREAM_HEADER_SIZE,
        header.subrange(0, 4) == MAGIC@,
        header[4] == STREAM_FORMAT,
        be32_at(header, 26) == payload.len(),
        be32_at(header, 30) == metadata.len(),
    ensures
        ({
            let bytes = header + metadata + payload;
            &&& forall|i: int| 0 <= i < STREAM_HEADER_SIZE ==> bytes[i] == header[i]
            &&& bytes.subrange(0, 4) == MAGIC@
            &&& decoded_frame(bytes) == Ok::<(Seq<u8>, Seq<u8>), &'static str>((metadata, payload))
        }),
{
    let bytes = header + metadata + payload;
    let n = metadata.len() as int;
    assert(forall|i: int| 0 <= i < 34 ==> bytes[i] == header[i]);
    assert(bytes.subrange(0, 4) =~= header.subrange(0, 4));
    assert(bytes.subrange(34, 34 + n) =~= metadata);
    assert(bytes.skip(34 + n) =~= payload);
}

/// A frame with an H.264 access unit decodes to that unit, with no metadata.
pub proof fn law_h264_frame_decodes(
    nal_data: Seq<u8>,
    instance_index: u8,
    sequence: u32,
    timestamp_ms: u32,
    width: u16,
    height: u16,
)
    requires
        nal_data.len() < 0x1_0000_0000,
    ensures
        decoded_frame(
            h264_frame(nal_data, instance_index, sequence, timestamp_ms, width, height),
        ) == Ok::<(Seq<u8>, Seq<u8>), &'static str>((Seq::empty(), nal_data)),
{
    law_frame_fields(
        StreamFrameType::H264,
        instance_index,
        flags::H264_PAYLOAD,
        sequence,
        timestamp_ms,
        width,
        height,
        0,
        0,
        Seq::empty(),
        nal_data,
    );
    let header = header_bytes(
        StreamFrameType::H264,
        instance_index,
        flags::H264_PAYLOAD,
        sequence,
        timestamp_ms,
        width,
        height,
        0,
        0,
        nal_data.len(),
        0,
    );
    assert(header + Seq::empty() + nal_data =~= header + nal_data);
}

/// A frame that was encoded decodes to the metadata and the payload that went into it.
pub proof fn law_frame_decodes(params: EncodeParams, flags: u8)
    requires
        params.metadata@.len() < 0x1_0000_0000,
        params.payload@.len() < 0x1_0000_0000,
    ensures
        decoded_frame(params.frame(flags)) == Ok::<(Seq<u8>, Seq<u8>), &'static str>(
            (params.metadata@, params.payload@),
        ),
{
    law_frame_fields(
        params.frame_type,
        params.instance_index,
        flags,
        params.sequence,
        params.timestamp_ms,
        params.width,
        params.height,
        params.tile_size,
        params.raw_bytes,
        params.metadata@,
        params.payload@,
    );
}

/// A frame on the wire, byte by byte: `PSMG`, the version 2, what it carries (1 for a whole picture,
/// 2 for a difference, 3 for H.264), the number of the instance, the flags, then numbers with their
/// high byte first: the number and time of the picture, its width and height, the edge of a tile,
/// the size before compression, the lengths of payload and metadata; then the metadata and the
/// payload, and nothing else.
pub proof fn law_frame_on_the_wire(params: EncodeParams, flags: u8)
    requires
        params.metadata@.len() < 0x1_0000_0000,
        params.payload@.len() < 0x1_0000_0000,
    ensures
        ({
            let bytes = params.frame(flags);
            let m = params.metadata@.len() as int;
            &&& bytes.len() == 34 + m + params.payload@.len()
            &&& bytes[0] == 80 && bytes[1] == 83 && bytes[2] == 77 && bytes[3] == 71
            &&& bytes[4] == 2
            &&& params.frame_type is Keyframe ==> bytes[5] == 1
            &&& params.frame_type is Delta ==> bytes[5] == 2
            &&& params.frame_type is H264 ==> bytes[5] == 3
            &&& bytes[6] == params.instance_index
            &&& bytes[7] == flags
            &&& 16_777_216 * bytes[8] + 65_536 * bytes[9] + 256 * bytes[10] + bytes[11]
                == params.sequence
            &&& 16_777_216 * bytes[12] + 65_536 * bytes[13] + 256 * bytes[14] + bytes[15]
                == params.timestamp_ms
            &&& 256 * bytes[16] + bytes[17] == params.width
            &&& 256 * bytes[18] + bytes[19] == params.height
            &&& 256 * bytes[20] + bytes[21] == params.tile_size
            &&& 16_777_216 * bytes[22] + 65_536 * bytes[23] + 256 * bytes[24] + bytes[25]
                == params.raw_bytes
            &&& 16_777_216 * bytes[26] + 65_536 * bytes[27] + 256 * bytes[28] + bytes[29]
                == params.payload@.len()
            &&& 16_777_216 * bytes[30] + 65_536 * bytes[31] + 256 * bytes[32] + bytes[33] == m
            &&& forall|i: int| 0 <= i < m ==> #[trigger] params.metadata@[i] == bytes[34 + i]
            &&& forall|i: int|
                0 <= i < params.payload@.len() ==> #[trigger] params.payload@[i] == bytes[34 + m + i]
        }),
{
    law_frame_fields(
        params.frame_type,
        params.instance_index,
        flags,
        params.sequence,
        params.timestamp_ms,
        params.width,
        params.height,
        params.tile_size,
        params.raw_bytes,
        params.metadata@,
        params.payload@,
    );
    let bytes = params.frame(flags);
    let magic = bytes.subrange(0, 4);
    assert(magic[0] == bytes[0] && magic[1] == bytes[1] && magic[2] == bytes[2] && magic[3]
        == bytes[3]);
    lemma_header_tags(
        params.frame_type,
        params.instance_index,
        flags,
        params.sequence,
        params.timestamp_ms,
        params.width,
        params.height,
        params.tile_size,
        params.raw_bytes,
        params.payload@.len(),
        params.metadata@.len(),
    );
}

/// The flags of a frame tell what the payload is: 1 for a raw DEFLATE stream, 2 for H.264.
pub proof fn law_flags_on_the_wire()
    ensures
        flags::NONE == 0,
        flags::DEFLATE_RAW == 1,
        flags::H264_PAYLOAD == 2,
{
}

/// A frame with an H.264 unit is a frame that carries that unit as its payload: of type 3, with flag
/// 2, without tiles or metadata.
pub proof fn law_h264_frame_on_the_wire(
    params: EncodeParams,
)
    requires
        params.frame_type is H264,
        params.tile_size == 0,
        params.raw_bytes == 0,
        params.metadata@.len() == 0,
    ensures
        h264_frame(
            params.payload@,
            params.instance_index,
            params.sequence,
            params.timestamp_ms,
            params.width,
            params.height,
        ) == params.frame(2),
{
    assert(params.frame(2) =~= h264_frame(
        params.payload@,
        params.instance_index,
        params.sequence,
        params.timestamp_ms,
        params.width,
        params.height,
    ));
}

/// Bytes are a frame if and only if they start with `PSMG` and the version 2, have a whole header,
/// and are just as long as their header says; then they hold the metadata behind the header and the
/// payload behind the metadata.
pub proof fn law_frames_are_told_by_their_header(bytes: Seq<u8>)
    ensures
        ({
            let payload = 16_777_216 * bytes[26] + 65_536 * bytes[27] + 256 * bytes[28] + bytes[29];
            let m = 16_777_216 * bytes[30] + 65_536 * bytes[31] + 256 * bytes[32] + bytes[33];
            let decoded = decoded_frame(bytes);
            &&& decoded is Ok <==> bytes.len() >= 34 && bytes[0] == 80 && bytes[1] == 83 && bytes[2]
                == 77 && bytes[3] == 71 && bytes[4] == 2 && bytes.len() == 34 + m + payload
            &&& decoded is Ok ==> {
                &&& decoded->Ok_0.0.len() == m
                &&& decoded->Ok_0.1.len() == payload
                &&& forall|i: int| 0 <= i < m ==> #[trigger] decoded->Ok_0.0[i] == bytes[34 + i]
                &&& forall|i: int|
                    0 <= i < payload ==> #[trigger] decoded->Ok_0.1[i] == bytes[34 + m + i]
            }
        }),
{
    if bytes.len() >= 34 {
        let magic = bytes.subrange(0, 4);
        assert(magic[0] == bytes[0] && magic[1] == bytes[1] && magic[2] == bytes[2] && magic[3]
            == bytes[3]);
        if bytes[0] == 80 && bytes[1] == 83 && bytes[2] == 77 && bytes[3] == 71 {
            assert(magic =~= MAGIC@);
        }
    }
}

/// What each error says.
pub proof fn law_errors_in_words(error: ProtocolError)
    ensures
        match error {
            ProtocolError::TooLarge => error.words() == "message too large"@,
            ProtocolError::InvalidJson(why) => error.words() == "invalid JSON: "@ + why@,
            ProtocolError::UnknownType(name) => error.words() == "unknown message type: "@ + name@,
        },
{
}

} // verus!
