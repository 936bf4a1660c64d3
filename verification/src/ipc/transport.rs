//! How messages and pictures are framed on the sockets between the gateway and its workers.
//!
//! A message is its length in four bytes and its text. A picture is a header of 17 bytes (width,
//! height, pitch, pixel format, length) and its pixels. Numbers are big-endian.
use crate::numbers::{decimal, decimal_of};
use crate::text::{join2, join3};
use crate::wire::{
    be32, be32_at, copy_range, law_be32_read_back, law_high_byte_comes_first, len_low32,
    lemma_be32_low, push_be32, push_bytes, read_be32,
};
use vstd::prelude::*;

verus! {

broadcast use crate::wire::group_number_lengths;

/// Why a message or a picture cannot be passed on.
#[derive(Debug)]
pub enum TransportError {
    /// The socket failed.
    Io(String),
    /// A message could not be written or read as text.
    Serialize(String),
    /// The other side has closed the connection.
    Closed,
    /// The other side announced more bytes than are accepted.
    FrameTooLarge(u32),
}

impl TransportError {
    /// The error in words.
    pub open spec fn words(self) -> Seq<char> {
        match self {
            TransportError::Io(why) => "IO error: "@ + why@,
            TransportError::Serialize(why) => "serialization error: "@ + why@,
            TransportError::Closed => "connection closed"@,
            TransportError::FrameTooLarge(len) => "frame too large: "@ + decimal(len as int)
                + " bytes"@,
        }
    }

    /// The error in words.
    pub fn message(&self) -> (text: String)
        ensures
            text@ == self.words(),
    {
        match self {
            TransportError::Io(why) => join2("IO error: ", why),
            TransportError::Serialize(why) => join2("serialization error: ", why),
            TransportError::Closed => "connection closed".to_owned(),
            TransportError::FrameTooLarge(len) => join3(
                "frame too large: ",
                &decimal_of(*len as u64),
                " bytes",
            ),
        }
    }
}

/// The most bytes that are accepted at once: 64 MiB.
pub const MAX_FRAME_SIZE: u32 = 67_108_864;

/// How long the length before a message is.
pub const LENGTH_SIZE: usize = 4;

/// How long the header of a picture is.
pub const PACKET_HEADER_SIZE: usize = 17;

/// A message on the wire.
pub open spec fn framed(payload: Seq<u8>) -> Seq<u8> {
    be32(payload.len() as int) + payload
}

/// What is accepted of an announced length.
pub open spec fn accepted(len: int) -> Result<int, int> {
    if len > MAX_FRAME_SIZE {
        Err(len)
    } else {
        Ok(len)
    }
}

/// A message with its length before it.
pub fn write_framed(payload: &[u8]) -> (bytes: Vec<u8>)
    ensures
        bytes@ == framed(payload@),
{
    let mut bytes: Vec<u8> = Vec::new();
    push_be32(&mut bytes, len_low32(payload.len()));
    push_bytes(&mut bytes, payload);
    proof {
        lemma_be32_low(payload@.len() as int);
    }
    assert(bytes@ =~= framed(payload@));
    bytes
}

/// The length that stands before a message, where it is accepted. A connection that ends within the
/// length is closed.
pub fn framed_length(bytes: &[u8]) -> (res: Result<u32, TransportError>)
    ensures
        bytes@.len() < LENGTH_SIZE ==> res matches Err(TransportError::Closed),
        bytes@.len() >= LENGTH_SIZE ==> match accepted(be32_at(bytes@, 0)) {
            Ok(n) => res matches Ok(len) && len == n,
            Err(n) => res matches Err(TransportError::FrameTooLarge(len)) && len == n,
        },
{
    if bytes.len() < LENGTH_SIZE {
        return Err(TransportError::Closed);
    }
    let len: u32 = read_be32(bytes, 0);
    if len > MAX_FRAME_SIZE {
        Err(TransportError::FrameTooLarge(len))
    } else {
        Ok(len)
    }
}

/// The first message of what has come in before the connection ended.
pub fn read_framed(bytes: &[u8]) -> (res: Result<Vec<u8>, TransportError>)
    ensures
        bytes@.len() < LENGTH_SIZE ==> res matches Err(TransportError::Closed),
        bytes@.len() >= LENGTH_SIZE ==> match accepted(be32_at(bytes@, 0)) {
            Ok(n) => if bytes@.len() < LENGTH_SIZE + n {
                res matches Err(TransportError::Closed)
            } else {
                res matches Ok(payload) && payload@ == bytes@.subrange(4, 4 + n)
            },
            Err(n) => res matches Err(TransportError::FrameTooLarge(len)) && len == n,
        },
{
    match framed_length(bytes) {
        Ok(len) => {
            if bytes.len() - LENGTH_SIZE < len as usize {
                Err(TransportError::Closed)
            } else {
                Ok(copy_range(bytes, LENGTH_SIZE, LENGTH_SIZE + len as usize))
            }
        },
        Err(e) => Err(e),
    }
}

/// A message of an accepted length is read back as it was written, whatever follows it.
pub proof fn law_message_read_back(payload: Seq<u8>, rest: Seq<u8>)
    requires
        payload.len() <= MAX_FRAME_SIZE,
    ensures
        ({
            let bytes = framed(payload) + rest;
            &&& bytes.len() >= LENGTH_SIZE + payload.len()
            &&& accepted(be32_at(bytes, 0)) == Ok::<int, int>(payload.len() as int)
            &&& bytes.subrange(4, 4 + payload.len() as int) == payload
        }),
{
    let bytes = framed(payload) + rest;
    assert(bytes.subrange(0, 4) =~= be32(payload.len() as int));
    law_be32_read_back(payload.len() as int, bytes, 0);
    assert(bytes.subrange(4, 4 + payload.len() as int) =~= payload);
}

/// A picture as a worker sends it. A pixel format of 0 stands for four bytes per pixel, 1 for two.
#[derive(Debug)]
pub struct RawFramePacket {
    pub width: u32,
    pub height: u32,
    pub pitch: u32,
    pub pixel_format: u8,
    pub data: Vec<u8>,
}

/// What stands before the pixels of a picture.
#[derive(Debug, Clone, Copy, PartialEq, Eq, Structural)]
pub struct PacketHeader {
    pub width: u32,
    pub height: u32,
    pub pitch: u32,
    pub pixel_format: u8,
    /// How many bytes of pixels follow.
    pub data_len: u32,
}

/// A picture on the wire.
pub open spec fn packet_bytes(
    width: u32,
    height: u32,
    pitch: u32,
    pixel_format: u8,
    data: Seq<u8>,
) -> Seq<u8> {
    be32(width as int) + be32(height as int) + be32(pitch as int) + seq![pixel_format] + be32(
        data.len() as int,
    ) + data
}

impl PacketHeader {
    /// Whether these are the fields at the start of `bytes`.
    pub open spec fn read_from(self, bytes: Seq<u8>) -> bool {
        &&& self.width == be32_at(bytes, 0)
        &&& self.height == be32_at(bytes, 4)
        &&& self.pitch == be32_at(bytes, 8)
        &&& self.pixel_format == bytes[12]
        &&& self.data_len == be32_at(bytes, 13)
    }

    /// Reads the header of a picture. A connection that ends within it is closed, and a picture that
    /// is too large is refused.
    pub fn parse(bytes: &[u8]) -> (res: Result<PacketHeader, TransportError>)
        ensures
            bytes@.len() < PACKET_HEADER_SIZE ==> res matches Err(TransportError::Closed),
            bytes@.len() >= PACKET_HEADER_SIZE ==> match accepted(be32_at(bytes@, 13)) {
                Ok(n) => res matches Ok(header) && header.read_from(bytes@),
                Err(n) => res matches Err(TransportError::FrameTooLarge(len)) && len == n,
            },
    {
        if bytes.len() < PACKET_HEADER_SIZE {
            return Err(TransportError::Closed);
        }
        let data_len: u32 = read_be32(bytes, 13);
        if data_len > MAX_FRAME_SIZE {
            return Err(TransportError::FrameTooLarge(data_len));
        }
        Ok(
            PacketHeader {
                width: read_be32(bytes, 0),
                height: read_be32(bytes, 4),
                pitch: read_be32(bytes, 8),
                pixel_format: bytes[12],
                data_len,
            },
        )
    }
}

impl RawFramePacket {
    /// The picture on the wire.
    pub fn encode(&self) -> (bytes: Vec<u8>)
        ensures
            bytes@ == packet_bytes(
                self.width,
                self.height,
                self.pitch,
                self.pixel_format,
                self.data@,
            ),
    {
        let mut bytes: Vec<u8> = Vec::new();
        push_be32(&mut bytes, self.width);
        push_be32(&mut bytes, self.height);
        push_be32(&mut bytes, self.pitch);
        bytes.push(self.pixel_format);
        push_be32(&mut bytes, len_low32(self.data.len()));
        push_bytes(&mut bytes, &self.data);
        proof {
            lemma_be32_low(self.data@.len() as int);
        }
        assert(bytes@ =~= packet_bytes(
            self.width,
            self.height,
            self.pitch,
            self.pixel_format,
            self.data@,
        ));
        bytes
    }

    /// The first picture of what has come in before the connection ended.
    pub fn decode(bytes: &[u8]) -> (res: Result<RawFramePacket, TransportError>)
        ensures
            bytes@.len() < PACKET_HEADER_SIZE ==> res matches Err(TransportError::Closed),
            bytes@.len() >= PACKET_HEADER_SIZE ==> match accepted(be32_at(bytes@, 13)) {
                Ok(n) => if bytes@.len() < PACKET_HEADER_SIZE + n {
                    res matches Err(TransportError::Closed)
                } else {
                    res matches Ok(packet) && packet.data@ == bytes@.subrange(17, 17 + n) && (
                    PacketHeader {
                        width: packet.width,
                        height: packet.height,
                        pitch: packet.pitch,
                        pixel_format: packet.pixel_format,
                        data_len: n as u32,
                    }).read_from(bytes@)
                },
                Err(n) => res matches Err(TransportError::FrameTooLarge(len)) && len == n,
            },
    {
        match PacketHeader::parse(bytes) {
            Ok(header) => {
                if bytes.len() - PACKET_HEADER_SIZE < header.data_len as usize {
                    return Err(TransportError::Closed);
                }
                let end: usize = PACKET_HEADER_SIZE + header.data_len as usize;
                Ok(
                    RawFramePacket {
                        width: header.width,
                        height: header.height,
                        pitch: header.pitch,
                        pixel_format: header.pixel_format,
                        data: copy_range(bytes, PACKET_HEADER_SIZE, end),
                    },
                )
            },
            Err(e) => Err(e),
        }
    }
}

/// A picture of an accepted length is read back as it was sent, whatever follows it.
#[verifier::rlimit(30)]
pub proof fn law_packet_read_back(
    width: u32,
    height: u32,
    pitch: u32,
    pixel_format: u8,
    data: Seq<u8>,
    rest: Seq<u8>,
)
    requires
        data.len() <= MAX_FRAME_SIZE,
    ensures
        ({
            let bytes = packet_bytes(width, height, pitch, pixel_format, data) + rest;
            &&& bytes.len() >= PACKET_HEADER_SIZE + data.len()
            &&& accepted(be32_at(bytes, 13)) == Ok::<int, int>(data.len() as int)
            &&& (PacketHeader { width, height, pitch, pixel_format, data_len: data.len() as u32 })
                .read_from(bytes)
            &&& bytes.subrange(17, 17 + data.len() as int) == data
        }),
{
    let bytes = packet_bytes(width, height, pitch, pixel_format, data) + rest;
    assert(bytes.subrange(0, 4) =~= be32(width as int));
    assert(bytes.subrange(4, 8) =~= be32(height as int));
    assert(bytes.subrange(8, 12) =~= be32(pitch as int));
    assert(bytes.subrange(13, 17) =~= be32(data.len() as int));
    law_be32_read_back(width as int, bytes, 0);
    law_be32_read_back(height as int, bytes, 4);
    law_be32_read_back(pitch as int, bytes, 8);
    law_be32_read_back(data.len() as int, bytes, 13);
    assert(bytes.subrange(17, 17 + data.len() as int) =~= data);
}

/// A message on the wire: its length in four bytes, the high byte first, and then the message.
pub proof fn law_message_on_the_wire(payload: Seq<u8>, i: int)
    requires
        payload.len() < 0x1_0000_0000,
    ensures
        ({
            let bytes = framed(payload);
            &&& bytes.len() == 4 + payload.len()
            &&& 16_777_216 * bytes[0] + 65_536 * bytes[1] + 256 * bytes[2] + bytes[3]
                == payload.len()
            &&& 0 <= i < payload.len() ==> bytes[4 + i] == payload[i]
        }),
{
    law_high_byte_comes_first(payload.len() as int);
}

/// Just the lengths up to 64 MiB are accepted.
pub proof fn law_lengths_up_to_64_mib_are_accepted(len: int)
    ensures
        accepted(len) is Ok <==> len <= 64 * 1024 * 1024,
        accepted(len) == Ok::<int, int>(len) || accepted(len) == Err::<int, int>(len),
{
}

/// A picture on the wire: width, height and pitch in four bytes each, one byte for the pixel format,
/// the length of the pixels in four bytes, and the pixels. Numbers have their high byte first.
pub proof fn law_packet_on_the_wire(
    width: u32,
    height: u32,
    pitch: u32,
    pixel_format: u8,
    data: Seq<u8>,
    i: int,
)
    requires
        data.len() < 0x1_0000_0000,
    ensures
        ({
            let bytes = packet_bytes(width, height, pitch, pixel_format, data);
            &&& bytes.len() == 17 + data.len()
            &&& 16_777_216 * bytes[0] + 65_536 * bytes[1] + 256 * bytes[2] + bytes[3] == width
            &&& 16_777_216 * bytes[4] + 65_536 * bytes[5] + 256 * bytes[6] + bytes[7] == height
            &&& 16_777_216 * bytes[8] + 65_536 * bytes[9] + 256 * bytes[10] + bytes[11] == pitch
            &&& bytes[12] == pixel_format
            &&& 16_777_216 * bytes[13] + 65_536 * bytes[14] + 256 * bytes[15] + bytes[16]
                == data.len()
            &&& 0 <= i < data.len() ==> bytes[17 + i] == data[i]
        }),
{
    law_high_byte_comes_first(width as int);
    law_high_byte_comes_first(height as int);
    law_high_byte_comes_first(pitch as int);
    law_high_byte_comes_first(data.len() as int);
}

/// What each error says.
pub proof fn law_errors_in_words(error: TransportError)
    ensures
        match error {
            TransportError::Io(why) => error.words() == "IO error: "@ + why@,
            TransportError::Serialize(why) => error.words() == "serialization error: "@ + why@,
            TransportError::Closed => error.words() == "connection closed"@,
            TransportError::FrameTooLarge(len) => error.words() == "frame too large: "@ + decimal(
                len as int,
            ) + " bytes"@,
        },
{
}

} // verus!
