//! Pictures as H.264 access units.
//!
//! Every frame carries one NAL unit as its payload: no container, and no start codes. The frames of
//! one picture bear its number, and are sent in the order of the units: the parameter sets before
//! the slices of a key picture.
use crate::numbers::{decimal, decimal_of};
use crate::streaming::frame_hub::{PixelFormat, RawFrame};
use crate::streaming::picture::lemma_row_major_bound;
use crate::streaming::protocol::{
    StreamFrameType, encode_h264_frame, flags, h264_frame, header_bytes, law_frame_fields,
};
use crate::streaming::yuv::{
    YuvPlanes, blue_plane, law_brightness_is_per_pixel, law_colour_is_per_block, luma_plane,
    red_plane, xrgb8888_to_yuv420,
};
use crate::text::{join2, join3};
use crate::wire::{low16, low32, push_bytes};
use vstd::prelude::*;

verus! {

/// The bit rate that the encoder aims at.
pub const BITRATE_BPS: u32 = 500_000;

/// Why a picture could not be encoded.
#[derive(Debug)]
pub enum H264Error {
    /// There is no encoder.
    Init(String),
    /// The pixels are stored in another way than the encoder takes.
    UnsupportedPixelFormat(PixelFormat),
    /// The picture has another size than the encoder was made for.
    DimensionMismatch {
        expected_width: u32,
        expected_height: u32,
        actual_width: u32,
        actual_height: u32,
    },
    /// The encoder failed.
    Encode(String),
}

impl H264Error {
    /// The error in words.
    pub open spec fn words(self) -> Seq<char> {
        match self {
            H264Error::Init(why) => "encoder init failed: "@ + why@,
            H264Error::UnsupportedPixelFormat(format) => "unsupported pixel format: "@
                + match format {
                PixelFormat::XRGB8888 => "XRGB8888"@,
                PixelFormat::RGB565 => "RGB565"@,
            },
            H264Error::DimensionMismatch {
                expected_width,
                expected_height,
                actual_width,
                actual_height,
            } => "frame dimensions mismatch: expected "@ + decimal(expected_width as int) + "x"@
                + decimal(expected_height as int) + ", got "@ + decimal(actual_width as int) + "x"@
                + decimal(actual_height as int),
            H264Error::Encode(why) => "encode failed: "@ + why@,
        }
    }

    /// The error in words.
    pub fn message(&self) -> (text: String)
        ensures
            text@ == self.words(),
    {
        match self {
            H264Error::Init(why) => join2("encoder init failed: ", why),
            H264Error::UnsupportedPixelFormat(format) => match format {
                PixelFormat::XRGB8888 => join2("unsupported pixel format: ", "XRGB8888"),
                PixelFormat::RGB565 => join2("unsupported pixel format: ", "RGB565"),
            },
            H264Error::DimensionMismatch {
                expected_width,
                expected_height,
                actual_width,
                actual_height,
            } => {
                let start = join3(
                    "frame dimensions mismatch: expected ",
                    &decimal_of(*expected_width as u64),
                    "x",
                );
                let expected = join3(&start, &decimal_of(*expected_height as u64), ", got ");
                let width = join3(&expected, &decimal_of(*actual_width as u64), "x");
                join2(&width, &decimal_of(*actual_height as u64))
            },
            H264Error::Encode(why) => join2("encode failed: ", why),
        }
    }
}

/// The encoder of the crate `openh264`. Nothing is known of what is inside.
#[verifier::external_type_specification]
#[verifier::external_body]
pub struct ExEncoder(openh264::encoder::Encoder);

/// Makes an encoder with `openh264::encoder::Encoder::with_api_config`, built from source, at a given
/// bit rate. Whether that succeeds is up to the codec library.
#[verifier::external_body]
fn open_encoder(bitrate_bps: u32) -> (res: Result<openh264::encoder::Encoder, String>) {
    let config = openh264::encoder::EncoderConfig::new().set_bitrate_bps(bitrate_bps).debug(false);
    let api = openh264::OpenH264API::from_source();
    openh264::encoder::Encoder::with_api_config(api, config).map_err(|e| e.to_string())
}

/// Encodes a planar picture with `openh264::encoder::Encoder::encode` and hands back what
/// `EncodedBitStream::write_vec` writes: NAL units, each behind a start code. The bytes depend on
/// the pictures before, and nothing is promised of them. The planes must be as long as
/// `openh264::formats::YUVBuffer::from_vec` asks, which panics otherwise.
#[verifier::external_body]
fn run_encoder(
    encoder: &mut openh264::encoder::Encoder,
    planes: Vec<u8>,
    width: usize,
    height: usize,
) -> (res: Result<Vec<u8>, String>)
    requires
        width % 2 == 0,
        height % 2 == 0,
        3 * (width * height) <= usize::MAX,
        planes@.len() == 3 * (width * height) / 2,
{
    let picture = openh264::formats::YUVBuffer::from_vec(planes, width, height);
    let stream = encoder.encode(&picture).map_err(|e| e.to_string())?;
    let mut bytes = Vec::new();
    stream.write_vec(&mut bytes);
    Ok(bytes)
}

/// How long a start code stands at a place: four bytes, three, or none.
pub open spec fn start_code_len(stream: Seq<u8>, at: int) -> int {
    if at + 4 <= stream.len() && stream[at] == 0 && stream[at + 1] == 0 && stream[at + 2] == 0
        && stream[at + 3] == 1 {
        4
    } else if at + 3 <= stream.len() && stream[at] == 0 && stream[at + 1] == 0 && stream[at + 2]
        == 1 {
        3
    } else {
        0
    }
}

/// Whether no start code stands anywhere in some bytes.
pub open spec fn bare(bytes: Seq<u8>) -> bool {
    forall|i: int| 0 <= i < bytes.len() ==> #[trigger] start_code_len(bytes, i) == 0
}

/// Bytes without the zeros at their end.
pub open spec fn trimmed(bytes: Seq<u8>) -> Seq<u8>
    decreases bytes.len(),
{
    if bytes.len() > 0 && bytes.last() == 0 {
        trimmed(bytes.drop_last())
    } else {
        bytes
    }
}

/// Whether the next byte, if it is a one, makes a start code.
pub open spec fn awaits_one(bytes: Seq<u8>) -> bool {
    bytes.len() >= 2 && bytes[bytes.len() - 1] == 0 && bytes[bytes.len() - 2] == 0
}

/// The units that a stream of NAL units starts with, and the bytes since the last start code.
pub ghost struct Cut {
    pub done: Seq<Seq<u8>>,
    pub rest: Seq<u8>,
}

/// The units with one more, unless it is empty.
pub open spec fn with_unit(units: Seq<Seq<u8>>, unit: Seq<u8>) -> Seq<Seq<u8>> {
    if unit.len() == 0 {
        units
    } else {
        units.push(unit)
    }
}

/// A stream of NAL units, cut at its start codes. All zeros before a start code go with it, since no
/// unit ends with a zero.
pub open spec fn cut(stream: Seq<u8>) -> Cut
    decreases stream.len(),
{
    if stream.len() == 0 {
        Cut { done: Seq::empty(), rest: Seq::empty() }
    } else {
        let Cut { done, rest } = cut(stream.drop_last());
        if stream.last() == 1 && awaits_one(rest) {
            Cut { done: with_unit(done, trimmed(rest)), rest: Seq::empty() }
        } else {
            Cut { done, rest: rest.push(stream.last()) }
        }
    }
}

/// The units of a stream of NAL units.
pub open spec fn units_in(stream: Seq<u8>) -> Seq<Seq<u8>> {
    let Cut { done, rest } = cut(stream);
    with_unit(done, rest)
}

/// The contents of byte vectors.
pub open spec fn contents(units: Seq<Vec<u8>>) -> Seq<Seq<u8>> {
    Seq::new(units.len(), |i: int| units[i]@)
}

/// Whether units are such as can be sent: none is empty, and no start code stands in any of them.
pub open spec fn plain(units: Seq<Seq<u8>>) -> bool {
    forall|i: int| 0 <= i < units.len() ==> (#[trigger] units[i]).len() > 0 && bare(units[i])
}

proof fn lemma_bare_prefix(bytes: Seq<u8>)
    requires
        bare(bytes),
        bytes.len() > 0,
    ensures
        bare(bytes.drop_last()),
{
    let head = bytes.drop_last();
    assert forall|i: int| 0 <= i < head.len() implies #[trigger] start_code_len(head, i) == 0 by {
        assert(start_code_len(bytes, i) == 0);
    }
}

proof fn lemma_bare_push(bytes: Seq<u8>, byte: u8)
    requires
        bare(bytes),
        !(byte == 1 && awaits_one(bytes)),
    ensures
        bare(bytes.push(byte)),
{
    let all = bytes.push(byte);
    assert forall|i: int| 0 <= i < all.len() implies #[trigger] start_code_len(all, i) == 0 by {
        if i < bytes.len() {
            assert(start_code_len(bytes, i) == 0);
        }
    }
}

proof fn lemma_trimmed(bytes: Seq<u8>)
    ensures
        bare(bytes) ==> bare(trimmed(bytes)),
        trimmed(bytes).len() <= bytes.len(),
        trimmed(bytes).len() > 0 ==> trimmed(bytes).last() != 0,
    decreases bytes.len(),
{
    if bytes.len() > 0 && bytes.last() == 0 {
        if bare(bytes) {
            lemma_bare_prefix(bytes);
        }
        lemma_trimmed(bytes.drop_last());
    }
}

proof fn lemma_cut_is_plain(stream: Seq<u8>)
    ensures
        plain(cut(stream).done),
        bare(cut(stream).rest),
    decreases stream.len(),
{
    if stream.len() > 0 {
        lemma_cut_is_plain(stream.drop_last());
        let rest = cut(stream.drop_last()).rest;
        if stream.last() == 1 && awaits_one(rest) {
            lemma_trimmed(rest);
        } else {
            lemma_bare_push(rest, stream.last());
        }
    }
}

/// No start code is left of a stream, wherever it stood, and no unit is empty.
pub proof fn law_units_are_plain(stream: Seq<u8>)
    ensures
        plain(units_in(stream)),
{
    lemma_cut_is_plain(stream);
}

/// Cuts a stream of NAL units at its start codes.
pub fn split_units(stream: &[u8]) -> (units: Vec<Vec<u8>>)
    ensures
        contents(units@) == units_in(stream@),
        plain(contents(units@)),
{
    let mut units: Vec<Vec<u8>> = Vec::new();
    let mut rest: Vec<u8> = Vec::new();
    let mut at: usize = 0;
    assert(stream@.take(0) =~= Seq::empty());
    assert(contents(units@) =~= Seq::empty());
    while at < stream.len()
        invariant
            at <= stream@.len(),
            contents(units@) == cut(stream@.take(at as int)).done,
            rest@ == cut(stream@.take(at as int)).rest,
        decreases stream.len() - at,
    {
        assert(stream@.take(at + 1).drop_last() =~= stream@.take(at as int));
        let n: usize = rest.len();
        if stream[at] == 1 && n >= 2 && rest[n - 1] == 0 && rest[n - 2] == 0 {
            let ghost before = rest@;
            while rest.len() > 0 && rest[rest.len() - 1] == 0
                invariant
                    trimmed(rest@) == trimmed(before),
                decreases rest.len(),
            {
                let _ = rest.pop();
            }
            push_unit(&mut units, rest);
            rest = Vec::new();
        } else {
            rest.push(stream[at]);
        }
        at += 1;
    }
    assert(stream@.take(at as int) =~= stream@);
    push_unit(&mut units, rest);
    proof {
        law_units_are_plain(stream@);
    }
    units
}

fn push_unit(units: &mut Vec<Vec<u8>>, unit: Vec<u8>)
    ensures
        contents(final(units)@) == with_unit(contents(old(units)@), unit@),
{
    if unit.len() > 0 {
        let ghost before = units@;
        units.push(unit);
        assert(contents(units@) =~= contents(before).push(unit@));
    }
}

/// What stands before a unit in a stream: a start code of four bytes or three.
pub open spec fn start_code(long: bool) -> Seq<u8> {
    if long {
        seq![0u8, 0, 0, 1]
    } else {
        seq![0u8, 0, 1]
    }
}

/// A stream of NAL units, each behind a start code.
pub open spec fn stream_of(units: Seq<Seq<u8>>, long: Seq<bool>) -> Seq<u8>
    decreases units.len(),
{
    if units.len() == 0 {
        Seq::empty()
    } else {
        stream_of(units.drop_last(), long.drop_last()) + start_code(long.last()) + units.last()
    }
}

proof fn lemma_code_cuts(before: Seq<u8>, long: bool)
    ensures
        cut(before + start_code(long)) == (Cut {
            done: with_unit(cut(before).done, trimmed(cut(before).rest)),
            rest: Seq::empty(),
        }),
{
    let rest = cut(before).rest;
    let one = before.push(0);
    let two = one.push(0);
    let three = two.push(0);
    assert(one.drop_last() =~= before);
    assert(two.drop_last() =~= one);
    assert(three.drop_last() =~= two);
    assert(cut(one).rest == rest.push(0));
    assert(cut(two).rest == rest.push(0).push(0));
    assert(cut(three).rest == rest.push(0).push(0).push(0));
    assert(rest.push(0).drop_last() =~= rest);
    assert(rest.push(0).push(0).drop_last() =~= rest.push(0));
    assert(rest.push(0).push(0).push(0).drop_last() =~= rest.push(0).push(0));
    assert(trimmed(rest.push(0)) == trimmed(rest));
    assert(trimmed(rest.push(0).push(0)) == trimmed(rest));
    assert(trimmed(rest.push(0).push(0).push(0)) == trimmed(rest));
    if long {
        assert(before + start_code(long) =~= three.push(1));
        assert(three.push(1).drop_last() =~= three);
    } else {
        assert(before + start_code(long) =~= two.push(1));
        assert(two.push(1).drop_last() =~= two);
    }
}

proof fn lemma_unit_stays_whole(before: Seq<u8>, unit: Seq<u8>)
    requires
        cut(before).rest.len() == 0,
        bare(unit),
    ensures
        cut(before + unit) == (Cut { done: cut(before).done, rest: unit }),
    decreases unit.len(),
{
    if unit.len() == 0 {
        assert(before + unit =~= before);
        assert(cut(before).rest =~= unit);
    } else {
        let head = unit.drop_last();
        lemma_bare_prefix(unit);
        lemma_unit_stays_whole(before, head);
        assert((before + unit).drop_last() =~= before + head);
        if unit.last() == 1 && awaits_one(head) {
            assert(start_code_len(unit, unit.len() - 3) > 0);
        }
        assert(head.push(unit.last()) =~= unit);
    }
}

/// Units that stand behind start codes come back whole and in order. As the codec has it, no unit is
/// empty, ends with a zero or holds a start code.
pub proof fn law_units_come_back(units: Seq<Seq<u8>>, long: Seq<bool>)
    requires
        plain(units),
        forall|i: int| 0 <= i < units.len() ==> (#[trigger] units[i]).last() != 0,
        long.len() == units.len(),
    ensures
        units_in(stream_of(units, long)) == units,
    decreases units.len(),
{
    if units.len() == 0 {
        assert(units_in(stream_of(units, long)) =~= units);
    } else {
        let n = units.len() - 1;
        let fewer = units.drop_last();
        let unit = units[n];
        let before = stream_of(fewer, long.drop_last());
        assert forall|i: int| 0 <= i < fewer.len() implies (#[trigger] fewer[i]).len() > 0 && bare(
            fewer[i],
        ) && fewer[i].last() != 0 by {
            assert(fewer[i] == units[i]);
        }
        law_units_come_back(fewer, long.drop_last());
        lemma_last_unit_is_open(fewer, long.drop_last());
        lemma_code_cuts(before, long[n]);
        lemma_unit_stays_whole(before + start_code(long[n]), unit);
        assert(fewer.push(unit) =~= units);
    }
}

/// Zeros are taken off the end of the last unit of a stream only if it ends with some.
proof fn lemma_last_unit_is_open(units: Seq<Seq<u8>>, long: Seq<bool>)
    requires
        plain(units),
        forall|i: int| 0 <= i < units.len() ==> (#[trigger] units[i]).last() != 0,
        long.len() == units.len(),
    ensures
        trimmed(cut(stream_of(units, long)).rest) == cut(stream_of(units, long)).rest,
{
    if units.len() > 0 {
        let n = units.len() - 1;
        let before = stream_of(units.drop_last(), long.drop_last());
        lemma_code_cuts(before, long[n]);
        lemma_unit_stays_whole(before + start_code(long[n]), units[n]);
    }
}

/// The planes one after the other, as the encoder takes them.
pub open spec fn planar(frame: &RawFrame) -> Seq<u8> {
    let (w, h, p) = (frame.width as int, frame.height as int, frame.pitch as int);
    luma_plane(frame.data@, w, h, p) + blue_plane(frame.data@, w, h, p) + red_plane(
        frame.data@,
        w,
        h,
        p,
    )
}

/// An encoder for pictures of one size.
pub struct H264Encoder {
    encoder: openh264::encoder::Encoder,
    width: u32,
    height: u32,
}

/// What is handed back for the outcome of the encoder.
pub fn encoder_output(outcome: Result<Vec<u8>, String>) -> (res: Result<Vec<Vec<u8>>, H264Error>)
    ensures
        match outcome {
            Ok(stream) => res matches Ok(units) && contents(units@) == units_in(stream@) && plain(
                contents(units@),
            ),
            Err(why) => res matches Err(H264Error::Encode(text)) && text@ == why@,
        },
{
    match outcome {
        Ok(stream) => Ok(split_units(&stream)),
        Err(why) => Err(H264Error::Encode(why)),
    }
}

/// Whether the codec library, asked for an encoder at the bit rate of this library, gave `res`.
pub closed spec fn codec_opened(res: Result<H264Encoder, H264Error>) -> bool {
    exists|opened: Result<openh264::encoder::Encoder, String>|
        #[trigger] call_ensures(open_encoder, (BITRATE_BPS,), opened) && match opened {
            Ok(encoder) => res matches Ok(made) && made.encoder == encoder,
            Err(why) => res == Err::<H264Encoder, H264Error>(H264Error::Init(why)),
        }
}

/// Whether an encoder of the codec library, run once on the planes of a picture, gave what `res` was
/// made of.
pub closed spec fn codec_ran(
    encoder: &mut openh264::encoder::Encoder,
    frame: &RawFrame,
    res: Result<Vec<Vec<u8>>, H264Error>,
) -> bool {
    exists|planes: Vec<u8>, outcome: Result<Vec<u8>, String>|
        #[trigger] call_ensures(
            run_encoder,
            (encoder, planes, frame.width as usize, frame.height as usize),
            outcome,
        ) && planes@ == planar(frame) && match outcome {
            Ok(stream) => res matches Ok(units) && contents(units@) == units_in(stream@),
            Err(why) => res matches Err(H264Error::Encode(text)) && text@ == why@,
        }
}

impl H264Encoder {
    /// The width and height of the pictures that it takes.
    pub closed spec fn size(&self) -> (u32, u32) {
        (self.width, self.height)
    }

    /// The encoder of the codec library, with all that it keeps of the pictures so far.
    pub closed spec fn codec(&self) -> openh264::encoder::Encoder {
        self.encoder
    }

    /// Whether it can take a picture: pixels of four bytes, and its own size.
    pub open spec fn takes(&self, frame: &RawFrame) -> bool {
        &&& frame.pixel_format == PixelFormat::XRGB8888
        &&& self.size() == (frame.width, frame.height)
    }

    /// Whether a picture has planes that the codec library takes: an even number of rows and
    /// columns, and a length that can be counted.
    pub open spec fn even(frame: &RawFrame) -> bool {
        &&& frame.width % 2 == 0
        &&& frame.height % 2 == 0
        &&& 3 * (frame.width * frame.height) <= usize::MAX
    }

    /// An encoder for pictures of the given size.
    pub fn new(width: u32, height: u32) -> (res: Result<Self, H264Error>)
        ensures
            match res {
                Ok(encoder) => encoder.size() == (width, height),
                Err(e) => e is Init,
            },
            codec_opened(res),
    {
        match open_encoder(BITRATE_BPS) {
            Ok(encoder) => Ok(H264Encoder { encoder, width, height }),
            Err(why) => Err(H264Error::Init(why)),
        }
    }

    /// What the encoder is given for a picture: its planes. A picture that it does not take is
    /// refused, first by its pixel format, then by its size.
    pub fn encoder_input(&self, frame: &RawFrame) -> (res: Result<Vec<u8>, H264Error>)
        requires
            self.takes(frame) ==> Self::even(frame),
        ensures
            if frame.pixel_format != PixelFormat::XRGB8888 {
                res == Err::<Vec<u8>, H264Error>(
                    H264Error::UnsupportedPixelFormat(frame.pixel_format),
                )
            } else if self.size() != (frame.width, frame.height) {
                res == Err::<Vec<u8>, H264Error>(
                    H264Error::DimensionMismatch {
                        expected_width: self.size().0,
                        expected_height: self.size().1,
                        actual_width: frame.width,
                        actual_height: frame.height,
                    },
                )
            } else {
                res matches Ok(planes) && planes@ == planar(frame) && planes@.len() == 3 * (
                frame.width * frame.height) / 2
            },
    {
        if frame.pixel_format != PixelFormat::XRGB8888 {
            return Err(H264Error::UnsupportedPixelFormat(frame.pixel_format));
        }
        if frame.width != self.width || frame.height != self.height {
            return Err(
                H264Error::DimensionMismatch {
                    expected_width: self.width,
                    expected_height: self.height,
                    actual_width: frame.width,
                    actual_height: frame.height,
                },
            );
        }
        let planes: YuvPlanes = xrgb8888_to_yuv420(
            &frame.data,
            frame.width,
            frame.height,
            frame.pitch,
        );
        let mut all: Vec<u8> = Vec::new();
        push_bytes(&mut all, &planes.y);
        push_bytes(&mut all, &planes.u);
        push_bytes(&mut all, &planes.v);
        assert(all@ =~= planar(frame));
        proof {
            let (w, h) = (frame.width as int, frame.height as int);
            let (hw, hh) = (w / 2, h / 2);
            assert(w * h == 4 * (hw * hh) && 0 <= hw * hh) by (nonlinear_arith)
                requires
                    w == 2 * hw,
                    h == 2 * hh,
                    0 <= hw,
                    0 <= hh,
            ;
        }
        Ok(all)
    }

    /// Encodes a picture into its NAL units, with this encoder and no other, and once. Whether the
    /// codec library succeeds, and with which bytes, is its own affair; what it gives goes through
    /// [`encoder_output`]. A picture that is refused leaves the encoder as it is.
    pub fn encode(&mut self, frame: &RawFrame) -> (res: Result<Vec<Vec<u8>>, H264Error>)
        requires
            old(self).takes(frame) ==> Self::even(frame),
        ensures
            final(self).size() == old(self).size(),
            if frame.pixel_format != PixelFormat::XRGB8888 {
                *final(self) == *old(self) && res == Err::<Vec<Vec<u8>>, H264Error>(
                    H264Error::UnsupportedPixelFormat(frame.pixel_format),
                )
            } else if old(self).size() != (frame.width, frame.height) {
                *final(self) == *old(self) && res == Err::<Vec<Vec<u8>>, H264Error>(
                    H264Error::DimensionMismatch {
                        expected_width: old(self).size().0,
                        expected_height: old(self).size().1,
                        actual_width: frame.width,
                        actual_height: frame.height,
                    },
                )
            } else {
                &&& exists|encoder: &mut openh264::encoder::Encoder|
                    #[trigger] codec_ran(encoder, frame, res) && *encoder == old(self).codec()
                        && *final(encoder) == final(self).codec()
                &&& match res {
                    Ok(units) => plain(contents(units@)),
                    Err(e) => e is Encode,
                }
            },
    {
        match self.encoder_input(frame) {
            Ok(planes) => {
                let (width, height) = (frame.width as usize, frame.height as usize);
                let ghost given = planes;
                let outcome = run_encoder(&mut self.encoder, planes, width, height);
                let ghost told = outcome;
                let res = encoder_output(outcome);
                proof {
                    let encoder = choose|encoder: &mut openh264::encoder::Encoder|
                        #[trigger] call_ensures(run_encoder, (encoder, given, width, height), told)
                            && *encoder == old(self).encoder && *final(encoder) == self.encoder;
                    assert(codec_ran(encoder, frame, res));
                }
                res
            },
            Err(e) => Err(e),
        }
    }
}

/// The frame in which a viewer is sent a NAL unit of a picture.
pub open spec fn unit_frame(unit: Seq<u8>, frame: &RawFrame, instance_index: u8) -> Seq<u8> {
    h264_frame(
        unit,
        instance_index,
        (frame.sequence % 0x1_0000_0000) as u32,
        (frame.timestamp_ms % 0x1_0000_0000) as u32,
        (frame.width % 0x1_0000) as u16,
        (frame.height % 0x1_0000) as u16,
    )
}

/// Whether `messages` are the frames in which a viewer is sent the NAL units of a picture, one for
/// each: none where the picture was not encoded, or where one of the frames is too long.
pub open spec fn are_messages(
    units: Result<Vec<Vec<u8>>, H264Error>,
    frame: &RawFrame,
    instance_index: u8,
    backpressure_limit: usize,
    messages: Seq<Vec<u8>>,
) -> bool {
    match units {
        Ok(units) => if forall|i: int|
            0 <= i < units@.len() ==> unit_frame(
                (#[trigger] units@[i])@,
                frame,
                instance_index,
            ).len() <= backpressure_limit {
            &&& messages.len() == units@.len()
            &&& forall|i: int|
                0 <= i < messages.len() ==> (#[trigger] messages[i])@ == unit_frame(
                    units@[i]@,
                    frame,
                    instance_index,
                )
        } else {
            messages.len() == 0
        },
        Err(_) => messages.len() == 0,
    }
}

/// The frames in which a viewer is sent the NAL units of a picture.
pub fn h264_messages(
    units: Result<Vec<Vec<u8>>, H264Error>,
    frame: &RawFrame,
    instance_index: u8,
    backpressure_limit: usize,
) -> (messages: Vec<Vec<u8>>)
    ensures
        are_messages(units, frame, instance_index, backpressure_limit, messages@),
{
    let mut messages: Vec<Vec<u8>> = Vec::new();
    if let Ok(all) = &units {
        let mut i: usize = 0;
        while i < all.len()
            invariant
                units == Ok::<Vec<Vec<u8>>, H264Error>(*all),
                i <= all@.len(),
                messages@.len() == i,
                forall|j: int|
                    0 <= j < i ==> (#[trigger] messages@[j])@ == unit_frame(
                        all@[j]@,
                        frame,
                        instance_index,
                    ) && messages@[j]@.len() <= backpressure_limit,
            decreases all.len() - i,
        {
            let message = encode_h264_frame(
                all[i].clone(),
                instance_index,
                low32(frame.sequence),
                low32(frame.timestamp_ms),
                low16(frame.width),
                low16(frame.height),
            );
            assert(message@ == unit_frame(all@[i as int]@, frame, instance_index));
            if message.len() > backpressure_limit {
                assert(unit_frame(all@[i as int]@, frame, instance_index).len()
                    > backpressure_limit);
                return Vec::new();
            }
            messages.push(message);
            i += 1;
        }
        assert forall|j: int| 0 <= j < all@.len() implies unit_frame(
            (#[trigger] all@[j])@,
            frame,
            instance_index,
        ).len() <= backpressure_limit by {
            assert(messages@[j]@.len() <= backpressure_limit);
        }
    }
    messages
}

/// Whether `messages` are the frames in which a viewer is sent what an encoder, run once, made of a
/// picture.
pub open spec fn shows_picture(
    encoder: &mut H264Encoder,
    frame: &RawFrame,
    instance_index: u8,
    backpressure_limit: usize,
    messages: Seq<Vec<u8>>,
) -> bool {
    exists|units: Result<Vec<Vec<u8>>, H264Error>|
        #[trigger] call_ensures(H264Encoder::encode, (encoder, frame), units) && are_messages(
            units,
            frame,
            instance_index,
            backpressure_limit,
            messages,
        )
}

/// A viewer's H.264 stream. The encoder is made for the size of the first picture.
pub struct H264Stream {
    encoder: Option<H264Encoder>,
}

impl H264Stream {
    /// The encoder, once there is one.
    pub closed spec fn held(&self) -> Option<H264Encoder> {
        self.encoder
    }

    /// Whether a picture can be handed to the encoder: one that it would take has planes that the
    /// codec library takes.
    pub open spec fn ready_for(&self, frame: &RawFrame) -> bool {
        frame.pixel_format == PixelFormat::XRGB8888 && (self.held() matches Some(encoder)
            ==> encoder.takes(frame)) ==> H264Encoder::even(frame)
    }

    /// No encoder yet.
    pub fn new() -> (stream: Self)
        ensures
            stream.held() is None,
    {
        H264Stream { encoder: None }
    }

    /// Whether a picture can be handed to the encoder.
    pub fn is_ready_for(&self, frame: &RawFrame) -> (res: bool)
        ensures
            res == self.ready_for(frame),
    {
        let taken = frame.pixel_format == PixelFormat::XRGB8888 && match &self.encoder {
            Some(encoder) => encoder.width == frame.width && encoder.height == frame.height,
            None => true,
        };
        assert(0 <= frame.width * frame.height <= 0xffff_ffff * 0xffff_ffff) by (nonlinear_arith)
            requires
                0 <= frame.width <= 0xffff_ffff,
                0 <= frame.height <= 0xffff_ffff,
        ;
        !taken || (frame.width % 2 == 0 && frame.height % 2 == 0 && 3 * (frame.width as u128
            * frame.height as u128) <= usize::MAX as u128)
    }

    /// The frames that follow the frame of a picture. A picture that the encoder does not take gives
    /// none. The encoder is made when it is first needed, and kept.
    pub fn next_frames(&mut self, frame: &RawFrame, instance_index: u8, backpressure_limit: usize) -> (
    messages: Vec<Vec<u8>>)
        requires
            old(self).ready_for(frame),
        ensures
            match old(self).held() {
                Some(given) => exists|encoder: &mut H264Encoder|
                    #[trigger] shows_picture(
                        encoder,
                        frame,
                        instance_index,
                        backpressure_limit,
                        messages@,
                    ) && *encoder == given && final(self).held() == Some(*final(encoder)),
                None => exists|opened: Result<H264Encoder, H264Error>|
                    #[trigger] call_ensures(
                        H264Encoder::new,
                        (frame.width, frame.height),
                        opened,
                    ) && match opened {
                        Ok(given) => exists|encoder: &mut H264Encoder|
                            #[trigger] shows_picture(
                                encoder,
                                frame,
                                instance_index,
                                backpressure_limit,
                                messages@,
                            ) && *encoder == given && final(self).held() == Some(*final(encoder)),
                        Err(_) => final(self).held() is None && messages@.len() == 0,
                    },
            },
    {
        let opened = match self.encoder.take() {
            Some(encoder) => Ok(encoder),
            None => H264Encoder::new(frame.width, frame.height),
        };
        let ghost known = opened;
        let messages = self.next_frames_from(opened, frame, instance_index, backpressure_limit);
        assert(old(self).held() is None ==> call_ensures(
            H264Encoder::new,
            (frame.width, frame.height),
            known,
        ));
        messages
    }

    /// The frames that follow the frame of a picture, made with an encoder that could be opened or
    /// not. An encoder that could be opened is kept, whatever it makes of the picture; without one
    /// there is no frame, and nothing changes.
    pub fn next_frames_from(
        &mut self,
        opened: Result<H264Encoder, H264Error>,
        frame: &RawFrame,
        instance_index: u8,
        backpressure_limit: usize,
    ) -> (messages: Vec<Vec<u8>>)
        requires
            opened matches Ok(encoder) ==> encoder.takes(frame) ==> H264Encoder::even(frame),
        ensures
            match opened {
                Ok(given) => exists|encoder: &mut H264Encoder|
                    #[trigger] shows_picture(
                        encoder,
                        frame,
                        instance_index,
                        backpressure_limit,
                        messages@,
                    ) && *encoder == given && final(self).held() == Some(*final(encoder)),
                Err(_) => *final(self) == *old(self) && messages@.len() == 0,
            },
    {
        match opened {
            Ok(mut encoder) => {
                let ghost given = encoder;
                let units = encoder.encode(frame);
                let ghost told = units;
                self.encoder = Some(encoder);
                let messages = h264_messages(units, frame, instance_index, backpressure_limit);
                proof {
                    let run = choose|run: &mut H264Encoder|
                        #[trigger] call_ensures(H264Encoder::encode, (run, frame), told) && *run
                            == given && Some(*final(run)) == self.encoder;
                    assert(shows_picture(
                        run,
                        frame,
                        instance_index,
                        backpressure_limit,
                        messages@,
                    ));
                }
                messages
            },
            Err(_) => Vec::new(),
        }
    }
}

/// The encoder is given the brightness of every pixel, row by row, and behind it the colours of every
/// block of two by two pixels: first how blue, and then how red.
pub proof fn law_planes_follow_each_other(frame: &RawFrame, row: int, col: int)
    requires
        frame.width % 2 == 0 && frame.height % 2 == 0,
        0 <= row < frame.height && row % 2 == 0,
        0 <= col < frame.width && col % 2 == 0,
    ensures
        ({
            let all = planar(frame);
            let (w, h) = (frame.width as int, frame.height as int);
            let at = row * frame.pitch + col * 4;
            let (b, g, r) = (frame.data@[at], frame.data@[at + 1], frame.data@[at + 2]);
            let block = row / 2 * (w / 2) + col / 2;
            let y = all[row * w + col];
            let blue = all[w * h + block];
            let red = all[w * h + w / 2 * (h / 2) + block];
            &&& all.len() == w * h + 2 * (w / 2 * (h / 2))
            &&& if at + 3 < frame.data@.len() {
                &&& 1000 * y <= 299 * r + 587 * g + 114 * b <= 1000 * y + 1000
                &&& 1000 * blue <= 128_000 - 169 * r - 331 * g + 500 * b <= 1000 * blue + 1000
                &&& 1000 * red <= 128_000 + 500 * r - 419 * g - 81 * b <= 1000 * red + 1000
            } else {
                y == 0 && blue == 128 && red == 128
            }
        }),
{
    let (w, h, p) = (frame.width as int, frame.height as int, frame.pitch as int);
    law_brightness_is_per_pixel(frame.data@, w, h, p, row, col);
    law_colour_is_per_block(frame.data@, w, h, p, row, col);
    lemma_row_major_bound(row, col, w, h);
}

/// A unit goes out behind a header of 34 bytes that says what it is: of type 3 and with flag 2, of
/// which instance and which picture, taken when and how large. Numbers have their high byte first.
pub proof fn law_unit_on_the_wire(unit: Seq<u8>, frame: &RawFrame, instance_index: u8, i: int)
    requires
        unit.len() < 0x1_0000_0000,
    ensures
        ({
            let bytes = unit_frame(unit, frame, instance_index);
            &&& bytes.len() == 34 + unit.len()
            &&& bytes[5] == 3
            &&& bytes[6] == instance_index
            &&& bytes[7] == 2
            &&& 16_777_216 * bytes[8] + 65_536 * bytes[9] + 256 * bytes[10] + bytes[11]
                == frame.sequence as int % 4_294_967_296
            &&& 16_777_216 * bytes[12] + 65_536 * bytes[13] + 256 * bytes[14] + bytes[15]
                == frame.timestamp_ms as int % 4_294_967_296
            &&& 256 * bytes[16] + bytes[17] == frame.width as int % 65_536
            &&& 256 * bytes[18] + bytes[19] == frame.height as int % 65_536
            &&& 16_777_216 * bytes[26] + 65_536 * bytes[27] + 256 * bytes[28] + bytes[29]
                == unit.len()
            &&& 0 <= i < unit.len() ==> bytes[34 + i] == unit[i]
        }),
{
    let sequence = (frame.sequence % 0x1_0000_0000) as u32;
    let timestamp_ms = (frame.timestamp_ms % 0x1_0000_0000) as u32;
    let width = (frame.width % 0x1_0000) as u16;
    let height = (frame.height % 0x1_0000) as u16;
    law_frame_fields(
        StreamFrameType::H264,
        instance_index,
        flags::H264_PAYLOAD,
        sequence,
        timestamp_ms,
        width,
        height,
        0,
        0,
        Seq::empty(),
        unit,
    );
    let header = header_bytes(
        StreamFrameType::H264,
        instance_index,
        flags::H264_PAYLOAD,
        sequence,
        timestamp_ms,
        width,
        height,
        0,
        0,
        unit.len(),
        0,
    );
    assert(header + Seq::empty() + unit =~= header + unit);
}

/// What each error says.
pub proof fn law_errors_in_words(error: H264Error)
    ensures
        match error {
            H264Error::Init(why) => error.words() == "encoder init failed: "@ + why@,
            H264Error::UnsupportedPixelFormat(format) => error.words()
                == "unsupported pixel format: "@ + if format == PixelFormat::RGB565 {
                "RGB565"@
            } else {
                "XRGB8888"@
            },
            H264Error::DimensionMismatch {
                expected_width,
                expected_height,
                actual_width,
                actual_height,
            } => error.words() == "frame dimensions mismatch: expected "@ + decimal(
                expected_width as int,
            ) + "x"@ + decimal(expected_height as int) + ", got "@ + decimal(actual_width as int)
                + "x"@ + decimal(actual_height as int),
            H264Error::Encode(why) => error.words() == "encode failed: "@ + why@,
        },
{
}

/// The encoder aims at half a million bits in a second.
pub proof fn law_bit_rate()
    ensures
        BITRATE_BPS == 500_000,
{
}

/// The units of a picture go out together, each in a frame of its own and in their order, or not at
/// all: where one of the frames is longer than the limit, none is sent.
pub proof fn law_units_go_out_together(
    units: Vec<Vec<u8>>,
    frame: &RawFrame,
    instance_index: u8,
    backpressure_limit: usize,
    messages: Seq<Vec<u8>>,
    i: int,
)
    requires
        are_messages(
            Ok::<Vec<Vec<u8>>, H264Error>(units),
            frame,
            instance_index,
            backpressure_limit,
            messages,
        ),
        0 <= i < units@.len(),
    ensures
        unit_frame(units@[i]@, frame, instance_index).len() > backpressure_limit ==> messages.len()
            == 0,
        messages.len() > 0 ==> messages.len() == units@.len() && messages[i]@ == unit_frame(
            units@[i]@,
            frame,
            instance_index,
        ),
        messages.len() == 0 ==> exists|j: int|
            0 <= j < units@.len() && unit_frame((#[trigger] units@[j])@, frame, instance_index).len()
                > backpressure_limit,
{
    if messages.len() == 0 {
        if forall|j: int|
            0 <= j < units@.len() ==> unit_frame(
                (#[trigger] units@[j])@,
                frame,
                instance_index,
            ).len() <= backpressure_limit {
            assert(messages.len() == units@.len());
        }
    }
}

/// Any number of zeros may stand between a unit and the start code of the next.
pub proof fn law_zeros_between_units_are_dropped(unit: Seq<u8>, zeros: nat, next: Seq<u8>)
    requires
        unit.len() > 0 && bare(unit) && unit.last() != 0,
        next.len() > 0 && bare(next),
    ensures
        units_in(unit + Seq::new(zeros, |i: int| 0u8) + seq![0u8, 0, 1] + next) == seq![unit, next],
{
    let nothing: Seq<u8> = Seq::empty();
    let all = unit + Seq::new(zeros, |i: int| 0u8);
    assert(nothing + all =~= all);
    lemma_bare_with_zeros(unit, zeros);
    lemma_unit_stays_whole(nothing, all);
    lemma_trimmed_zeros(unit, zeros);
    lemma_code_cuts(all, false);
    assert(start_code(false) =~= seq![0u8, 0, 1]);
    lemma_unit_stays_whole(all + start_code(false), next);
    assert(units_in(all + seq![0u8, 0, 1] + next) =~= seq![unit, next]);
}

proof fn lemma_bare_with_zeros(unit: Seq<u8>, zeros: nat)
    requires
        bare(unit),
    ensures
        bare(unit + Seq::new(zeros, |i: int| 0u8)),
    decreases zeros,
{
    let all = unit + Seq::new(zeros, |i: int| 0u8);
    if zeros == 0 {
        assert(all =~= unit);
    } else {
        let fewer = unit + Seq::new((zeros - 1) as nat, |i: int| 0u8);
        lemma_bare_with_zeros(unit, (zeros - 1) as nat);
        lemma_bare_push(fewer, 0);
        assert(fewer.push(0) =~= all);
    }
}

proof fn lemma_trimmed_zeros(unit: Seq<u8>, zeros: nat)
    requires
        unit.len() > 0 && unit.last() != 0,
    ensures
        trimmed(unit + Seq::new(zeros, |i: int| 0u8)) == unit,
    decreases zeros,
{
    let all = unit + Seq::new(zeros, |i: int| 0u8);
    if zeros == 0 {
        assert(all =~= unit);
    } else {
        lemma_trimmed_zeros(unit, (zeros - 1) as nat);
        assert(all.drop_last() =~= unit + Seq::new((zeros - 1) as nat, |i: int| 0u8));
    }
}

} // verus!
