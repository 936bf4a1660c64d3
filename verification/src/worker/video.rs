//! Pictures of an emulator core, brought to four bytes per pixel.
use crate::streaming::picture::{lemma_row_major, lemma_row_major_bound};
use vstd::arithmetic::mul::lemma_mul_inequality;
use vstd::prelude::*;

verus! {

/// How a core stores its pixels.
#[derive(Debug, Clone, Copy, PartialEq, Eq, Structural)]
pub enum VideoPixelFormat {
    /// Two bytes: one bit unused, then five bits each for red, green and blue.
    Xrgb1555,
    /// Four bytes: blue, green, red, unused.
    Xrgb8888,
    /// Two bytes: five bits for red, six for green, five for blue.
    Rgb565,
}

/// The pixel formats by their names in the core interface.
#[derive(Debug, Clone, Copy, PartialEq, Eq, Structural)]
pub enum RetroPixelFormat {
    XRGB1555,
    XRGB8888,
    RGB565,
}

impl RetroPixelFormat {
    /// The number of the format in the core interface.
    pub fn code(self) -> (n: u32)
        ensures
            n == match self {
                RetroPixelFormat::XRGB1555 => 0u32,
                RetroPixelFormat::XRGB8888 => 1,
                RetroPixelFormat::RGB565 => 2,
            },
    {
        match self {
            RetroPixelFormat::XRGB1555 => 0,
            RetroPixelFormat::XRGB8888 => 1,
            RetroPixelFormat::RGB565 => 2,
        }
    }
}

/// The format with a given number.
pub open spec fn pixel_format(n: u32) -> Option<VideoPixelFormat> {
    if n == 0 {
        Some(VideoPixelFormat::Xrgb1555)
    } else if n == 1 {
        Some(VideoPixelFormat::Xrgb8888)
    } else if n == 2 {
        Some(VideoPixelFormat::Rgb565)
    } else {
        None
    }
}

/// The format with a given number.
pub fn pixel_format_from_u32(format: u32) -> (res: Option<VideoPixelFormat>)
    ensures
        res == pixel_format(format),
{
    if format == RetroPixelFormat::XRGB1555.code() {
        Some(VideoPixelFormat::Xrgb1555)
    } else if format == RetroPixelFormat::XRGB8888.code() {
        Some(VideoPixelFormat::Xrgb8888)
    } else if format == RetroPixelFormat::RGB565.code() {
        Some(VideoPixelFormat::Rgb565)
    } else {
        None
    }
}

/// How many bytes the rows of a picture take, if that can be counted.
pub fn height_byte_count(height: u32, pitch: usize) -> (n: Option<usize>)
    ensures
        n == if height * pitch <= usize::MAX {
            Some((height * pitch) as usize)
        } else {
            None
        },
{
    (height as usize).checked_mul(pitch)
}

impl VideoPixelFormat {
    /// How many bytes a pixel takes.
    pub open spec fn size(self) -> int {
        match self {
            VideoPixelFormat::Xrgb8888 => 4,
            _ => 2,
        }
    }
}

/// Five bits stretched to eight.
pub open spec fn stretch5(v: int) -> u8 {
    (v * 8 + v / 4) as u8
}

/// Six bits stretched to eight.
pub open spec fn stretch6(v: int) -> u8 {
    (v * 4 + v / 16) as u8
}

/// The number that two bytes stand for.
pub open spec fn pair(first: u8, second: u8, little_endian: bool) -> int {
    if little_endian {
        first + second * 0x100
    } else {
        second + first * 0x100
    }
}

/// Byte `c` (blue, green, red, full) of the pixel that starts at `at`.
pub open spec fn pixel_byte(
    pixels: Seq<u8>,
    at: int,
    c: int,
    format: VideoPixelFormat,
    little_endian: bool,
) -> u8 {
    let v = pair(pixels[at], pixels[at + 1], little_endian);
    match format {
        VideoPixelFormat::Xrgb8888 => pixels[at + c],
        VideoPixelFormat::Xrgb1555 => if c == 0 {
            stretch5(v % 32)
        } else if c == 1 {
            stretch5(v / 32 % 32)
        } else if c == 2 {
            stretch5(v / 1024 % 32)
        } else {
            255
        },
        VideoPixelFormat::Rgb565 => if c == 0 {
            stretch5(v % 32)
        } else if c == 1 {
            stretch6(v / 32 % 64)
        } else if c == 2 {
            stretch5(v / 2048)
        } else {
            255
        },
    }
}

/// The pixels of `n` rows without gaps between them.
pub open spec fn tight(
    pixels: Seq<u8>,
    width: int,
    n: int,
    pitch: int,
    format: VideoPixelFormat,
    little_endian: bool,
) -> Seq<u8> {
    Seq::new(
        (width * n * 4) as nat,
        |i: int|
            pixel_byte(
                pixels,
                i / 4 / width * pitch + i / 4 % width * format.size(),
                i % 4,
                format,
                little_endian,
            ),
    )
}

/// Whether a picture can be converted: its rows fit between each other and into the buffer, and the
/// result can be held.
pub open spec fn convertible(
    len: nat,
    width: u32,
    height: u32,
    pitch: usize,
    format: VideoPixelFormat,
) -> bool {
    &&& width * format.size() <= pitch
    &&& height * pitch <= len
    &&& width * height * 4 <= usize::MAX
}

/// Stretches five bits to eight.
pub fn expand_5bit_to_8bit(value: u16) -> (byte: u8)
    requires
        value < 32,
    ensures
        byte == stretch5(value as int),
        byte == ((value << 3) | (value >> 2)) as u8,
{
    assert(((value << 3) | (value >> 2)) as u8 == (value * 8 + value / 4) as u8) by (bit_vector)
        requires
            value < 32,
    ;
    (value * 8 + value / 4) as u8
}

/// Stretches six bits to eight.
pub fn expand_6bit_to_8bit(value: u16) -> (byte: u8)
    requires
        value < 64,
    ensures
        byte == stretch6(value as int),
        byte == ((value << 2) | (value >> 4)) as u8,
{
    assert(((value << 2) | (value >> 4)) as u8 == (value * 4 + value / 16) as u8) by (bit_vector)
        requires
            value < 64,
    ;
    (value * 4 + value / 16) as u8
}

/// `u16::from_ne_bytes` of std: the number that two bytes in memory stand for on this machine, with
/// the low byte first or last.
#[verifier::external_body]
fn native_u16(first: u8, second: u8) -> (n: u16)
    ensures
        n == pair(first, second, true) || n == pair(first, second, false),
{
    u16::from_ne_bytes([first, second])
}

fn pair_of(first: u8, second: u8, little_endian: bool) -> (n: u16)
    ensures
        n == pair(first, second, little_endian),
{
    if little_endian {
        first as u16 + second as u16 * 0x100
    } else {
        second as u16 + first as u16 * 0x100
    }
}

fn push_pixel(
    out: &mut Vec<u8>,
    pixels: &[u8],
    at: usize,
    format: VideoPixelFormat,
    little_endian: bool,
)
    requires
        at + format.size() <= pixels@.len(),
    ensures
        final(out)@.len() == old(out)@.len() + 4,
        forall|i: int| 0 <= i < old(out)@.len() ==> final(out)@[i] == old(out)@[i],
        forall|c: int|
            0 <= c < 4 ==> #[trigger] final(out)@[old(out)@.len() + c] == pixel_byte(
                pixels@,
                at as int,
                c,
                format,
                little_endian,
            ),
{
    let (b, g, r, full) = match format {
        VideoPixelFormat::Xrgb8888 => (pixels[at], pixels[at + 1], pixels[at + 2], pixels[at + 3]),
        VideoPixelFormat::Xrgb1555 => {
            let v: u16 = pair_of(pixels[at], pixels[at + 1], little_endian);
            (
                expand_5bit_to_8bit(v % 32),
                expand_5bit_to_8bit(v / 32 % 32),
                expand_5bit_to_8bit(v / 1024 % 32),
                255,
            )
        },
        VideoPixelFormat::Rgb565 => {
            let v: u16 = pair_of(pixels[at], pixels[at + 1], little_endian);
            (
                expand_5bit_to_8bit(v % 32),
                expand_6bit_to_8bit(v / 32 % 64),
                expand_5bit_to_8bit(v / 2048),
                255,
            )
        },
    };
    out.push(b);
    out.push(g);
    out.push(r);
    out.push(full);
}

/// Converts a picture whose numbers have their low byte first or last.
pub fn convert_video_frame(
    pixels: &[u8],
    width: u32,
    height: u32,
    pitch: usize,
    format: VideoPixelFormat,
    little_endian: bool,
) -> (res: Option<Vec<u8>>)
    ensures
        res is Some <==> convertible(pixels@.len(), width, height, pitch, format),
        res matches Some(out) ==> out@ == tight(
            pixels@,
            width as int,
            height as int,
            pitch as int,
            format,
            little_endian,
        ),
{
    let size: usize = match format {
        VideoPixelFormat::Xrgb8888 => 4,
        _ => 2,
    };
    assert(0 <= width * height <= 0xffff_ffff * 0xffff_ffff) by (nonlinear_arith)
        requires
            0 <= width <= 0xffff_ffff,
            0 <= height <= 0xffff_ffff,
    ;
    assert(0 <= height * pitch <= 0xffff_ffff * 0xffff_ffff_ffff_ffff) by (nonlinear_arith)
        requires
            0 <= height <= 0xffff_ffff,
            0 <= pitch <= 0xffff_ffff_ffff_ffff,
    ;
    assert(0 <= width * size <= 0xffff_ffff * 4) by (nonlinear_arith)
        requires
            0 <= width <= 0xffff_ffff,
            0 <= size <= 4,
    ;
    if width as u128 * size as u128 > pitch as u128 {
        return None;
    }
    if height as u128 * pitch as u128 > pixels.len() as u128 {
        return None;
    }
    if width as u128 * height as u128 * 4 > usize::MAX as u128 {
        return None;
    }
    let ghost all = tight(
        pixels@,
        width as int,
        height as int,
        pitch as int,
        format,
        little_endian,
    );
    let mut out: Vec<u8> = Vec::new();
    let mut row: u32 = 0;
    assert(all.take(0) =~= Seq::empty());
    while row < height
        invariant
            row <= height,
            size == format.size(),
            convertible(pixels@.len(), width, height, pitch, format),
            all == tight(
                pixels@,
                width as int,
                height as int,
                pitch as int,
                format,
                little_endian,
            ),
            all.len() == width * height * 4,
            out@ == all.take(row * width * 4),
        decreases height - row,
    {
        let mut col: u32 = 0;
        while col < width
            invariant
                row < height,
                col <= width,
                size == format.size(),
                convertible(pixels@.len(), width, height, pitch, format),
                all == tight(
                    pixels@,
                    width as int,
                    height as int,
                    pitch as int,
                    format,
                    little_endian,
                ),
                all.len() == width * height * 4,
                out@ == all.take((row * width + col) * 4),
            decreases width - col,
        {
            proof {
                lemma_mul_inequality(row + 1, height as int, pitch as int);
                lemma_mul_inequality(col + 1, width as int, size as int);
                assert((row + 1) * pitch == row * pitch + pitch) by (nonlinear_arith);
                assert((col + 1) * size == col * size + size) by (nonlinear_arith);
                assert(0 <= row * pitch && 0 <= col * size) by (nonlinear_arith);
                assert(row * pitch + col * size + size <= pixels.len());
                lemma_row_major(row as int, col as int, width as int);
                lemma_row_major_bound(row as int, col as int, width as int, height as int);
            }
            let at: usize = row as usize * pitch + col as usize * size;
            let ghost n = row * width + col;
            let ghost before = out@;
            push_pixel(&mut out, pixels, at, format, little_endian);
            proof {
                assert(before.len() == n * 4);
                assert forall|c: int| 0 <= c < 4 implies #[trigger] out@[n * 4 + c] == all[n * 4
                    + c] by {
                    assert((n * 4 + c) / 4 == n && (n * 4 + c) % 4 == c);
                    assert(out@[before.len() + c] == pixel_byte(
                        pixels@,
                        at as int,
                        c,
                        format,
                        little_endian,
                    ));
                }
                assert forall|i: int| 0 <= i < (n + 1) * 4 implies out@[i] == all[i] by {
                    if i < n * 4 {
                        assert(before[i] == all[i]);
                    } else {
                        let c = i - n * 4;
                        assert(out@[n * 4 + c] == all[n * 4 + c]);
                    }
                }
                assert(out@ =~= all.take((n + 1) * 4));
            }
            col += 1;
        }
        assert((row + 1) * width == row * width + width) by (nonlinear_arith);
        row += 1;
    }
    assert(row * width == width * height) by (nonlinear_arith)
        requires
            row == height,
    ;
    assert(all.take(width * height * 4) =~= all);
    Some(out)
}

/// Whether this machine stores a number with its low byte first: the bytes 1 and 0 stand for one.
pub closed spec fn machine_stores(little_endian: bool) -> bool {
    exists|one: u16|
        #[trigger] call_ensures(native_u16, (1u8, 0u8), one) && little_endian == (one == 1)
}

/// Converts a picture whose numbers are stored as this machine stores them.
pub fn convert_video_frame_to_xrgb8888(
    pixels: &[u8],
    width: u32,
    height: u32,
    pitch: usize,
    format: VideoPixelFormat,
) -> (res: Option<Vec<u8>>)
    ensures
        res is Some <==> convertible(pixels@.len(), width, height, pitch, format),
        res matches Some(out) ==> exists|little_endian: bool|
            machine_stores(little_endian) && out@ == #[trigger] tight(
                pixels@,
                width as int,
                height as int,
                pitch as int,
                format,
                little_endian,
            ),
{
    let one: u16 = native_u16(1, 0);
    assert(call_ensures(native_u16, (1u8, 0u8), one));
    let little_endian = one == 1;
    convert_video_frame(pixels, width, height, pitch, format, little_endian)
}

/// The pixel at column `x` of row `y` comes out there: its four bytes as they are where it has four,
/// and else each colour so that its top bits are the field that it was made of. The bits below repeat
/// the top ones, so that an empty field is dark and a full one is full.
pub proof fn law_colours_keep_their_fields(
    pixels: Seq<u8>,
    width: int,
    height: int,
    pitch: int,
    format: VideoPixelFormat,
    little_endian: bool,
    x: int,
    y: int,
)
    requires
        0 <= x < width,
        0 <= y < height,
    ensures
        ({
            let out = tight(pixels, width, height, pitch, format, little_endian);
            let i = (y * width + x) * 4;
            let four = y * pitch + x * 4;
            let two = y * pitch + x * 2;
            let v = if little_endian {
                pixels[two] + 256 * pixels[two + 1]
            } else {
                256 * pixels[two] + pixels[two + 1]
            };
            let (blue, green, red) = (out[i] as int, out[i + 1] as int, out[i + 2] as int);
            &&& out.len() == width * height * 4
            &&& 0 <= i && i + 4 <= out.len()
            &&& format == VideoPixelFormat::Xrgb8888 ==> {
                &&& out[i] == pixels[four]
                &&& out[i + 1] == pixels[four + 1]
                &&& out[i + 2] == pixels[four + 2]
                &&& out[i + 3] == pixels[four + 3]
            }
            &&& format == VideoPixelFormat::Rgb565 ==> {
                &&& blue / 8 == v % 32 && blue % 8 == blue / 32
                &&& green / 4 == v / 32 % 64 && green % 4 == green / 64
                &&& red / 8 == v / 2048 && red % 8 == red / 32
                &&& out[i + 3] == 255
            }
            &&& format == VideoPixelFormat::Xrgb1555 ==> {
                &&& blue / 8 == v % 32 && blue % 8 == blue / 32
                &&& green / 8 == v / 32 % 32 && green % 8 == green / 32
                &&& red / 8 == v / 1024 % 32 && red % 8 == red / 32
                &&& out[i + 3] == 255
            }
        }),
{
    let n = y * width + x;
    lemma_row_major(y, x, width);
    lemma_row_major_bound(y, x, width, height);
    let i = n * 4;
    assert(i / 4 == n && (i + 1) / 4 == n && (i + 2) / 4 == n && (i + 3) / 4 == n);
    assert(i % 4 == 0 && (i + 1) % 4 == 1 && (i + 2) % 4 == 2 && (i + 3) % 4 == 3);
    assert(y * pitch + x * format.size() == y * pitch + x * 4 || y * pitch + x * format.size() == y
        * pitch + x * 2);
    let at = y * pitch + x * 2;
    let v = pair(pixels[at], pixels[at + 1], little_endian);
    lemma_stretch5(v % 32);
    lemma_stretch5(v / 32 % 32);
    lemma_stretch5(v / 1024 % 32);
    lemma_stretch5(v / 2048);
    lemma_stretch6(v / 32 % 64);
}

proof fn lemma_stretch5(v: int)
    requires
        0 <= v < 32,
    ensures
        stretch5(v) as int / 8 == v,
        stretch5(v) as int % 8 == stretch5(v) as int / 32,
{
    assert(v * 8 + v / 4 <= 255);
}

proof fn lemma_stretch6(v: int)
    requires
        0 <= v < 64,
    ensures
        stretch6(v) as int / 4 == v,
        stretch6(v) as int % 4 == stretch6(v) as int / 64,
{
    assert(v * 4 + v / 16 <= 255);
}

/// Pixels of two bytes that come out the same are the same, but for the unused bit: no colour is
/// lost.
pub proof fn law_no_colour_is_lost(
    a: Seq<u8>,
    b: Seq<u8>,
    width: int,
    height: int,
    pitch: int,
    format: VideoPixelFormat,
    x: int,
    y: int,
)
    requires
        0 <= x < width,
        0 <= y < height,
        ({
            let i = (y * width + x) * 4;
            let (p, q) = (
                tight(a, width, height, pitch, format, true),
                tight(b, width, height, pitch, format, true),
            );
            p[i] == q[i] && p[i + 1] == q[i + 1] && p[i + 2] == q[i + 2]
        }),
    ensures
        format == VideoPixelFormat::Rgb565 ==> a[y * pitch + x * 2] == b[y * pitch + x * 2]
            && a[y * pitch + x * 2 + 1] == b[y * pitch + x * 2 + 1],
        format == VideoPixelFormat::Xrgb1555 ==> a[y * pitch + x * 2] == b[y * pitch + x * 2]
            && a[y * pitch + x * 2 + 1] % 128 == b[y * pitch + x * 2 + 1] % 128,
{
    law_colours_keep_their_fields(a, width, height, pitch, format, true, x, y);
    law_colours_keep_their_fields(b, width, height, pitch, format, true, x, y);
    let at = y * pitch + x * 2;
    lemma_fields_make_pixel(a[at], a[at + 1], b[at], b[at + 1]);
}

/// What a pixel of two bytes is made of.
proof fn lemma_fields_of_pixel(lo: u8, hi: u8)
    ensures
        ({
            let v = lo + 256 * hi;
            &&& v == v % 32 + 32 * (v / 32 % 64) + 2048 * (v / 2048)
            &&& lo + 256 * (hi % 128) == v % 32 + 32 * (v / 32 % 32) + 1024 * (v / 1024 % 32)
        }),
{
    let v = lo + 256 * hi;
    let q = v / 32;
    assert(v == 32 * q + v % 32);
    assert(v / 2048 == q / 64);
    assert(q == 64 * (q / 64) + q % 64);
    let r = q / 32;
    assert(v / 1024 == r);
    assert(q == 32 * r + q % 32);
    assert(r == 32 * (r / 32) + r % 32);
    assert(r / 32 == hi / 128) by {
        assert(v / 32768 == r / 32);
        assert(v / 32768 == hi / 128);
    }
    assert(hi == 128 * (hi / 128) + hi % 128);
}

proof fn lemma_fields_make_pixel(a0: u8, a1: u8, b0: u8, b1: u8)
    ensures
        ({
            let v = a0 + 256 * a1;
            let w = b0 + 256 * b1;
            &&& v % 32 == w % 32 && v / 32 % 64 == w / 32 % 64 && v / 2048 == w / 2048 ==> a0 == b0
                && a1 == b1
            &&& v % 32 == w % 32 && v / 32 % 32 == w / 32 % 32 && v / 1024 % 32 == w / 1024 % 32
                ==> a0 == b0 && a1 % 128 == b1 % 128
        }),
{
    lemma_fields_of_pixel(a0, a1);
    lemma_fields_of_pixel(b0, b1);
}

/// A picture is converted if and only if its rows do not overlap, the buffer holds all of them, and
/// the result can be held.
pub proof fn law_whole_pictures_are_converted(
    len: nat,
    width: u32,
    height: u32,
    pitch: usize,
    format: VideoPixelFormat,
)
    ensures
        convertible(len, width, height, pitch, format) <==> {
            &&& format == VideoPixelFormat::Xrgb8888 ==> 4 * width <= pitch
            &&& format != VideoPixelFormat::Xrgb8888 ==> 2 * width <= pitch
            &&& height * pitch <= len
            &&& width * height * 4 <= usize::MAX
        },
{
}

/// The numbers under which a core names its formats: 0 is 15 bits a pixel, 1 is 32 bits and 2 is 16
/// bits, stored in two, four and two bytes.
pub proof fn law_formats_are_numbered(n: u32)
    ensures
        n == 0 <==> pixel_format(n) == Some(VideoPixelFormat::Xrgb1555),
        n == 1 <==> pixel_format(n) == Some(VideoPixelFormat::Xrgb8888),
        n == 2 <==> pixel_format(n) == Some(VideoPixelFormat::Rgb565),
        n > 2 <==> pixel_format(n) is None,
        VideoPixelFormat::Xrgb1555.size() == 2,
        VideoPixelFormat::Xrgb8888.size() == 4,
        VideoPixelFormat::Rgb565.size() == 2,
{
}

/// In 16 bits a pixel green has a field of six bits, twice as fine as red and blue: fields that differ
/// come out as different bytes, brighter where the field is larger.
pub proof fn law_green_is_twice_as_fine(a: Seq<u8>, b: Seq<u8>, at: int, little_endian: bool)
    ensures
        ({
            let (v, w) = if little_endian {
                (a[at] + 256 * a[at + 1], b[at] + 256 * b[at + 1])
            } else {
                (256 * a[at] + a[at + 1], 256 * b[at] + b[at + 1])
            };
            let format = VideoPixelFormat::Rgb565;
            let p = pixel_byte(a, at, 1, format, little_endian);
            let q = pixel_byte(b, at, 1, format, little_endian);
            v / 32 % 64 < w / 32 % 64 <==> p < q
        }),
{
    let v = pair(a[at], a[at + 1], little_endian);
    let w = pair(b[at], b[at + 1], little_endian);
    lemma_stretch6(v / 32 % 64);
    lemma_stretch6(w / 32 % 64);
}

} // verus!
