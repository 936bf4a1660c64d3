//! Pictures as PNG files.
use crate::streaming::broadcast::frame_rgba;
use crate::streaming::frame_hub::{PixelFormat, RawFrame};
use crate::streaming::picture::{pixel_offset, rect_in_bounds};
use crate::streaming::protocol::keyframe_rgba;
use vstd::arithmetic::mul::lemma_mul_inequality;
use vstd::prelude::*;

verus! {

/// The PNG file that the crate `image` makes of RGBA bytes, or its error in words.
pub uninterp spec fn png_file(rgba: Seq<u8>, width: u32, height: u32) -> Result<
    Seq<u8>,
    Seq<char>,
>;

/// Wraps RGBA bytes in an `image::ImageBuffer` and writes it with `write_to` as PNG. The file, or
/// the error, depends on the bytes and the size alone. `ImageBuffer::from_raw` takes no fewer bytes
/// than the size asks for.
#[verifier::external_body]
fn write_png(rgba: Vec<u8>, width: u32, height: u32) -> (res: Result<Vec<u8>, String>)
    requires
        rgba@.len() == width * height * 4,
    ensures
        match res {
            Ok(file) => png_file(rgba@, width, height) == Ok::<Seq<u8>, Seq<char>>(file@),
            Err(why) => png_file(rgba@, width, height) == Err::<Seq<u8>, Seq<char>>(why@),
        },
{
    let picture =
        image::ImageBuffer::<image::Rgba<u8>, Vec<u8>>::from_raw(width, height, rgba).unwrap();
    let mut file = std::io::Cursor::new(Vec::new());
    picture.write_to(&mut file, image::ImageFormat::Png).map_err(|e| e.to_string())?;
    Ok(file.into_inner())
}

/// Whether the buffer holds all four bytes of every pixel.
pub open spec fn whole_pixels(frame: &RawFrame) -> bool {
    forall|x: int, y: int|
        0 <= x < frame.width && 0 <= y < frame.height ==> #[trigger] pixel_offset(
            x,
            y,
            frame.pitch as int,
        ) + 4 <= frame.data@.len()
}

/// A picture has all its pixels if and only if the buffer holds the four bytes of the last one. An
/// empty one always does.
pub proof fn law_pixels_are_whole_up_to_the_last(frame: &RawFrame)
    ensures
        whole_pixels(frame) <==> (frame.width == 0 || frame.height == 0 || (frame.height - 1)
            * frame.pitch + (frame.width - 1) * 4 + 4 <= frame.data@.len()),
{
    if frame.width > 0 && frame.height > 0 {
        let pitch = frame.pitch as int;
        let (x, y) = (frame.width - 1, frame.height - 1);
        assert forall|a: int, b: int|
            0 <= a < frame.width && 0 <= b < frame.height implies #[trigger] pixel_offset(a, b, pitch)
            <= y * pitch + x * 4 by {
            lemma_mul_inequality(b, y, pitch);
        }
        assert(pixel_offset(x, y, pitch) == y * pitch + x * 4);
    }
}

fn has_whole_pixels(frame: &RawFrame) -> (whole: bool)
    ensures
        whole == whole_pixels(frame),
{
    if frame.width == 0 || frame.height == 0 {
        return true;
    }
    let x: u32 = frame.width - 1;
    let y: u32 = frame.height - 1;
    assert(0 <= y * frame.pitch <= 0xffff_ffff * 0xffff_ffff) by (nonlinear_arith)
        requires
            0 <= y <= 0xffff_ffff,
            0 <= frame.pitch <= 0xffff_ffff,
    ;
    let end: u128 = y as u128 * frame.pitch as u128 + x as u128 * 4 + 4;
    proof {
        let pitch = frame.pitch as int;
        assert(end == pixel_offset(x as int, y as int, pitch) + 4);
        assert forall|a: int, b: int|
            0 <= a < frame.width && 0 <= b < frame.height implies #[trigger] pixel_offset(a, b, pitch)
            + 4 <= end by {
            lemma_mul_inequality(b, y as int, pitch);
        }
    }
    end <= frame.data.len() as u128
}

/// The RGBA bytes of a picture, or why it has none: first the pixel format, then a short buffer.
pub fn picture_rgba(frame: &RawFrame) -> (res: Result<Vec<u8>, String>)
    ensures
        if frame.pixel_format != PixelFormat::XRGB8888 {
            res matches Err(why) && why@ == "unsupported pixel format"@
        } else if !whole_pixels(frame) {
            res matches Err(why) && why@ == "frame buffer is too small"@
        } else {
            res matches Ok(rgba) && rgba@ == frame_rgba(frame)
        },
        res matches Ok(rgba) ==> rgba@.len() == frame.width * frame.height * 4 && forall|i: int|
            0 <= i < rgba@.len() ==> #[trigger] rgba@[i] == if i % 4 == 3 {
                255u8
            } else {
                frame.data@[i / 4 / (frame.width as int) * frame.pitch + i / 4 % (frame.width as int)
                    * 4 + 2 - i % 4]
            },
{
    if frame.pixel_format != PixelFormat::XRGB8888 {
        return Err("unsupported pixel format".to_owned());
    }
    if !has_whole_pixels(frame) {
        return Err("frame buffer is too small".to_owned());
    }
    assert(rect_in_bounds(
        frame.data@.len(),
        0,
        0,
        frame.width as int,
        frame.height as int,
        frame.pitch as int,
    ));
    Ok(keyframe_rgba(&frame.data, frame.width, frame.height, frame.pitch))
}

/// A picture as a PNG file.
pub fn xrgb8888_to_png(frame: &RawFrame) -> (res: Result<Vec<u8>, String>)
    requires
        frame.width * frame.height * 4 <= usize::MAX,
    ensures
        if frame.pixel_format != PixelFormat::XRGB8888 {
            res matches Err(why) && why@ == "unsupported pixel format"@
        } else if !whole_pixels(frame) {
            res matches Err(why) && why@ == "frame buffer is too small"@
        } else {
            match png_file(frame_rgba(frame), frame.width, frame.height) {
                Ok(file) => res matches Ok(bytes) && bytes@ == file,
                Err(text) => res matches Err(why) && why@ == text,
            }
        },
{
    match picture_rgba(frame) {
        Ok(rgba) => {
            assert(0 <= frame.width * frame.height) by (nonlinear_arith)
                requires
                    0 <= frame.width,
                    0 <= frame.height,
            ;
            write_png(rgba, frame.width, frame.height)
        },
        Err(why) => Err(why),
    }
}

} // verus!
