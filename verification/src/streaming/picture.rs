//! Emulator pictures: rows of little-endian XRGB8888 pixels, `pitch` bytes apart.
use vstd::arithmetic::div_mod::lemma_fundamental_div_mod_converse;
use vstd::arithmetic::mul::lemma_mul_inequality;
use vstd::prelude::*;

verus! {

/// Where the pixel at column `x` of row `y` starts.
pub open spec fn pixel_offset(x: int, y: int, pitch: int) -> int {
    y * pitch + x * 4
}

/// One of the four RGBA channels of the pixel that starts at `off`; alpha is opaque.
pub open spec fn channel(pixels: Seq<u8>, off: int, c: int) -> u8 {
    if c == 3 {
        255
    } else {
        pixels[off + 2 - c]
    }
}

/// The RGBA bytes of a rectangle, row by row from the top left.
pub open spec fn rect_rgba(pixels: Seq<u8>, x0: int, y0: int, w: int, h: int, pitch: int) -> Seq<
    u8,
> {
    Seq::new(
        (w * h * 4) as nat,
        |i: int| channel(pixels, pixel_offset(x0 + i / 4 % w, y0 + i / 4 / w, pitch), i % 4),
    )
}

/// Every pixel of the rectangle has its three colour bytes inside a buffer of `len` bytes.
pub open spec fn rect_in_bounds(len: nat, x0: int, y0: int, w: int, h: int, pitch: int) -> bool {
    forall|x: int, y: int|
        x0 <= x < x0 + w && y0 <= y < y0 + h ==> #[trigger] pixel_offset(x, y, pitch) + 3 <= len
}

/// Row-major numbering of a `w` wide rectangle: number `row * w + col` is column `col` of row `row`.
pub proof fn lemma_row_major(row: int, col: int, w: int)
    requires
        0 <= row,
        0 <= col < w,
    ensures
        0 <= row * w,
        (row * w + col) / w == row,
        (row * w + col) % w == col,
{
    assert(0 <= row * w) by (nonlinear_arith)
        requires
            0 <= row,
            0 < w,
    ;
    lemma_fundamental_div_mod_converse(row * w + col, w, row, col);
}

/// The number of a position in a `w` by `h` rectangle lies below `w * h`.
pub proof fn lemma_row_major_bound(row: int, col: int, w: int, h: int)
    requires
        0 <= row < h,
        0 <= col < w,
    ensures
        row * w + col + 1 <= w * h,
{
    assert((row + 1) * w <= h * w) by {
        lemma_mul_inequality(row + 1, h, w);
    }
    assert((row + 1) * w == row * w + w) by (nonlinear_arith);
    assert(h * w == w * h) by (nonlinear_arith);
}

/// Every number below `w * h` is a position in the rectangle.
pub proof fn lemma_row_major_inverse(n: int, w: int, h: int)
    requires
        0 <= n < w * h,
        0 <= w,
        0 <= h,
    ensures
        0 < w,
        0 <= n % w < w,
        0 <= n / w < h,
        n == n / w * w + n % w,
{
    assert(w > 0) by (nonlinear_arith)
        requires
            0 <= n < w * h,
            0 <= w,
    ;
    vstd::arithmetic::div_mod::lemma_fundamental_div_mod(n, w);
    assert(0 <= n / w) by (nonlinear_arith)
        requires
            0 <= n,
            w > 0,
    ;
    assert(n / w < h) by (nonlinear_arith)
        requires
            n == w * (n / w) + n % w,
            0 <= n % w,
            n < w * h,
            w > 0,
    ;
    assert(w * (n / w) == n / w * w) by (nonlinear_arith);
}

/// The pixel at column `x` of row `y` of a rectangle is shown there and nowhere else: its RGBA bytes
/// are its red, green and blue byte in the buffer, which stand there the other way round, and full
/// alpha.
pub proof fn law_pixels_are_shown_where_they_are(
    pixels: Seq<u8>,
    x0: int,
    y0: int,
    w: int,
    h: int,
    pitch: int,
    x: int,
    y: int,
)
    requires
        0 <= x < w,
        0 <= y < h,
    ensures
        ({
            let shown = rect_rgba(pixels, x0, y0, w, h, pitch);
            let at = (y * w + x) * 4;
            let from = (y0 + y) * pitch + (x0 + x) * 4;
            &&& shown.len() == w * h * 4
            &&& 0 <= at && at + 4 <= shown.len()
            &&& shown[at] == pixels[from + 2]
            &&& shown[at + 1] == pixels[from + 1]
            &&& shown[at + 2] == pixels[from]
            &&& shown[at + 3] == 255
        }),
{
    let n = y * w + x;
    lemma_row_major(y, x, w);
    lemma_row_major_bound(y, x, w, h);
    let at = n * 4;
    assert(at / 4 == n && (at + 1) / 4 == n && (at + 2) / 4 == n && (at + 3) / 4 == n);
    assert(at % 4 == 0 && (at + 1) % 4 == 1 && (at + 2) % 4 == 2 && (at + 3) % 4 == 3);
}

/// Two pictures that differ in a colour byte of a pixel are shown differently at that pixel, and
/// pictures that agree in the colour bytes of a pixel are shown the same there.
pub proof fn law_pictures_are_told_apart(
    a: Seq<u8>,
    b: Seq<u8>,
    w: int,
    h: int,
    pitch: int,
    x: int,
    y: int,
)
    requires
        0 <= x < w,
        0 <= y < h,
    ensures
        ({
            let at = (y * w + x) * 4;
            let from = y * pitch + x * 4;
            let shown_a = rect_rgba(a, 0, 0, w, h, pitch);
            let shown_b = rect_rgba(b, 0, 0, w, h, pitch);
            (shown_a[at] == shown_b[at] && shown_a[at + 1] == shown_b[at + 1] && shown_a[at + 2]
                == shown_b[at + 2]) <==> (a[from] == b[from] && a[from + 1] == b[from + 1] && a[from
                + 2] == b[from + 2])
        }),
{
    law_pixels_are_shown_where_they_are(a, 0, 0, w, h, pitch, x, y);
    law_pixels_are_shown_where_they_are(b, 0, 0, w, h, pitch, x, y);
}

/// A rectangle fits into a buffer if and only if the colour bytes of its last pixel do. An empty one
/// always does.
pub proof fn law_rectangle_fits_up_to_its_last_pixel(
    len: nat,
    x0: int,
    y0: int,
    w: int,
    h: int,
    pitch: int,
)
    requires
        0 <= pitch,
        0 <= w,
        0 <= h,
    ensures
        rect_in_bounds(len, x0, y0, w, h, pitch) <==> (w == 0 || h == 0 || (y0 + h - 1) * pitch + (
        x0 + w - 1) * 4 + 3 <= len),
{
    if w > 0 && h > 0 {
        let (lx, ly) = (x0 + w - 1, y0 + h - 1);
        assert forall|x: int, y: int| x0 <= x < x0 + w && y0 <= y < y0 + h implies #[trigger]
        pixel_offset(x, y, pitch) <= ly * pitch + lx * 4 by {
            lemma_mul_inequality(y, ly, pitch);
        }
        assert(pixel_offset(lx, ly, pitch) == ly * pitch + lx * 4);
    }
}

/// The picture grows by one whole pixel at a time.
proof fn lemma_rect_step(
    pixels: Seq<u8>,
    x0: int,
    y0: int,
    w: int,
    h: int,
    pitch: int,
    row: int,
    col: int,
)
    requires
        0 <= row < h,
        0 <= col < w,
    ensures
        ({
            let all = rect_rgba(pixels, x0, y0, w, h, pitch);
            let n = row * w + col;
            let off = pixel_offset(x0 + col, y0 + row, pitch);
            &&& 0 <= n * 4
            &&& (n + 1) * 4 <= all.len()
            &&& all.take((n + 1) * 4) == all.take(n * 4) + seq![
                channel(pixels, off, 0),
                channel(pixels, off, 1),
                channel(pixels, off, 2),
                channel(pixels, off, 3),
            ]
        }),
{
    let all = rect_rgba(pixels, x0, y0, w, h, pitch);
    let n = row * w + col;
    let off = pixel_offset(x0 + col, y0 + row, pitch);
    lemma_row_major(row, col, w);
    lemma_row_major_bound(row, col, w, h);
    assert(all.len() == w * h * 4);
    let four = seq![
        channel(pixels, off, 0),
        channel(pixels, off, 1),
        channel(pixels, off, 2),
        channel(pixels, off, 3),
    ];
    assert forall|i: int| 0 <= i < (n + 1) * 4 implies #[trigger] all.take((n + 1) * 4)[i] == (
    all.take(n * 4) + four)[i] by {
        if i >= n * 4 {
            assert(i / 4 == n);
            assert(i % 4 == i - n * 4);
        }
    }
    assert(all.take((n + 1) * 4) =~= all.take(n * 4) + four);
}

/// Appends the RGBA bytes of a rectangle.
pub fn push_rect(
    out: &mut Vec<u8>,
    pixels: &[u8],
    x0: u32,
    y0: u32,
    w: u32,
    h: u32,
    pitch: u32,
)
    requires
        x0 + w <= u32::MAX,
        y0 + h <= u32::MAX,
        rect_in_bounds(pixels@.len(), x0 as int, y0 as int, w as int, h as int, pitch as int),
    ensures
        final(out)@ == old(out)@ + rect_rgba(
            pixels@,
            x0 as int,
            y0 as int,
            w as int,
            h as int,
            pitch as int,
        ),
{
    let ghost before = out@;
    let ghost all = rect_rgba(pixels@, x0 as int, y0 as int, w as int, h as int, pitch as int);
    assert(before + all.take(0) =~= before);
    let mut row: u32 = 0;
    while row < h
        invariant
            row <= h,
            x0 + w <= u32::MAX,
            y0 + h <= u32::MAX,
            rect_in_bounds(pixels@.len(), x0 as int, y0 as int, w as int, h as int, pitch as int),
            all == rect_rgba(pixels@, x0 as int, y0 as int, w as int, h as int, pitch as int),
            out@ == before + all.take(row * w * 4),
        decreases h - row,
    {
        let mut col: u32 = 0;
        assert(row * w + 0 == row * w);
        while col < w
            invariant
                row < h,
                col <= w,
                x0 + w <= u32::MAX,
                y0 + h <= u32::MAX,
                rect_in_bounds(
                    pixels@.len(),
                    x0 as int,
                    y0 as int,
                    w as int,
                    h as int,
                    pitch as int,
                ),
                all == rect_rgba(pixels@, x0 as int, y0 as int, w as int, h as int, pitch as int),
                out@ == before + all.take((row * w + col) * 4),
            decreases w - col,
        {
            let ghost off = pixel_offset(x0 + col, y0 + row, pitch as int);
            assert(off + 3 <= pixels@.len());
            assert(0 <= (y0 + row) * pitch) by (nonlinear_arith)
                requires
                    0 <= y0 + row,
                    0 <= pitch,
            ;
            assert(off < pixels.len());
            let px: usize = (y0 + row) as usize * pitch as usize + (x0 + col) as usize * 4;
            let b: u8 = pixels[px];
            let g: u8 = pixels[px + 1];
            let r: u8 = pixels[px + 2];
            out.push(r);
            out.push(g);
            out.push(b);
            out.push(255);
            proof {
                lemma_rect_step(
                    pixels@,
                    x0 as int,
                    y0 as int,
                    w as int,
                    h as int,
                    pitch as int,
                    row as int,
                    col as int,
                );
                assert((row * w + col + 1) * 4 == (row * w + (col + 1)) * 4);
                assert(out@ =~= before + all.take((row * w + col + 1) * 4));
            }
            col += 1;
        }
        assert((row + 1) * w == row * w + w) by (nonlinear_arith);
        row += 1;
    }
    assert(row * w * 4 == w * h * 4) by (nonlinear_arith)
        requires
            row == h,
    ;
    assert(all.take(w * h * 4) =~= all);
}

} // verus!
