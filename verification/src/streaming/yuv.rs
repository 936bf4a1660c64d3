//! Conversion of pictures to planar YUV, as single-precision arithmetic does it.
//!
//! Numbers are held in units of 2 to the power of -27. Every constant of the conversion is a whole
//! number of these units, and so is every intermediate result.
use crate::streaming::picture::{lemma_row_major, lemma_row_major_bound};
use vstd::arithmetic::div_mod::{
    lemma_div_multiples_vanish, lemma_fundamental_div_mod, lemma_hoist_over_denominator,
    lemma_mod_multiples_basic,
};
use vstd::prelude::*;

verus! {

/// One, in units.
pub const ONE: i64 = 0x800_0000;

/// The single-precision number nearest to 0.299, in units.
pub const Y_RED: i64 = 40_131_100;

/// The single-precision number nearest to 0.587, in units.
pub const Y_GREEN: i64 = 78_785_808;

/// The single-precision number nearest to 0.114, in units.
pub const Y_BLUE: i64 = 15_300_821;

/// The single-precision number nearest to 0.169, in units.
pub const U_RED: i64 = 22_682_796;

/// The single-precision number nearest to 0.331, in units.
pub const U_GREEN: i64 = 44_426_068;

/// The single-precision number nearest to 0.419, in units.
pub const V_GREEN: i64 = 56_237_228;

/// The single-precision number nearest to 0.081, in units.
pub const V_BLUE: i64 = 10_871_636;

/// One half, in units.
pub const HALF: i64 = 0x400_0000;

/// How far apart single-precision numbers lie around `n`: they have 24 significant bits.
pub open spec fn spacing(n: int) -> int {
    let a = if n < 0 {
        -n
    } else {
        n
    };
    if a < 0x1000000 {
        1
    } else if a < 0x2000000 {
        2
    } else if a < 0x4000000 {
        4
    } else if a < 0x8000000 {
        8
    } else if a < 0x10000000 {
        16
    } else if a < 0x20000000 {
        32
    } else if a < 0x40000000 {
        64
    } else if a < 0x80000000 {
        128
    } else if a < 0x100000000 {
        256
    } else if a < 0x200000000 {
        512
    } else if a < 0x400000000 {
        1024
    } else if a < 0x800000000 {
        2048
    } else if a < 0x1000000000 {
        4096
    } else {
        8192
    }
}

/// `n` rounded to single precision, half-way cases to the even neighbour.
pub open spec fn single(n: int) -> int {
    let gap = spacing(n);
    let below = n / gap;
    let rest = n % gap;
    if 2 * rest < gap || 2 * rest == gap && below % 2 == 0 {
        below * gap
    } else {
        (below + 1) * gap
    }
}

/// The byte that a number is cut down to.
pub open spec fn to_byte(n: int) -> u8 {
    if n < 0 {
        0
    } else if n >= 256 * ONE {
        255
    } else {
        (n / ONE as int) as u8
    }
}

/// The brightness of a colour: `0.299 * r + 0.587 * g + 0.114 * b`.
#[verifier::opaque]
pub open spec fn luma(r: u8, g: u8, b: u8) -> u8 {
    to_byte(single(single(single(Y_RED * r) + single(Y_GREEN * g)) + single(Y_BLUE * b)))
}

/// The blue difference of a colour: `-0.169 * r - 0.331 * g + 0.5 * b + 128`.
#[verifier::opaque]
pub open spec fn blue_difference(r: u8, g: u8, b: u8) -> u8 {
    to_byte(
        single(
            single(single(single(-(U_RED * r)) - single(U_GREEN * g)) + single(HALF * b)) + 128
                * ONE,
        ),
    )
}

/// The red difference of a colour: `0.5 * r - 0.419 * g - 0.081 * b + 128`.
#[verifier::opaque]
pub open spec fn red_difference(r: u8, g: u8, b: u8) -> u8 {
    to_byte(
        single(
            single(single(single(HALF * r) - single(V_GREEN * g)) - single(V_BLUE * b)) + 128
                * ONE,
        ),
    )
}

/// Neighbouring numbers are as far apart as 24 significant bits ask.
#[verifier::rlimit(30)]
pub proof fn law_spacing(n: int)
    requires
        -0x20_0000_0000 < n < 0x20_0000_0000,
    ensures
        ({
            let a = if n < 0 {
                -n
            } else {
                n
            };
            &&& 1 <= spacing(n) <= 0x2000
            &&& a < 0x100_0000 * spacing(n)
            &&& spacing(n) > 1 ==> 0x80_0000 * spacing(n) <= a
        }),
{
}

/// Rounding moves a number by at most half of the distance between its neighbours.
#[verifier::rlimit(30)]
pub proof fn law_single_is_near(n: int)
    requires
        -0x20_0000_0000 < n < 0x20_0000_0000,
    ensures
        2 * (single(n) - n) <= spacing(n),
        2 * (n - single(n)) <= spacing(n),
        single(n) % spacing(n) == 0,
{
    let gap = spacing(n);
    law_spacing(n);
    let below = n / gap;
    let rest = n % gap;
    lemma_fundamental_div_mod(n, gap);
    assert(below * gap == gap * below && (below + 1) * gap == gap * below + gap) by (
    nonlinear_arith);
    lemma_mod_multiples_basic(below, gap);
    lemma_mod_multiples_basic(below + 1, gap);
}

fn gap_around(n: i64) -> (gap: i64)
    requires
        -0x20_0000_0000 < n < 0x20_0000_0000,
    ensures
        gap == spacing(n as int),
        1 <= gap <= 0x2000,
        0x100_0000_0000int % gap as int == 0,
        0x100_0000_0000int / gap as int % 2 == 0,
{
    let a: i64 = if n < 0 {
        -n
    } else {
        n
    };
    if a < 0x1000000 {
        1
    } else if a < 0x2000000 {
        2
    } else if a < 0x4000000 {
        4
    } else if a < 0x8000000 {
        8
    } else if a < 0x10000000 {
        16
    } else if a < 0x20000000 {
        32
    } else if a < 0x40000000 {
        64
    } else if a < 0x80000000 {
        128
    } else if a < 0x100000000 {
        256
    } else if a < 0x200000000 {
        512
    } else if a < 0x400000000 {
        1024
    } else if a < 0x800000000 {
        2048
    } else if a < 0x1000000000 {
        4096
    } else {
        8192
    }
}

#[verifier::rlimit(30)]
fn round_single(n: i64) -> (res: i64)
    requires
        -0x1f_0000_0000 < n < 0x1f_0000_0000,
    ensures
        res == single(n as int),
        n - 0x1000 <= res <= n + 0x1000,
{
    let gap: i64 = gap_around(n);
    let shifted: u64 = (n + 0x100_0000_0000) as u64;
    let step: u64 = gap as u64;
    let below: u64 = shifted / step;
    let rest: u64 = shifted % step;
    proof {
        let j = 0x100_0000_0000int / gap as int;
        law_single_is_near(n as int);
        lemma_fundamental_div_mod(0x100_0000_0000, gap as int);
        lemma_fundamental_div_mod(shifted as int, gap as int);
        lemma_fundamental_div_mod(n as int, gap as int);
        assert(j * gap == gap * j) by (nonlinear_arith);
        lemma_hoist_over_denominator(n as int, j, gap as nat);
        assert(below == n as int / gap as int + j);
        assert(gap * below == gap * (n as int / gap as int) + gap * j) by (nonlinear_arith)
            requires
                below == n as int / gap as int + j,
        ;
        assert(rest == n as int % gap as int);
        assert(below * gap == gap * below && (n as int / gap as int) * gap == gap * (n as int
            / gap as int)) by (nonlinear_arith);
        assert((below + 1) * gap == gap * below + gap && (n as int / gap as int + 1) * gap == gap
            * (n as int / gap as int) + gap) by (nonlinear_arith);
    }
    let rounded: u64 = if 2 * rest < step || 2 * rest == step && below % 2 == 0 {
        shifted - rest
    } else {
        shifted - rest + step
    };
    rounded as i64 - 0x100_0000_0000
}

fn byte_of(n: i64) -> (byte: u8)
    ensures
        byte == to_byte(n as int),
{
    if n < 0 {
        0
    } else if n >= 0x8_0000_0000 {
        255
    } else {
        (n as u64 / 0x800_0000) as u8
    }
}

/// The brightness of a colour.
pub fn luma_of(r: u8, g: u8, b: u8) -> (y: u8)
    ensures
        y == luma(r, g, b),
{
    reveal(luma);
    let red: i64 = round_single(Y_RED * r as i64);
    let green: i64 = round_single(Y_GREEN * g as i64);
    let blue: i64 = round_single(Y_BLUE * b as i64);
    let some: i64 = round_single(red + green);
    byte_of(round_single(some + blue))
}

/// The blue difference of a colour.
pub fn blue_difference_of(r: u8, g: u8, b: u8) -> (u: u8)
    ensures
        u == blue_difference(r, g, b),
{
    reveal(blue_difference);
    let red: i64 = round_single(-(U_RED * r as i64));
    let green: i64 = round_single(U_GREEN * g as i64);
    let blue: i64 = round_single(HALF * b as i64);
    let some: i64 = round_single(red - green);
    let most: i64 = round_single(some + blue);
    byte_of(round_single(most + 0x4_0000_0000))
}

/// The red difference of a colour.
pub fn red_difference_of(r: u8, g: u8, b: u8) -> (v: u8)
    ensures
        v == red_difference(r, g, b),
{
    reveal(red_difference);
    let red: i64 = round_single(HALF * r as i64);
    let green: i64 = round_single(V_GREEN * g as i64);
    let blue: i64 = round_single(V_BLUE * b as i64);
    let some: i64 = round_single(red - green);
    let most: i64 = round_single(some - blue);
    byte_of(round_single(most + 0x4_0000_0000))
}

/// The three planes of a picture: brightness for each pixel, and two colour differences for each
/// block of four.
#[derive(Debug)]
pub struct YuvPlanes {
    pub y: Vec<u8>,
    pub u: Vec<u8>,
    pub v: Vec<u8>,
}

/// Where the pixel at column `col` of row `row` starts.
pub open spec fn pixel_start(row: int, col: int, pitch: int) -> int {
    row * pitch + col * 4
}

/// Whether a pixel lies in the buffer.
pub open spec fn has_pixel(data: Seq<u8>, row: int, col: int, pitch: int) -> bool {
    pixel_start(row, col, pitch) + 3 < data.len()
}

/// The brightness at a pixel; none is left black.
pub open spec fn luma_at(data: Seq<u8>, row: int, col: int, pitch: int) -> u8 {
    let at = pixel_start(row, col, pitch);
    if has_pixel(data, row, col, pitch) {
        luma(data[at + 2], data[at + 1], data[at])
    } else {
        0
    }
}

/// The blue difference at a pixel; none is left grey.
pub open spec fn blue_difference_at(data: Seq<u8>, row: int, col: int, pitch: int) -> u8 {
    let at = pixel_start(row, col, pitch);
    if has_pixel(data, row, col, pitch) {
        blue_difference(data[at + 2], data[at + 1], data[at])
    } else {
        128
    }
}

/// The red difference at a pixel; none is left grey.
pub open spec fn red_difference_at(data: Seq<u8>, row: int, col: int, pitch: int) -> u8 {
    let at = pixel_start(row, col, pitch);
    if has_pixel(data, row, col, pitch) {
        red_difference(data[at + 2], data[at + 1], data[at])
    } else {
        128
    }
}

/// The brightness plane.
pub open spec fn luma_plane(data: Seq<u8>, width: int, height: int, pitch: int) -> Seq<u8> {
    Seq::new((width * height) as nat, |i: int| luma_at(data, i / width, i % width, pitch))
}

/// The plane of blue differences, taken at the first pixel of each block of two by two.
pub open spec fn blue_plane(data: Seq<u8>, width: int, height: int, pitch: int) -> Seq<u8> {
    let half = width / 2;
    Seq::new(
        (half * (height / 2)) as nat,
        |i: int| blue_difference_at(data, i / half * 2, i % half * 2, pitch),
    )
}

/// The plane of red differences, taken at the first pixel of each block of two by two.
pub open spec fn red_plane(data: Seq<u8>, width: int, height: int, pitch: int) -> Seq<u8> {
    let half = width / 2;
    Seq::new(
        (half * (height / 2)) as nat,
        |i: int| red_difference_at(data, i / half * 2, i % half * 2, pitch),
    )
}

fn find_pixel(data: &[u8], row: u32, col: u32, pitch: u32) -> (at: Option<usize>)
    ensures
        match at {
            Some(at) => has_pixel(data@, row as int, col as int, pitch as int) && at == pixel_start(
                row as int,
                col as int,
                pitch as int,
            ) && at + 3 < data.len(),
            None => !has_pixel(data@, row as int, col as int, pitch as int),
        },
{
    assert(0 <= row * pitch <= 0xffff_ffff * 0xffff_ffff) by (nonlinear_arith)
        requires
            0 <= row <= 0xffff_ffff,
            0 <= pitch <= 0xffff_ffff,
    ;
    let at: u128 = row as u128 * pitch as u128 + col as u128 * 4;
    if at + 3 < data.len() as u128 {
        Some(at as usize)
    } else {
        None
    }
}

/// Converts a picture with four bytes per pixel (blue, green, red, unused) to its three planes. The
/// part of a picture that the buffer does not hold is black.
pub fn xrgb8888_to_yuv420(data: &[u8], width: u32, height: u32, pitch: u32) -> (planes: YuvPlanes)
    requires
        width % 2 == 0,
        height % 2 == 0,
    ensures
        planes.y@ == luma_plane(data@, width as int, height as int, pitch as int),
        planes.u@ == blue_plane(data@, width as int, height as int, pitch as int),
        planes.v@ == red_plane(data@, width as int, height as int, pitch as int),
{
    let y = luma_rows(data, width, height, pitch);
    let (u, v) = chroma_rows(data, width, height, pitch);
    YuvPlanes { y, u, v }
}

#[verifier::rlimit(30)]
fn luma_rows(data: &[u8], width: u32, height: u32, pitch: u32) -> (y: Vec<u8>)
    ensures
        y@ == luma_plane(data@, width as int, height as int, pitch as int),
{
    let ghost plane = luma_plane(data@, width as int, height as int, pitch as int);
    let mut y: Vec<u8> = Vec::new();
    let mut row: u32 = 0;
    assert(0 <= width * height) by (nonlinear_arith);
    assert(plane.take(0) =~= Seq::empty());
    while row < height
        invariant
            row <= height,
            plane == luma_plane(data@, width as int, height as int, pitch as int),
            plane.len() == width * height,
            y@ == plane.take(row * width),
        decreases height - row,
    {
        let mut col: u32 = 0;
        while col < width
            invariant
                row < height,
                col <= width,
                plane == luma_plane(data@, width as int, height as int, pitch as int),
                plane.len() == width * height,
                y@ == plane.take(row * width + col),
            decreases width - col,
        {
            let value: u8 = match find_pixel(data, row, col, pitch) {
                Some(at) => luma_of(data[at + 2], data[at + 1], data[at]),
                None => 0,
            };
            proof {
                lemma_row_major(row as int, col as int, width as int);
                lemma_row_major_bound(row as int, col as int, width as int, height as int);
                assert(plane.take(row * width + col + 1) =~= plane.take(row * width + col).push(
                    plane[row * width + col],
                ));
            }
            y.push(value);
            col += 1;
        }
        assert((row + 1) * width == row * width + width) by (nonlinear_arith);
        row += 1;
    }
    assert(row * width == width * height) by (nonlinear_arith)
        requires
            row == height,
    ;
    assert(plane.take(width * height) =~= plane);
    y
}

#[verifier::rlimit(30)]
fn chroma_rows(data: &[u8], width: u32, height: u32, pitch: u32) -> (planes: (Vec<u8>, Vec<u8>))
    ensures
        planes.0@ == blue_plane(data@, width as int, height as int, pitch as int),
        planes.1@ == red_plane(data@, width as int, height as int, pitch as int),
{
    let ghost blue = blue_plane(data@, width as int, height as int, pitch as int);
    let ghost red = red_plane(data@, width as int, height as int, pitch as int);
    let half: u32 = width / 2;
    let rows: u32 = height / 2;
    let mut u: Vec<u8> = Vec::new();
    let mut v: Vec<u8> = Vec::new();
    let mut row: u32 = 0;
    assert(0 <= half * rows) by (nonlinear_arith);
    assert(blue.take(0) =~= Seq::empty());
    assert(red.take(0) =~= Seq::empty());
    while row < rows
        invariant
            row <= rows,
            half == width / 2,
            rows == height / 2,
            blue == blue_plane(data@, width as int, height as int, pitch as int),
            red == red_plane(data@, width as int, height as int, pitch as int),
            blue.len() == half * rows,
            red.len() == half * rows,
            u@ == blue.take(row * half),
            v@ == red.take(row * half),
        decreases rows - row,
    {
        let mut col: u32 = 0;
        while col < half
            invariant
                row < rows,
                col <= half,
                half == width / 2,
                rows == height / 2,
                blue == blue_plane(data@, width as int, height as int, pitch as int),
                red == red_plane(data@, width as int, height as int, pitch as int),
                blue.len() == half * rows,
                red.len() == half * rows,
                u@ == blue.take(row * half + col),
                v@ == red.take(row * half + col),
            decreases half - col,
        {
            let (cb, cr) = match find_pixel(data, row * 2, col * 2, pitch) {
                Some(at) => (
                    blue_difference_of(data[at + 2], data[at + 1], data[at]),
                    red_difference_of(data[at + 2], data[at + 1], data[at]),
                ),
                None => (128, 128),
            };
            proof {
                lemma_row_major(row as int, col as int, half as int);
                lemma_row_major_bound(row as int, col as int, half as int, rows as int);
                assert(blue.take(row * half + col + 1) =~= blue.take(row * half + col).push(
                    blue[row * half + col],
                ));
                assert(red.take(row * half + col + 1) =~= red.take(row * half + col).push(
                    red[row * half + col],
                ));
            }
            u.push(cb);
            v.push(cr);
            col += 1;
        }
        assert((row + 1) * half == row * half + half) by (nonlinear_arith);
        row += 1;
    }
    assert(row * half == half * rows) by (nonlinear_arith)
        requires
            row == rows,
    ;
    assert(blue.take(half * rows) =~= blue);
    assert(red.take(half * rows) =~= red);
    (u, v)
}

/// Rounding moves a number of this size by at most 4096 units.
proof fn lemma_single_is_close(n: int)
    requires
        -0x20_0000_0000 < n < 0x20_0000_0000,
    ensures
        n - 0x1000 <= single(n) <= n + 0x1000,
{
    law_spacing(n);
    law_single_is_near(n);
}

/// The byte of a number of units that lies near a number of thousandths.
proof fn lemma_byte_of_thousandths(n: int, thousandths: int)
    requires
        0 <= thousandths < 256_000,
        -130_000_000 <= 1000 * n - 0x800_0000 * thousandths <= 130_000_000,
        0 <= n,
    ensures
        1000 * to_byte(n) <= thousandths <= 1000 * to_byte(n) + 1000,
{
    lemma_fundamental_div_mod(n, 0x800_0000);
}

/// Brightness is 0.299 of red, 0.587 of green and 0.114 of blue, rounded down; a sum that is a whole
/// number may come out one less.
pub proof fn law_brightness_is_weighted(r: u8, g: u8, b: u8)
    ensures
        1000 * luma(r, g, b) <= 299 * r + 587 * g + 114 * b <= 1000 * luma(r, g, b) + 1000,
{
    reveal(luma);
    let red = single(Y_RED * r);
    let green = single(Y_GREEN * g);
    let blue = single(Y_BLUE * b);
    let some = single(red + green);
    let all = single(some + blue);
    lemma_single_is_close(Y_RED * r);
    lemma_single_is_close(Y_GREEN * g);
    lemma_single_is_close(Y_BLUE * b);
    lemma_single_is_close(red + green);
    lemma_single_is_close(some + blue);
    if all >= 0 {
        lemma_byte_of_thousandths(all, 299 * r + 587 * g + 114 * b);
    }
}

/// The blue difference is 128 less 0.169 of red and 0.331 of green, and 0.5 of blue more, rounded
/// down; a sum that is a whole number may come out one less.
pub proof fn law_blue_difference_is_weighted(r: u8, g: u8, b: u8)
    ensures
        1000 * blue_difference(r, g, b) <= 128_000 - 169 * r - 331 * g + 500 * b <= 1000
            * blue_difference(r, g, b) + 1000,
{
    reveal(blue_difference);
    let red = single(-(U_RED * r));
    let green = single(U_GREEN * g);
    let blue = single(HALF * b);
    let some = single(red - green);
    let most = single(some + blue);
    let all = single(most + 128 * ONE);
    lemma_single_is_close(-(U_RED * r));
    lemma_single_is_close(U_GREEN * g);
    lemma_single_is_close(HALF * b);
    lemma_single_is_close(red - green);
    lemma_single_is_close(some + blue);
    lemma_single_is_close(most + 128 * ONE);
    lemma_byte_of_thousandths(all, 128_000 - 169 * r - 331 * g + 500 * b);
}

/// The red difference is 128 less 0.419 of green and 0.081 of blue, and 0.5 of red more, rounded
/// down; a sum that is a whole number may come out one less.
pub proof fn law_red_difference_is_weighted(r: u8, g: u8, b: u8)
    ensures
        1000 * red_difference(r, g, b) <= 128_000 + 500 * r - 419 * g - 81 * b <= 1000
            * red_difference(r, g, b) + 1000,
{
    reveal(red_difference);
    let red = single(HALF * r);
    let green = single(V_GREEN * g);
    let blue = single(V_BLUE * b);
    let some = single(red - green);
    let most = single(some - blue);
    let all = single(most + 128 * ONE);
    lemma_single_is_close(HALF * r);
    lemma_single_is_close(V_GREEN * g);
    lemma_single_is_close(V_BLUE * b);
    lemma_single_is_close(red - green);
    lemma_single_is_close(some - blue);
    lemma_single_is_close(most + 128 * ONE);
    lemma_byte_of_thousandths(all, 128_000 + 500 * r - 419 * g - 81 * b);
}

/// The brightness plane has an entry for every pixel, row by row, and it is the brightness of that
/// pixel: of the blue, green and red byte that stand for it in the buffer. A pixel that the buffer
/// does not hold is black.
pub proof fn law_brightness_is_per_pixel(
    data: Seq<u8>,
    width: int,
    height: int,
    pitch: int,
    row: int,
    col: int,
)
    requires
        0 <= row < height,
        0 <= col < width,
        0 <= pitch,
    ensures
        ({
            let plane = luma_plane(data, width, height, pitch);
            let at = row * pitch + col * 4;
            let y = plane[row * width + col];
            &&& plane.len() == width * height
            &&& if at + 3 < data.len() {
                1000 * y <= 299 * data[at + 2] + 587 * data[at + 1] + 114 * data[at] <= 1000 * y
                    + 1000
            } else {
                y == 0
            }
        }),
{
    lemma_row_major(row, col, width);
    lemma_row_major_bound(row, col, width, height);
    let at = row * pitch + col * 4;
    law_brightness_is_weighted(data[at + 2], data[at + 1], data[at]);
}

/// The colour planes have an entry for every block of two by two pixels, row by row, and it is the
/// colour difference of the first pixel of that block: the one at even row `row` and even column
/// `col`. One that the buffer does not hold is grey.
pub proof fn law_colour_is_per_block(
    data: Seq<u8>,
    width: int,
    height: int,
    pitch: int,
    row: int,
    col: int,
)
    requires
        0 <= row < height,
        0 <= col < width,
        0 <= pitch,
        width % 2 == 0 && height % 2 == 0,
        row % 2 == 0 && col % 2 == 0,
    ensures
        ({
            let blue = blue_plane(data, width, height, pitch);
            let red = red_plane(data, width, height, pitch);
            let at = row * pitch + col * 4;
            let i = row / 2 * (width / 2) + col / 2;
            let (b, g, r) = (data[at], data[at + 1], data[at + 2]);
            &&& blue.len() == width / 2 * (height / 2)
            &&& red.len() == width / 2 * (height / 2)
            &&& 0 <= i < blue.len()
            &&& if at + 3 < data.len() {
                &&& 1000 * blue[i] <= 128_000 - 169 * r - 331 * g + 500 * b <= 1000 * blue[i] + 1000
                &&& 1000 * red[i] <= 128_000 + 500 * r - 419 * g - 81 * b <= 1000 * red[i] + 1000
            } else {
                blue[i] == 128 && red[i] == 128
            }
        }),
{
    let half = width / 2;
    let (brow, bcol) = (row / 2, col / 2);
    lemma_row_major(brow, bcol, half);
    lemma_row_major_bound(brow, bcol, half, height / 2);
    let at = row * pitch + col * 4;
    law_blue_difference_is_weighted(data[at + 2], data[at + 1], data[at]);
    law_red_difference_is_weighted(data[at + 2], data[at + 1], data[at]);
}

/// An entry of the planes depends on nothing but the pixel that it stands for: two pictures of the
/// same length that agree in that pixel have the same entry, whatever else they show.
pub proof fn law_entries_are_local(
    a: Seq<u8>,
    b: Seq<u8>,
    width: int,
    height: int,
    pitch: int,
    row: int,
    col: int,
)
    requires
        0 <= row < height,
        0 <= col < width,
        0 <= pitch,
        width % 2 == 0 && height % 2 == 0,
        a.len() == b.len(),
        a[row * pitch + col * 4] == b[row * pitch + col * 4],
        a[row * pitch + col * 4 + 1] == b[row * pitch + col * 4 + 1],
        a[row * pitch + col * 4 + 2] == b[row * pitch + col * 4 + 2],
    ensures
        luma_plane(a, width, height, pitch)[row * width + col] == luma_plane(
            b,
            width,
            height,
            pitch,
        )[row * width + col],
        row % 2 == 0 && col % 2 == 0 ==> {
            let i = row / 2 * (width / 2) + col / 2;
            &&& blue_plane(a, width, height, pitch)[i] == blue_plane(b, width, height, pitch)[i]
            &&& red_plane(a, width, height, pitch)[i] == red_plane(b, width, height, pitch)[i]
        },
{
    lemma_row_major(row, col, width);
    lemma_row_major_bound(row, col, width, height);
    if row % 2 == 0 && col % 2 == 0 {
        lemma_row_major(row / 2, col / 2, width / 2);
        lemma_row_major_bound(row / 2, col / 2, width / 2, height / 2);
    }
}

/// Whether `m` is the single-precision number nearest to `n`: none is nearer, and of two that are
/// equally near it is the even one.
pub open spec fn is_nearest(n: int, m: int) -> bool {
    let gap = spacing(n);
    &&& m % gap == 0
    &&& 2 * (m - n) <= gap
    &&& 2 * (n - m) <= gap
    &&& 2 * (m - n) == gap || 2 * (n - m) == gap ==> m / gap % 2 == 0
}

/// There is just one nearest number, and rounding gives it.
pub proof fn law_rounding_gives_the_nearest(n: int, m: int)
    requires
        -0x20_0000_0000 < n < 0x20_0000_0000,
    ensures
        single(n) == m <==> is_nearest(n, m),
{
    let gap = spacing(n);
    law_spacing(n);
    law_single_is_near(n);
    let below = n / gap;
    let rest = n % gap;
    lemma_fundamental_div_mod(n, gap);
    lemma_fundamental_div_mod(m, gap);
    assert(below * gap == gap * below && (below + 1) * gap == gap * below + gap) by (
    nonlinear_arith);
    lemma_div_multiples_vanish(below, gap);
    lemma_div_multiples_vanish(below + 1, gap);
    assert(gap * below / gap == below);
    assert(gap * (below + 1) / gap == below + 1);
    assert(gap * (below + 1) == gap * below + gap) by (nonlinear_arith);
    if is_nearest(n, m) {
        let a = m / gap;
        assert(a == below || a == below + 1) by (nonlinear_arith)
            requires
                gap > 0,
                n == gap * below + rest,
                0 <= rest < gap,
                m == gap * a,
                2 * (m - n) <= gap,
                2 * (n - m) <= gap,
        ;
        if a == below {
            assert(m == gap * below);
        } else {
            assert(m == gap * (below + 1));
        }
    }
}

/// The weights are the single-precision numbers nearest to 0.299, 0.587, 0.114, 0.169, 0.331, 0.419
/// and 0.081, in units of 2 to the power of -27.
pub proof fn law_weights_are_the_nearest()
    ensures
        2 * (1000 * Y_RED - 299 * 134_217_728) <= 4000 && 2 * (299 * 134_217_728 - 1000 * Y_RED)
            <= 4000 && Y_RED as int % 4 == 0,
        2 * (1000 * Y_GREEN - 587 * 134_217_728) <= 8000 && 2 * (587 * 134_217_728 - 1000 * Y_GREEN)
            <= 8000 && Y_GREEN as int % 8 == 0,
        2 * (1000 * Y_BLUE - 114 * 134_217_728) <= 1000 && 2 * (114 * 134_217_728 - 1000 * Y_BLUE)
            <= 1000,
        2 * (1000 * U_RED - 169 * 134_217_728) <= 2000 && 2 * (169 * 134_217_728 - 1000 * U_RED)
            <= 2000 && U_RED as int % 2 == 0,
        2 * (1000 * U_GREEN - 331 * 134_217_728) <= 4000 && 2 * (331 * 134_217_728 - 1000 * U_GREEN)
            <= 4000 && U_GREEN as int % 4 == 0,
        2 * (1000 * V_GREEN - 419 * 134_217_728) <= 4000 && 2 * (419 * 134_217_728 - 1000 * V_GREEN)
            <= 4000 && V_GREEN as int % 4 == 0,
        2 * (1000 * V_BLUE - 81 * 134_217_728) <= 1000 && 2 * (81 * 134_217_728 - 1000 * V_BLUE)
            <= 1000,
        2 * HALF == 134_217_728,
{
}

/// The brightness is computed in single precision, step by step: the products with the weights first,
/// then the sum of red and green, then that of all three. What comes out is cut down to a byte.
pub proof fn law_brightness_is_rounded_step_by_step(
    r: u8,
    g: u8,
    b: u8,
    red: int,
    green: int,
    blue: int,
    some: int,
    all: int,
)
    requires
        is_nearest(Y_RED * r, red),
        is_nearest(Y_GREEN * g, green),
        is_nearest(Y_BLUE * b, blue),
        is_nearest(red + green, some),
        is_nearest(some + blue, all),
    ensures
        luma(r, g, b) == if all < 0 {
            0
        } else if all >= 256 * 134_217_728 {
            255
        } else {
            all / 134_217_728
        },
{
    reveal(luma);
    law_rounding_gives_the_nearest(Y_RED * r, red);
    law_rounding_gives_the_nearest(Y_GREEN * g, green);
    law_rounding_gives_the_nearest(Y_BLUE * b, blue);
    law_spacing(Y_RED * r);
    law_spacing(Y_GREEN * g);
    law_spacing(Y_BLUE * b);
    law_rounding_gives_the_nearest(red + green, some);
    law_spacing(red + green);
    law_rounding_gives_the_nearest(some + blue, all);
}

/// How blue a colour is, is computed in the same way: red and green are taken away, half of blue is
/// added, and then 128.
pub proof fn law_blue_difference_is_rounded_step_by_step(
    r: u8,
    g: u8,
    b: u8,
    red: int,
    green: int,
    blue: int,
    some: int,
    most: int,
    all: int,
)
    requires
        is_nearest(-(U_RED * r), red),
        is_nearest(U_GREEN * g, green),
        is_nearest(HALF * b, blue),
        is_nearest(red - green, some),
        is_nearest(some + blue, most),
        is_nearest(most + 128 * 134_217_728, all),
    ensures
        blue_difference(r, g, b) == if all < 0 {
            0
        } else if all >= 256 * 134_217_728 {
            255
        } else {
            all / 134_217_728
        },
{
    reveal(blue_difference);
    law_rounding_gives_the_nearest(-(U_RED * r), red);
    law_rounding_gives_the_nearest(U_GREEN * g, green);
    law_rounding_gives_the_nearest(HALF * b, blue);
    law_spacing(-(U_RED * r));
    law_spacing(U_GREEN * g);
    law_spacing(HALF * b);
    law_rounding_gives_the_nearest(red - green, some);
    law_spacing(red - green);
    law_rounding_gives_the_nearest(some + blue, most);
    law_spacing(some + blue);
    law_rounding_gives_the_nearest(most + 128 * 134_217_728, all);
}

/// How red a colour is, is computed in the same way: green and blue are taken away from half of red,
/// and 128 is added.
pub proof fn law_red_difference_is_rounded_step_by_step(
    r: u8,
    g: u8,
    b: u8,
    red: int,
    green: int,
    blue: int,
    some: int,
    most: int,
    all: int,
)
    requires
        is_nearest(HALF * r, red),
        is_nearest(V_GREEN * g, green),
        is_nearest(V_BLUE * b, blue),
        is_nearest(red - green, some),
        is_nearest(some - blue, most),
        is_nearest(most + 128 * 134_217_728, all),
    ensures
        red_difference(r, g, b) == if all < 0 {
            0
        } else if all >= 256 * 134_217_728 {
            255
        } else {
            all / 134_217_728
        },
{
    reveal(red_difference);
    law_rounding_gives_the_nearest(HALF * r, red);
    law_rounding_gives_the_nearest(V_GREEN * g, green);
    law_rounding_gives_the_nearest(V_BLUE * b, blue);
    law_spacing(HALF * r);
    law_spacing(V_GREEN * g);
    law_spacing(V_BLUE * b);
    law_rounding_gives_the_nearest(red - green, some);
    law_spacing(red - green);
    law_rounding_gives_the_nearest(some - blue, most);
    law_spacing(some - blue);
    law_rounding_gives_the_nearest(most + 128 * 134_217_728, all);
}

} // verus!
