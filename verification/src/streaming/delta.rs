//! Delta frames: the tiles of a picture that differ from the picture before it.
use crate::streaming::picture::{
    lemma_row_major, lemma_row_major_bound, pixel_offset, push_rect, rect_in_bounds, rect_rgba,
};
use crate::wire::{be16, lemma_be16_low, low16, push_be16, push_bytes};
use vstd::arithmetic::div_mod::lemma_fundamental_div_mod;
use vstd::arithmetic::mul::lemma_mul_inequality;
use vstd::prelude::*;

verus! {

broadcast use crate::wire::group_number_lengths;

/// A rectangle of a picture.
pub struct TileArea {
    pub x: int,
    pub y: int,
    pub w: int,
    pub h: int,
}

impl TileArea {
    /// Where pixel number `i` of the rectangle (row by row) starts in a buffer.
    pub open spec fn offset(self, i: int, pitch: int) -> int {
        pixel_offset(self.x + i % self.w, self.y + i / self.w, pitch)
    }

    /// How many pixels it has.
    pub open spec fn area(self) -> int {
        self.w * self.h
    }

    /// Whether the pixel at column `px` of row `py` lies in it.
    pub open spec fn covers(self, px: int, py: int) -> bool {
        self.x <= px < self.x + self.w && self.y <= py < self.y + self.h
    }

    /// The RGBA bytes that a picture has there.
    pub open spec fn rgba(self, pixels: Seq<u8>, pitch: int) -> Seq<u8> {
        rect_rgba(pixels, self.x, self.y, self.w, self.h, pitch)
    }
}

/// A picture cut into square tiles, the last of a row or column cut off at the edge.
pub struct Grid {
    pub width: int,
    pub height: int,
    pub pitch: int,
    pub tile: int,
}

/// How many tiles of edge `tile` it takes to span `extent` pixels.
pub open spec fn tiles_to_span(extent: int, tile: int) -> int {
    if extent <= 0 {
        0
    } else {
        (extent - 1) / tile + 1
    }
}

impl Grid {
    /// The grid of a picture of `width` by `height` pixels with rows `pitch` bytes apart.
    pub open spec fn of(width: u32, height: u32, pitch: u32, tile_size: u32) -> Grid {
        Grid {
            width: width as int,
            height: height as int,
            pitch: pitch as int,
            tile: tile_size as int,
        }
    }

    pub open spec fn wf(self) -> bool {
        self.tile > 0 && self.width >= 0 && self.height >= 0 && self.pitch >= 0
    }

    /// Tiles in a row.
    pub open spec fn across(self) -> int {
        tiles_to_span(self.width, self.tile)
    }

    /// Rows of tiles.
    pub open spec fn down(self) -> int {
        tiles_to_span(self.height, self.tile)
    }

    /// All tiles.
    pub open spec fn count(self) -> int {
        self.across() * self.down()
    }

    /// The tile in column `tx` of tile row `ty`.
    pub open spec fn tile_in(self, tx: int, ty: int) -> TileArea {
        let x = tx * self.tile;
        let y = ty * self.tile;
        TileArea {
            x,
            y,
            w: if self.width - x < self.tile {
                self.width - x
            } else {
                self.tile
            },
            h: if self.height - y < self.tile {
                self.height - y
            } else {
                self.tile
            },
        }
    }

    /// Tile number `k`, counted row by row from the top left.
    pub open spec fn tile_at(self, k: int) -> TileArea {
        self.tile_in(k % self.across(), k / self.across())
    }

    /// The four bytes at `off` exist in both pictures and are the same.
    pub open spec fn same_at(prev: Seq<u8>, curr: Seq<u8>, off: int) -> bool {
        &&& off + 4 <= prev.len()
        &&& off + 4 <= curr.len()
        &&& prev.subrange(off, off + 4) == curr.subrange(off, off + 4)
    }

    /// The four bytes at `off` exist in both pictures and are not the same.
    pub open spec fn differs_at(prev: Seq<u8>, curr: Seq<u8>, off: int) -> bool {
        &&& off + 4 <= prev.len()
        &&& off + 4 <= curr.len()
        &&& prev.subrange(off, off + 4) != curr.subrange(off, off + 4)
    }

    /// All pixels of the tile are the same in both pictures.
    pub open spec fn tile_unchanged(self, prev: Seq<u8>, curr: Seq<u8>, t: TileArea) -> bool {
        forall|i: int|
            0 <= i < t.area() ==> Self::same_at(prev, curr, #[trigger] t.offset(i, self.pitch))
    }

    /// Read pixel by pixel, the tile comes to one that differs while all before it are the same.
    pub open spec fn tile_changed(self, prev: Seq<u8>, curr: Seq<u8>, t: TileArea) -> bool {
        exists|i: int|
            {
                &&& 0 <= i < t.area()
                &&& Self::differs_at(prev, curr, #[trigger] t.offset(i, self.pitch))
                &&& forall|j: int|
                    0 <= j < i ==> Self::same_at(prev, curr, #[trigger] t.offset(j, self.pitch))
            }
    }

    /// The tile can be compared, and rendered where it changed, without leaving the buffers.
    pub open spec fn tile_readable(self, prev: Seq<u8>, curr: Seq<u8>, t: TileArea) -> bool {
        ||| self.tile_unchanged(prev, curr, t)
        ||| self.tile_changed(prev, curr, t) && rect_in_bounds(
            curr.len(),
            t.x,
            t.y,
            t.w,
            t.h,
            self.pitch,
        )
    }

    /// Every tile is readable.
    pub open spec fn readable(self, prev: Seq<u8>, curr: Seq<u8>) -> bool {
        forall|k: int|
            0 <= k < self.count() ==> self.tile_readable(prev, curr, #[trigger] self.tile_at(k))
    }

    /// The changed tiles among the first `k`, in order.
    pub open spec fn changed_tiles(self, prev: Seq<u8>, curr: Seq<u8>, k: int) -> Seq<TileArea>
        decreases k,
    {
        if k <= 0 {
            Seq::empty()
        } else {
            let before = self.changed_tiles(prev, curr, k - 1);
            if self.tile_changed(prev, curr, self.tile_at(k - 1)) {
                before.push(self.tile_at(k - 1))
            } else {
                before
            }
        }
    }

    /// How a tile is written: position and size, then its RGBA bytes.
    pub open spec fn record(self, curr: Seq<u8>, t: TileArea) -> Seq<u8> {
        be16(t.x) + be16(t.y) + be16(t.w) + be16(t.h) + t.rgba(curr, self.pitch)
    }

    /// The records of tiles, one after the other.
    pub open spec fn records(self, curr: Seq<u8>, tiles: Seq<TileArea>) -> Seq<u8>
        decreases tiles.len(),
    {
        if tiles.len() == 0 {
            Seq::empty()
        } else {
            self.records(curr, tiles.drop_last()) + self.record(curr, tiles.last())
        }
    }

    /// The uncompressed delta: how many tiles changed, then their records.
    pub open spec fn delta(self, prev: Seq<u8>, curr: Seq<u8>) -> Seq<u8> {
        let tiles = self.changed_tiles(prev, curr, self.count());
        be16(tiles.len() as int) + self.records(curr, tiles)
    }
}

/// The tiles of a row lie inside the picture.
pub proof fn lemma_tile_start(extent: int, tile: int, t: int)
    requires
        tile > 0,
        0 <= t < tiles_to_span(extent, tile),
    ensures
        0 <= t * tile < extent,
{
    let last = (extent - 1) / tile;
    lemma_fundamental_div_mod(extent - 1, tile);
    assert(t * tile <= last * tile) by {
        lemma_mul_inequality(t, last, tile);
    }
    assert(last * tile == tile * last) by (nonlinear_arith);
    assert(0 <= t * tile) by (nonlinear_arith)
        requires
            0 <= t,
            tile > 0,
    ;
}

/// What a look at one tile found.
#[derive(Debug, Clone, Copy, PartialEq, Eq, Structural)]
enum TileScan {
    Unchanged,
    Changed,
    OutOfBounds,
}

/// `pixel_offset` as a number that cannot overflow.
fn wide_offset(x: u32, y: u32, pitch: u32) -> (off: u128)
    ensures
        off == pixel_offset(x as int, y as int, pitch as int),
        0 <= off <= 0x2_0000_0000_0000_0000,
{
    assert(0 <= y * pitch <= 0xffff_ffff * 0xffff_ffff) by (nonlinear_arith)
        requires
            0 <= y <= 0xffff_ffff,
            0 <= pitch <= 0xffff_ffff,
    ;
    y as u128 * pitch as u128 + x as u128 * 4
}

/// Compares four bytes of two buffers.
fn same_four(a: &[u8], b: &[u8], at: usize) -> (same: bool)
    requires
        at + 4 <= a@.len(),
        at + 4 <= b@.len(),
    ensures
        same == (a@.subrange(at as int, at + 4) == b@.subrange(at as int, at + 4)),
{
    let same = a[at] == b[at] && a[at + 1] == b[at + 1] && a[at + 2] == b[at + 2] && a[at + 3]
        == b[at + 3];
    proof {
        let sa = a@.subrange(at as int, at + 4);
        let sb = b@.subrange(at as int, at + 4);
        assert(sa[0] == a@[at as int] && sa[1] == a@[at + 1] && sa[2] == a@[at + 2] && sa[3]
            == a@[at + 3]);
        assert(sb[0] == b@[at as int] && sb[1] == b@[at + 1] && sb[2] == b@[at + 2] && sb[3]
            == b@[at + 3]);
        if same {
            assert(sa =~= sb);
        }
    }
    same
}

/// Looks for the first pixel of a tile in which two pictures differ.
fn scan_tile(
    prev: &[u8],
    curr: &[u8],
    x: u32,
    y: u32,
    w: u32,
    h: u32,
    pitch: u32,
    Ghost(grid): Ghost<Grid>,
) -> (found: TileScan)
    requires
        x + w <= u32::MAX,
        y + h <= u32::MAX,
        grid.pitch == pitch,
    ensures
        ({
            let t = TileArea { x: x as int, y: y as int, w: w as int, h: h as int };
            &&& found is Unchanged <==> grid.tile_unchanged(prev@, curr@, t)
            &&& found is Changed <==> grid.tile_changed(prev@, curr@, t)
        }),
{
    let ghost t = TileArea { x: x as int, y: y as int, w: w as int, h: h as int };
    let mut row: u32 = 0;
    while row < h
        invariant
            row <= h,
            x + w <= u32::MAX,
            y + h <= u32::MAX,
            grid.pitch == pitch,
            t == (TileArea { x: x as int, y: y as int, w: w as int, h: h as int }),
            forall|j: int|
                0 <= j < row * w ==> Grid::same_at(prev@, curr@, #[trigger] t.offset(j, grid.pitch)),
        decreases h - row,
    {
        let mut col: u32 = 0;
        while col < w
            invariant
                row < h,
                col <= w,
                x + w <= u32::MAX,
                y + h <= u32::MAX,
                grid.pitch == pitch,
                t == (TileArea { x: x as int, y: y as int, w: w as int, h: h as int }),
                forall|j: int|
                    0 <= j < row * w + col ==> Grid::same_at(
                        prev@,
                        curr@,
                        #[trigger] t.offset(j, grid.pitch),
                    ),
            decreases w - col,
        {
            let off: u128 = wide_offset(x + col, y + row, pitch);
            let ghost n = row * w + col;
            proof {
                lemma_row_major(row as int, col as int, w as int);
                lemma_row_major_bound(row as int, col as int, w as int, h as int);
                assert(t.offset(n, grid.pitch) == off);
            }
            if off + 4 > prev.len() as u128 || off + 4 > curr.len() as u128 {
                proof {
                    assert(!Grid::same_at(prev@, curr@, t.offset(n, grid.pitch)));
                    assert forall|i: int| 0 <= i < t.area() implies !(Grid::differs_at(
                        prev@,
                        curr@,
                        #[trigger] t.offset(i, grid.pitch),
                    ) && forall|j: int|
                        0 <= j < i ==> Grid::same_at(
                            prev@,
                            curr@,
                            #[trigger] t.offset(j, grid.pitch),
                        )) by {
                        if i < n {
                            assert(Grid::same_at(prev@, curr@, t.offset(i, grid.pitch)));
                        }
                    }
                }
                return TileScan::OutOfBounds;
            }
            if !same_four(prev, curr, off as usize) {
                proof {
                    assert(Grid::differs_at(prev@, curr@, t.offset(n, grid.pitch)));
                    assert(0 <= n < t.area());
                }
                return TileScan::Changed;
            }
            proof {
                assert forall|j: int| 0 <= j < row * w + (col + 1) implies Grid::same_at(
                    prev@,
                    curr@,
                    #[trigger] t.offset(j, grid.pitch),
                ) by {}
            }
            col += 1;
        }
        assert((row + 1) * w == row * w + w) by (nonlinear_arith);
        row += 1;
    }
    assert(row * w == t.area()) by (nonlinear_arith)
        requires
            row == h,
            t.area() == w * h,
    ;
    TileScan::Unchanged
}

/// How many tiles of edge `tile` it takes to span `extent` pixels.
fn span_count(extent: u32, tile: u32) -> (n: u32)
    requires
        tile > 0,
    ensures
        n == tiles_to_span(extent as int, tile as int),
{
    if extent == 0 {
        0
    } else {
        assert((extent - 1) as int / tile as int <= extent - 1) by (nonlinear_arith)
            requires
                extent >= 1,
                tile >= 1,
        ;
        (extent - 1) / tile + 1
    }
}

/// A tile is found by its number, and starts inside the picture.
proof fn lemma_tile_numbers(grid: Grid, tx: int, ty: int)
    requires
        grid.wf(),
        0 <= tx < grid.across(),
        0 <= ty < grid.down(),
    ensures
        0 <= ty * grid.across() + tx < grid.count(),
        grid.tile_at(ty * grid.across() + tx) == grid.tile_in(tx, ty),
        0 <= tx * grid.tile < grid.width,
        0 <= ty * grid.tile < grid.height,
{
    lemma_row_major(ty, tx, grid.across());
    lemma_row_major_bound(ty, tx, grid.across(), grid.down());
    lemma_tile_start(grid.width, grid.tile, tx);
    lemma_tile_start(grid.height, grid.tile, ty);
}

/// The uncompressed delta between two pictures, or `None` where comparing or rendering them would
/// leave one of the buffers.
pub fn delta_records(
    prev_pixels: &[u8],
    curr_pixels: &[u8],
    width: u32,
    height: u32,
    pitch: u32,
    tile_size: u32,
) -> (raw: Option<Vec<u8>>)
    requires
        tile_size > 0,
    ensures
        ({
            let grid = Grid::of(width, height, pitch, tile_size);
            &&& raw is Some <==> grid.readable(prev_pixels@, curr_pixels@)
            &&& raw matches Some(bytes) ==> bytes@ == grid.delta(prev_pixels@, curr_pixels@)
        }),
{
    let ghost grid = Grid {
        width: width as int,
        height: height as int,
        pitch: pitch as int,
        tile: tile_size as int,
    };
    let ghost prev = prev_pixels@;
    let ghost curr = curr_pixels@;
    let tiles_x: u32 = span_count(width, tile_size);
    let tiles_y: u32 = span_count(height, tile_size);
    let mut count: u16 = 0;
    let mut body: Vec<u8> = Vec::new();
    let mut ty: u32 = 0;
    while ty < tiles_y
        invariant
            ty <= tiles_y,
            tile_size > 0,
            grid == (Grid {
                width: width as int,
                height: height as int,
                pitch: pitch as int,
                tile: tile_size as int,
            }),
            prev == prev_pixels@,
            curr == curr_pixels@,
            tiles_x == grid.across(),
            tiles_y == grid.down(),
            count == grid.changed_tiles(prev, curr, ty * tiles_x).len() as int % 0x1_0000,
            body@ == grid.records(curr, grid.changed_tiles(prev, curr, ty * tiles_x)),
            forall|k: int|
                0 <= k < ty * tiles_x ==> grid.tile_readable(prev, curr, #[trigger] grid.tile_at(k)),
        decreases tiles_y - ty,
    {
        let mut tx: u32 = 0;
        assert(ty * tiles_x + 0 == ty * tiles_x);
        while tx < tiles_x
            invariant
                ty < tiles_y,
                tx <= tiles_x,
                tile_size > 0,
                grid == (Grid {
                    width: width as int,
                    height: height as int,
                    pitch: pitch as int,
                    tile: tile_size as int,
                }),
                prev == prev_pixels@,
                curr == curr_pixels@,
                tiles_x == grid.across(),
                tiles_y == grid.down(),
                count == grid.changed_tiles(prev, curr, ty * tiles_x + tx).len() as int
                    % 0x1_0000,
                body@ == grid.records(curr, grid.changed_tiles(prev, curr, ty * tiles_x + tx)),
                forall|k: int|
                    0 <= k < ty * tiles_x + tx ==> grid.tile_readable(
                        prev,
                        curr,
                        #[trigger] grid.tile_at(k),
                    ),
            decreases tiles_x - tx,
        {
            let ghost k = ty * tiles_x + tx;
            let ghost t = grid.tile_in(tx as int, ty as int);
            proof {
                lemma_tile_numbers(grid, tx as int, ty as int);
            }
            let tile_x: u32 = tx * tile_size;
            let tile_y: u32 = ty * tile_size;
            let tile_w: u32 = if width - tile_x < tile_size {
                width - tile_x
            } else {
                tile_size
            };
            let tile_h: u32 = if height - tile_y < tile_size {
                height - tile_y
            } else {
                tile_size
            };
            assert(t == TileArea {
                x: tile_x as int,
                y: tile_y as int,
                w: tile_w as int,
                h: tile_h as int,
            });
            let found = scan_tile(
                prev_pixels,
                curr_pixels,
                tile_x,
                tile_y,
                tile_w,
                tile_h,
                pitch,
                Ghost(grid),
            );
            let ghost before = grid.changed_tiles(prev, curr, k);
            let ghost after = grid.changed_tiles(prev, curr, k + 1);
            match found {
                TileScan::OutOfBounds => {
                    assert(!grid.tile_readable(prev, curr, grid.tile_at(k)));
                    return None;
                },
                TileScan::Unchanged => {
                    assert(after == before);
                },
                TileScan::Changed => {
                    assert(after == before.push(t));
                    if !rect_fits(curr_pixels, tile_x, tile_y, tile_w, tile_h, pitch) {
                        assert(!grid.tile_readable(prev, curr, grid.tile_at(k)));
                        return None;
                    }
                    let ghost old_body = body@;
                    push_be16(&mut body, low16(tile_x));
                    push_be16(&mut body, low16(tile_y));
                    push_be16(&mut body, low16(tile_w));
                    push_be16(&mut body, low16(tile_h));
                    push_rect(&mut body, curr_pixels, tile_x, tile_y, tile_w, tile_h, pitch);
                    proof {
                        lemma_be16_low(tile_x as int);
                        lemma_be16_low(tile_y as int);
                        lemma_be16_low(tile_w as int);
                        lemma_be16_low(tile_h as int);
                        assert(after.drop_last() =~= before);
                        assert(body@ =~= old_body + grid.record(curr, t));
                    }
                    count = if count == 0xffff {
                        0
                    } else {
                        count + 1
                    };
                },
            }
            assert(ty * tiles_x + (tx + 1) == k + 1);
            tx += 1;
        }
        assert((ty + 1) * tiles_x == ty * tiles_x + tiles_x) by (nonlinear_arith);
        ty += 1;
    }
    assert(ty * tiles_x == grid.count()) by (nonlinear_arith)
        requires
            ty == grid.down(),
            tiles_x == grid.across(),
            grid.count() == grid.across() * grid.down(),
    ;
    let mut raw: Vec<u8> = Vec::new();
    push_be16(&mut raw, count);
    push_bytes(&mut raw, &body);
    proof {
        lemma_be16_low(grid.changed_tiles(prev, curr, grid.count()).len() as int);
        assert(raw@ =~= grid.delta(prev, curr));
    }
    Some(raw)
}

/// Whether every pixel of the rectangle has its colour bytes in the buffer.
pub fn rect_fits(pixels: &[u8], x: u32, y: u32, w: u32, h: u32, pitch: u32) -> (fits: bool)
    requires
        x + w <= u32::MAX,
        y + h <= u32::MAX,
    ensures
        fits == rect_in_bounds(
            pixels@.len(),
            x as int,
            y as int,
            w as int,
            h as int,
            pitch as int,
        ),
{
    if w == 0 || h == 0 {
        return true;
    }
    let last: u128 = wide_offset(x + (w - 1), y + (h - 1), pitch);
    let fits = last + 3 <= pixels.len() as u128;
    proof {
        let lx = x + w - 1;
        let ly = y + h - 1;
        assert forall|px: int, py: int| x <= px < x + w && y <= py < y + h implies #[trigger]
        pixel_offset(px, py, pitch as int) <= last by {
            lemma_mul_inequality(py, ly, pitch as int);
        }
        if !fits {
            assert(pixel_offset(lx, ly, pitch as int) + 3 > pixels@.len());
        }
    }
    fits
}

/// The tiles of a picture cover it: they are as large as was asked for, and the picture has as many
/// columns, rows and bytes from one row to the next as was said.
pub proof fn law_grid_is_that_of_the_picture(width: u32, height: u32, pitch: u32, tile_size: u32)
    ensures
        Grid::of(width, height, pitch, tile_size).width == width,
        Grid::of(width, height, pitch, tile_size).height == height,
        Grid::of(width, height, pitch, tile_size).pitch == pitch,
        Grid::of(width, height, pitch, tile_size).tile == tile_size,
{
}

} // verus!
