//! What a viewer makes of keyframes and deltas.
use crate::streaming::delta::{Grid, TileArea, lemma_tile_start, tiles_to_span};
use crate::streaming::picture::{
    channel, law_pixels_are_shown_where_they_are, lemma_row_major, lemma_row_major_bound, lemma_row_major_inverse, pixel_offset,
    rect_rgba,
};
use crate::wire::{be16, be16_at, law_be16_read_back};
use vstd::arithmetic::div_mod::{
    lemma_div_is_ordered, lemma_fundamental_div_mod, lemma_fundamental_div_mod_converse,
    lemma_mod_multiples_basic,
};
use vstd::arithmetic::mul::lemma_mul_inequality;
use vstd::prelude::*;

verus! {

broadcast use crate::wire::group_number_lengths;

/// The whole RGBA picture of a grid.
pub open spec fn full_picture(grid: Grid, pixels: Seq<u8>) -> Seq<u8> {
    rect_rgba(pixels, 0, 0, grid.width, grid.height, grid.pitch)
}

/// A `width` wide RGBA picture with one rectangle painted over.
pub open spec fn paint(picture: Seq<u8>, width: int, t: TileArea, rgba: Seq<u8>) -> Seq<u8> {
    Seq::new(
        picture.len(),
        |i: int|
            {
                let x = i / 4 % width;
                let y = i / 4 / width;
                if t.covers(x, y) {
                    rgba[((y - t.y) * t.w + (x - t.x)) * 4 + i % 4]
                } else {
                    picture[i]
                }
            },
    )
}

/// Paints `n` tile records that start at `at`, one after the other.
pub open spec fn apply_records(picture: Seq<u8>, width: int, raw: Seq<u8>, at: int, n: int) -> Seq<
    u8,
>
    decreases n,
{
    if n <= 0 {
        picture
    } else {
        let t = TileArea {
            x: be16_at(raw, at),
            y: be16_at(raw, at + 2),
            w: be16_at(raw, at + 4),
            h: be16_at(raw, at + 6),
        };
        let end = at + 8 + t.w * t.h * 4;
        apply_records(
            paint(picture, width, t, raw.subrange(at + 8, end)),
            width,
            raw,
            end,
            n - 1,
        )
    }
}

/// What a viewer that shows `picture` shows after an uncompressed delta.
pub open spec fn apply_delta(picture: Seq<u8>, width: int, raw: Seq<u8>) -> Seq<u8> {
    apply_records(picture, width, raw, 2, be16_at(raw, 0))
}

/// A picture with tiles of `curr` painted over, in order.
spec fn paint_tiles(picture: Seq<u8>, grid: Grid, curr: Seq<u8>, tiles: Seq<TileArea>) -> Seq<u8>
    decreases tiles.len(),
{
    if tiles.len() == 0 {
        picture
    } else {
        paint(
            paint_tiles(picture, grid, curr, tiles.drop_last()),
            grid.width,
            tiles.last(),
            tiles.last().rgba(curr, grid.pitch),
        )
    }
}

/// The number of the tile that holds a pixel.
spec fn tile_of(grid: Grid, x: int, y: int) -> int {
    y / grid.tile * grid.across() + x / grid.tile
}

/// A pixel lies in tile column `t` exactly when its tile column is `t`.
proof fn lemma_span(extent: int, tile: int, p: int, t: int)
    requires
        tile > 0,
        0 <= p < extent,
    ensures
        0 <= p / tile < tiles_to_span(extent, tile),
        (t * tile <= p < t * tile + tile) <==> t == p / tile,
{
    lemma_fundamental_div_mod(p, tile);
    lemma_fundamental_div_mod(extent - 1, tile);
    lemma_div_is_ordered(p, extent - 1, tile);
    assert(0 <= p / tile) by (nonlinear_arith)
        requires
            0 <= p,
            tile > 0,
    ;
    assert(tile * (p / tile) == p / tile * tile) by (nonlinear_arith);
    if t * tile <= p < t * tile + tile {
        lemma_fundamental_div_mod_converse(p, tile, t, p - t * tile);
    }
}

/// Tile `k` covers exactly the pixels whose tile it is.
proof fn lemma_tile_covers(grid: Grid, x: int, y: int, k: int)
    requires
        grid.wf(),
        0 <= x < grid.width,
        0 <= y < grid.height,
        0 <= k < grid.count(),
    ensures
        0 <= tile_of(grid, x, y) < grid.count(),
        grid.tile_at(k).covers(x, y) <==> tile_of(grid, x, y) == k,
{
    lemma_span(grid.width, grid.tile, x, k % grid.across());
    lemma_span(grid.height, grid.tile, y, k / grid.across());
    lemma_row_major(y / grid.tile, x / grid.tile, grid.across());
    lemma_row_major_bound(y / grid.tile, x / grid.tile, grid.across(), grid.down());
    lemma_row_major_inverse(k, grid.across(), grid.down());
}

/// A pixel of a tile, found by its number in the tile.
proof fn lemma_pixel_in_tile(t: TileArea, x: int, y: int, pitch: int)
    requires
        t.covers(x, y),
    ensures
        ({
            let n = (y - t.y) * t.w + (x - t.x);
            &&& 0 <= n < t.area()
            &&& t.offset(n, pitch) == pixel_offset(x, y, pitch)
        }),
{
    lemma_row_major(y - t.y, x - t.x, t.w);
    lemma_row_major_bound(y - t.y, x - t.x, t.w, t.h);
}

/// Painting a tile of a picture puts the picture's own bytes there.
proof fn lemma_tile_bytes(t: TileArea, curr: Seq<u8>, pitch: int, x: int, y: int, c: int)
    requires
        t.covers(x, y),
        0 <= c < 4,
    ensures
        t.rgba(curr, pitch)[((y - t.y) * t.w + (x - t.x)) * 4 + c] == channel(
            curr,
            pixel_offset(x, y, pitch),
            c,
        ),
{
    let n = (y - t.y) * t.w + (x - t.x);
    lemma_row_major(y - t.y, x - t.x, t.w);
    lemma_row_major_bound(y - t.y, x - t.x, t.w, t.h);
    let i = n * 4 + c;
    assert(i / 4 == n && i % 4 == c);
    assert(t.area() == t.w * t.h);
    assert(0 <= i < t.w * t.h * 4);
}

/// After the first `k` tiles, their part of the picture is the new one and the rest the old one.
#[verifier::rlimit(30)]
proof fn lemma_paint_tiles(grid: Grid, prev: Seq<u8>, curr: Seq<u8>, k: int)
    requires
        grid.wf(),
        grid.readable(prev, curr),
        0 <= k <= grid.count(),
    ensures
        ({
            let old = full_picture(grid, prev);
            let new = full_picture(grid, curr);
            let got = paint_tiles(old, grid, curr, grid.changed_tiles(prev, curr, k));
            &&& got.len() == new.len()
            &&& forall|i: int|
                0 <= i < new.len() ==> #[trigger] got[i] == if tile_of(
                    grid,
                    i / 4 % grid.width,
                    i / 4 / grid.width,
                ) < k {
                    new[i]
                } else {
                    old[i]
                }
        }),
    decreases k,
{
    let old = full_picture(grid, prev);
    let new = full_picture(grid, curr);
    let got = paint_tiles(old, grid, curr, grid.changed_tiles(prev, curr, k));
    if k == 0 {
        assert forall|i: int| 0 <= i < new.len() implies #[trigger] got[i] == old[i] && tile_of(
            grid,
            i / 4 % grid.width,
            i / 4 / grid.width,
        ) >= 0 by {
            lemma_picture_index(grid, i);
            let x = i / 4 % grid.width;
            let y = i / 4 / grid.width;
            lemma_span(grid.width, grid.tile, x, 0);
            lemma_span(grid.height, grid.tile, y, 0);
            lemma_row_major(y / grid.tile, x / grid.tile, grid.across());
        }
    } else {
        lemma_paint_tiles(grid, prev, curr, k - 1);
        let t = grid.tile_at(k - 1);
        let tiles = grid.changed_tiles(prev, curr, k - 1);
        let before = paint_tiles(old, grid, curr, tiles);
        assert(grid.tile_readable(prev, curr, t));
        if grid.tile_changed(prev, curr, t) {
            assert(tiles.push(t).drop_last() =~= tiles);
            assert(got == paint(before, grid.width, t, t.rgba(curr, grid.pitch)));
        } else {
            assert(got == before);
        }
        assert forall|i: int| 0 <= i < new.len() implies #[trigger] got[i] == if tile_of(
            grid,
            i / 4 % grid.width,
            i / 4 / grid.width,
        ) < k {
            new[i]
        } else {
            old[i]
        } by {
            lemma_picture_index(grid, i);
            let x = i / 4 % grid.width;
            let y = i / 4 / grid.width;
            lemma_tile_covers(grid, x, y, k - 1);
            assert(before[i] == if tile_of(grid, x, y) < k - 1 {
                new[i]
            } else {
                old[i]
            });
            if t.covers(x, y) {
                lemma_pixel_in_tile(t, x, y, grid.pitch);
                lemma_tile_bytes(t, curr, grid.pitch, x, y, i % 4);
                if !grid.tile_changed(prev, curr, t) {
                    let n = (y - t.y) * t.w + (x - t.x);
                    let off = t.offset(n, grid.pitch);
                    assert(Grid::same_at(prev, curr, off));
                    let sp = prev.subrange(off, off + 4);
                    let sc = curr.subrange(off, off + 4);
                    assert(0 <= off) by {
                        assert(0 <= y * grid.pitch) by (nonlinear_arith)
                            requires
                                0 <= y,
                                0 <= grid.pitch,
                        ;
                    }
                    assert(sp[0] == prev[off] && sp[1] == prev[off + 1] && sp[2] == prev[off + 2]);
                    assert(sc[0] == curr[off] && sc[1] == curr[off + 1] && sc[2] == curr[off + 2]);
                }
            }
        }
    }
}

/// A byte of the picture belongs to a pixel of the picture.
proof fn lemma_picture_index(grid: Grid, i: int)
    requires
        grid.wf(),
        0 <= i < grid.width * grid.height * 4,
    ensures
        0 <= i / 4 % grid.width < grid.width,
        0 <= i / 4 / grid.width < grid.height,
        0 <= i % 4 < 4,
{
    lemma_row_major_inverse(i / 4, grid.width, grid.height);
}

/// The records of the first tiles come first.
proof fn lemma_records_prefix(grid: Grid, curr: Seq<u8>, tiles: Seq<TileArea>, j: int)
    requires
        0 <= j <= tiles.len(),
    ensures
        ({
            let part = grid.records(curr, tiles.take(j));
            let all = grid.records(curr, tiles);
            &&& part.len() <= all.len()
            &&& all.take(part.len() as int) == part
        }),
    decreases tiles.len(),
{
    let part = grid.records(curr, tiles.take(j));
    let all = grid.records(curr, tiles);
    if j == tiles.len() {
        assert(tiles.take(j) =~= tiles);
        assert(all.take(all.len() as int) =~= all);
    } else {
        lemma_records_prefix(grid, curr, tiles.drop_last(), j);
        assert(tiles.drop_last().take(j) =~= tiles.take(j));
        let rest = grid.records(curr, tiles.drop_last());
        assert(all.take(part.len() as int) =~= rest.take(part.len() as int));
    }
}

/// Where the record of tile `j` stands in a delta.
proof fn lemma_record_in_place(
    grid: Grid,
    curr: Seq<u8>,
    tiles: Seq<TileArea>,
    raw: Seq<u8>,
    j: int,
)
    requires
        0 <= j < tiles.len(),
        raw == be16(tiles.len() as int) + grid.records(curr, tiles),
    ensures
        ({
            let rec = grid.record(curr, tiles[j]);
            let before = grid.records(curr, tiles.take(j));
            let at = 2 + before.len() as int;
            &&& at + rec.len() <= raw.len()
            &&& raw.subrange(at, at + rec.len()) == rec
            &&& grid.records(curr, tiles.take(j + 1)) == before + rec
        }),
{
    let t = tiles[j];
    let done = tiles.take(j);
    let next = tiles.take(j + 1);
    let before = grid.records(curr, done);
    let at: int = 2 + before.len() as int;
    assert(next.drop_last() =~= done);
    assert(next.last() == t);
    let rec = grid.record(curr, t);
    let part = grid.records(curr, next);
    assert(part == before + rec);
    lemma_records_prefix(grid, curr, tiles, j + 1);
    let all = grid.records(curr, tiles);
    assert(all.take(part.len() as int) == part);
    assert forall|i: int| 0 <= i < rec.len() implies raw.subrange(at, at + rec.len())[i]
        == #[trigger] rec[i] by {
        assert(part[before.len() + i] == rec[i]);
        assert(all.take(part.len() as int)[before.len() + i] == all[before.len() + i]);
    }
    assert(raw.subrange(at, at + rec.len()) =~= rec);
}

/// What a viewer reads from a record.
#[verifier::rlimit(30)]
proof fn lemma_record_fields(grid: Grid, curr: Seq<u8>, t: TileArea, raw: Seq<u8>, at: int)
    requires
        0 <= at,
        at + grid.record(curr, t).len() <= raw.len(),
        raw.subrange(at, at + grid.record(curr, t).len()) == grid.record(curr, t),
        0 <= t.x < 0x1_0000,
        0 <= t.y < 0x1_0000,
        0 <= t.w < 0x1_0000,
        0 <= t.h < 0x1_0000,
    ensures
        be16_at(raw, at) == t.x,
        be16_at(raw, at + 2) == t.y,
        be16_at(raw, at + 4) == t.w,
        be16_at(raw, at + 6) == t.h,
        grid.record(curr, t).len() == 8 + t.w * t.h * 4,
        raw.subrange(at + 8, at + 8 + t.w * t.h * 4) == t.rgba(curr, grid.pitch),
{
    let rec = grid.record(curr, t);
    let rgba = t.rgba(curr, grid.pitch);
    assert(0 <= t.w * t.h) by (nonlinear_arith)
        requires
            0 <= t.w,
            0 <= t.h,
    ;
    assert(rgba.len() == t.w * t.h * 4);
    assert(rec.subrange(0, 2) =~= be16(t.x));
    assert(rec.subrange(2, 4) =~= be16(t.y));
    assert(rec.subrange(4, 6) =~= be16(t.w));
    assert(rec.subrange(6, 8) =~= be16(t.h));
    lemma_field(raw, at, rec, 0, t.x);
    lemma_field(raw, at, rec, 2, t.y);
    lemma_field(raw, at, rec, 4, t.w);
    lemma_field(raw, at, rec, 6, t.h);
    assert(rec.subrange(8, rec.len() as int) =~= rgba);
    assert(raw.subrange(at + 8, at + rec.len()) =~= raw.subrange(at, at + rec.len()).subrange(
        8,
        rec.len() as int,
    ));
}

/// Reading the records of tiles paints the tiles.
#[verifier::rlimit(30)]
proof fn lemma_apply_records(
    picture: Seq<u8>,
    grid: Grid,
    curr: Seq<u8>,
    tiles: Seq<TileArea>,
    raw: Seq<u8>,
    j: int,
)
    requires
        0 <= j <= tiles.len(),
        raw == be16(tiles.len() as int) + grid.records(curr, tiles),
        forall|i: int|
            0 <= i < tiles.len() ==> {
                let t = #[trigger] tiles[i];
                &&& 0 <= t.x < 0x1_0000
                &&& 0 <= t.y < 0x1_0000
                &&& 0 <= t.w < 0x1_0000
                &&& 0 <= t.h < 0x1_0000
            },
    ensures
        apply_records(
            paint_tiles(picture, grid, curr, tiles.take(j)),
            grid.width,
            raw,
            2 + grid.records(curr, tiles.take(j)).len() as int,
            tiles.len() - j,
        ) == paint_tiles(picture, grid, curr, tiles),
    decreases tiles.len() - j,
{
    if j == tiles.len() {
        assert(tiles.take(j) =~= tiles);
    } else {
        let t = tiles[j];
        let done = tiles.take(j);
        let next = tiles.take(j + 1);
        let at: int = 2 + grid.records(curr, done).len() as int;
        assert(next.drop_last() =~= done);
        assert(next.last() == t);
        lemma_record_in_place(grid, curr, tiles, raw, j);
        lemma_record_fields(grid, curr, t, raw, at);
        let end: int = at + grid.record(curr, t).len() as int;
        assert(2 + grid.records(curr, next).len() == end);
        assert(paint_tiles(picture, grid, curr, next) == paint(
            paint_tiles(picture, grid, curr, done),
            grid.width,
            t,
            t.rgba(curr, grid.pitch),
        ));
        lemma_apply_records(picture, grid, curr, tiles, raw, j + 1);
    }
}

/// A 16-bit field of a record, read in place.
proof fn lemma_field(raw: Seq<u8>, at: int, rec: Seq<u8>, field: int, n: int)
    requires
        0 <= at,
        0 <= field,
        field + 2 <= rec.len(),
        at + rec.len() <= raw.len(),
        raw.subrange(at, at + rec.len()) == rec,
        rec.subrange(field, field + 2) == be16(n),
        0 <= n < 0x1_0000,
    ensures
        be16_at(raw, at + field) == n,
{
    assert(raw.subrange(at + field, at + field + 2) =~= raw.subrange(at, at + rec.len()).subrange(
        field,
        field + 2,
    ));
    law_be16_read_back(n, raw, at + field);
}

/// Changed tiles are tiles of the grid.
proof fn lemma_changed_tiles_in_grid(grid: Grid, prev: Seq<u8>, curr: Seq<u8>, k: int)
    requires
        grid.wf(),
        grid.width < 0x1_0000,
        grid.height < 0x1_0000,
        0 <= k <= grid.count(),
    ensures
        ({
            let tiles = grid.changed_tiles(prev, curr, k);
            &&& tiles.len() <= k
            &&& forall|i: int|
                0 <= i < tiles.len() ==> {
                    let t = #[trigger] tiles[i];
                    &&& 0 <= t.x < 0x1_0000
                    &&& 0 <= t.y < 0x1_0000
                    &&& 0 <= t.w < 0x1_0000
                    &&& 0 <= t.h < 0x1_0000
                }
        }),
    decreases k,
{
    if k > 0 {
        lemma_changed_tiles_in_grid(grid, prev, curr, k - 1);
        let q = k - 1;
        lemma_row_major_inverse(q, grid.across(), grid.down());
        lemma_tile_start(grid.width, grid.tile, q % grid.across());
        lemma_tile_start(grid.height, grid.tile, q / grid.across());
    }
}

/// A viewer that shows the previous picture and applies the delta shows the current picture.
/// The wire has 16 bits for the number of tiles and for each coordinate.
#[verifier::rlimit(30)]
pub proof fn law_delta_reconstructs_picture(grid: Grid, prev: Seq<u8>, curr: Seq<u8>)
    requires
        grid.wf(),
        grid.readable(prev, curr),
        grid.width < 0x1_0000,
        grid.height < 0x1_0000,
        grid.changed_tiles(prev, curr, grid.count()).len() < 0x1_0000,
    ensures
        apply_delta(full_picture(grid, prev), grid.width, grid.delta(prev, curr)) == full_picture(
            grid,
            curr,
        ),
{
    let n = grid.count();
    assert(0 <= n) by {
        lemma_count_nonneg(grid);
    }
    let tiles = grid.changed_tiles(prev, curr, n);
    let raw = grid.delta(prev, curr);
    let old = full_picture(grid, prev);
    let new = full_picture(grid, curr);
    lemma_changed_tiles_in_grid(grid, prev, curr, n);
    assert(raw.subrange(0, 2) =~= be16(tiles.len() as int));
    law_be16_read_back(tiles.len() as int, raw, 0);
    lemma_apply_records(old, grid, curr, tiles, raw, 0);
    assert(tiles.take(0) =~= Seq::empty());
    assert(grid.records(curr, tiles.take(0)).len() == 0);
    assert(paint_tiles(old, grid, curr, tiles.take(0)) == old);
    lemma_paint_tiles(grid, prev, curr, n);
    let got = paint_tiles(old, grid, curr, tiles);
    assert forall|i: int| 0 <= i < new.len() implies #[trigger] got[i] == new[i] by {
        lemma_picture_index(grid, i);
        let x = i / 4 % grid.width;
        let y = i / 4 / grid.width;
        lemma_span(grid.width, grid.tile, x, 0);
        lemma_span(grid.height, grid.tile, y, 0);
        lemma_row_major_bound(y / grid.tile, x / grid.tile, grid.across(), grid.down());
    }
    assert(got =~= new);
}

proof fn lemma_count_nonneg(grid: Grid)
    requires
        grid.wf(),
    ensures
        0 <= grid.count(),
{
    let a = grid.across();
    let d = grid.down();
    assert(0 <= a) by (nonlinear_arith)
        requires
            grid.tile > 0,
            a == if grid.width <= 0 {
                0
            } else {
                (grid.width - 1) / grid.tile + 1
            },
    ;
    assert(0 <= d) by (nonlinear_arith)
        requires
            grid.tile > 0,
            d == if grid.height <= 0 {
                0
            } else {
                (grid.height - 1) / grid.tile + 1
            },
    ;
    assert(0 <= a * d) by (nonlinear_arith)
        requires
            0 <= a,
            0 <= d,
    ;
}

/// A picture that did not change gives the delta of no tiles.
pub proof fn law_equal_pictures_give_empty_delta(grid: Grid, curr: Seq<u8>)
    requires
        grid.wf(),
        grid.readable(curr, curr),
    ensures
        grid.delta(curr, curr) == seq![0u8, 0u8],
{
    lemma_count_nonneg(grid);
    lemma_no_change(grid, curr, grid.count());
    reveal(be16);
    assert(grid.delta(curr, curr) =~= seq![0u8, 0u8]);
}

proof fn lemma_no_change(grid: Grid, curr: Seq<u8>, k: int)
    requires
        0 <= k <= grid.count(),
    ensures
        grid.changed_tiles(curr, curr, k).len() == 0,
    decreases k,
{
    if k > 0 {
        lemma_no_change(grid, curr, k - 1);
    }
}

/// Pictures whose buffers hold all their pixels can be compared, whatever they show.
pub proof fn law_whole_pictures_can_be_compared(grid: Grid, prev: Seq<u8>, curr: Seq<u8>)
    requires
        grid.wf(),
        grid.width > 0 && grid.height > 0 ==> (grid.height - 1) * grid.pitch + grid.width * 4
            <= prev.len(),
        grid.width > 0 && grid.height > 0 ==> (grid.height - 1) * grid.pitch + grid.width * 4
            <= curr.len(),
    ensures
        grid.readable(prev, curr),
{
    assert forall|k: int| 0 <= k < grid.count() implies grid.tile_readable(
        prev,
        curr,
        #[trigger] grid.tile_at(k),
    ) by {
        let t = grid.tile_at(k);
        lemma_row_major_inverse(k, grid.across(), grid.down());
        lemma_tile_start(grid.width, grid.tile, k % grid.across());
        lemma_tile_start(grid.height, grid.tile, k / grid.across());
        assert forall|x: int, y: int|
            t.x <= x < t.x + t.w && t.y <= y < t.y + t.h implies #[trigger] pixel_offset(
            x,
            y,
            grid.pitch,
        ) + 4 <= prev.len() && pixel_offset(x, y, grid.pitch) + 4 <= curr.len() by {
            lemma_mul_inequality(y, grid.height - 1, grid.pitch);
        }
        assert forall|i: int| 0 <= i < t.area() implies (#[trigger] t.offset(i, grid.pitch)) + 4
            <= prev.len() && t.offset(i, grid.pitch) + 4 <= curr.len() by {
            lemma_row_major_inverse(i, t.w, t.h);
            let (x, y) = (t.x + i % t.w, t.y + i / t.w);
            assert(pixel_offset(x, y, grid.pitch) + 4 <= prev.len());
        }
        if !grid.tile_unchanged(prev, curr, t) {
            let i = choose|i: int|
                0 <= i < t.area() && !Grid::same_at(
                    prev,
                    curr,
                    #[trigger] t.offset(i, grid.pitch),
                );
            lemma_first_difference(grid, prev, curr, t, i);
        }
    }
}

/// Where some pixel of a tile differs, there is a first one.
proof fn lemma_first_difference(grid: Grid, prev: Seq<u8>, curr: Seq<u8>, t: TileArea, i: int)
    requires
        0 <= i < t.area(),
        !Grid::same_at(prev, curr, t.offset(i, grid.pitch)),
        forall|j: int|
            0 <= j < t.area() ==> (#[trigger] t.offset(j, grid.pitch)) + 4 <= prev.len() && t.offset(
                j,
                grid.pitch,
            ) + 4 <= curr.len(),
    ensures
        grid.tile_changed(prev, curr, t),
    decreases i,
{
    if exists|j: int|
        0 <= j < i && !Grid::same_at(prev, curr, #[trigger] t.offset(j, grid.pitch)) {
        let j = choose|j: int|
            0 <= j < i && !Grid::same_at(prev, curr, #[trigger] t.offset(j, grid.pitch));
        lemma_first_difference(grid, prev, curr, t, j);
    } else {
        assert(Grid::differs_at(prev, curr, t.offset(i, grid.pitch)));
    }
}

/// A changed tile is sent.
proof fn lemma_changed_tile_is_sent(grid: Grid, prev: Seq<u8>, curr: Seq<u8>, k: int, n: int)
    requires
        0 <= k < n,
        grid.tile_changed(prev, curr, grid.tile_at(k)),
    ensures
        exists|i: int|
            0 <= i < grid.changed_tiles(prev, curr, n).len() && #[trigger] grid.changed_tiles(
                prev,
                curr,
                n,
            )[i] == grid.tile_at(k),
    decreases n,
{
    let tiles = grid.changed_tiles(prev, curr, n);
    if k == n - 1 {
        assert(tiles[tiles.len() - 1] == grid.tile_at(k));
    } else {
        lemma_changed_tile_is_sent(grid, prev, curr, k, n - 1);
        let before = grid.changed_tiles(prev, curr, n - 1);
        let i = choose|i: int| 0 <= i < before.len() && #[trigger] before[i] == grid.tile_at(k);
        assert(tiles[i] == grid.tile_at(k));
    }
}

/// Wherever a pixel of two pictures differs in one of its bytes, a tile that holds it is sent.
pub proof fn law_every_change_is_sent(grid: Grid, prev: Seq<u8>, curr: Seq<u8>, x: int, y: int, c: int)
    requires
        grid.wf(),
        grid.readable(prev, curr),
        0 <= x < grid.width,
        0 <= y < grid.height,
        0 <= c < 4,
        prev[y * grid.pitch + x * 4 + c] != curr[y * grid.pitch + x * 4 + c],
    ensures
        ({
            let tiles = grid.changed_tiles(prev, curr, grid.count());
            exists|i: int|
                0 <= i < tiles.len() && (#[trigger] tiles[i]).x <= x < tiles[i].x + tiles[i].w
                    && tiles[i].y <= y < tiles[i].y + tiles[i].h
        }),
{
    let off = y * grid.pitch + x * 4;
    lemma_count_nonneg(grid);
    let k = tile_of(grid, x, y);
    lemma_span(grid.width, grid.tile, x, 0);
    lemma_span(grid.height, grid.tile, y, 0);
    lemma_row_major(y / grid.tile, x / grid.tile, grid.across());
    lemma_row_major_bound(y / grid.tile, x / grid.tile, grid.across(), grid.down());
    lemma_tile_covers(grid, x, y, k);
    let t = grid.tile_at(k);
    assert(grid.tile_readable(prev, curr, t));
    if grid.tile_unchanged(prev, curr, t) {
        lemma_pixel_in_tile(t, x, y, grid.pitch);
        let n = (y - t.y) * t.w + (x - t.x);
        assert(Grid::same_at(prev, curr, t.offset(n, grid.pitch)));
        assert(0 <= y * grid.pitch) by (nonlinear_arith)
            requires
                0 <= y,
                0 <= grid.pitch,
        ;
        assert(prev.subrange(off, off + 4)[c] == curr.subrange(off, off + 4)[c]);
    }
    lemma_changed_tile_is_sent(grid, prev, curr, k, grid.count());
}

/// A sent tile is one of the grid that changed.
proof fn lemma_sent_tile_changed(grid: Grid, prev: Seq<u8>, curr: Seq<u8>, i: int, n: int) -> (k: int)
    requires
        0 <= i < grid.changed_tiles(prev, curr, n).len(),
    ensures
        0 <= k < n,
        grid.changed_tiles(prev, curr, n)[i] == grid.tile_at(k),
        grid.tile_changed(prev, curr, grid.tile_at(k)),
    decreases n,
{
    if i < grid.changed_tiles(prev, curr, n - 1).len() {
        lemma_sent_tile_changed(grid, prev, curr, i, n - 1)
    } else {
        n - 1
    }
}

/// Tiles are sent in the order of their numbers.
proof fn lemma_sent_in_order(grid: Grid, prev: Seq<u8>, curr: Seq<u8>, j: int, i: int, n: int) -> (
ks: (int, int))
    requires
        0 <= j < i < grid.changed_tiles(prev, curr, n).len(),
    ensures
        0 <= ks.0 < ks.1 < n,
        grid.changed_tiles(prev, curr, n)[j] == grid.tile_at(ks.0),
        grid.changed_tiles(prev, curr, n)[i] == grid.tile_at(ks.1),
    decreases n,
{
    if i < grid.changed_tiles(prev, curr, n - 1).len() {
        lemma_sent_in_order(grid, prev, curr, j, i, n - 1)
    } else {
        let q = lemma_sent_tile_changed(grid, prev, curr, j, n - 1);
        (q, n - 1)
    }
}

/// Every tile that is sent is a square of the grid, cut off where the picture ends, holds a pixel in
/// which the pictures differ, and comes after the tiles above it and to its left.
#[verifier::rlimit(30)]
pub proof fn law_only_changes_are_sent(grid: Grid, prev: Seq<u8>, curr: Seq<u8>, i: int)
    requires
        grid.wf(),
        0 <= i < grid.changed_tiles(prev, curr, grid.count()).len(),
    ensures
        ({
            let tiles = grid.changed_tiles(prev, curr, grid.count());
            let t = tiles[i];
            &&& 0 <= t.x < grid.width && t.x % grid.tile == 0
            &&& 0 <= t.y < grid.height && t.y % grid.tile == 0
            &&& t.w == if grid.width - t.x < grid.tile {
                grid.width - t.x
            } else {
                grid.tile
            }
            &&& t.h == if grid.height - t.y < grid.tile {
                grid.height - t.y
            } else {
                grid.tile
            }
            &&& exists|x: int, y: int|
                #![trigger pixel_offset(x, y, grid.pitch)]
                t.x <= x < t.x + t.w && t.y <= y < t.y + t.h && {
                    let off = y * grid.pitch + x * 4;
                    prev[off] != curr[off] || prev[off + 1] != curr[off + 1] || prev[off + 2]
                        != curr[off + 2] || prev[off + 3] != curr[off + 3]
                }
            &&& forall|j: int|
                0 <= j < i ==> (#[trigger] tiles[j]).y < t.y || tiles[j].y == t.y && tiles[j].x
                    < t.x
        }),
{
    let tiles = grid.changed_tiles(prev, curr, grid.count());
    let k = lemma_sent_tile_changed(grid, prev, curr, i, grid.count());
    let t = tiles[i];
    lemma_count_nonneg(grid);
    lemma_row_major_inverse(k, grid.across(), grid.down());
    lemma_tile_start(grid.width, grid.tile, k % grid.across());
    lemma_tile_start(grid.height, grid.tile, k / grid.across());
    lemma_mod_multiples_basic(k % grid.across(), grid.tile);
    lemma_mod_multiples_basic(k / grid.across(), grid.tile);
    let n = choose|n: int|
        0 <= n < t.area() && Grid::differs_at(prev, curr, #[trigger] t.offset(n, grid.pitch));
    lemma_row_major_inverse(n, t.w, t.h);
    let (x, y) = (t.x + n % t.w, t.y + n / t.w);
    let off = pixel_offset(x, y, grid.pitch);
    assert(0 <= y * grid.pitch) by (nonlinear_arith)
        requires
            0 <= y,
            0 <= grid.pitch,
    ;
    assert(off == t.offset(n, grid.pitch));
    if prev[off] == curr[off] && prev[off + 1] == curr[off + 1] && prev[off + 2] == curr[off + 2]
        && prev[off + 3] == curr[off + 3] {
        assert(prev.subrange(off, off + 4) =~= curr.subrange(off, off + 4));
    }
    assert forall|j: int| 0 <= j < i implies (#[trigger] tiles[j]).y < t.y || tiles[j].y == t.y
        && tiles[j].x < t.x by {
        let ks = lemma_sent_in_order(grid, prev, curr, j, i, grid.count());
        lemma_tiles_in_order(grid, ks.0, ks.1);
    }
}

proof fn lemma_tiles_in_order(grid: Grid, q: int, k: int)
    requires
        grid.wf(),
        0 <= q < k < grid.count(),
    ensures
        grid.tile_at(q).y < grid.tile_at(k).y || grid.tile_at(q).y == grid.tile_at(k).y
            && grid.tile_at(q).x < grid.tile_at(k).x,
{
    let a = grid.across();
    lemma_count_nonneg(grid);
    lemma_row_major_inverse(q, a, grid.down());
    lemma_row_major_inverse(k, a, grid.down());
    lemma_div_is_ordered(q, k, a);
    let tile = grid.tile;
    if q / a < k / a {
        assert((q / a) * tile < (k / a) * tile) by (nonlinear_arith)
            requires
                q / a < k / a,
                tile > 0,
        ;
    } else {
        assert(q % a < k % a);
        assert((q % a) * tile < (k % a) * tile) by (nonlinear_arith)
            requires
                q % a < k % a,
                tile > 0,
        ;
    }
}

/// Where the record of tile `j` starts: behind two bytes and the records before it, which take eight
/// bytes each and four for every pixel.
pub open spec fn record_place(tiles: Seq<TileArea>, j: int) -> int
    decreases j,
{
    if j <= 0 {
        2
    } else {
        record_place(tiles, j - 1) + 8 + tiles[j - 1].w * tiles[j - 1].h * 4
    }
}

proof fn lemma_record_place(grid: Grid, curr: Seq<u8>, tiles: Seq<TileArea>, j: int)
    requires
        0 <= j <= tiles.len(),
        forall|i: int| 0 <= i < tiles.len() ==> 0 <= (#[trigger] tiles[i]).w && 0 <= tiles[i].h,
    ensures
        record_place(tiles, j) == 2 + grid.records(curr, tiles.take(j)).len(),
    decreases j,
{
    if j > 0 {
        lemma_record_place(grid, curr, tiles, j - 1);
        let part = tiles.take(j);
        assert(part.drop_last() =~= tiles.take(j - 1));
        let t = tiles[j - 1];
        assert(0 <= t.w * t.h) by (nonlinear_arith)
            requires
                0 <= t.w,
                0 <= t.h,
        ;
        assert(grid.record(curr, t).len() == 8 + t.w * t.h * 4);
    }
}

/// A delta on the wire: two bytes with the number of tiles, and for each tile its column, row, width
/// and height in two bytes each and its pixels row by row, as red, green, blue and full alpha.
/// Numbers have their high byte first. Nothing stands between the tiles or after them.
#[verifier::rlimit(50)]
pub proof fn law_delta_on_the_wire(
    grid: Grid,
    prev: Seq<u8>,
    curr: Seq<u8>,
    j: int,
    row: int,
    col: int,
)
    requires
        grid.wf(),
        grid.width < 0x1_0000,
        grid.height < 0x1_0000,
        grid.changed_tiles(prev, curr, grid.count()).len() < 0x1_0000,
        0 <= j < grid.changed_tiles(prev, curr, grid.count()).len(),
        0 <= row < grid.changed_tiles(prev, curr, grid.count())[j].h,
        0 <= col < grid.changed_tiles(prev, curr, grid.count())[j].w,
    ensures
        ({
            let tiles = grid.changed_tiles(prev, curr, grid.count());
            let raw = grid.delta(prev, curr);
            let t = tiles[j];
            let at = record_place(tiles, j);
            let px = at + 8 + (row * t.w + col) * 4;
            let from = (t.y + row) * grid.pitch + (t.x + col) * 4;
            &&& 256 * raw[0] + raw[1] == tiles.len()
            &&& raw.len() == record_place(tiles, tiles.len() as int)
            &&& 256 * raw[at] + raw[at + 1] == t.x
            &&& 256 * raw[at + 2] + raw[at + 3] == t.y
            &&& 256 * raw[at + 4] + raw[at + 5] == t.w
            &&& 256 * raw[at + 6] + raw[at + 7] == t.h
            &&& raw[px] == curr[from + 2]
            &&& raw[px + 1] == curr[from + 1]
            &&& raw[px + 2] == curr[from]
            &&& raw[px + 3] == 255
        }),
{
    let tiles = grid.changed_tiles(prev, curr, grid.count());
    let raw = grid.delta(prev, curr);
    lemma_count_nonneg(grid);
    lemma_changed_tiles_in_grid(grid, prev, curr, grid.count());
    lemma_record_place(grid, curr, tiles, j);
    lemma_record_place(grid, curr, tiles, tiles.len() as int);
    assert(tiles.take(tiles.len() as int) =~= tiles);
    assert(raw.subrange(0, 2) =~= be16(tiles.len() as int));
    law_be16_read_back(tiles.len() as int, raw, 0);
    let t = tiles[j];
    let at = record_place(tiles, j);
    lemma_record_in_place(grid, curr, tiles, raw, j);
    lemma_record_fields(grid, curr, t, raw, at);
    let rgba = t.rgba(curr, grid.pitch);
    law_pixels_are_shown_where_they_are(
        curr,
        t.x,
        t.y,
        t.w,
        t.h,
        grid.pitch,
        col,
        row,
    );
    let n = (row * t.w + col) * 4;
    let body = raw.subrange(at + 8, at + 8 + t.w * t.h * 4);
    assert(body == rgba);
    assert(body[n] == raw[at + 8 + n] && body[n + 1] == raw[at + 8 + n + 1] && body[n + 2]
        == raw[at + 8 + n + 2] && body[n + 3] == raw[at + 8 + n + 3]);
}

} // verus!
