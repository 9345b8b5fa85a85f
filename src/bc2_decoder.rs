//! BC2 (DXT3) decoding: BC1 colour tiles with an explicit 4-bit alpha channel, and the
//! grid walk that copies decoded tiles into an image, clipped at its edges.

use vstd::prelude::*;
use crate::codec::{bc1_block, bc1_tile, tiled_pixel, tiles_for};
use crate::color::{alpha_of, blue_of, color, green_of, lemma_unpack_pack, packed, red_of};
use crate::error::FrameError;

verus! {

/// `p` with its channel `k` (0 blue, 1 green, 2 red, 3 alpha) replaced by `v`.
pub open spec fn with_channel(p: u32, k: int, v: u8) -> u32 {
    if k == 0 {
        packed(red_of(p), green_of(p), v, alpha_of(p))
    } else if k == 1 {
        packed(red_of(p), v, blue_of(p), alpha_of(p))
    } else if k == 2 {
        packed(v, green_of(p), blue_of(p), alpha_of(p))
    } else {
        packed(red_of(p), green_of(p), blue_of(p), v)
    }
}

/// The 4-bit value of pixel `i` in an explicit-alpha block: the nibbles are stored
/// little end first, two to a byte.
pub open spec fn alpha_nibble(block: Seq<u8>, i: int) -> u8 {
    if i % 2 == 0 {
        (block[i / 2] % 16) as u8
    } else {
        (block[i / 2] / 16) as u8
    }
}

/// A 4-bit value widened to 8 bits by repeating it: `0xN` becomes `0xNN`.
pub open spec fn widen_nibble(n: u8) -> u8 {
    (n * 17) as u8
}

proof fn lemma_splice(p: u32, v: u8, k: u32)
    requires
        k < 4,
    ensures
        (p & (0xFFFFFFFFu32 ^ (0xFFu32 << (k * 8)))) | ((v as u32) << (k * 8)) == with_channel(
            p,
            k as int,
            v,
        ),
{
    let q = (p & (0xFFFFFFFFu32 ^ (0xFFu32 << (k * 8)))) | ((v as u32) << (k * 8));
    let v32 = v as u32;
    assert(v32 < 256 && k < 4 && q == (p & (0xFFFFFFFFu32 ^ (0xFFu32 << (k * 8)))) | (v32 << (k
        * 8)) ==> {
        &&& (q % 0x100u32) == (if k == 0 { v32 } else { p % 0x100u32 })
        &&& (q / 0x100u32) % 0x100u32 == (if k == 1 { v32 } else { (p / 0x100u32) % 0x100u32 })
        &&& (q / 0x10000u32) % 0x100u32 == (if k == 2 { v32 } else { (p / 0x10000u32) % 0x100u32 })
        &&& (q / 0x1000000u32) % 0x100u32 == (if k == 3 { v32 } else { (p / 0x1000000u32)
            % 0x100u32 })
    }) by (bit_vector);
    lemma_unpack_pack(q);
}

proof fn lemma_nibble(d: u8, s: u8)
    requires
        s == 0 || s == 4,
    ensures
        0xfu8 & (d >> s) == if s == 0 { d % 16 } else { d / 16 },
        (((0xfu8 & (d >> s)) << 4u8) | (0xfu8 & (d >> s))) == (0xfu8 & (d >> s)) * 17,
{
    assert((s == 0 || s == 4) ==> 0xfu8 & (d >> s) == if s == 0 { d % 16 } else { d / 16 })
        by (bit_vector);
    assert((s == 0 || s == 4) ==> (((0xfu8 & (d >> s)) << 4u8) | (0xfu8 & (d >> s))) == (0xfu8 & (d
        >> s)) * 17) by (bit_vector);
}

/// Overwrites channel `channel` of the first 16 pixels of `outbuf` with the explicit
/// alpha of `data`: pixel `i` takes nibble `i` of the first 8 bytes, widened to 8 bits.
pub fn decode_bc2_alpha(data: &[u8], outbuf: &mut [u32], channel: usize)
    requires
        data@.len() >= 8,
        old(outbuf)@.len() >= 16,
        channel < 4,
    ensures
        final(outbuf)@.len() == old(outbuf)@.len(),
        forall|i: int|
            0 <= i < 16 ==> #[trigger] final(outbuf)@[i] == with_channel(
                old(outbuf)@[i],
                channel as int,
                widen_nibble(alpha_nibble(data@, i)),
            ),
        forall|i: int|
            16 <= i < old(outbuf)@.len() ==> #[trigger] final(outbuf)@[i] == old(outbuf)@[i],
{
    let channel_shift: u32 = (channel * 8) as u32;
    let channel_mask: u32 = 0xFFFFFFFFu32 ^ (0xFFu32 << channel_shift);
    let ghost before = outbuf@;
    let mut i: usize = 0;
    while i < 16
        invariant
            i <= 16,
            data@.len() >= 8,
            before.len() >= 16,
            channel < 4,
            channel_shift == channel * 8,
            channel_mask == 0xFFFFFFFFu32 ^ (0xFFu32 << channel_shift),
            outbuf@.len() == before.len(),
            forall|j: int|
                0 <= j < i ==> #[trigger] outbuf@[j] == with_channel(
                    before[j],
                    channel as int,
                    widen_nibble(alpha_nibble(data@, j)),
                ),
            forall|j: int| i <= j < before.len() ==> #[trigger] outbuf@[j] == before[j],
        decreases 16 - i,
    {
        let bit_i: usize = i * 4;
        let by_i: usize = bit_i >> 3usize;
        let s: u8 = (bit_i & 7usize) as u8;
        proof {
            assert(i < 16 && bit_i == i * 4 ==> (bit_i >> 3usize) == i / 2 && (bit_i & 7usize) == (i
                % 2) * 4) by (bit_vector);
            lemma_nibble(data@[by_i as int], s);
        }
        let av: u8 = 0xfu8 & (data[by_i] >> s);
        let av: u8 = (av << 4u8) | av;
        proof {
            lemma_splice(outbuf@[i as int], av, channel_shift / 8);
        }
        outbuf[i] = (outbuf[i] & channel_mask) | ((av as u32) << channel_shift);
        i = i + 1;
    }
}

/// Pixel `i` of a `w`-wide, `h`-high image lies in the tile at block column `bx`, block
/// row `by` of a grid of `bw`×`bh` tiles.
pub open spec fn in_tile(i: int, bx: int, by: int, w: int, h: int, bw: int, bh: int) -> bool {
    &&& 0 <= i < w * h
    &&& bx * bw <= i % w < bx * bw + bw
    &&& by * bh <= i / w < by * bh + bh
}

/// Where pixel `i` of the image sits in the row-major `bw`-wide tile at `(bx, by)`.
pub open spec fn tile_offset(i: int, bx: int, by: int, w: int, bw: int, bh: int) -> int {
    (i / w - by * bh) * bw + (i % w - bx * bw)
}

/// `image` after the `bw`×`bh` tile `tile` is copied in at block column `bx`, block row
/// `by`, clipped at the edges of the `w`×`h` image.
pub open spec fn tile_copied(
    image: Seq<u32>,
    bx: int,
    by: int,
    w: int,
    h: int,
    bw: int,
    bh: int,
    tile: Seq<u32>,
) -> Seq<u32> {
    Seq::new(
        image.len(),
        |i: int|
            if in_tile(i, bx, by, w, h, bw, bh) {
                tile[tile_offset(i, bx, by, w, bw, bh)]
            } else {
                image[i]
            },
    )
}

/// The row-major position of `(x, y)` in a `w`-wide image is `y * w + x`.
proof fn lemma_position(w: int, y: int, x: int)
    requires
        0 <= x < w,
        0 <= y,
    ensures
        (y * w + x) / w == y,
        (y * w + x) % w == x,
{
    vstd::arithmetic::div_mod::lemma_fundamental_div_mod_converse(y * w + x, w, y, x);
}

/// A pixel of a `w`-wide, `h`-high image has its row below `h` and its column below `w`.
proof fn lemma_row_bound(i: int, w: int, h: int)
    requires
        0 <= i < w * h,
        0 <= w,
        0 <= h,
    ensures
        0 <= i / w < h,
        0 <= i % w < w,
{
    assert(w > 0) by (nonlinear_arith)
        requires
            0 <= i < w * h,
            0 <= w,
            0 <= h,
    ;
    vstd::arithmetic::div_mod::lemma_fundamental_div_mod(i, w);
    vstd::arithmetic::div_mod::lemma_mod_bound(i, w);
    vstd::arithmetic::div_mod::lemma_div_pos_is_pos(i, w);
    if i / w >= h {
        assert(w * (i / w) >= w * h) by (nonlinear_arith)
            requires
                i / w >= h,
                w > 0,
        ;
    }
}

/// Copies the `bw`×`bh` tile `buffer` into `image` (`w` wide, `h` high) at block
/// column `bx`, block row `by`. Columns and rows of the tile that fall beyond the
/// image's right or bottom edge are left out; every other pixel keeps its value.
pub fn copy_block_buffer(
    bx: usize,
    by: usize,
    w: usize,
    h: usize,
    bw: usize,
    bh: usize,
    buffer: &[u32],
    image: &mut [u32],
)
    requires
        bw * bx <= w,
        bh * by <= h,
        buffer@.len() >= bw * bh,
        w * h <= old(image)@.len(),
    ensures
        final(image)@ == tile_copied(
            old(image)@,
            bx as int,
            by as int,
            w as int,
            h as int,
            bw as int,
            bh as int,
            buffer@,
        ),
        final(image)@.len() == old(image)@.len(),
        forall|i: int|
            0 <= i < old(image)@.len() ==> #[trigger] final(image)@[i] == if in_tile(
                i,
                bx as int,
                by as int,
                w as int,
                h as int,
                bw as int,
                bh as int,
            ) {
                buffer@[tile_offset(i, bx as int, by as int, w as int, bw as int, bh as int)]
            } else {
                old(image)@[i]
            },
{
    let ghost before = image@;
    let image_len: usize = image.len();
    let buffer_len: usize = buffer.len();
    let x: usize = bw * bx;
    let copy_width: usize = if w - x < bw {
        w - x
    } else {
        bw
    };
    let y_0: usize = by * bh;
    let copy_height: usize = if h - y_0 < bh {
        h - y_0
    } else {
        bh
    };
    let mut buffer_offset: usize = 0;
    proof {
        assert(by * bh == bh * by) by (nonlinear_arith);
        assert(bx * bw == bw * bx) by (nonlinear_arith);
        assert(x + copy_width <= w);
        assert(y_0 + copy_height <= h);
    }
    let mut y: usize = y_0;
    while y < y_0 + copy_height
        invariant
            y_0 <= y <= y_0 + copy_height,
            x == bx * bw,
            y_0 == by * bh,
            x + copy_width <= w,
            y_0 + copy_height <= h,
            copy_width <= bw,
            copy_height <= bh,
            copy_width == bw || x + copy_width == w,
            copy_height == bh || y_0 + copy_height == h,
            buffer_offset == (y - y_0) * bw,
            buffer@.len() >= bw * bh,
            buffer@.len() == buffer_len,
            w * h <= before.len(),
            before.len() == image_len,
            image@.len() == before.len(),
            forall|i: int|
                0 <= i < before.len() ==> #[trigger] image@[i] == if in_tile(
                    i,
                    bx as int,
                    by as int,
                    w as int,
                    h as int,
                    bw as int,
                    bh as int,
                ) && i / (w as int) < y {
                    buffer@[tile_offset(i, bx as int, by as int, w as int, bw as int, bh as int)]
                } else {
                    before[i]
                },
        decreases y_0 + copy_height - y,
    {
        proof {
            assert(y * w + w <= h * w) by (nonlinear_arith)
                requires
                    y < h,
            ;
            assert(h * w == w * h) by (nonlinear_arith);
            assert((y - y_0) * bw + bw <= bh * bw) by (nonlinear_arith)
                requires
                    y - y_0 < bh,
            ;
            assert(bh * bw == bw * bh) by (nonlinear_arith);
        }
        let image_offset: usize = y * w + x;
        let mut c: usize = 0;
        while c < copy_width
            invariant
                y_0 <= y < y_0 + copy_height,
                x == bx * bw,
                y_0 == by * bh,
                x + copy_width <= w,
                y_0 + copy_height <= h,
                copy_width <= bw,
                copy_height <= bh,
                copy_width == bw || x + copy_width == w,
                copy_height == bh || y_0 + copy_height == h,
                c <= copy_width,
                image_offset == y * w + x,
                y * w + w <= w * h,
                buffer_offset == (y - y_0) * bw,
                buffer_offset + bw <= bw * bh,
                buffer@.len() >= bw * bh,
                buffer@.len() == buffer_len,
                w * h <= before.len(),
                before.len() == image_len,
                image@.len() == before.len(),
                forall|i: int|
                    0 <= i < before.len() ==> #[trigger] image@[i] == if in_tile(
                        i,
                        bx as int,
                        by as int,
                        w as int,
                        h as int,
                        bw as int,
                        bh as int,
                    ) && (i / (w as int) < y || (i / (w as int) == y && i % (w as int) < x + c)) {
                        buffer@[tile_offset(
                            i,
                            bx as int,
                            by as int,
                            w as int,
                            bw as int,
                            bh as int,
                        )]
                    } else {
                        before[i]
                    },
            decreases copy_width - c,
        {
            let ghost pos: int = image_offset + c;
            proof {
                lemma_position(w as int, y as int, x + c);
            }
            image[image_offset + c] = buffer[buffer_offset + c];
            assert forall|i: int| 0 <= i < before.len() implies #[trigger] image@[i] == if in_tile(
                i,
                bx as int,
                by as int,
                w as int,
                h as int,
                bw as int,
                bh as int,
            ) && (i / (w as int) < y || (i / (w as int) == y && i % (w as int) < x + c + 1)) {
                buffer@[tile_offset(i, bx as int, by as int, w as int, bw as int, bh as int)]
            } else {
                before[i]
            } by {
                if i != pos {
                    vstd::arithmetic::div_mod::lemma_fundamental_div_mod(i, w as int);
                    if i / (w as int) == y && i % (w as int) == x + c {
                        assert(i == (w as int) * (i / (w as int)) + i % (w as int));
                        assert((w as int) * (y as int) == (y as int) * (w as int)) by (nonlinear_arith);
                    }
                }
            }
            c = c + 1;
        }
        assert forall|i: int| 0 <= i < before.len() implies #[trigger] image@[i] == if in_tile(
            i,
            bx as int,
            by as int,
            w as int,
            h as int,
            bw as int,
            bh as int,
        ) && i / (w as int) < y + 1 {
            buffer@[tile_offset(i, bx as int, by as int, w as int, bw as int, bh as int)]
        } else {
            before[i]
        } by {
            if 0 <= i < (w as int) * (h as int) {
                lemma_row_bound(i, w as int, h as int);
            }
        }
        assert((y + 1 - y_0) * bw == (y - y_0) * bw + bw) by (nonlinear_arith);
        buffer_offset = buffer_offset + bw;
        y = y + 1;
    }
    assert forall|i: int| 0 <= i < before.len() implies #[trigger] image@[i] == if in_tile(
        i,
        bx as int,
        by as int,
        w as int,
        h as int,
        bw as int,
        bh as int,
    ) {
        buffer@[tile_offset(i, bx as int, by as int, w as int, bw as int, bh as int)]
    } else {
        before[i]
    } by {
        if in_tile(i, bx as int, by as int, w as int, h as int, bw as int, bh as int) {
            lemma_row_bound(i, w as int, h as int);
        }
    }
    assert(image@ =~= tile_copied(
        before,
        bx as int,
        by as int,
        w as int,
        h as int,
        bw as int,
        bh as int,
        buffer@,
    ));
}

/// The `w`×`h` image `image` after the first `n` tiles of a grid `tiles_across` tiles
/// wide, taken in row-major order, are copied in: tile `k` is `tiles(k % tiles_across,
/// k / tiles_across)`.
pub open spec fn grid_copied(
    image: Seq<u32>,
    tiles: spec_fn(int, int) -> Seq<u32>,
    w: int,
    h: int,
    bw: int,
    bh: int,
    tiles_across: int,
    n: nat,
) -> Seq<u32>
    decreases n,
{
    if n == 0 {
        image
    } else {
        let k = n - 1;
        let bx = k % tiles_across;
        let by = k / tiles_across;
        tile_copied(
            grid_copied(image, tiles, w, h, bw, bh, tiles_across, (n - 1) as nat),
            bx,
            by,
            w,
            h,
            bw,
            bh,
            tiles(bx, by),
        )
    }
}

/// `x / d == q` exactly when `x` lies in `[q * d, q * d + d)`.
proof fn lemma_quotient(x: int, d: int, q: int)
    requires
        0 <= x,
        0 < d,
    ensures
        (q * d <= x < q * d + d) <==> x / d == q,
{
    vstd::arithmetic::div_mod::lemma_fundamental_div_mod(x, d);
    vstd::arithmetic::div_mod::lemma_mod_bound(x, d);
    assert(d * (x / d) == (x / d) * d) by (nonlinear_arith);
    if q * d <= x < q * d + d {
        vstd::arithmetic::div_mod::lemma_fundamental_div_mod_converse(x, d, q, x - q * d);
    }
}

/// The pixels of the first `n` tiles of the grid hold their tile's pixel; the others
/// keep their value.
proof fn lemma_grid_prefix(
    image: Seq<u32>,
    tiles: spec_fn(int, int) -> Seq<u32>,
    w: int,
    h: int,
    bw: int,
    bh: int,
    tiles_across: int,
    n: nat,
)
    requires
        0 < bw,
        0 < bh,
        0 <= w,
        0 <= h,
        tiles_across == (w + bw - 1) / bw,
        w * h <= image.len(),
    ensures
        grid_copied(image, tiles, w, h, bw, bh, tiles_across, n).len() == image.len(),
        forall|i: int|
            0 <= i < image.len() ==> #[trigger] grid_copied(
                image,
                tiles,
                w,
                h,
                bw,
                bh,
                tiles_across,
                n,
            )[i] == if i < w * h && ((i / w) / bh) * tiles_across + (i % w) / bw < n {
                tiles((i % w) / bw, (i / w) / bh)[((i / w) % bh) * bw + (i % w) % bw]
            } else {
                image[i]
            },
    decreases n,
{
    if n > 0 {
        lemma_grid_prefix(image, tiles, w, h, bw, bh, tiles_across, (n - 1) as nat);
        let prev = grid_copied(image, tiles, w, h, bw, bh, tiles_across, (n - 1) as nat);
        let k = n - 1;
        let bx = k % tiles_across;
        let by = k / tiles_across;
        let next = grid_copied(image, tiles, w, h, bw, bh, tiles_across, n);
        assert(next == tile_copied(prev, bx, by, w, h, bw, bh, tiles(bx, by)));
        assert forall|i: int| 0 <= i < image.len() implies #[trigger] next[i] == if i < w * h && ((
        i / w) / bh) * tiles_across + (i % w) / bw < n {
            tiles((i % w) / bw, (i / w) / bh)[((i / w) % bh) * bw + (i % w) % bw]
        } else {
            image[i]
        } by {
            if i < w * h {
                lemma_row_bound(i, w, h);
                let x = i % w;
                let y = i / w;
                let bxi = x / bw;
                let byi = y / bh;
                // the grid is at least one tile wide, and column `bxi` lies in it
                let q = (w - 1) / bw;
                vstd::arithmetic::div_mod::lemma_fundamental_div_mod(w - 1, bw);
                vstd::arithmetic::div_mod::lemma_mod_bound(w - 1, bw);
                assert(bw * q == q * bw) by (nonlinear_arith);
                assert((q + 1) * bw == q * bw + bw) by (nonlinear_arith);
                lemma_quotient(w - 1 + bw, bw, q + 1);
                vstd::arithmetic::div_mod::lemma_div_is_ordered(x, w - 1, bw);
                vstd::arithmetic::div_mod::lemma_div_pos_is_pos(x, bw);
                vstd::arithmetic::div_mod::lemma_div_pos_is_pos(y, bh);
                assert(0 <= bxi < tiles_across);
                // the tile at `(bx, by)` covers pixel `i` exactly when `i`'s tile is number `k`
                vstd::arithmetic::div_mod::lemma_fundamental_div_mod(k, tiles_across);
                vstd::arithmetic::div_mod::lemma_mod_bound(k, tiles_across);
                vstd::arithmetic::div_mod::lemma_div_pos_is_pos(k, tiles_across);
                lemma_quotient(x, bw, bx);
                lemma_quotient(y, bh, by);
                assert(tiles_across * by == by * tiles_across) by (nonlinear_arith);
                if byi * tiles_across + bxi == k {
                    vstd::arithmetic::div_mod::lemma_fundamental_div_mod_converse(
                        k,
                        tiles_across,
                        byi,
                        bxi,
                    );
                }
                assert(in_tile(i, bx, by, w, h, bw, bh) <==> byi * tiles_across + bxi == k);
                if in_tile(i, bx, by, w, h, bw, bh) {
                    vstd::arithmetic::div_mod::lemma_fundamental_div_mod(y, bh);
                    vstd::arithmetic::div_mod::lemma_fundamental_div_mod(x, bw);
                    assert(bh * by == by * bh) by (nonlinear_arith);
                    assert(bw * bx == bx * bw) by (nonlinear_arith);
                    assert(tile_offset(i, bx, by, w, bw, bh) == (y % bh) * bw + x % bw);
                }
            }
        }
        assert(next.len() == image.len());
    } else {
        assert forall|i: int| 0 <= i < w * h implies ((i / w) / bh) * tiles_across + #[trigger] (i
            % w) / bw >= 0 by {
            lemma_row_bound(i, w, h);
            vstd::arithmetic::div_mod::lemma_div_pos_is_pos(i % w, bw);
            vstd::arithmetic::div_mod::lemma_div_pos_is_pos(i / w, bh);
            vstd::arithmetic::div_mod::lemma_div_pos_is_pos(w + bw - 1, bw);
            assert(((i / w) / bh) * tiles_across >= 0) by (nonlinear_arith)
                requires
                    (i / w) / bh >= 0,
                    tiles_across >= 0,
            ;
        }
    }
}

/// Copying every tile of the grid, row by row, into a `w`×`h` image fills each pixel
/// `(x, y)` with pixel `(x % bw, y % bh)` of tile `(x / bw, y / bh)`, and leaves every
/// entry past `w * h` as it was: the tiles along the right and bottom edges are clipped,
/// and nothing is written beyond the image.
pub proof fn lemma_tile_grid_fills_image(
    image: Seq<u32>,
    tiles: spec_fn(int, int) -> Seq<u32>,
    w: int,
    h: int,
    bw: int,
    bh: int,
)
    requires
        0 < bw,
        0 < bh,
        0 <= w,
        0 <= h,
        w * h <= image.len(),
    ensures
        ({
            let across = (w + bw - 1) / bw;
            let down = (h + bh - 1) / bh;
            let r = grid_copied(image, tiles, w, h, bw, bh, across, (across * down) as nat);
            &&& r.len() == image.len()
            &&& forall|x: int, y: int|
                0 <= x < w && 0 <= y < h ==> #[trigger] r[y * w + x] == tiles(x / bw, y / bh)[(y
                    % bh) * bw + x % bw]
            &&& forall|i: int| w * h <= i < image.len() ==> #[trigger] r[i] == image[i]
        }),
{
    let across = (w + bw - 1) / bw;
    let down = (h + bh - 1) / bh;
    vstd::arithmetic::div_mod::lemma_div_pos_is_pos(w + bw - 1, bw);
    vstd::arithmetic::div_mod::lemma_div_pos_is_pos(h + bh - 1, bh);
    assert(0 <= across * down) by (nonlinear_arith)
        requires
            0 <= across,
            0 <= down,
    ;
    let n = (across * down) as nat;
    lemma_grid_prefix(image, tiles, w, h, bw, bh, across, n);
    let r = grid_copied(image, tiles, w, h, bw, bh, across, n);
    assert forall|x: int, y: int| 0 <= x < w && 0 <= y < h implies #[trigger] r[y * w + x] == tiles(
        x / bw,
        y / bh,
    )[(y % bh) * bw + x % bw] by {
        let i = y * w + x;
        lemma_position(w, y, x);
        assert(i < w * h) by (nonlinear_arith)
            requires
                i == y * w + x,
                x < w,
                y < h,
                0 <= x,
        ;
        // column and row of tiles lie inside the grid
        let q = (w - 1) / bw;
        vstd::arithmetic::div_mod::lemma_fundamental_div_mod(w - 1, bw);
        vstd::arithmetic::div_mod::lemma_mod_bound(w - 1, bw);
        assert(bw * q == q * bw) by (nonlinear_arith);
        assert((q + 1) * bw == q * bw + bw) by (nonlinear_arith);
        lemma_quotient(w - 1 + bw, bw, q + 1);
        vstd::arithmetic::div_mod::lemma_div_is_ordered(x, w - 1, bw);
        let p = (h - 1) / bh;
        vstd::arithmetic::div_mod::lemma_fundamental_div_mod(h - 1, bh);
        vstd::arithmetic::div_mod::lemma_mod_bound(h - 1, bh);
        assert(bh * p == p * bh) by (nonlinear_arith);
        assert((p + 1) * bh == p * bh + bh) by (nonlinear_arith);
        lemma_quotient(h - 1 + bh, bh, p + 1);
        vstd::arithmetic::div_mod::lemma_div_is_ordered(y, h - 1, bh);
        vstd::arithmetic::div_mod::lemma_div_pos_is_pos(x, bw);
        vstd::arithmetic::div_mod::lemma_div_pos_is_pos(y, bh);
        let bxi = x / bw;
        let byi = y / bh;
        assert(byi * across + bxi < across * down) by (nonlinear_arith)
            requires
                0 <= bxi < across,
                0 <= byi < down,
        ;
    }
}

/// The 16 pixels of the BC2 tile that the 16 bytes `block` encode: the colours of the
/// BC1 tile in its last 8 bytes, with the alpha that its first 8 bytes give.
pub open spec fn bc2_tile(block: Seq<u8>) -> Seq<u32> {
    Seq::new(
        16,
        |i: int|
            with_channel(bc1_tile(block.subrange(8, 16))[i], 3, widen_nibble(alpha_nibble(block, i))),
    )
}

/// Decodes the BC2 tile in the first 16 bytes of `data` into the first 16 entries of
/// `outbuf`.
pub fn decode_bc2_block(data: &[u8], outbuf: &mut [u32])
    requires
        data@.len() >= 16,
        old(outbuf)@.len() >= 16,
    ensures
        final(outbuf)@.len() == old(outbuf)@.len(),
        final(outbuf)@.subrange(0, 16) == bc2_tile(data@.subrange(0, 16)),
        final(outbuf)@.subrange(16, final(outbuf)@.len() as int) == old(outbuf)@.subrange(
            16,
            old(outbuf)@.len() as int,
        ),
{
    let ghost before = outbuf@;
    bc1_block(&data[8..data.len()], outbuf);
    let ghost mid = outbuf@;
    decode_bc2_alpha(data, outbuf, 3);
    proof {
        let block = data@.subrange(0, 16);
        assert(data@.subrange(8, data@.len() as int).subrange(0, 8) =~= block.subrange(8, 16));
        assert forall|i: int| 0 <= i < 16 implies outbuf@[i] == bc2_tile(block)[i] by {
            assert(mid[i] == mid.subrange(0, 16)[i]);
            assert(block[i / 2] == data@[i / 2]);
        }
        assert(outbuf@.subrange(0, 16) =~= bc2_tile(block));
        assert forall|i: int| 16 <= i < before.len() implies outbuf@[i] == before[i] by {
            assert(mid[i] == mid.subrange(16, mid.len() as int)[i - 16]);
            assert(before[i] == before.subrange(16, before.len() as int)[i - 16]);
        }
        assert(outbuf@.subrange(16, outbuf@.len() as int) =~= before.subrange(
            16,
            before.len() as int,
        ));
    }
}

/// Pixel `i` of a `w`-wide image decoded from the BC2 tiles in `data`, stored row of
/// tiles after row of tiles, 16 bytes each.
pub open spec fn bc2_pixel(data: Seq<u8>, w: int, i: int) -> u32 {
    tiled_pixel(data, w as nat, i, 16, |b: Seq<u8>| bc2_tile(b))
}

/// Tiles of the grid that are decoded once the walk has reached block row `by`, block
/// column `bx`: pixel `i` is covered by one of them.
spec fn tile_done(i: int, w: int, bx: int, by: int) -> bool {
    (i / w) / 4 < by || ((i / w) / 4 == by && (i % w) / 4 < bx)
}

proof fn lemma_tile_of(i: int, bx: int, by: int, w: int, h: int)
    requires
        0 <= i < w * h,
        0 <= w,
        0 <= h,
        0 <= bx,
        0 <= by,
    ensures
        in_tile(i, bx, by, w, h, 4, 4) <==> ((i % w) / 4 == bx && (i / w) / 4 == by),
        in_tile(i, bx, by, w, h, 4, 4) ==> tile_offset(i, bx, by, w, 4, 4) == ((i / w) % 4) * 4
            + (i % w) % 4,
        (i % w) / 4 < tiles_for(w as nat),
        (i / w) / 4 < tiles_for(h as nat),
{
    lemma_row_bound(i, w, h);
}

/// Decodes a BC2 (DXT3) texture of `width`×`height` pixels into `image`. The tiles
/// along the right and bottom edges are clipped to the image.
pub fn decode_bc2(data: &[u8], width: usize, height: usize, image: &mut [u32]) -> (r: Result<
    (),
    FrameError,
>)
    ensures
        r == if data@.len() < tiles_for(width as nat) * tiles_for(height as nat) * 16 {
            Err(FrameError::InsufficientData)
        } else if old(image)@.len() < width * height {
            Err(FrameError::BufferTooSmall)
        } else {
            Ok(())
        },
        r.is_err() ==> final(image)@ == old(image)@,
        r.is_ok() ==> final(image)@.len() == old(image)@.len(),
        r.is_ok() ==> forall|i: int|
            0 <= i < old(image)@.len() ==> #[trigger] final(image)@[i] == if i < width * height {
                bc2_pixel(data@, width as int, i)
            } else {
                old(image)@[i]
            },
{
    let num_blocks_x: usize = width / 4 + if width % 4 != 0 {
        1
    } else {
        0
    };
    let num_blocks_y: usize = height / 4 + if height % 4 != 0 {
        1
    } else {
        0
    };
    let needed = match num_blocks_x.checked_mul(num_blocks_y) {
        Some(n) => n.checked_mul(16),
        None => None,
    };
    proof {
        assert(0 <= num_blocks_x * num_blocks_y) by (nonlinear_arith);
    }
    let data_len: usize = data.len();
    let image_len: usize = image.len();
    match needed {
        Some(n) => {
            if data_len < n {
                return Err(FrameError::InsufficientData);
            }
        },
        None => {
            return Err(FrameError::InsufficientData);
        },
    }
    match width.checked_mul(height) {
        Some(n) => {
            if image_len < n {
                return Err(FrameError::BufferTooSmall);
            }
        },
        None => {
            return Err(FrameError::BufferTooSmall);
        },
    }
    let ghost before = image@;
    let ghost w = width as int;
    let ghost h = height as int;
    let mut buffer: Vec<u32> = vec![color(0, 0, 0, 255); 16];
    let mut data_offset: usize = 0;
    let mut by: usize = 0;
    while by < num_blocks_y
        invariant
            num_blocks_x == tiles_for(w as nat),
            num_blocks_y == tiles_for(h as nat),
            w == width,
            h == height,
            num_blocks_x * num_blocks_y * 16 <= data@.len(),
            data@.len() == data_len,
            w * h <= before.len(),
            by <= num_blocks_y,
            data_offset == 16 * (by * num_blocks_x),
            buffer@.len() == 16,
            image@.len() == before.len(),
            forall|i: int|
                0 <= i < before.len() ==> #[trigger] image@[i] == if i < w * h && (i / w) / 4
                    < by {
                    bc2_pixel(data@, w, i)
                } else {
                    before[i]
                },
        decreases num_blocks_y - by,
    {
        let mut bx: usize = 0;
        assert forall|i: int| 0 <= i < w * h implies !(#[trigger] tile_done(i, w, 0, by as int))
            || (i / w) / 4 < by by {
            lemma_row_bound(i, w, h);
        }
        while bx < num_blocks_x
            invariant
                num_blocks_x == tiles_for(w as nat),
                num_blocks_y == tiles_for(h as nat),
                w == width,
                h == height,
                num_blocks_x * num_blocks_y * 16 <= data@.len(),
                data@.len() == data_len,
                w * h <= before.len(),
                by < num_blocks_y,
                bx <= num_blocks_x,
                data_offset == 16 * (by * num_blocks_x + bx),
                buffer@.len() == 16,
                image@.len() == before.len(),
                forall|i: int|
                    0 <= i < before.len() ==> #[trigger] image@[i] == if i < w * h && tile_done(
                        i,
                        w,
                        bx as int,
                        by as int,
                    ) {
                        bc2_pixel(data@, w, i)
                    } else {
                        before[i]
                    },
            decreases num_blocks_x - bx,
        {
            proof {
                assert(by * num_blocks_x + bx + 1 <= num_blocks_y * num_blocks_x) by (nonlinear_arith)
                    requires
                        by < num_blocks_y,
                        bx < num_blocks_x,
                ;
                assert(num_blocks_y * num_blocks_x * 16 == num_blocks_x * num_blocks_y * 16)
                    by (nonlinear_arith);
                assert(4 * bx <= width);
                assert(4 * by <= height);
            }
            let ghost prev = image@;
            let ghost block = data@.subrange(data_offset as int, data_offset + 16);
            decode_bc2_block(&data[data_offset..data_offset + 16], buffer.as_mut_slice());
            copy_block_buffer(bx, by, width, height, 4, 4, buffer.as_slice(), image);
            proof {
                assert(block.subrange(0, 16) =~= block);
                assert forall|i: int| 0 <= i < before.len() implies #[trigger] image@[i] == if i < w
                    * h && tile_done(i, w, bx + 1, by as int) {
                    bc2_pixel(data@, w, i)
                } else {
                    before[i]
                } by {
                    if 0 <= i < w * h {
                        lemma_tile_of(i, bx as int, by as int, w, h);
                        if in_tile(i, bx as int, by as int, w, h, 4, 4) {
                            let k = ((i / w) % 4) * 4 + (i % w) % 4;
                            assert(buffer@[k] == buffer@.subrange(0, 16)[k]);
                        }
                    }
                }
            }
            data_offset = data_offset + 16;
            bx = bx + 1;
        }
        proof {
            assert forall|i: int| 0 <= i < before.len() implies #[trigger] image@[i] == if i < w * h
                && (i / w) / 4 < by + 1 {
                bc2_pixel(data@, w, i)
            } else {
                before[i]
            } by {
                if 0 <= i < w * h {
                    lemma_tile_of(i, 0, by as int, w, h);
                }
            }
            assert(16 * (by * num_blocks_x + num_blocks_x) == 16 * ((by + 1) * num_blocks_x))
                by (nonlinear_arith);
        }
        by = by + 1;
    }
    proof {
        assert forall|i: int| 0 <= i < before.len() implies #[trigger] image@[i] == if i < w * h {
            bc2_pixel(data@, w, i)
        } else {
            before[i]
        } by {
            if 0 <= i < w * h {
                lemma_tile_of(i, 0, 0, w, h);
            }
        }
    }
    Ok(())
}

} // verus!
