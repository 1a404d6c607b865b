use vstd::prelude::*;

use crate::error::AppError;
use image::codecs::jpeg::JpegEncoder;
use image::codecs::png::{CompressionType, FilterType, PngEncoder};
use image::{imageops, DynamicImage, ImageFormat};
use std::io::Cursor;



verus! {

/// An 8-bit RGBA image: `width * height` pixels stored row by row, four
/// bytes per pixel.
pub struct RgbaImage {
    pub width: u32,
    pub height: u32,
    pub data: Vec<u8>,
}

/// Byte offset of byte column `xb` of row `y` in a buffer of `stride` bytes
/// per row.
pub open spec fn at(stride: int, y: int, xb: int) -> int {
    y * stride + xb
}

impl RgbaImage {
    /// The buffer holds exactly `width * height` pixels.
    pub open spec fn wf(&self) -> bool {
        self.data@.len() == self.width * self.height * 4
    }

    /// Bytes per row.
    pub open spec fn stride(&self) -> nat {
        (self.width * 4) as nat
    }

    /// Byte `xb` of row `y` (`xb` counts bytes, so pixel `x`, channel `c` is
    /// `xb == 4 * x + c`).
    pub open spec fn byte(&self, y: int, xb: int) -> u8 {
        self.data@[at(self.stride() as int, y, xb)]
    }

    /// A black, fully transparent image (every byte zero).
    pub fn new(width: u32, height: u32) -> (img: RgbaImage)
        requires
            width * height * 4 <= usize::MAX,
        ensures
            img.wf(),
            img.width == width,
            img.height == height,
            forall|k: int| 0 <= k < img.data@.len() ==> img.data@[k] == 0u8,
    {
        let len: usize = (width as usize) * (height as usize) * 4;
        let data: Vec<u8> = vec![0u8; len];
        RgbaImage { width, height, data }
    }

    /// Wraps a pixel buffer; `None` when its length is not
    /// `width * height * 4`.
    pub fn from_raw(width: u32, height: u32, data: Vec<u8>) -> (r: Option<RgbaImage>)
        ensures
            match r {
                Some(img) => img.wf() && img.width == width && img.height == height && img.data@ == data@,
                None => data@.len() != width * height * 4,
            },
    {
        proof {
            assert((width as int) * (height as int) <= 0xffff_ffff * 0xffff_ffff) by (nonlinear_arith)
                requires width <= 0xffff_ffffu32, height <= 0xffff_ffffu32;
        }
        let need: u128 = (width as u128) * (height as u128) * 4;
        if (data.len() as u128) == need {
            Some(RgbaImage { width, height, data })
        } else {
            None
        }
    }

    /// `(width, height)`.
    pub fn dimensions(&self) -> (r: (u32, u32))
        ensures
            r == (self.width, self.height),
    {
        (self.width, self.height)
    }
}

/// Rows `y` and `y2` of a strided buffer do not overlap: a byte column
/// inside one row determines the row.
pub proof fn lemma_row_of(stride: int, y: int, xb: int, y2: int, lo: int, hi: int)
    requires
        stride > 0,
        0 <= xb < stride,
        0 <= lo <= hi <= stride,
        y >= 0,
        y2 >= 0,
        at(stride, y2, lo) <= at(stride, y, xb) < at(stride, y2, hi),
    ensures
        y == y2,
        lo <= xb < hi,
{
    if y < y2 {
        assert(y * stride + xb < y2 * stride) by (nonlinear_arith)
            requires y < y2, xb < stride, stride > 0;
    }
    if y > y2 {
        assert(y * stride >= y2 * stride + stride) by (nonlinear_arith)
            requires y > y2, stride > 0;
    }
}

/// Byte column `xb` of row `y` lies inside a buffer of `h` rows.
pub proof fn lemma_at_bound(stride: int, h: int, y: int, xb: int)
    requires
        0 <= y < h,
        0 <= xb < stride,
    ensures
        0 <= at(stride, y, xb) < h * stride,
        at(stride, y, xb) + 1 <= h * stride,
{
    assert(0 <= y * stride + xb < h * stride) by (nonlinear_arith)
        requires 0 <= y < h, 0 <= xb < stride;
}

/// Copies `n` bytes of `src` starting at `src_off` over `dst` starting at
/// `dst_off`.
fn copy_bytes(dst: &mut Vec<u8>, dst_off: usize, src: &Vec<u8>, src_off: usize, n: usize)
    requires
        dst_off + n <= old(dst)@.len(),
        src_off + n <= src@.len(),
    ensures
        final(dst)@.len() == old(dst)@.len(),
        forall|k: int|
            0 <= k < old(dst)@.len() ==> #[trigger] final(dst)@[k] == if dst_off <= k < dst_off + n {
                src@[src_off + k - dst_off]
            } else {
                old(dst)@[k]
            },
{
    let mut i: usize = 0;
    while i < n
        invariant
            i <= n,
            dst_off + n <= old(dst)@.len(),
            src_off + n <= src@.len(),
            src@.len() == src.len(),
            dst@.len() == dst.len(),
            dst@.len() == old(dst)@.len(),
            forall|k: int|
                0 <= k < old(dst)@.len() ==> #[trigger] dst@[k] == if dst_off <= k < dst_off + i {
                    src@[src_off + k - dst_off]
                } else {
                    old(dst)@[k]
                },
        decreases n - i,
    {
        let b = src[src_off + i];
        dst.set(dst_off + i, b);
        i = i + 1;
    }
}

/// Copies a block of `copy_h` rows of `n` bytes from a strided buffer into
/// another: byte column `sx + b` of source row `sy + y` lands on byte column
/// `dx + b` of destination row `dy + y`.
fn copy_block(
    dst: &mut Vec<u8>,
    dst_stride: usize,
    dst_h: usize,
    dx: usize,
    dy: usize,
    src: &Vec<u8>,
    src_stride: usize,
    src_h: usize,
    sx: usize,
    sy: usize,
    n: usize,
    copy_h: usize,
)
    requires
        old(dst)@.len() == dst_h * dst_stride,
        src@.len() == src_h * src_stride,
        dx + n <= dst_stride,
        sx + n <= src_stride,
        dy + copy_h <= dst_h,
        sy + copy_h <= src_h,
    ensures
        final(dst)@.len() == old(dst)@.len(),
        forall|y: int, xb: int|
            0 <= y < dst_h && 0 <= xb < dst_stride ==> #[trigger] final(dst)@[at(dst_stride as int, y, xb)]
                == if dy <= y < dy + copy_h && dx <= xb < dx + n {
                src@[at(src_stride as int, y - dy + sy, xb - dx + sx)]
            } else {
                old(dst)@[at(dst_stride as int, y, xb)]
            },
{
    let mut t: usize = 0;
    assert(dst@.len() == dst.len());
    assert(src@.len() == src.len());
    while t < copy_h
        invariant
            t <= copy_h,
            src_h * src_stride <= usize::MAX,
            dst_h * dst_stride <= usize::MAX,
            old(dst)@.len() == dst_h * dst_stride,
            src@.len() == src_h * src_stride,
            dx + n <= dst_stride,
            sx + n <= src_stride,
            dy + copy_h <= dst_h,
            sy + copy_h <= src_h,
            dst@.len() == old(dst)@.len(),
            forall|y: int, xb: int|
                0 <= y < dst_h && 0 <= xb < dst_stride ==> #[trigger] dst@[at(dst_stride as int, y, xb)]
                    == if dy <= y < dy + t && dx <= xb < dx + n {
                    src@[at(src_stride as int, y - dy + sy, xb - dx + sx)]
                } else {
                    old(dst)@[at(dst_stride as int, y, xb)]
                },
        decreases copy_h - t,
    {
        proof {
            assert(at(dst_stride as int, (dy + t) as int, (dx + n) as int) <= dst_h * dst_stride) by (nonlinear_arith)
                requires dy + t < dst_h, dx + n <= dst_stride;
            assert((dy + t) * dst_stride <= dst_h * dst_stride) by (nonlinear_arith)
                requires dy + t < dst_h;
            assert(at(src_stride as int, (sy + t) as int, (sx + n) as int) <= src_h * src_stride) by (nonlinear_arith)
                requires sy + t < src_h, sx + n <= src_stride;
            assert((sy + t) * src_stride <= src_h * src_stride) by (nonlinear_arith)
                requires sy + t < src_h;
        }
        let dst_off: usize = (dy + t) * dst_stride + dx;
        let src_off: usize = (sy + t) * src_stride + sx;
        let ghost before = dst@;
        copy_bytes(dst, dst_off, src, src_off, n);
        proof {
            assert forall|y: int, xb: int|
                0 <= y < dst_h && 0 <= xb < dst_stride implies #[trigger] dst@[at(dst_stride as int, y, xb)]
                    == if dy <= y < dy + t + 1 && dx <= xb < dx + n {
                    src@[at(src_stride as int, y - dy + sy, xb - dx + sx)]
                } else {
                    old(dst)@[at(dst_stride as int, y, xb)]
                } by {
                let k = at(dst_stride as int, y, xb);
                lemma_at_bound(dst_stride as int, dst_h as int, y, xb);
                if dst_off <= k < dst_off + n {
                    lemma_row_of(dst_stride as int, y, xb, (dy + t) as int, dx as int, (dx + n) as int);
                    assert(src_off + k - dst_off == at(src_stride as int, y - dy + sy, xb - dx + sx));
                } else {
                    if y == dy + t && dx <= xb < dx + n {
                        assert(false);
                    }
                    assert(dst@[k] == before[k]);
                }
            }
        }
        t = t + 1;
    }
}

} // verus!

verus! {

/// One screenshot of the grid: its row, its column and its pixels.
pub type Shot = (u32, u32, RgbaImage);

/// `u32` saturation of a non-negative quantity.
pub open spec fn sat(v: int) -> int {
    if v > u32::MAX {
        u32::MAX as int
    } else {
        v
    }
}

pub open spec fn min(a: int, b: int) -> int {
    if a <= b {
        a
    } else {
        b
    }
}

/// Width of a tile: that of the first screenshot.
pub open spec fn tile_w(s: Seq<Shot>) -> int {
    s[0].2.width as int
}

/// Height of a tile: that of the first screenshot.
pub open spec fn tile_h(s: Seq<Shot>) -> int {
    s[0].2.height as int
}

/// Distance between two neighbouring tiles: the tile size less the overlap,
/// or zero when the overlap is larger than the tile.
pub open spec fn step(tile: int, overlap: int) -> int {
    if overlap <= tile {
        tile - overlap
    } else {
        0
    }
}

/// Largest row index among the screenshots (0 when there are none).
pub open spec fn max_row(s: Seq<Shot>) -> int
    decreases s.len(),
{
    if s.len() == 0 {
        0
    } else {
        let m = max_row(s.drop_last());
        if s.last().0 > m {
            s.last().0 as int
        } else {
            m
        }
    }
}

/// Largest column index among the screenshots (0 when there are none).
pub open spec fn max_col(s: Seq<Shot>) -> int
    decreases s.len(),
{
    if s.len() == 0 {
        0
    } else {
        let m = max_col(s.drop_last());
        if s.last().1 > m {
            s.last().1 as int
        } else {
            m
        }
    }
}

/// Largest column index among the screenshots of row `r` (0 when none).
pub open spec fn row_max_col(s: Seq<Shot>, r: int) -> int
    decreases s.len(),
{
    if s.len() == 0 {
        0
    } else {
        let m = row_max_col(s.drop_last(), r);
        if s.last().0 == r && s.last().1 > m {
            s.last().1 as int
        } else {
            m
        }
    }
}

/// Width of the stitched image: the last column's offset plus one tile,
/// saturated at `u32::MAX`.
pub open spec fn stitched_w(s: Seq<Shot>, ovx: int) -> int {
    sat(sat(step(tile_w(s), ovx) * max_col(s)) + tile_w(s))
}

/// Height of the stitched image: the last row's offset plus one tile,
/// saturated at `u32::MAX`.
pub open spec fn stitched_h(s: Seq<Shot>, ovy: int) -> int {
    sat(sat(step(tile_h(s), ovy) * max_row(s)) + tile_h(s))
}

/// Width of the strip built for row `r`.
pub open spec fn row_w(s: Seq<Shot>, ovx: int, r: int) -> int {
    sat(sat(step(tile_w(s), ovx) * row_max_col(s, r)) + tile_w(s))
}

/// Horizontal offset of screenshot `i` inside its row strip.
pub open spec fn paste_x(s: Seq<Shot>, ovx: int, i: int) -> int {
    sat(s[i].1 * step(tile_w(s), ovx))
}

/// Number of pixel columns of screenshot `i` copied into its strip.
pub open spec fn copy_w1(s: Seq<Shot>, ovx: int, i: int) -> int {
    min(s[i].2.width as int, row_w(s, ovx, s[i].0 as int) - paste_x(s, ovx, i))
}

/// Number of pixel rows of screenshot `i` copied into its strip.
pub open spec fn copy_h1(s: Seq<Shot>, i: int) -> int {
    min(s[i].2.height as int, tile_h(s))
}

/// Screenshot `i` is pasted over byte `xb` of row `yy` of its row strip.
pub open spec fn covers1(s: Seq<Shot>, ovx: int, i: int, xb: int, yy: int) -> bool {
    &&& 0 <= i < s.len()
    &&& paste_x(s, ovx, i) < row_w(s, ovx, s[i].0 as int)
    &&& 4 * paste_x(s, ovx, i) <= xb < 4 * (paste_x(s, ovx, i) + copy_w1(s, ovx, i))
    &&& 0 <= yy < copy_h1(s, i)
}

/// The byte that screenshot `i` puts at byte `xb` of row `yy` of its strip.
pub open spec fn byte1(s: Seq<Shot>, ovx: int, i: int, xb: int, yy: int) -> u8 {
    s[i].2.byte(yy, xb - 4 * paste_x(s, ovx, i))
}

/// Screenshot `j` comes no later than `i` in the pasting order of a row:
/// by column, then by position in the input.
pub open spec fn key_le(s: Seq<Shot>, j: int, i: int) -> bool {
    s[j].1 < s[i].1 || (s[j].1 == s[i].1 && j <= i)
}

/// Screenshot `j` comes no later than the key (`kc`, `ki`).
pub open spec fn within(s: Seq<Shot>, j: int, kc: int, ki: int) -> bool {
    s[j].1 < kc || (s[j].1 == kc && j <= ki)
}

/// Screenshot `j` of row `r`, up to key (`kc`, `ki`), covers byte `xb` of
/// strip row `yy`.
pub open spec fn cand1(s: Seq<Shot>, ovx: int, r: int, kc: int, ki: int, j: int, xb: int, yy: int) -> bool {
    &&& covers1(s, ovx, j, xb, yy)
    &&& s[j].0 == r
    &&& within(s, j, kc, ki)
}

/// `i` is the last candidate in pasting order.
pub open spec fn is_top1(s: Seq<Shot>, ovx: int, r: int, kc: int, ki: int, i: int, xb: int, yy: int) -> bool {
    &&& cand1(s, ovx, r, kc, ki, i, xb, yy)
    &&& forall|j: int| #[trigger] cand1(s, ovx, r, kc, ki, j, xb, yy) ==> key_le(s, j, i)
}

/// Byte of the strip of row `r` once the screenshots up to key (`kc`, `ki`)
/// are pasted in order: that of the last one covering it, or 0.
pub open spec fn strip_byte_upto(s: Seq<Shot>, ovx: int, r: int, kc: int, ki: int, xb: int, yy: int) -> u8 {
    if exists|j: int| cand1(s, ovx, r, kc, ki, j, xb, yy) {
        byte1(s, ovx, choose|i: int| is_top1(s, ovx, r, kc, ki, i, xb, yy), xb, yy)
    } else {
        0
    }
}

/// Byte of the finished strip of row `r`.
pub open spec fn strip_byte(s: Seq<Shot>, ovx: int, r: int, xb: int, yy: int) -> u8 {
    strip_byte_upto(s, ovx, r, u32::MAX + 1, s.len() as int, xb, yy)
}

/// Vertical offset of the strip of row `r` in the stitched image.
pub open spec fn paste_y(s: Seq<Shot>, ovy: int, r: int) -> int {
    sat(r * step(tile_h(s), ovy))
}

/// Number of strip rows of row `r` copied into the stitched image.
pub open spec fn copy_h2(s: Seq<Shot>, ovy: int, r: int) -> int {
    min(tile_h(s), stitched_h(s, ovy) - paste_y(s, ovy, r))
}

/// The strip of row `r` is pasted over byte `xb` of row `y` of the stitched
/// image.
pub open spec fn row_covers2(s: Seq<Shot>, ovx: int, ovy: int, r: int, xb: int, y: int) -> bool {
    &&& paste_y(s, ovy, r) < stitched_h(s, ovy)
    &&& paste_y(s, ovy, r) <= y < paste_y(s, ovy, r) + copy_h2(s, ovy, r)
    &&& 0 <= xb < 4 * min(row_w(s, ovx, r), stitched_w(s, ovx))
}

/// The strip of the row of screenshot `i` is pasted over byte `xb` of row
/// `y` of the stitched image.
pub open spec fn covers2(s: Seq<Shot>, ovx: int, ovy: int, i: int, xb: int, y: int) -> bool {
    &&& 0 <= i < s.len()
    &&& row_covers2(s, ovx, ovy, s[i].0 as int, xb, y)
}

/// Screenshot `j`, of a row up to `rb`, has its strip covering (`xb`, `y`).
pub open spec fn cand2(s: Seq<Shot>, ovx: int, ovy: int, rb: int, j: int, xb: int, y: int) -> bool {
    &&& covers2(s, ovx, ovy, j, xb, y)
    &&& s[j].0 <= rb
}

/// `i` belongs to the last strip, in row order, among the candidates.
pub open spec fn is_top2(s: Seq<Shot>, ovx: int, ovy: int, rb: int, i: int, xb: int, y: int) -> bool {
    &&& cand2(s, ovx, ovy, rb, i, xb, y)
    &&& forall|j: int| #[trigger] cand2(s, ovx, ovy, rb, j, xb, y) ==> s[j].0 <= s[i].0
}

/// Byte of the stitched image once the strips of rows up to `rb` are pasted
/// in row order: that of the last strip covering it, or 0.
pub open spec fn stitched_byte_upto(s: Seq<Shot>, ovx: int, ovy: int, rb: int, xb: int, y: int) -> u8 {
    if exists|j: int| cand2(s, ovx, ovy, rb, j, xb, y) {
        let i = choose|i: int| is_top2(s, ovx, ovy, rb, i, xb, y);
        let r = s[i].0 as int;
        strip_byte(s, ovx, r, xb, y - paste_y(s, ovy, r))
    } else {
        0
    }
}

/// Byte `xb` of row `y` of the stitched image.
pub open spec fn stitched_byte(s: Seq<Shot>, ovx: int, ovy: int, xb: int, y: int) -> u8 {
    stitched_byte_upto(s, ovx, ovy, u32::MAX as int, xb, y)
}

} // verus!

verus! {

/// `u32::saturating_mul`.
pub fn sat_mul(a: u32, b: u32) -> (r: u32)
    ensures
        r == sat(a * b),
{
    proof {
        assert((a as int) * (b as int) <= 0xffff_ffff * 0xffff_ffff) by (nonlinear_arith)
            requires a <= 0xffff_ffffu32, b <= 0xffff_ffffu32;
    }
    let p: u64 = (a as u64) * (b as u64);
    if p > 0xffff_ffff {
        0xffff_ffff
    } else {
        p as u32
    }
}

/// Largest row and column index of the screenshots.
fn grid_extent(shots: &[Shot]) -> (r: (u32, u32))
    ensures
        r.0 == max_row(shots@),
        r.1 == max_col(shots@),
{
    let mut mr: u32 = 0;
    let mut mc: u32 = 0;
    let mut i: usize = 0;
    while i < shots.len()
        invariant
            i <= shots@.len(),
            mr == max_row(shots@.take(i as int)),
            mc == max_col(shots@.take(i as int)),
        decreases shots.len() - i,
    {
        assert(shots@.take(i + 1).drop_last() == shots@.take(i as int));
        if shots[i].0 > mr {
            mr = shots[i].0;
        }
        if shots[i].1 > mc {
            mc = shots[i].1;
        }
        i = i + 1;
    }
    assert(shots@.take(shots.len() as int) == shots@);
    (mr, mc)
}

/// Largest column index of the screenshots of row `r`.
fn row_extent(shots: &[Shot], r: u32) -> (c: u32)
    ensures
        c == row_max_col(shots@, r as int),
{
    let mut mc: u32 = 0;
    let mut i: usize = 0;
    while i < shots.len()
        invariant
            i <= shots@.len(),
            mc == row_max_col(shots@.take(i as int), r as int),
        decreases shots.len() - i,
    {
        assert(shots@.take(i + 1).drop_last() == shots@.take(i as int));
        if shots[i].0 == r && shots[i].1 > mc {
            mc = shots[i].1;
        }
        i = i + 1;
    }
    assert(shots@.take(shots.len() as int) == shots@);
    mc
}

/// Bound key of the screenshots of a row already pasted: (-1, -1) before the
/// first one.
pub open spec fn bound_key(prev: Option<(u32, usize)>) -> (int, int) {
    match prev {
        Some((c, i)) => (c as int, i as int),
        None => (-1, -1),
    }
}

/// The screenshot of row `r` that comes right after key `prev` in pasting
/// order (by column, then input position), if any.
fn next_in_row(shots: &[Shot], r: u32, prev: Option<(u32, usize)>) -> (m: Option<usize>)
    ensures
        ({
            let (kc, ki) = bound_key(prev);
            match m {
                Some(m) => {
                    &&& m < shots@.len()
                    &&& shots@[m as int].0 == r
                    &&& !within(shots@, m as int, kc, ki)
                    &&& forall|j: int|
                        0 <= j < shots@.len() && shots@[j].0 == r && !within(shots@, j, kc, ki) ==> key_le(
                            shots@,
                            m as int,
                            j,
                        )
                },
                None => forall|j: int| 0 <= j < shots@.len() && shots@[j].0 == r ==> within(shots@, j, kc, ki),
            }
        }),
{
    let ghost kc = bound_key(prev).0;
    let ghost ki = bound_key(prev).1;
    let mut best: Option<usize> = None;
    let mut i: usize = 0;
    while i < shots.len()
        invariant
            i <= shots@.len(),
            kc == bound_key(prev).0,
            ki == bound_key(prev).1,
            match best {
                Some(b) => {
                    &&& b < i
                    &&& shots@[b as int].0 == r
                    &&& !within(shots@, b as int, kc, ki)
                    &&& forall|j: int|
                        0 <= j < i && shots@[j].0 == r && !within(shots@, j, kc, ki) ==> key_le(shots@, b as int, j)
                },
                None => forall|j: int| 0 <= j < i && shots@[j].0 == r ==> within(shots@, j, kc, ki),
            },
        decreases shots.len() - i,
    {
        let row = shots[i].0;
        let col = shots[i].1;
        let beyond = match prev {
            Some((pc, pi)) => col > pc || (col == pc && i > pi),
            None => true,
        };
        assert(beyond == !within(shots@, i as int, kc, ki));
        let ghost old_best = best;
        if row == r && beyond {
            match best {
                Some(b) => {
                    if col < shots[b].1 {
                        best = Some(i);
                    }
                },
                None => {
                    best = Some(i);
                },
            }
        }
        proof {
            if let Some(b) = best {
                assert forall|j: int|
                    0 <= j < i + 1 && shots@[j].0 == r && !within(shots@, j, kc, ki) implies key_le(
                        shots@,
                        b as int,
                        j,
                    ) by {
                    if let Some(ob) = old_best {
                        if j < i {
                            assert(key_le(shots@, ob as int, j));
                        }
                    }
                }
            }
        }
        i = i + 1;
    }
    best
}

/// Bound of the rows already pasted: -1 before the first one.
pub open spec fn bound_row(prev: Option<u32>) -> int {
    match prev {
        Some(r) => r as int,
        None => -1,
    }
}

/// The smallest row index above `prev` among the screenshots, if any.
fn next_row(shots: &[Shot], prev: Option<u32>) -> (r: Option<u32>)
    ensures
        match r {
            Some(r) => {
                &&& r > bound_row(prev)
                &&& exists|j: int| 0 <= j < shots@.len() && shots@[j].0 == r
                &&& forall|j: int| 0 <= j < shots@.len() && shots@[j].0 > bound_row(prev) ==> shots@[j].0 >= r
            },
            None => forall|j: int| 0 <= j < shots@.len() ==> shots@[j].0 <= bound_row(prev),
        },
{
    let mut best: Option<u32> = None;
    let mut i: usize = 0;
    while i < shots.len()
        invariant
            i <= shots@.len(),
            match best {
                Some(b) => {
                    &&& b > bound_row(prev)
                    &&& exists|j: int| 0 <= j < i && shots@[j].0 == b
                    &&& forall|j: int| 0 <= j < i && shots@[j].0 > bound_row(prev) ==> shots@[j].0 >= b
                },
                None => forall|j: int| 0 <= j < i ==> shots@[j].0 <= bound_row(prev),
            },
        decreases shots.len() - i,
    {
        let row = shots[i].0;
        let above = match prev {
            Some(p) => row > p,
            None => true,
        };
        if above {
            match best {
                Some(b) => {
                    if row < b {
                        best = Some(row);
                    }
                },
                None => {
                    best = Some(row);
                },
            }
        }
        i = i + 1;
    }
    best
}

} // verus!

verus! {

proof fn lemma_top1_unique(s: Seq<Shot>, ovx: int, r: int, kc: int, ki: int, i: int, i2: int, xb: int, yy: int)
    requires
        is_top1(s, ovx, r, kc, ki, i, xb, yy),
        is_top1(s, ovx, r, kc, ki, i2, xb, yy),
    ensures
        i == i2,
{
    assert(key_le(s, i2, i));
    assert(key_le(s, i, i2));
}

/// Pasting the next screenshot `m` of row `r`, in pasting order, over a
/// strip built up to key (`kc`, `ki`) gives the strip built up to `m`'s key.
proof fn lemma_strip_step(s: Seq<Shot>, ovx: int, r: int, kc: int, ki: int, m: int, xb: int, yy: int)
    requires
        0 <= m < s.len(),
        s[m].0 == r,
        !within(s, m, kc, ki),
        forall|j: int| 0 <= j < s.len() && s[j].0 == r && !within(s, j, kc, ki) ==> key_le(s, m, j),
        (exists|j: int| cand1(s, ovx, r, kc, ki, j, xb, yy)) ==> exists|i: int| is_top1(s, ovx, r, kc, ki, i, xb, yy),
    ensures
        (exists|j: int| cand1(s, ovx, r, s[m].1 as int, m, j, xb, yy)) ==> exists|i: int|
            is_top1(s, ovx, r, s[m].1 as int, m, i, xb, yy),
        strip_byte_upto(s, ovx, r, s[m].1 as int, m, xb, yy) == if covers1(s, ovx, m, xb, yy) {
            byte1(s, ovx, m, xb, yy)
        } else {
            strip_byte_upto(s, ovx, r, kc, ki, xb, yy)
        },
{
    let kc2 = s[m].1 as int;
    let ki2 = m;
    assert forall|j: int|
        #[trigger] cand1(s, ovx, r, kc2, ki2, j, xb, yy) <==> (cand1(s, ovx, r, kc, ki, j, xb, yy) || (j == m
            && covers1(s, ovx, m, xb, yy))) by {
        if 0 <= j < s.len() && s[j].0 == r {
            if within(s, j, kc, ki) {
                assert(within(s, j, kc2, ki2));
            } else if within(s, j, kc2, ki2) {
                assert(key_le(s, m, j));
                assert(j == m);
            }
        }
    }
    if covers1(s, ovx, m, xb, yy) {
        assert(within(s, m, kc2, ki2));
        assert(cand1(s, ovx, r, kc2, ki2, m, xb, yy));
        assert forall|j: int| #[trigger] cand1(s, ovx, r, kc2, ki2, j, xb, yy) implies key_le(s, j, m) by {}
        assert(is_top1(s, ovx, r, kc2, ki2, m, xb, yy));
        let t = choose|i: int| is_top1(s, ovx, r, kc2, ki2, i, xb, yy);
        lemma_top1_unique(s, ovx, r, kc2, ki2, t, m, xb, yy);
    } else {
        if exists|j: int| cand1(s, ovx, r, kc, ki, j, xb, yy) {
            let t = choose|i: int| is_top1(s, ovx, r, kc, ki, i, xb, yy);
            assert(cand1(s, ovx, r, kc2, ki2, t, xb, yy));
            assert forall|j: int| #[trigger] cand1(s, ovx, r, kc2, ki2, j, xb, yy) implies key_le(s, j, t) by {
                assert(cand1(s, ovx, r, kc, ki, j, xb, yy));
            }
            assert(is_top1(s, ovx, r, kc2, ki2, t, xb, yy));
            let t2 = choose|i: int| is_top1(s, ovx, r, kc2, ki2, i, xb, yy);
            lemma_top1_unique(s, ovx, r, kc2, ki2, t, t2, xb, yy);
        } else {
            if exists|j: int| cand1(s, ovx, r, kc2, ki2, j, xb, yy) {
                let j = choose|j: int| cand1(s, ovx, r, kc2, ki2, j, xb, yy);
                assert(cand1(s, ovx, r, kc, ki, j, xb, yy));
            }
        }
    }
}

/// Once every screenshot of row `r` lies within key (`kc`, `ki`), the strip
/// built up to that key is the finished strip.
proof fn lemma_strip_final(s: Seq<Shot>, ovx: int, r: int, kc: int, ki: int, xb: int, yy: int)
    requires
        forall|j: int| 0 <= j < s.len() && s[j].0 == r ==> within(s, j, kc, ki),
        (exists|j: int| cand1(s, ovx, r, kc, ki, j, xb, yy)) ==> exists|i: int| is_top1(s, ovx, r, kc, ki, i, xb, yy),
    ensures
        strip_byte_upto(s, ovx, r, kc, ki, xb, yy) == strip_byte(s, ovx, r, xb, yy),
{
    let kc2 = u32::MAX + 1;
    let ki2 = s.len() as int;
    assert forall|j: int| #[trigger] cand1(s, ovx, r, kc2, ki2, j, xb, yy) <==> cand1(s, ovx, r, kc, ki, j, xb, yy) by {
        if 0 <= j < s.len() && s[j].0 == r {
            assert(within(s, j, kc, ki));
            assert(within(s, j, kc2, ki2));
        }
    }
    if exists|j: int| cand1(s, ovx, r, kc, ki, j, xb, yy) {
        let t = choose|i: int| is_top1(s, ovx, r, kc, ki, i, xb, yy);
        assert forall|j: int| #[trigger] cand1(s, ovx, r, kc2, ki2, j, xb, yy) implies key_le(s, j, t) by {
            assert(cand1(s, ovx, r, kc, ki, j, xb, yy));
        }
        assert(cand1(s, ovx, r, kc2, ki2, t, xb, yy));
        assert(is_top1(s, ovx, r, kc2, ki2, t, xb, yy));
        let t2 = choose|i: int| is_top1(s, ovx, r, kc2, ki2, i, xb, yy);
        lemma_top1_unique(s, ovx, r, kc2, ki2, t, t2, xb, yy);
    } else {
        if exists|j: int| cand1(s, ovx, r, kc2, ki2, j, xb, yy) {
            let j = choose|j: int| cand1(s, ovx, r, kc2, ki2, j, xb, yy);
            assert(cand1(s, ovx, r, kc, ki, j, xb, yy));
        }
    }
}

/// Pasting the strip of the next row `r` over the image built up to row
/// `rb` gives the image built up to row `r`.
proof fn lemma_stitch_step(s: Seq<Shot>, ovx: int, ovy: int, rb: int, r: int, xb: int, y: int)
    requires
        r > rb,
        exists|j: int| 0 <= j < s.len() && s[j].0 == r,
        forall|j: int| 0 <= j < s.len() && s[j].0 > rb ==> s[j].0 >= r,
        (exists|j: int| cand2(s, ovx, ovy, rb, j, xb, y)) ==> exists|i: int| is_top2(s, ovx, ovy, rb, i, xb, y),
    ensures
        (exists|j: int| cand2(s, ovx, ovy, r, j, xb, y)) ==> exists|i: int| is_top2(s, ovx, ovy, r, i, xb, y),
        stitched_byte_upto(s, ovx, ovy, r, xb, y) == if row_covers2(s, ovx, ovy, r, xb, y) {
            strip_byte(s, ovx, r, xb, y - paste_y(s, ovy, r))
        } else {
            stitched_byte_upto(s, ovx, ovy, rb, xb, y)
        },
{
    let j0 = choose|j: int| 0 <= j < s.len() && s[j].0 == r;
    assert forall|j: int|
        #[trigger] cand2(s, ovx, ovy, r, j, xb, y) <==> (cand2(s, ovx, ovy, rb, j, xb, y) || (covers2(s, ovx, ovy, j, xb, y)
            && s[j].0 == r)) by {
        if 0 <= j < s.len() && s[j].0 <= r && s[j].0 > rb {
            assert(s[j].0 >= r);
        }
    }
    if row_covers2(s, ovx, ovy, r, xb, y) {
        assert(cand2(s, ovx, ovy, r, j0, xb, y));
        assert forall|j: int| #[trigger] cand2(s, ovx, ovy, r, j, xb, y) implies s[j].0 <= s[j0].0 by {}
        assert(is_top2(s, ovx, ovy, r, j0, xb, y));
        let t = choose|i: int| is_top2(s, ovx, ovy, r, i, xb, y);
        assert(s[j0].0 <= s[t].0);
    } else {
        if exists|j: int| cand2(s, ovx, ovy, rb, j, xb, y) {
            let t = choose|i: int| is_top2(s, ovx, ovy, rb, i, xb, y);
            assert forall|j: int| #[trigger] cand2(s, ovx, ovy, r, j, xb, y) implies s[j].0 <= s[t].0 by {
                assert(cand2(s, ovx, ovy, rb, j, xb, y));
            }
            assert(cand2(s, ovx, ovy, r, t, xb, y));
            assert(is_top2(s, ovx, ovy, r, t, xb, y));
            let t2 = choose|i: int| is_top2(s, ovx, ovy, r, i, xb, y);
            assert(s[t2].0 <= s[t].0);
            assert(cand2(s, ovx, ovy, rb, t2, xb, y));
            assert(s[t2].0 == s[t].0);
        } else {
            if exists|j: int| cand2(s, ovx, ovy, r, j, xb, y) {
                let j = choose|j: int| cand2(s, ovx, ovy, r, j, xb, y);
                assert(cand2(s, ovx, ovy, rb, j, xb, y));
            }
        }
    }
}

/// Once every row lies at or below `rb`, the image built up to row `rb` is
/// the stitched image.
proof fn lemma_stitch_final(s: Seq<Shot>, ovx: int, ovy: int, rb: int, xb: int, y: int)
    requires
        forall|j: int| 0 <= j < s.len() ==> s[j].0 <= rb,
        (exists|j: int| cand2(s, ovx, ovy, rb, j, xb, y)) ==> exists|i: int| is_top2(s, ovx, ovy, rb, i, xb, y),
    ensures
        stitched_byte_upto(s, ovx, ovy, rb, xb, y) == stitched_byte(s, ovx, ovy, xb, y),
{
    let rm = u32::MAX as int;
    assert forall|j: int| #[trigger] cand2(s, ovx, ovy, rm, j, xb, y) <==> cand2(s, ovx, ovy, rb, j, xb, y) by {}
    if exists|j: int| cand2(s, ovx, ovy, rb, j, xb, y) {
        let t = choose|i: int| is_top2(s, ovx, ovy, rb, i, xb, y);
        assert forall|j: int| #[trigger] cand2(s, ovx, ovy, rm, j, xb, y) implies s[j].0 <= s[t].0 by {
            assert(cand2(s, ovx, ovy, rb, j, xb, y));
        }
        assert(cand2(s, ovx, ovy, rm, t, xb, y));
        assert(is_top2(s, ovx, ovy, rm, t, xb, y));
        let t2 = choose|i: int| is_top2(s, ovx, ovy, rm, i, xb, y);
        assert(s[t2].0 <= s[t].0);
        assert(cand2(s, ovx, ovy, rb, t2, xb, y));
        assert(s[t2].0 == s[t].0);
    } else {
        if exists|j: int| cand2(s, ovx, ovy, rm, j, xb, y) {
            let j = choose|j: int| cand2(s, ovx, ovy, rm, j, xb, y);
            assert(cand2(s, ovx, ovy, rb, j, xb, y));
        }
    }
}

} // verus!

verus! {

proof fn lemma_row_extent_bound(s: Seq<Shot>, r: int)
    ensures
        row_max_col(s, r) <= max_col(s),
        0 <= row_max_col(s, r),
    decreases s.len(),
{
    if s.len() > 0 {
        lemma_row_extent_bound(s.drop_last(), r);
    }
}

/// The strip of a row is no wider than the stitched image, and a tile no
/// taller.
proof fn lemma_strip_fits(s: Seq<Shot>, ovx: int, ovy: int, r: int)
    requires
        s.len() > 0,
        0 <= ovx,
        0 <= ovy,
    ensures
        row_w(s, ovx, r) <= stitched_w(s, ovx),
        tile_h(s) <= stitched_h(s, ovy),
        0 <= tile_w(s) <= row_w(s, ovx, r),
{
    lemma_row_extent_bound(s, r);
    let st = step(tile_w(s), ovx);
    assert(st * row_max_col(s, r) <= st * max_col(s)) by (nonlinear_arith)
        requires 0 <= st, row_max_col(s, r) <= max_col(s);
    assert(0 <= st * row_max_col(s, r)) by (nonlinear_arith)
        requires 0 <= st, 0 <= row_max_col(s, r);
    let sty = step(tile_h(s), ovy);
    lemma_extent_nonneg(s);
    assert(0 <= sty * max_row(s)) by (nonlinear_arith)
        requires 0 <= sty, 0 <= max_row(s);
}

pub proof fn lemma_extent_nonneg(s: Seq<Shot>)
    ensures
        0 <= max_row(s),
        0 <= max_col(s),
    decreases s.len(),
{
    if s.len() > 0 {
        lemma_extent_nonneg(s.drop_last());
    }
}

/// The canvas `data` of width `rw` and height `th` holds the strip of row
/// `ri` built up to key (`kc`, `ki`).
pub open spec fn strip_state(s: Seq<Shot>, ox: int, ri: int, kc: int, ki: int, data: Seq<u8>, rw: int, th: int) -> bool {
    forall|y: int, xb: int|
        0 <= y < th && 0 <= xb < 4 * rw ==> {
            &&& #[trigger] data[at(4 * rw, y, xb)] == strip_byte_upto(s, ox, ri, kc, ki, xb, y)
            &&& (exists|j: int| cand1(s, ox, ri, kc, ki, j, xb, y)) ==> exists|i: int|
                is_top1(s, ox, ri, kc, ki, i, xb, y)
        }
}

/// Builds the strip of row `r`: a `row_w` x `tile_h` canvas on which the
/// screenshots of the row are pasted by column, later input winning ties.
#[verifier::spinoff_prover]
fn build_strip(shots: &[Shot], ovx: u32, r: u32, tw: u32, th: u32, step_x: u32) -> (strip: RgbaImage)
    requires
        shots@.len() > 0,
        forall|i: int| 0 <= i < shots@.len() ==> (#[trigger] shots@[i]).2.wf(),
        tw == tile_w(shots@),
        th == tile_h(shots@),
        th > 0,
        step_x == step(tw as int, ovx as int),
        row_w(shots@, ovx as int, r as int) * th * 4 <= usize::MAX,
    ensures
        strip.wf(),
        strip.width == row_w(shots@, ovx as int, r as int),
        strip.height == th,
        forall|y: int, xb: int|
            0 <= y < th && 0 <= xb < 4 * strip.width ==> #[trigger] strip.byte(y, xb) == strip_byte(
                shots@,
                ovx as int,
                r as int,
                xb,
                y,
            ),
{
    let ghost s = shots@;
    let ghost ox = ovx as int;
    let ghost ri = r as int;
    let ghost neg: int = -1;
    let rmc = row_extent(shots, r);
    let rw = sat_mul(step_x, rmc).saturating_add(tw);
    assert(rw == row_w(s, ox, ri));
    let mut canvas = RgbaImage::new(rw, th);
    let mut prev: Option<(u32, usize)> = None;
    proof {
        assert forall|y: int, xb: int| 0 <= y < th && 0 <= xb < 4 * rw implies {
            &&& #[trigger] canvas.data@[at(4 * rw, y, xb)] == strip_byte_upto(s, ox, ri, neg, neg, xb, y)
            &&& (exists|j: int| cand1(s, ox, ri, neg, neg, j, xb, y)) ==> exists|i: int|
                is_top1(s, ox, ri, neg, neg, i, xb, y)
        } by {
            lemma_at_bound(4 * rw, th as int, y, xb);
            assert(4 * rw * th == rw * th * 4) by (nonlinear_arith);
            if exists|j: int| cand1(s, ox, ri, neg, neg, j, xb, y) {
                let j = choose|j: int| cand1(s, ox, ri, neg, neg, j, xb, y);
                assert(false);
            }
        }
    }
    loop
        invariant
            s == shots@,
            ox == ovx as int,
            ri == r as int,
            s.len() > 0,
            forall|i: int| 0 <= i < s.len() ==> (#[trigger] s[i]).2.wf(),
            tw == tile_w(s),
            th == tile_h(s),
            th > 0,
            step_x == step(tw as int, ox),
            rw == row_w(s, ox, ri),
            rw * th * 4 <= usize::MAX,
            canvas.wf(),
            canvas.width == rw,
            canvas.height == th,
            bound_key(prev).0 <= u32::MAX,
            bound_key(prev).1 < s.len(),
            strip_state(s, ox, ri, bound_key(prev).0, bound_key(prev).1, canvas.data@, rw as int, th as int),
        ensures
            canvas.wf(),
            canvas.width == rw,
            canvas.height == th,
            forall|j: int| 0 <= j < s.len() && s[j].0 == r ==> within(s, j, bound_key(prev).0, bound_key(prev).1),
            strip_state(s, ox, ri, bound_key(prev).0, bound_key(prev).1, canvas.data@, rw as int, th as int),
        decreases u32::MAX + 1 - bound_key(prev).0, s.len() - bound_key(prev).1,
    {
        let next = next_in_row(shots, r, prev);
        match next {
            None => {
                break;
            },
            Some(m) => {
                let ghost kc = bound_key(prev).0;
                let ghost ki = bound_key(prev).1;
                let ghost before = canvas.data@;
                let ghost st = 4 * rw;
                let col = shots[m].1;
                let src = &shots[m].2;
                let sw = src.width;
                let sh = src.height;
                let px = sat_mul(col, step_x);
                assert(px == paste_x(s, ox, m as int));
                if px < rw {
                    let cw: u32 = if sw < rw - px { sw } else { rw - px };
                    let ch: u32 = if sh < th { sh } else { th };
                    if cw > 0 && ch > 0 {
                        proof {
                            assert(s[m as int].2.wf());
                            assert(src.data@.len() == src.data.len());
                            assert(sw * 4 <= sw * sh * 4) by (nonlinear_arith)
                                requires sh > 0;
                            assert(rw * 4 <= rw * th * 4) by (nonlinear_arith)
                                requires th > 0;
                            assert(canvas.data@.len() == th * (rw * 4)) by (nonlinear_arith)
                                requires canvas.data@.len() == rw * th * 4;
                            assert(src.data@.len() == sh * (sw * 4)) by (nonlinear_arith)
                                requires src.data@.len() == sw * sh * 4;
                        }
                        copy_block(
                            &mut canvas.data,
                            (rw as usize) * 4,
                            th as usize,
                            (px as usize) * 4,
                            0,
                            &src.data,
                            (sw as usize) * 4,
                            sh as usize,
                            0,
                            0,
                            (cw as usize) * 4,
                            ch as usize,
                        );
                    }
                }
                proof {
                    assert forall|y: int, xb: int| 0 <= y < th && 0 <= xb < 4 * rw implies {
                        &&& #[trigger] canvas.data@[at(4 * rw, y, xb)] == strip_byte_upto(s, ox, ri, col as int, m as int, xb, y)
                        &&& (exists|j: int| cand1(s, ox, ri, col as int, m as int, j, xb, y)) ==> exists|i: int|
                            is_top1(s, ox, ri, col as int, m as int, i, xb, y)
                    } by {
                        assert(s[m as int].0 == ri);
                        assert(before[at(st, y, xb)] == strip_byte_upto(s, ox, ri, kc, ki, xb, y));
                        lemma_strip_step(s, ox, ri, kc, ki, m as int, xb, y);
                        if covers1(s, ox, m as int, xb, y) {
                            assert(canvas.data@[at(st, y, xb)] == byte1(s, ox, m as int, xb, y));
                        } else {
                            assert(canvas.data@[at(st, y, xb)] == before[at(st, y, xb)]);
                        }
                    }
                }
                prev = Some((col, m));
            },
        }
    }
    proof {
        assert forall|y: int, xb: int| 0 <= y < th && 0 <= xb < 4 * rw implies #[trigger] canvas.byte(y, xb)
            == strip_byte(s, ox, ri, xb, y) by {
            assert(canvas.stride() == 4 * rw);
            assert(canvas.data@[at(4 * rw, y, xb)] == strip_byte_upto(s, ox, ri, bound_key(prev).0, bound_key(prev).1, xb, y));
            lemma_strip_final(s, ox, ri, bound_key(prev).0, bound_key(prev).1, xb, y);
        }
    }
    canvas
}

} // verus!

verus! {

/// The image `data` of width `w` and height `h` holds the stitched image
/// built from the strips of the rows up to `rb`.
pub open spec fn stitch_state(s: Seq<Shot>, ox: int, oy: int, rb: int, data: Seq<u8>, w: int, h: int) -> bool {
    forall|y: int, xb: int|
        0 <= y < h && 0 <= xb < 4 * w ==> {
            &&& #[trigger] data[at(4 * w, y, xb)] == stitched_byte_upto(s, ox, oy, rb, xb, y)
            &&& (exists|j: int| cand2(s, ox, oy, rb, j, xb, y)) ==> exists|i: int| is_top2(s, ox, oy, rb, i, xb, y)
        }
}

/// Checks that a stitch can proceed: screenshots exist, the grid has both
/// dimensions and the first screenshot is not empty.
pub open spec fn stitch_ready(s: Seq<Shot>, grid: (u32, u32)) -> bool {
    s.len() > 0 && grid.0 > 0 && grid.1 > 0 && tile_w(s) > 0 && tile_h(s) > 0
}

/// Code of the error a stitch that cannot proceed reports: no screenshot,
/// then an empty grid, then an empty first screenshot.
pub open spec fn stitch_error_code(s: Seq<Shot>, grid: (u32, u32)) -> Seq<char> {
    if s.len() == 0 {
        "STITCH_EMPTY"@
    } else if grid.0 == 0 || grid.1 == 0 {
        "STITCH_INVALID_GRID"@
    } else {
        "STITCH_INVALID_SIZE"@
    }
}

/// Message of the error a stitch that cannot proceed reports.
pub open spec fn stitch_error_message(s: Seq<Shot>, grid: (u32, u32)) -> Seq<char> {
    if s.len() == 0 {
        "没有截图可拼接"@
    } else if grid.0 == 0 || grid.1 == 0 {
        "网格行列数必须大于 0"@
    } else {
        "子图尺寸不能为 0"@
    }
}

/// The bytes, row by row, of a `w` x `h` image whose byte `xb` of row `y` is
/// `f(xb, y)`.
pub open spec fn pixels_from(w: int, h: int, f: spec_fn(int, int) -> u8) -> Seq<u8> {
    Seq::new((w * h * 4) as nat, |k: int| f(k % (4 * w), k / (4 * w)))
}

/// The bytes of the stitched image, row by row.
pub open spec fn stitched_pixels(s: Seq<Shot>, ovx: int, ovy: int) -> Seq<u8> {
    pixels_from(
        stitched_w(s, ovx),
        stitched_h(s, ovy),
        |xb: int, y: int| stitched_byte(s, ovx, ovy, xb, y),
    )
}

/// An image whose byte `xb` of row `y` is `f(xb, y)`, for every byte, holds
/// exactly `pixels_from(width, height, f)`.
pub proof fn lemma_pixels_from(img: RgbaImage, f: spec_fn(int, int) -> u8)
    requires
        img.wf(),
        forall|y: int, xb: int| 0 <= y < img.height && 0 <= xb < 4 * img.width ==> #[trigger] img.byte(y, xb) == f(xb, y),
    ensures
        img.data@ == pixels_from(img.width as int, img.height as int, f),
{
    assert forall|y: int, xb: int| 0 <= y < img.height && 0 <= xb < 4 * img.width implies #[trigger] f(xb, y)
        == img.data@[at(4 * img.width, y, xb)] by {
        assert(img.byte(y, xb) == f(xb, y));
    }
    lemma_pixels_from_seq(img.width as int, img.height as int, img.data@, f);
}

/// A byte sequence laid out as a `w` x `h` image whose byte `xb` of row `y`
/// is `f(xb, y)` is `pixels_from(w, h, f)`.
proof fn lemma_pixels_from_seq(w: int, h: int, data: Seq<u8>, f: spec_fn(int, int) -> u8)
    requires
        w >= 0,
        h >= 0,
        data.len() == w * h * 4,
        forall|y: int, xb: int| 0 <= y < h && 0 <= xb < 4 * w ==> #[trigger] f(xb, y) == data[at(4 * w, y, xb)],
    ensures
        pixels_from(w, h, f) == data,
{
    let target = pixels_from(w, h, f);
    assert forall|k: int| 0 <= k < data.len() implies data[k] == target[k] by {
        let d = 4 * w;
        assert(d > 0) by (nonlinear_arith)
            requires
                0 <= k < w * h * 4,
                d == 4 * w,
                w >= 0,
                h >= 0,
        ;
        vstd::arithmetic::div_mod::lemma_fundamental_div_mod(k, d);
        let y = k / d;
        let xb = k % d;
        assert(0 <= y < h) by (nonlinear_arith)
            requires
                0 <= k < w * h * 4,
                d == 4 * w,
                d > 0,
                k == d * y + xb,
                0 <= xb < d,
        ;
        assert(at(d, y, xb) == k) by (nonlinear_arith)
            requires
                k == d * y + xb,
        ;
        assert(f(xb, y) == data[k]);
    }
    assert(target =~= data);
}

/// Cropping to the whole image keeps every pixel.
pub proof fn lemma_crop_whole_image(iw: u32, ih: u32, px: Seq<u8>)
    requires
        px.len() == iw * ih * 4,
    ensures
        crop_rect(iw as int, ih as int, 0, 0, iw as int, ih as int) == (0int, 0int, iw as int, ih as int),
        cropped_pixels(iw as int, ih as int, px, (0, 0, iw, ih)) == px,
{
    let f = |xb: int, y: int| px[at(4 * iw, y + 0, xb + 4 * 0)];
    assert forall|y: int, xb: int| 0 <= y < ih && 0 <= xb < 4 * iw implies #[trigger] f(xb, y) == px[at(
        4 * iw,
        y,
        xb,
    )] by {}
    lemma_pixels_from_seq(iw as int, ih as int, px, f);
}

/// Stitching a single screenshot placed in the first cell gives that
/// screenshot back, whatever the overlap.
pub proof fn lemma_stitch_single_tile(img: RgbaImage, ovx: u32, ovy: u32)
    requires
        img.wf(),
        img.width > 0,
        img.height > 0,
    ensures
        stitch_ready(seq![(0u32, 0u32, img)], (1u32, 1u32)),
        stitched_w(seq![(0u32, 0u32, img)], ovx as int) == img.width,
        stitched_h(seq![(0u32, 0u32, img)], ovy as int) == img.height,
        stitched_pixels(seq![(0u32, 0u32, img)], ovx as int, ovy as int) == img.data@,
{
    let s: Seq<Shot> = seq![(0u32, 0u32, img)];
    let ox = ovx as int;
    let oy = ovy as int;
    let w = img.width as int;
    let h = img.height as int;
    assert(s.drop_last() =~= Seq::<Shot>::empty());
    assert(max_row(s.drop_last()) == 0);
    assert(max_col(s.drop_last()) == 0);
    assert(row_max_col(s.drop_last(), 0) == 0);
    assert(s.last().0 == 0 && s.last().1 == 0);
    assert(max_row(s) == 0);
    assert(max_col(s) == 0);
    assert(row_max_col(s, 0) == 0);
    assert(stitched_w(s, ox) == w);
    assert(stitched_h(s, oy) == h);
    assert(row_w(s, ox, 0) == w);
    let f = |xb: int, y: int| stitched_byte(s, ox, oy, xb, y);
    assert forall|y: int, xb: int| 0 <= y < h && 0 <= xb < 4 * w implies #[trigger] f(xb, y) == img.data@[at(
        4 * w,
        y,
        xb,
    )] by {
        let rb = u32::MAX as int;
        assert(paste_y(s, oy, 0) == 0);
        assert(cand2(s, ox, oy, rb, 0, xb, y));
        assert(is_top2(s, ox, oy, rb, 0, xb, y));
        let i = choose|i: int| is_top2(s, ox, oy, rb, i, xb, y);
        assert(i == 0);
        let kc = u32::MAX + 1;
        let ki = s.len() as int;
        assert(paste_x(s, ox, 0) == 0);
        assert(cand1(s, ox, 0, kc, ki, 0, xb, y));
        assert(is_top1(s, ox, 0, kc, ki, 0, xb, y));
        let i1 = choose|i: int| is_top1(s, ox, 0, kc, ki, i, xb, y);
        assert(i1 == 0);
        assert(strip_byte(s, ox, 0, xb, y) == img.byte(y, xb));
    }
    lemma_pixels_from_seq(w, h, img.data@, f);
}

/// Whether the image that `stitch_images` would build fits in memory (its
/// byte count fits in `usize`); a stitch that cannot proceed is always
/// accepted, since it builds no image.
pub fn stitch_fits(screenshots: &[Shot], grid: (u32, u32), overlap_px: (u32, u32)) -> (r: bool)
    ensures
        r == (stitch_ready(screenshots@, grid) ==> stitched_w(screenshots@, overlap_px.0 as int) * stitched_h(
            screenshots@,
            overlap_px.1 as int,
        ) * 4 <= usize::MAX),
{
    if screenshots.len() == 0 || grid.0 == 0 || grid.1 == 0 {
        return true;
    }
    let (tw, th) = screenshots[0].2.dimensions();
    if tw == 0 || th == 0 {
        return true;
    }
    let step_x = tw.saturating_sub(overlap_px.0);
    let step_y = th.saturating_sub(overlap_px.1);
    let (mr, mc) = grid_extent(screenshots);
    let total_w = sat_mul(step_x, mc).saturating_add(tw);
    let total_h = sat_mul(step_y, mr).saturating_add(th);
    assert(total_w == stitched_w(screenshots@, overlap_px.0 as int));
    assert(total_h == stitched_h(screenshots@, overlap_px.1 as int));
    assert((total_w as int) * (total_h as int) <= 0xffff_ffff * 0xffff_ffff) by (nonlinear_arith)
        requires
            total_w <= 0xffff_ffffu32,
            total_h <= 0xffff_ffffu32,
    ;
    let p: u64 = (total_w as u64) * (total_h as u64);
    if p > (usize::MAX / 4) as u64 {
        false
    } else {
        true
    }
}

/// Stitches a grid of screenshots into one image.
///
/// Each screenshot carries its grid row and column. The tiles step by the
/// first screenshot's size less the overlap `overlap_px` (in pixels), and the
/// result is cropped to the last row and column that hold a screenshot. The
/// screenshots of each row are first pasted onto a strip of that row, by
/// column (a later screenshot wins over an earlier one at the same column);
/// the strips are then pasted onto the result from the top row down, each
/// strip replacing what lies under it.
#[verifier::spinoff_prover]
pub fn stitch_images(screenshots: &[Shot], grid: (u32, u32), overlap_px: (u32, u32)) -> (res: Result<
    RgbaImage,
    AppError,
>)
    requires
        forall|i: int| 0 <= i < screenshots@.len() ==> (#[trigger] screenshots@[i]).2.wf(),
        stitch_ready(screenshots@, grid) ==> stitched_w(screenshots@, overlap_px.0 as int) * stitched_h(
            screenshots@,
            overlap_px.1 as int,
        ) * 4 <= usize::MAX,
    ensures
        match res {
            Ok(img) => {
                &&& stitch_ready(screenshots@, grid)
                &&& img.wf()
                &&& img.width == stitched_w(screenshots@, overlap_px.0 as int)
                &&& img.height == stitched_h(screenshots@, overlap_px.1 as int)
                &&& forall|y: int, xb: int|
                    0 <= y < img.height && 0 <= xb < 4 * img.width ==> #[trigger] img.byte(y, xb)
                        == stitched_byte(screenshots@, overlap_px.0 as int, overlap_px.1 as int, xb, y)
                &&& img.data@ == stitched_pixels(screenshots@, overlap_px.0 as int, overlap_px.1 as int)
            },
            Err(e) => {
                &&& !stitch_ready(screenshots@, grid)
                &&& e.code@ == stitch_error_code(screenshots@, grid)
                &&& e.message@ == stitch_error_message(screenshots@, grid)
            },
        },
{
    if screenshots.len() == 0 {
        return Err(AppError::new("没有截图可拼接", "STITCH_EMPTY"));
    }
    let (rows, cols) = grid;
    if rows == 0 || cols == 0 {
        return Err(AppError::new("网格行列数必须大于 0", "STITCH_INVALID_GRID"));
    }
    let (tw, th) = screenshots[0].2.dimensions();
    if tw == 0 || th == 0 {
        return Err(AppError::new("子图尺寸不能为 0", "STITCH_INVALID_SIZE"));
    }
    let ghost s = screenshots@;
    let ghost ox = overlap_px.0 as int;
    let ghost oy = overlap_px.1 as int;
    let ghost neg: int = -1;
    let step_x = tw.saturating_sub(overlap_px.0);
    let step_y = th.saturating_sub(overlap_px.1);
    let (mr, mc) = grid_extent(screenshots);
    let total_w = sat_mul(step_x, mc).saturating_add(tw);
    let total_h = sat_mul(step_y, mr).saturating_add(th);
    assert(total_w == stitched_w(s, ox));
    assert(total_h == stitched_h(s, oy));
    let mut result = RgbaImage::new(total_w, total_h);
    let mut prev: Option<u32> = None;
    proof {
        assert forall|y: int, xb: int| 0 <= y < total_h && 0 <= xb < 4 * total_w implies {
            &&& #[trigger] result.data@[at(4 * total_w, y, xb)] == stitched_byte_upto(s, ox, oy, neg, xb, y)
            &&& (exists|j: int| cand2(s, ox, oy, neg, j, xb, y)) ==> exists|i: int| is_top2(s, ox, oy, neg, i, xb, y)
        } by {
            lemma_at_bound(4 * total_w, total_h as int, y, xb);
            assert(4 * total_w * total_h == total_w * total_h * 4) by (nonlinear_arith);
            if exists|j: int| cand2(s, ox, oy, neg, j, xb, y) {
                let j = choose|j: int| cand2(s, ox, oy, neg, j, xb, y);
                assert(false);
            }
        }
        lemma_strip_fits(s, ox, oy, 0);
    }
    loop
        invariant
            s == screenshots@,
            ox == overlap_px.0 as int,
            oy == overlap_px.1 as int,
            s.len() > 0,
            forall|i: int| 0 <= i < s.len() ==> (#[trigger] s[i]).2.wf(),
            tw == tile_w(s),
            th == tile_h(s),
            tw > 0,
            th > 0,
            step_x == step(tw as int, ox),
            step_y == step(th as int, oy),
            total_w == stitched_w(s, ox),
            total_h == stitched_h(s, oy),
            total_w * total_h * 4 <= usize::MAX,
            result.wf(),
            result.width == total_w,
            result.height == total_h,
            bound_row(prev) <= u32::MAX,
            stitch_state(s, ox, oy, bound_row(prev), result.data@, total_w as int, total_h as int),
        ensures
            result.wf(),
            result.width == total_w,
            result.height == total_h,
            forall|j: int| 0 <= j < s.len() ==> s[j].0 <= bound_row(prev),
            stitch_state(s, ox, oy, bound_row(prev), result.data@, total_w as int, total_h as int),
        decreases u32::MAX + 1 - bound_row(prev),
    {
        let next = next_row(screenshots, prev);
        match next {
            None => {
                break;
            },
            Some(r) => {
                let ghost rb = bound_row(prev);
                let ghost before = result.data@;
                let ghost ri = r as int;
                proof {
                    lemma_strip_fits(s, ox, oy, ri);
                    assert(row_w(s, ox, ri) * th * 4 <= total_w * total_h * 4) by (nonlinear_arith)
                        requires row_w(s, ox, ri) <= total_w, th <= total_h, 0 <= row_w(s, ox, ri), 0 <= th;
                }
                let strip = build_strip(screenshots, overlap_px.0, r, tw, th, step_x);
                let rw = strip.width;
                let py = sat_mul(r, step_y);
                assert(py == paste_y(s, oy, ri));
                if py < total_h {
                    let cw: u32 = if rw < total_w { rw } else { total_w };
                    let ch: u32 = if th < total_h - py { th } else { total_h - py };
                    proof {
                        assert(total_w * 4 <= total_w * total_h * 4) by (nonlinear_arith)
                            requires total_h > 0;
                        assert(rw * 4 <= rw * th * 4) by (nonlinear_arith)
                            requires th > 0;
                        assert(result.data@.len() == total_h * (total_w * 4)) by (nonlinear_arith)
                            requires result.data@.len() == total_w * total_h * 4;
                        assert(strip.data@.len() == th * (rw * 4)) by (nonlinear_arith)
                            requires strip.data@.len() == rw * th * 4;
                        assert(strip.data@.len() == strip.data.len());
                    }
                    copy_block(
                        &mut result.data,
                        (total_w as usize) * 4,
                        total_h as usize,
                        0,
                        py as usize,
                        &strip.data,
                        (rw as usize) * 4,
                        th as usize,
                        0,
                        0,
                        (cw as usize) * 4,
                        ch as usize,
                    );
                }
                proof {
                    assert forall|y: int, xb: int| 0 <= y < total_h && 0 <= xb < 4 * total_w implies {
                        &&& #[trigger] result.data@[at(4 * total_w, y, xb)] == stitched_byte_upto(s, ox, oy, ri, xb, y)
                        &&& (exists|j: int| cand2(s, ox, oy, ri, j, xb, y)) ==> exists|i: int|
                            is_top2(s, ox, oy, ri, i, xb, y)
                    } by {
                        assert(before[at(4 * total_w, y, xb)] == stitched_byte_upto(s, ox, oy, rb, xb, y));
                        lemma_stitch_step(s, ox, oy, rb, ri, xb, y);
                        if row_covers2(s, ox, oy, ri, xb, y) {
                            assert(strip.byte(y - py, xb) == strip_byte(s, ox, ri, xb, y - py));
                            assert(strip.stride() == rw * 4);
                            assert(result.data@[at(4 * total_w, y, xb)] == strip.data@[at(rw * 4, y - py, xb)]);
                        } else {
                            assert(result.data@[at(4 * total_w, y, xb)] == before[at(4 * total_w, y, xb)]);
                        }
                    }
                }
                prev = Some(r);
            },
        }
    }
    proof {
        assert forall|y: int, xb: int| 0 <= y < total_h && 0 <= xb < 4 * total_w implies #[trigger] result.byte(y, xb)
            == stitched_byte(s, ox, oy, xb, y) by {
            assert(result.stride() == 4 * total_w);
            assert(result.data@[at(4 * total_w, y, xb)] == stitched_byte_upto(s, ox, oy, bound_row(prev), xb, y));
            lemma_stitch_final(s, ox, oy, bound_row(prev), xb, y);
        }
        lemma_pixels_from(result, |xb: int, y: int| stitched_byte(s, ox, oy, xb, y));
    }
    Ok(result)
}

} // verus!

verus! {

/// The rectangle `imageops::crop_imm` keeps from an `iw` x `ih` image for a
/// requested (`x`, `y`, `w`, `h`): the corner is clamped into the image and
/// the size to what remains of it.
pub open spec fn crop_rect(iw: int, ih: int, x: int, y: int, w: int, h: int) -> (int, int, int, int) {
    let cx = min(x, iw);
    let cy = min(y, ih);
    (cx, cy, min(w, iw - cx), min(h, ih - cy))
}

/// The bytes of the part of an `iw` x `ih` image (bytes `px`) that
/// `crop_image` keeps for `crop_box`.
pub open spec fn cropped_pixels(iw: int, ih: int, px: Seq<u8>, crop_box: (u32, u32, u32, u32)) -> Seq<u8> {
    let (cx, cy, cw, ch) = crop_rect(iw, ih, crop_box.0 as int, crop_box.1 as int, crop_box.2 as int, crop_box.3 as int);
    pixels_from(cw, ch, |xb: int, y: int| px[at(4 * iw, y + cy, xb + 4 * cx)])
}

/// Crops an image to the box (`x`, `y`, `w`, `h`), clamped to the image as
/// `image::imageops::crop_imm` clamps it.
pub fn crop_image(image: &RgbaImage, crop_box: (u32, u32, u32, u32)) -> (r: Result<RgbaImage, AppError>)
    requires
        image.wf(),
    ensures
        match r {
            Ok(c) => {
                let (cx, cy, cw, ch) = crop_rect(
                    image.width as int,
                    image.height as int,
                    crop_box.0 as int,
                    crop_box.1 as int,
                    crop_box.2 as int,
                    crop_box.3 as int,
                );
                &&& c.wf()
                &&& c.width == cw
                &&& c.height == ch
                &&& forall|y: int, xb: int|
                    0 <= y < ch && 0 <= xb < 4 * cw ==> #[trigger] c.byte(y, xb) == image.byte(y + cy, xb + 4 * cx)
                &&& c.data@ == cropped_pixels(image.width as int, image.height as int, image.data@, crop_box)
            },
            Err(_) => false,
        },
{
    let (x, y, w, h) = crop_box;
    let iw = image.width;
    let ih = image.height;
    let cx = if x < iw { x } else { iw };
    let cy = if y < ih { y } else { ih };
    let cw = if w < iw - cx { w } else { iw - cx };
    let ch = if h < ih - cy { h } else { ih - cy };
    proof {
        assert((cw as int) * (ch as int) <= (iw as int) * (ih as int)) by (nonlinear_arith)
            requires cw <= iw, ch <= ih;
        assert(image.data@.len() == image.data.len());
    }
    let mut out = RgbaImage::new(cw, ch);
    if cw > 0 && ch > 0 {
        proof {
            assert(iw * 4 <= iw * ih * 4) by (nonlinear_arith)
                requires ih > 0;
            assert(cw * 4 <= cw * ch * 4) by (nonlinear_arith)
                requires ch > 0;
            assert(out.data@.len() == ch * (cw * 4)) by (nonlinear_arith)
                requires out.data@.len() == cw * ch * 4;
            assert(image.data@.len() == ih * (iw * 4)) by (nonlinear_arith)
                requires image.data@.len() == iw * ih * 4;
        }
        copy_block(
            &mut out.data,
            (cw as usize) * 4,
            ch as usize,
            0,
            0,
            &image.data,
            (iw as usize) * 4,
            ih as usize,
            (cx as usize) * 4,
            cy as usize,
            (cw as usize) * 4,
            ch as usize,
        );
    }
    proof {
        assert forall|yy: int, xb: int| 0 <= yy < ch && 0 <= xb < 4 * cw implies #[trigger] out.byte(yy, xb)
            == image.byte(yy + cy, xb + 4 * cx) by {
            assert(out.stride() == cw * 4);
            assert(image.stride() == iw * 4);
        }
        lemma_pixels_from(out, |xb: int, y: int| image.data@[at(4 * iw, y + cy, xb + 4 * cx)]);
    }
    Ok(out)
}

#[verifier::external_type_specification]
#[verifier::external_body]
pub struct ExImageError(image::ImageError);

/// What the image crate's PNG encoder writes for a `width` x `height` RGBA
/// buffer with fast compression and adaptive filtering (`None` when it
/// reports an error).
pub uninterp spec fn png_fast_encoding(width: u32, height: u32, pixels: Seq<u8>) -> Option<Seq<u8>>;

/// What `ImageBuffer::write_to(.., ImageFormat::Png)` writes for a `width` x
/// `height` RGBA buffer (`None` when it reports an error).
pub uninterp spec fn png_default_encoding(width: u32, height: u32, pixels: Seq<u8>) -> Option<Seq<u8>>;

/// Holds when `out` is a buffer that `imageops::resize` with the Lanczos3
/// filter can produce from the `width` x `height` RGBA buffer `pixels` at
/// `new_w` x `new_h`. A relation, not a function: the resampler's floating
/// point may round differently from one platform or run to another.
pub uninterp spec fn lanczos3_resampled(width: u32, height: u32, pixels: Seq<u8>, new_w: u32, new_h: u32, out: Seq<u8>) -> bool;

/// What the image crate writes for a `width` x `height` RGBA buffer turned
/// into RGB by `DynamicImage::into_rgb8` and encoded by `JpegEncoder` at
/// `quality` (`None` when it reports an error).
pub uninterp spec fn jpeg_encoding(width: u32, height: u32, pixels: Seq<u8>, quality: u8) -> Option<Seq<u8>>;

/// `PngEncoder::new_with_quality(Fast, Adaptive)` through
/// `ImageBuffer::write_with_encoder` into a memory buffer; the bytes are
/// named by `png_fast_encoding`.
#[verifier::external_body]
fn png_encode_fast(width: u32, height: u32, pixels: &Vec<u8>) -> (r: Result<Vec<u8>, image::ImageError>)
    requires
        pixels@.len() == width * height * 4,
    ensures
        match r {
            Ok(v) => png_fast_encoding(width, height, pixels@) == Some(v@),
            Err(_) => png_fast_encoding(width, height, pixels@) is None,
        },
{
    let img = image::RgbaImage::from_raw(width, height, pixels.clone()).unwrap();
    let mut cursor = Cursor::new(Vec::new());
    let encoder = PngEncoder::new_with_quality(&mut cursor, CompressionType::Fast, FilterType::Adaptive);
    img.write_with_encoder(encoder)?;
    Ok(cursor.into_inner())
}

/// `ImageBuffer::write_to(.., ImageFormat::Png)` into a memory buffer; the
/// bytes are named by `png_default_encoding`.
#[verifier::external_body]
fn png_encode_default(width: u32, height: u32, pixels: &Vec<u8>) -> (r: Result<Vec<u8>, image::ImageError>)
    requires
        pixels@.len() == width * height * 4,
    ensures
        match r {
            Ok(v) => png_default_encoding(width, height, pixels@) == Some(v@),
            Err(_) => png_default_encoding(width, height, pixels@) is None,
        },
{
    let img = image::RgbaImage::from_raw(width, height, pixels.clone()).unwrap();
    let mut cursor = Cursor::new(Vec::new());
    img.write_to(&mut cursor, ImageFormat::Png)?;
    Ok(cursor.into_inner())
}

/// `DynamicImage::into_rgb8` followed by `JpegEncoder::new_with_quality`
/// through `write_with_encoder` into a memory buffer; the bytes are named by
/// `jpeg_encoding`.
#[verifier::external_body]
fn jpeg_encode(width: u32, height: u32, pixels: &Vec<u8>, quality: u8) -> (r: Result<Vec<u8>, image::ImageError>)
    requires
        pixels@.len() == width * height * 4,
    ensures
        match r {
            Ok(v) => jpeg_encoding(width, height, pixels@, quality) == Some(v@),
            Err(_) => jpeg_encoding(width, height, pixels@, quality) is None,
        },
{
    let img = image::RgbaImage::from_raw(width, height, pixels.clone()).unwrap();
    let rgb = DynamicImage::ImageRgba8(img).into_rgb8();
    let mut buffer = Vec::new();
    rgb.write_with_encoder(JpegEncoder::new_with_quality(&mut buffer, quality))?;
    Ok(buffer)
}

/// `imageops::resize` with `FilterType::Lanczos3`: a `new_w` x `new_h` RGBA
/// image, related to its input by `lanczos3_resampled`. Only that relation
/// and the size are claimed: the filter weights come from `f32::sin`, whose
/// result std leaves unspecified to the last bit, so the pixels are not a
/// function of the arguments alone.
#[verifier::external_body]
fn resize_lanczos3(width: u32, height: u32, pixels: &Vec<u8>, new_w: u32, new_h: u32) -> (r: Vec<u8>)
    requires
        pixels@.len() == width * height * 4,
        new_w * new_h * 4 <= usize::MAX,
    ensures
        r@.len() == new_w * new_h * 4,
        lanczos3_resampled(width, height, pixels@, new_w, new_h, r@),
{
    let img = image::RgbaImage::from_raw(width, height, pixels.clone()).unwrap();
    imageops::resize(&img, new_w, new_h, imageops::FilterType::Lanczos3).into_raw()
}

/// The text of an image crate error (`ToString`); its content is not
/// claimed.
#[verifier::external_body]
pub(crate) fn image_error_text(e: &image::ImageError) -> String {
    e.to_string()
}

/// Encodes an image as PNG: `fast` picks fast compression with adaptive
/// filtering, otherwise the encoder's defaults. Encoder failures become
/// `IMAGE_ERROR`.
pub fn encode_png(image: &RgbaImage, fast: bool) -> (r: Result<Vec<u8>, AppError>)
    requires
        image.wf(),
    ensures
        ({
            let named = if fast {
                png_fast_encoding(image.width, image.height, image.data@)
            } else {
                png_default_encoding(image.width, image.height, image.data@)
            };
            match r {
                Ok(v) => named == Some(v@),
                Err(e) => named is None && e.code@ == "IMAGE_ERROR"@,
            }
        }),
{
    let res = if fast {
        png_encode_fast(image.width, image.height, &image.data)
    } else {
        png_encode_default(image.width, image.height, &image.data)
    };
    match res {
        Ok(v) => Ok(v),
        Err(e) => Err(AppError::with_message(image_error_text(&e), "IMAGE_ERROR")),
    }
}

/// RGBA pixels made ready for a format without alpha: a fully transparent
/// pixel (alpha 0) becomes black, every other pixel keeps its colour, and
/// every alpha becomes 255.
pub open spec fn black_where_transparent(px: Seq<u8>) -> Seq<u8> {
    Seq::new(
        px.len(),
        |i: int|
            if i % 4 == 3 {
                255u8
            } else if px[i - i % 4 + 3] == 0 {
                0u8
            } else {
                px[i]
            },
    )
}

/// Fills fully transparent pixels with black and makes every pixel opaque
/// (see `black_where_transparent`).
pub fn fill_transparent_black(px: &Vec<u8>) -> (r: Vec<u8>)
    requires
        px@.len() % 4 == 0,
    ensures
        r@ == black_where_transparent(px@),
{
    let n = px.len();
    let mut out: Vec<u8> = Vec::new();
    let mut i: usize = 0;
    while i < n
        invariant
            n == px@.len(),
            n % 4 == 0,
            i % 4 == 0,
            i <= n,
            out@.len() == i,
            forall|j: int| 0 <= j < i ==> out@[j] == #[trigger] black_where_transparent(px@)[j],
        decreases n - i,
    {
        let a = px[i + 3];
        let mut k: usize = 0;
        while k < 3
            invariant
                n == px@.len(),
                n % 4 == 0,
                i % 4 == 0,
                i + 4 <= n,
                k <= 3,
                a == px@[i + 3],
                out@.len() == i + k,
                forall|j: int| 0 <= j < i + k ==> out@[j] == #[trigger] black_where_transparent(px@)[j],
            decreases 3 - k,
        {
            let c = px[i + k];
            out.push(if a == 0 { 0u8 } else { c });
            assert((i + k) as int % 4 == k as int);
            k = k + 1;
        }
        out.push(255u8);
        assert((i + 3) as int % 4 == 3);
        i = i + 4;
    }
    assert(out@ =~= black_where_transparent(px@));
    out
}

/// Encodes an image as JPEG at `quality`. JPEG has no alpha channel:
/// fully transparent pixels are filled with black, the others keep their
/// colour (`black_where_transparent`). Encoder failures become `IMAGE_ERROR`.
pub fn encode_jpeg(image: &RgbaImage, quality: u8) -> (r: Result<Vec<u8>, AppError>)
    requires
        image.wf(),
    ensures
        match r {
            Ok(v) => jpeg_encoding(image.width, image.height, black_where_transparent(image.data@), quality) == Some(v@),
            Err(e) => jpeg_encoding(image.width, image.height, black_where_transparent(image.data@), quality) is None
                && e.code@ == "IMAGE_ERROR"@,
        },
{
    assert(image.data@.len() % 4 == 0) by (nonlinear_arith)
        requires
            image.data@.len() == image.width * image.height * 4,
    ;
    let flat = fill_transparent_black(&image.data);
    match jpeg_encode(image.width, image.height, &flat, quality) {
        Ok(v) => Ok(v),
        Err(e) => Err(AppError::with_message(image_error_text(&e), "IMAGE_ERROR")),
    }
}

/// JPEG quality of history thumbnails.
pub const THUMBNAIL_QUALITY: u8 = 85;

/// Width of the thumbnail of a `w` pixel wide image: at most `max_width`.
pub open spec fn thumbnail_width(w: int, max_width: int) -> int {
    min(w, max_width)
}

/// Height of the thumbnail of a `w` x `h` image scaled to `new_w` pixels
/// wide: `h * new_w / w` rounded to the nearest integer, halves up.
pub open spec fn thumbnail_height(w: int, h: int, new_w: int) -> int {
    (2 * h * new_w + w) / (2 * w)
}

proof fn lemma_thumbnail_fits(w: int, h: int, new_w: int)
    requires
        0 < w,
        0 <= h,
        0 <= new_w <= w,
    ensures
        0 <= thumbnail_height(w, h, new_w) <= h,
        new_w * thumbnail_height(w, h, new_w) <= w * h,
{
    let t = thumbnail_height(w, h, new_w);
    assert(0 <= 2 * h * new_w + w) by (nonlinear_arith)
        requires
            0 <= h,
            0 <= new_w,
            0 < w,
    ;
    assert(2 * h * new_w + w <= 2 * w * h + w) by (nonlinear_arith)
        requires
            0 <= h,
            new_w <= w,
    ;
    assert(t <= h) by (nonlinear_arith)
        requires
            t == (2 * h * new_w + w) / (2 * w),
            2 * h * new_w + w <= 2 * w * h + w,
            0 < w,
    ;
    assert(0 <= t) by (nonlinear_arith)
        requires
            t == (2 * h * new_w + w) / (2 * w),
            0 <= 2 * h * new_w + w,
            0 < w,
    ;
    assert(new_w * t <= w * h) by (nonlinear_arith)
        requires
            0 <= new_w <= w,
            0 <= t <= h,
    ;
}

/// The thumbnail keeps the aspect ratio up to rounding: its height is the
/// integer nearest to `h * new_w / w` (halves rounded up), so the exact
/// height differs from it by at most half a pixel.
pub proof fn lemma_thumbnail_height_nearest(w: int, h: int, new_w: int)
    requires
        0 < w,
        0 <= h,
        0 <= new_w <= w,
    ensures
        -w < 2 * (thumbnail_height(w, h, new_w) * w - h * new_w) <= w,
{
    let t = thumbnail_height(w, h, new_w);
    let n = 2 * h * new_w + w;
    assert(t * (2 * w) <= n < t * (2 * w) + 2 * w) by (nonlinear_arith)
        requires
            t == n / (2 * w),
            w > 0,
    ;
    assert(-w < 2 * (t * w - h * new_w) <= w) by (nonlinear_arith)
        requires
            t * (2 * w) <= n < t * (2 * w) + 2 * w,
            n == 2 * h * new_w + w,
    ;
}

/// The thumbnail bytes `t` of a `w` x `h` image with bytes `px` are the
/// JPEG (quality 85, transparent pixels black) of a `new_w` x `new_h`
/// buffer that resampling `px` with the Lanczos3 filter produced; which
/// exact pixels it produces the resampler leaves open.
pub open spec fn thumbnail_encodes(w: u32, h: u32, px: Seq<u8>, new_w: int, new_h: int, t: Seq<u8>) -> bool {
    exists|out: Seq<u8>|
        out.len() == new_w * new_h * 4 && #[trigger] lanczos3_resampled(w, h, px, new_w as u32, new_h as u32, out)
            && jpeg_encoding(new_w as u32, new_h as u32, black_where_transparent(out), THUMBNAIL_QUALITY) == Some(t)
}

/// Encoding a buffer that resampling `px` produced, as a thumbnail, fails.
pub open spec fn thumbnail_fails(w: u32, h: u32, px: Seq<u8>, new_w: int, new_h: int) -> bool {
    exists|out: Seq<u8>|
        out.len() == new_w * new_h * 4 && #[trigger] lanczos3_resampled(w, h, px, new_w as u32, new_h as u32, out)
            && jpeg_encoding(new_w as u32, new_h as u32, black_where_transparent(out), THUMBNAIL_QUALITY) is None
}

/// Encodes resampled thumbnail pixels: the JPEG at quality 85 of the
/// `new_w` x `new_h` image they form, with transparent pixels black.
pub fn thumbnail_from_resized(new_w: u32, new_h: u32, pixels: Vec<u8>) -> (r: Result<Vec<u8>, AppError>)
    requires
        pixels@.len() == new_w * new_h * 4,
    ensures
        match r {
            Ok(v) => jpeg_encoding(new_w, new_h, black_where_transparent(pixels@), THUMBNAIL_QUALITY) == Some(v@),
            Err(e) => jpeg_encoding(new_w, new_h, black_where_transparent(pixels@), THUMBNAIL_QUALITY) is None
                && e.code@ == "IMAGE_ERROR"@,
        },
{
    let thumb = RgbaImage { width: new_w, height: new_h, data: pixels };
    encode_jpeg(&thumb, THUMBNAIL_QUALITY)
}

/// Builds the JPEG thumbnail of an image: resampled with the Lanczos3 filter
/// to `min(width, max_width)` pixels wide, at the height that keeps the
/// aspect ratio (see `thumbnail_height`), and encoded at quality 85. An
/// empty image is refused with `INVALID_IMAGE`.
pub fn generate_thumbnail(image: &RgbaImage, max_width: u32) -> (r: Result<Vec<u8>, AppError>)
    requires
        image.wf(),
    ensures
        image.width == 0 || image.height == 0 ==> (r matches Err(e) && e.code@ == "INVALID_IMAGE"@
            && e.message@ == "无效的图像尺寸"@),
        image.width > 0 && image.height > 0 ==> ({
            let new_w = thumbnail_width(image.width as int, max_width as int);
            let new_h = thumbnail_height(image.width as int, image.height as int, new_w);
            match r {
                Ok(v) => thumbnail_encodes(image.width, image.height, image.data@, new_w, new_h, v@),
                Err(e) => thumbnail_fails(image.width, image.height, image.data@, new_w, new_h) && e.code@
                    == "IMAGE_ERROR"@,
            }
        }),
{
    let (w, h) = image.dimensions();
    if w == 0 || h == 0 {
        return Err(AppError::new("无效的图像尺寸", "INVALID_IMAGE"));
    }
    let new_w = if w < max_width { w } else { max_width };
    proof {
        lemma_thumbnail_fits(w as int, h as int, new_w as int);
    }
    let hh = h as u128;
    let nw = new_w as u128;
    assert(hh * nw <= 0xffff_ffffu128 * 0xffff_ffffu128) by (nonlinear_arith)
        requires
            hh <= 0xffff_ffffu128,
            nw <= 0xffff_ffffu128,
    ;
    let prod = hh * nw;
    let num: u128 = 2 * prod + (w as u128);
    assert(num == 2 * (h as int) * (new_w as int) + w) by (nonlinear_arith)
        requires
            prod == (h as int) * (new_w as int),
            num == 2 * prod + w,
    ;
    let q = num / (2 * (w as u128));
    assert(q == thumbnail_height(w as int, h as int, new_w as int));
    let new_h = q as u32;
    assert(image.data@.len() == image.data.len());
    assert((new_w as int) * (new_h as int) * 4 <= (w as int) * (h as int) * 4) by (nonlinear_arith)
        requires
            (new_w as int) * (new_h as int) <= (w as int) * (h as int),
    ;
    let pixels = resize_lanczos3(w, h, &image.data, new_w, new_h);
    let ghost px = pixels@;
    let r = thumbnail_from_resized(new_w, new_h, pixels);
    proof {
        let nw = thumbnail_width(w as int, max_width as int);
        let nh = thumbnail_height(w as int, h as int, nw);
        assert(nw == new_w && nh == new_h);
        assert(lanczos3_resampled(w, h, image.data@, new_w, new_h, px));
        if r is Ok {
            assert(jpeg_encoding(new_w, new_h, black_where_transparent(px), THUMBNAIL_QUALITY) == Some(r->Ok_0@));
        } else {
            assert(jpeg_encoding(new_w, new_h, black_where_transparent(px), THUMBNAIL_QUALITY) is None);
        }
    }
    r
}

} // verus!

verus! {

/// The screenshots all have the size of the first one (which is not empty)
/// and well-formed buffers.
pub open spec fn same_size_tiles(s: Seq<Shot>) -> bool {
    &&& s.len() > 0
    &&& tile_w(s) > 0
    &&& tile_h(s) > 0
    &&& forall|i: int|
        0 <= i < s.len() ==> (#[trigger] s[i]).2.wf() && s[i].2.width == tile_w(s) && s[i].2.height == tile_h(s)
}

/// No two screenshots claim the same grid cell.
pub open spec fn distinct_cells(s: Seq<Shot>) -> bool {
    forall|i: int, j: int| 0 <= i < s.len() && 0 <= j < s.len() && i != j ==> (#[trigger] s[i].0 != #[trigger] s[j].0 || s[i].1 != s[j].1)
}

/// Every screenshot lies within the extent of the grid and of its row.
proof fn lemma_extent_covers(s: Seq<Shot>, i: int)
    requires
        0 <= i < s.len(),
    ensures
        s[i].0 <= max_row(s),
        s[i].1 <= max_col(s),
        s[i].1 <= row_max_col(s, s[i].0 as int),
    decreases s.len(),
{
    if i < s.len() - 1 {
        lemma_extent_covers(s.drop_last(), i);
        assert(s.drop_last()[i] == s[i]);
    }
}

/// With no overlap, a grid of equal-sized screenshots on distinct cells is
/// laid out edge to edge: byte `xb` of row `y` of the screenshot of row `r`
/// and column `c` is found unchanged at row `r * tile_h + y`, byte
/// `4 * c * tile_w + xb` of the stitched image (while the stitched size fits
/// in `u32`).
pub proof fn lemma_tiles_land_in_place(s: Seq<Shot>, i: int, y: int, xb: int)
    requires
        same_size_tiles(s),
        distinct_cells(s),
        (max_col(s) + 1) * tile_w(s) <= u32::MAX,
        (max_row(s) + 1) * tile_h(s) <= u32::MAX,
        0 <= i < s.len(),
        0 <= y < tile_h(s),
        0 <= xb < 4 * tile_w(s),
    ensures
        stitched_byte(s, 0, 0, 4 * (s[i].1 * tile_w(s)) + xb, s[i].0 * tile_h(s) + y) == s[i].2.byte(y, xb),
{
    let tw = tile_w(s);
    let th = tile_h(s);
    let r = s[i].0 as int;
    let c = s[i].1 as int;
    let xx = 4 * (c * tw) + xb;
    let yy = r * th + y;
    lemma_extent_covers(s, i);
    lemma_extent_nonneg(s);
    lemma_row_extent_bound(s, r);
    let mc = max_col(s);
    let mr = max_row(s);
    let rc = row_max_col(s, r);
    assert(step(tw, 0) == tw && step(th, 0) == th);
    assert(tw * mc <= u32::MAX && tw * mc >= 0) by (nonlinear_arith)
        requires
            (mc + 1) * tw <= u32::MAX,
            mc >= 0,
            tw > 0,
    ;
    assert(th * mr <= u32::MAX && th * mr >= 0) by (nonlinear_arith)
        requires
            (mr + 1) * th <= u32::MAX,
            mr >= 0,
            th > 0,
    ;
    assert(tw * rc <= tw * mc && tw * rc >= 0) by (nonlinear_arith)
        requires
            0 <= rc <= mc,
            tw > 0,
    ;
    let big_w = stitched_w(s, 0);
    let big_h = stitched_h(s, 0);
    assert(big_w == tw * mc + tw) by (nonlinear_arith)
        requires
            big_w == sat(sat(tw * mc) + tw),
            (mc + 1) * tw <= u32::MAX,
            0 <= tw * mc <= u32::MAX,
    ;
    assert(big_h == th * mr + th) by (nonlinear_arith)
        requires
            big_h == sat(sat(th * mr) + th),
            (mr + 1) * th <= u32::MAX,
            0 <= th * mr <= u32::MAX,
    ;
    let rw = row_w(s, 0, r);
    assert(rw == tw * rc + tw);
    assert(xx == at(4 * tw, c, xb)) by (nonlinear_arith)
        requires
            xx == 4 * (c * tw) + xb,
    ;
    assert(yy == at(th, r, y));
    // Stage two: only the strip of row `r` covers the target row.
    let rb = u32::MAX as int;
    assert forall|j: int| #[trigger] cand2(s, 0, 0, rb, j, xx, yy) implies s[j].0 == r by {
        let rj = s[j].0 as int;
        lemma_extent_covers(s, j);
        assert(th * rj <= th * mr && th * rj >= 0) by (nonlinear_arith)
            requires
                0 <= rj <= mr,
                th > 0,
        ;
        assert(paste_y(s, 0, rj) == rj * th) by (nonlinear_arith)
            requires
                paste_y(s, 0, rj) == sat(rj * th),
                th * rj <= u32::MAX,
        ;
        assert(copy_h2(s, 0, rj) == th) by (nonlinear_arith)
            requires
                copy_h2(s, 0, rj) == min(th, big_h - rj * th),
                big_h == th * mr + th,
                rj <= mr,
                th > 0,
        ;
        lemma_row_of(th, r, y, rj, 0, th);
    }
    assert(th * r <= th * mr) by (nonlinear_arith)
        requires
            0 <= r <= mr,
            th > 0,
    ;
    assert(paste_y(s, 0, r) == r * th) by (nonlinear_arith)
        requires
            paste_y(s, 0, r) == sat(r * th),
            th * r <= th * mr,
            th * mr <= u32::MAX,
            r >= 0,
            th > 0,
    ;
    assert(copy_h2(s, 0, r) == th) by (nonlinear_arith)
        requires
            copy_h2(s, 0, r) == min(th, big_h - r * th),
            big_h == th * mr + th,
            r <= mr,
            th > 0,
    ;
    assert(4 * (c * tw) + 4 * tw <= 4 * rw) by (nonlinear_arith)
        requires
            rw == tw * rc + tw,
            c <= rc,
            tw > 0,
    ;
    assert(rw <= big_w) by (nonlinear_arith)
        requires
            rw == tw * rc + tw,
            big_w == tw * mc + tw,
            tw * rc <= tw * mc,
    ;
    assert(cand2(s, 0, 0, rb, i, xx, yy));
    assert(is_top2(s, 0, 0, rb, i, xx, yy));
    let k = choose|k: int| is_top2(s, 0, 0, rb, k, xx, yy);
    assert(s[k].0 == r);
    assert(stitched_byte(s, 0, 0, xx, yy) == strip_byte(s, 0, r, xx, y));
    // Stage one: inside the strip, only screenshot `i` covers the target.
    let kc = u32::MAX + 1;
    let ki = s.len() as int;
    assert forall|j: int| #[trigger] cand1(s, 0, r, kc, ki, j, xx, y) implies j == i by {
        let cj = s[j].1 as int;
        lemma_extent_covers(s, j);
        assert(tw * cj <= tw * mc && tw * cj >= 0) by (nonlinear_arith)
            requires
                0 <= cj <= mc,
                tw > 0,
        ;
        assert(paste_x(s, 0, j) == cj * tw) by (nonlinear_arith)
            requires
                paste_x(s, 0, j) == sat(cj * tw),
                tw * cj <= u32::MAX,
        ;
        assert(copy_w1(s, 0, j) == tw) by (nonlinear_arith)
            requires
                copy_w1(s, 0, j) == min(tw, rw - cj * tw),
                rw == tw * rc + tw,
                cj <= rc,
                tw > 0,
        ;
        assert(at(4 * tw, cj, 0) == 4 * (cj * tw) && at(4 * tw, cj, 4 * tw) == 4 * (cj * tw + tw)) by (nonlinear_arith);
        lemma_row_of(4 * tw, c, xb, cj, 0, 4 * tw);
        assert(s[j].0 == s[i].0 && s[j].1 == s[i].1);
    }
    assert(paste_x(s, 0, i) == c * tw) by (nonlinear_arith)
        requires
            paste_x(s, 0, i) == sat(c * tw),
            tw * c <= tw * mc,
            tw * mc <= u32::MAX,
            c >= 0,
            tw > 0,
    ;
    assert(copy_w1(s, 0, i) == tw) by (nonlinear_arith)
        requires
            copy_w1(s, 0, i) == min(tw, rw - c * tw),
            rw == tw * rc + tw,
            c <= rc,
            tw > 0,
    ;
    assert(cand1(s, 0, r, kc, ki, i, xx, y));
    assert(is_top1(s, 0, r, kc, ki, i, xx, y));
    let k1 = choose|k: int| is_top1(s, 0, r, kc, ki, k, xx, y);
    assert(k1 == i);
    assert(xx - 4 * paste_x(s, 0, i) == xb);
}

} // verus!

verus! {

/// `p` holds the same screenshots as `s`, in any order.
#[verifier::opaque]
pub open spec fn same_shots(s: Seq<Shot>, p: Seq<Shot>) -> bool {
    &&& s.len() == p.len()
    &&& forall|i: int|
        #![trigger p[i]]
        0 <= i < p.len() ==> exists|j: int| 0 <= j < s.len() && #[trigger] s[j] == p[i]
    &&& forall|j: int|
        #![trigger s[j]]
        0 <= j < s.len() ==> exists|i: int| 0 <= i < p.len() && #[trigger] p[i] == s[j]
}

/// Where a screenshot of `p` stands in `s`.
proof fn shot_in_s(s: Seq<Shot>, p: Seq<Shot>, i: int) -> (j: int)
    requires
        same_shots(s, p),
        0 <= i < p.len(),
    ensures
        0 <= j < s.len(),
        s[j] == p[i],
        s.len() == p.len(),
{
    reveal(same_shots);
    choose|j: int| 0 <= j < s.len() && #[trigger] s[j] == p[i]
}

/// Where a screenshot of `s` stands in `p`.
proof fn shot_in_p(s: Seq<Shot>, p: Seq<Shot>, j: int) -> (i: int)
    requires
        same_shots(s, p),
        0 <= j < s.len(),
    ensures
        0 <= i < p.len(),
        p[i] == s[j],
        s.len() == p.len(),
{
    reveal(same_shots);
    choose|i: int| 0 <= i < p.len() && #[trigger] p[i] == s[j]
}

/// Among finitely many indices satisfying `good`, one has the largest key.
proof fn lemma_best_exists(n: int, good: spec_fn(int) -> bool, key: spec_fn(int) -> int)
    requires
        0 <= n,
        exists|i: int| 0 <= i < n && #[trigger] good(i),
    ensures
        exists|m: int| 0 <= m < n && #[trigger] good(m) && forall|j: int| 0 <= j < n && #[trigger] good(j) ==> key(j) <= key(m),
    decreases n,
{
    if exists|i: int| 0 <= i < n - 1 && #[trigger] good(i) {
        lemma_best_exists(n - 1, good, key);
        let m = choose|m: int| 0 <= m < n - 1 && #[trigger] good(m) && forall|j: int| 0 <= j < n - 1 && #[trigger] good(j) ==> key(j) <= key(m);
        if good(n - 1) && key(n - 1) > key(m) {
            assert forall|j: int| 0 <= j < n && #[trigger] good(j) implies key(j) <= key(n - 1) by {
                if j < n - 1 {
                    assert(key(j) <= key(m));
                }
            }
        } else {
            assert forall|j: int| 0 <= j < n && #[trigger] good(j) implies key(j) <= key(m) by {
                if j < n - 1 {
                    assert(key(j) <= key(m));
                }
            }
        }
    } else {
        let i = choose|i: int| 0 <= i < n && #[trigger] good(i);
        assert(i == n - 1);
        assert forall|j: int| 0 <= j < n && #[trigger] good(j) implies key(j) <= key(n - 1) by {
            assert(j == n - 1);
        }
    }
}

/// `max_row`, `max_col` and `row_max_col` are the largest index present (0
/// when none is).
proof fn lemma_extents_are_maxima(s: Seq<Shot>, r: int)
    ensures
        forall|i: int| 0 <= i < s.len() ==> (#[trigger] s[i]).0 <= max_row(s) && s[i].1 <= max_col(s),
        forall|i: int| 0 <= i < s.len() && (#[trigger] s[i]).0 == r ==> s[i].1 <= row_max_col(s, r),
        max_row(s) == 0 || exists|i: int| 0 <= i < s.len() && (#[trigger] s[i]).0 == max_row(s),
        max_col(s) == 0 || exists|i: int| 0 <= i < s.len() && (#[trigger] s[i]).1 == max_col(s),
        row_max_col(s, r) == 0 || exists|i: int| 0 <= i < s.len() && (#[trigger] s[i]).0 == r && s[i].1 == row_max_col(s, r),
    decreases s.len(),
{
    if s.len() > 0 {
        let t = s.drop_last();
        lemma_extents_are_maxima(t, r);
        assert forall|i: int| 0 <= i < t.len() implies #[trigger] t[i] == s[i] by {}
        assert(max_row(t) <= max_row(s) && max_col(t) <= max_col(s) && row_max_col(t, r) <= row_max_col(s, r));
        assert forall|i: int| 0 <= i < s.len() implies (#[trigger] s[i]).0 <= max_row(s) && s[i].1 <= max_col(s)
            && (s[i].0 == r ==> s[i].1 <= row_max_col(s, r)) by {
            if i < t.len() {
                assert(t[i] == s[i]);
            }
        }
        if max_row(s) != 0 && max_row(s) != max_row(t) {
            assert(s[s.len() - 1].0 == max_row(s));
        }
        if max_row(s) != 0 && max_row(s) == max_row(t) && max_row(t) != 0 {
            let i = choose|i: int| 0 <= i < t.len() && (#[trigger] t[i]).0 == max_row(t);
            assert(s[i].0 == max_row(s));
        }
        if max_col(s) != 0 && max_col(s) != max_col(t) {
            assert(s[s.len() - 1].1 == max_col(s));
        }
        if max_col(s) != 0 && max_col(s) == max_col(t) && max_col(t) != 0 {
            let i = choose|i: int| 0 <= i < t.len() && (#[trigger] t[i]).1 == max_col(t);
            assert(s[i].1 == max_col(s));
        }
        if row_max_col(s, r) != 0 && row_max_col(s, r) != row_max_col(t, r) {
            assert(s[s.len() - 1].0 == r && s[s.len() - 1].1 == row_max_col(s, r));
        }
        if row_max_col(s, r) != 0 && row_max_col(s, r) == row_max_col(t, r) && row_max_col(t, r) != 0 {
            let i = choose|i: int| 0 <= i < t.len() && (#[trigger] t[i]).0 == r && t[i].1 == row_max_col(t, r);
            assert(s[i].0 == r && s[i].1 == row_max_col(s, r));
        }
    }
}

/// Screenshots that are the same, in any order, have the same extents.
proof fn lemma_same_extents(s: Seq<Shot>, p: Seq<Shot>, r: int)
    requires
        same_shots(s, p),
    ensures
        max_row(p) == max_row(s),
        max_col(p) == max_col(s),
        row_max_col(p, r) == row_max_col(s, r),
{
    lemma_extents_are_maxima(s, r);
    lemma_extents_are_maxima(p, r);
    lemma_extent_nonneg(s);
    lemma_extent_nonneg(p);
    lemma_row_extent_bound(s, r);
    lemma_row_extent_bound(p, r);
    if max_row(p) != 0 {
        let i = choose|i: int| 0 <= i < p.len() && (#[trigger] p[i]).0 == max_row(p);
        let j = shot_in_s(s, p, i);
        assert(s[j].0 <= max_row(s));
    }
    if max_row(s) != 0 {
        let j = choose|j: int| 0 <= j < s.len() && (#[trigger] s[j]).0 == max_row(s);
        let i = shot_in_p(s, p, j);
        assert(p[i].0 <= max_row(p));
    }
    if max_col(p) != 0 {
        let i = choose|i: int| 0 <= i < p.len() && (#[trigger] p[i]).1 == max_col(p);
        let j = shot_in_s(s, p, i);
        assert(s[j].1 <= max_col(s));
    }
    if max_col(s) != 0 {
        let j = choose|j: int| 0 <= j < s.len() && (#[trigger] s[j]).1 == max_col(s);
        let i = shot_in_p(s, p, j);
        assert(p[i].1 <= max_col(p));
    }
    if row_max_col(p, r) != 0 {
        let i = choose|i: int| 0 <= i < p.len() && (#[trigger] p[i]).0 == r && p[i].1 == row_max_col(p, r);
        let j = shot_in_s(s, p, i);
        assert(s[j].1 <= row_max_col(s, r));
    }
    if row_max_col(s, r) != 0 {
        let j = choose|j: int| 0 <= j < s.len() && (#[trigger] s[j]).0 == r && s[j].1 == row_max_col(s, r);
        let i = shot_in_p(s, p, j);
        assert(p[i].1 <= row_max_col(p, r));
    }
}

/// The quantities of a stitch that do not depend on the order of the
/// screenshots agree for `s` and `p`.
proof fn lemma_same_layout(s: Seq<Shot>, p: Seq<Shot>)
    requires
        same_size_tiles(s),
        same_shots(s, p),
    ensures
        p.len() == s.len(),
        tile_w(p) == tile_w(s),
        tile_h(p) == tile_h(s),
        max_row(p) == max_row(s),
        max_col(p) == max_col(s),
        forall|r: int| #[trigger] row_max_col(p, r) == row_max_col(s, r),
{
    reveal(same_shots);
    assert(p.len() == s.len());
    let j = shot_in_s(s, p, 0);
    assert(s[j].2.width == tile_w(s));
    lemma_same_extents(s, p, 0);
    assert forall|r: int| #[trigger] row_max_col(p, r) == row_max_col(s, r) by {
        lemma_same_extents(s, p, r);
    }
}

/// Whenever some screenshot of row `r` covers a strip byte, one of them is
/// the last in pasting order.
proof fn lemma_top1_exists(s: Seq<Shot>, ovx: int, r: int, xb: int, yy: int)
    requires
        exists|j: int| #[trigger] cand1(s, ovx, r, u32::MAX + 1, s.len() as int, j, xb, yy),
    ensures
        exists|k: int| #[trigger] is_top1(s, ovx, r, u32::MAX + 1, s.len() as int, k, xb, yy),
{
    let kc = u32::MAX + 1;
    let n = s.len() as int;
    let g = |j: int| cand1(s, ovx, r, kc, n, j, xb, yy);
    let j0 = choose|j: int| #[trigger] cand1(s, ovx, r, kc, n, j, xb, yy);
    assert(g(j0));
    lemma_best_exists(n, g, |j: int| s[j].1 as int);
    let m = choose|m: int| 0 <= m < n && #[trigger] g(m) && forall|j: int| 0 <= j < n && #[trigger] g(j) ==> s[j].1 as int <= s[m].1 as int;
    let c = s[m].1 as int;
    let g2 = |j: int| cand1(s, ovx, r, kc, n, j, xb, yy) && s[j].1 == c;
    assert(g2(m));
    lemma_best_exists(n, g2, |j: int| j);
    let t = choose|t: int| 0 <= t < n && #[trigger] g2(t) && forall|j: int| 0 <= j < n && #[trigger] g2(j) ==> j <= t;
    assert forall|j: int| #[trigger] cand1(s, ovx, r, kc, n, j, xb, yy) implies key_le(s, j, t) by {
        assert(g(j));
        if s[j].1 == c {
            assert(g2(j));
        }
    }
    assert(is_top1(s, ovx, r, kc, n, t, xb, yy));
}

/// A screenshot covers the same strip byte in either order.
proof fn lemma_cand1_transfer(s: Seq<Shot>, p: Seq<Shot>, ovx: int, r: int, xb: int, yy: int, i: int, j: int)
    requires
        same_size_tiles(s),
        same_shots(s, p),
        0 <= i < p.len(),
        0 <= j < s.len(),
        p[i] == s[j],
    ensures
        cand1(p, ovx, r, u32::MAX + 1, p.len() as int, i, xb, yy) == cand1(
            s,
            ovx,
            r,
            u32::MAX + 1,
            s.len() as int,
            j,
            xb,
            yy,
        ),
        byte1(p, ovx, i, xb, yy) == byte1(s, ovx, j, xb, yy),
{
    lemma_same_layout(s, p);
    assert(row_max_col(p, s[j].0 as int) == row_max_col(s, s[j].0 as int));
}

/// Byte `xb` of row `yy` of the strip of row `r` is the same whatever the
/// order of the screenshots.
proof fn lemma_strip_byte_order_free(s: Seq<Shot>, p: Seq<Shot>, ovx: int, r: int, xb: int, yy: int)
    requires
        same_size_tiles(s),
        distinct_cells(s),
        same_shots(s, p),
    ensures
        strip_byte(p, ovx, r, xb, yy) == strip_byte(s, ovx, r, xb, yy),
{
    lemma_same_layout(s, p);
    let kc = u32::MAX + 1;
    let n = s.len() as int;
    if exists|j: int| #[trigger] cand1(s, ovx, r, kc, n, j, xb, yy) {
        let j0 = choose|j: int| #[trigger] cand1(s, ovx, r, kc, n, j, xb, yy);
        let i0 = shot_in_p(s, p, j0);
        lemma_cand1_transfer(s, p, ovx, r, xb, yy, i0, j0);
        lemma_top1_exists(s, ovx, r, xb, yy);
        lemma_top1_exists(p, ovx, r, xb, yy);
        let k = choose|i: int| is_top1(s, ovx, r, kc, n, i, xb, yy);
        let kp = choose|i: int| is_top1(p, ovx, r, kc, n, i, xb, yy);
        let jk = shot_in_s(s, p, kp);
        let ik = shot_in_p(s, p, k);
        lemma_cand1_transfer(s, p, ovx, r, xb, yy, kp, jk);
        lemma_cand1_transfer(s, p, ovx, r, xb, yy, ik, k);
        assert(key_le(s, jk, k));
        assert(key_le(p, ik, kp));
        assert(jk == k);
    } else {
        assert forall|i: int| !#[trigger] cand1(p, ovx, r, kc, n, i, xb, yy) by {
            if 0 <= i < n {
                let j = shot_in_s(s, p, i);
                lemma_cand1_transfer(s, p, ovx, r, xb, yy, i, j);
            }
        }
    }
}

/// Whenever some strip covers a byte of the stitched image, one of them is
/// the last pasted.
proof fn lemma_top2_exists(s: Seq<Shot>, ovx: int, ovy: int, xb: int, y: int)
    requires
        exists|j: int| #[trigger] cand2(s, ovx, ovy, u32::MAX as int, j, xb, y),
    ensures
        exists|k: int| #[trigger] is_top2(s, ovx, ovy, u32::MAX as int, k, xb, y),
{
    let rb = u32::MAX as int;
    let n = s.len() as int;
    let g = |j: int| cand2(s, ovx, ovy, rb, j, xb, y);
    let j0 = choose|j: int| #[trigger] cand2(s, ovx, ovy, rb, j, xb, y);
    assert(g(j0));
    lemma_best_exists(n, g, |j: int| s[j].0 as int);
    let m = choose|m: int| 0 <= m < n && #[trigger] g(m) && forall|j: int| 0 <= j < n && #[trigger] g(j) ==> s[j].0 as int <= s[m].0 as int;
    assert forall|j: int| #[trigger] cand2(s, ovx, ovy, rb, j, xb, y) implies s[j].0 <= s[m].0 by {
        assert(g(j));
    }
    assert(is_top2(s, ovx, ovy, rb, m, xb, y));
}

/// A screenshot's strip covers the same stitched byte in either order.
proof fn lemma_cand2_transfer(s: Seq<Shot>, p: Seq<Shot>, ovx: int, ovy: int, xb: int, y: int, i: int, j: int)
    requires
        same_size_tiles(s),
        same_shots(s, p),
        0 <= i < p.len(),
        0 <= j < s.len(),
        p[i] == s[j],
    ensures
        cand2(p, ovx, ovy, u32::MAX as int, i, xb, y) == cand2(s, ovx, ovy, u32::MAX as int, j, xb, y),
{
    lemma_same_layout(s, p);
    assert(row_max_col(p, s[j].0 as int) == row_max_col(s, s[j].0 as int));
}

/// Byte `xb` of row `y` of the stitched image is the same whatever the
/// order of the screenshots.
proof fn lemma_stitched_byte_order_free(s: Seq<Shot>, p: Seq<Shot>, ovx: int, ovy: int, xb: int, y: int)
    requires
        same_size_tiles(s),
        distinct_cells(s),
        same_shots(s, p),
    ensures
        stitched_byte(p, ovx, ovy, xb, y) == stitched_byte(s, ovx, ovy, xb, y),
{
    lemma_same_layout(s, p);
    let rb = u32::MAX as int;
    let n = s.len() as int;
    if exists|j: int| #[trigger] cand2(s, ovx, ovy, rb, j, xb, y) {
        let j0 = choose|j: int| #[trigger] cand2(s, ovx, ovy, rb, j, xb, y);
        let i0 = shot_in_p(s, p, j0);
        lemma_cand2_transfer(s, p, ovx, ovy, xb, y, i0, j0);
        lemma_top2_exists(s, ovx, ovy, xb, y);
        lemma_top2_exists(p, ovx, ovy, xb, y);
        let k = choose|i: int| is_top2(s, ovx, ovy, rb, i, xb, y);
        let kp = choose|i: int| is_top2(p, ovx, ovy, rb, i, xb, y);
        let jk = shot_in_s(s, p, kp);
        let ik = shot_in_p(s, p, k);
        lemma_cand2_transfer(s, p, ovx, ovy, xb, y, kp, jk);
        lemma_cand2_transfer(s, p, ovx, ovy, xb, y, ik, k);
        assert(s[jk].0 <= s[k].0);
        assert(p[ik].0 <= p[kp].0);
        let r = s[k].0 as int;
        assert(p[kp].0 == r);
        assert(paste_y(p, ovy, r) == paste_y(s, ovy, r));
        lemma_strip_byte_order_free(s, p, ovx, r, xb, y - paste_y(s, ovy, r));
    } else {
        assert forall|i: int| !#[trigger] cand2(p, ovx, ovy, rb, i, xb, y) by {
            if 0 <= i < n {
                let j = shot_in_s(s, p, i);
                lemma_cand2_transfer(s, p, ovx, ovy, xb, y, i, j);
            }
        }
    }
}

/// The stitched image does not depend on the order in which the
/// screenshots are handed over: screenshots of one size on distinct cells,
/// given in any order, stitch to the same image.
pub proof fn lemma_stitch_order_free(s: Seq<Shot>, p: Seq<Shot>, ovx: int, ovy: int)
    requires
        same_size_tiles(s),
        distinct_cells(s),
        same_shots(s, p),
    ensures
        stitched_w(p, ovx) == stitched_w(s, ovx),
        stitched_h(p, ovy) == stitched_h(s, ovy),
        stitched_pixels(p, ovx, ovy) == stitched_pixels(s, ovx, ovy),
{
    lemma_same_layout(s, p);
    let a = stitched_pixels(p, ovx, ovy);
    let b = stitched_pixels(s, ovx, ovy);
    let w = stitched_w(s, ovx);
    assert forall|k: int| 0 <= k < b.len() implies a[k] == b[k] by {
        lemma_stitched_byte_order_free(s, p, ovx, ovy, k % (4 * w), k / (4 * w));
    }
    assert(a =~= b);
}

/// Beyond refusing an empty grid, the grid handed to `stitch_images` plays
/// no part: any two grids with both sides positive accept the same
/// screenshots, and the image is then `stitched_pixels`, which the grid
/// does not enter.
pub proof fn lemma_stitch_ignores_grid(s: Seq<Shot>, g1: (u32, u32), g2: (u32, u32))
    requires
        g1.0 > 0 && g1.1 > 0,
        g2.0 > 0 && g2.1 > 0,
    ensures
        stitch_ready(s, g1) == stitch_ready(s, g2),
        stitch_error_code(s, g1) == stitch_error_code(s, g2),
        stitch_error_message(s, g1) == stitch_error_message(s, g2),
{
}

} // verus!
