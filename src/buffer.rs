use crate::pixel::{blend_rgba, blend_spec, lemma_over_opaque, lemma_over_transparent, Rgba8};
use vstd::arithmetic::div_mod::{
    lemma_fundamental_div_mod, lemma_fundamental_div_mod_converse, lemma_multiply_divide_lt,
};
use vstd::prelude::*;

verus! {

/// The pixel with index `i` of a row-major RGBA8888 buffer.
pub open spec fn pixel_at(buf: Seq<u8>, i: int) -> Rgba8 {
    Rgba8 { r: buf[4 * i], g: buf[4 * i + 1], b: buf[4 * i + 2], a: buf[4 * i + 3] }
}

/// The pixel in row `row` and column `col` of a buffer `width` pixels wide.
pub open spec fn pixel_rc(buf: Seq<u8>, width: int, row: int, col: int) -> Rgba8 {
    pixel_at(buf, row * width + col)
}

/// The byte length of a `width` by `height` buffer.
pub open spec fn buffer_len(width: int, height: int) -> int {
    width * height * 4
}

/// The byte length of a `width` by `height` buffer, which may exceed any
/// `usize`.
pub fn byte_len(width: u32, height: u32) -> (n: u128)
    ensures
        n == buffer_len(width as int, height as int),
{
    proof {
        assert(width * height * 4 <= 0xffff_ffff * 0xffff_ffff * 4) by (nonlinear_arith)
            requires
                width <= 0xffff_ffff,
                height <= 0xffff_ffff,
        ;
    }
    width as u128 * height as u128 * 4
}

/// Row `row`, column `col` lies inside a `width` by `height` buffer.
pub proof fn lemma_index_in_bounds(width: int, height: int, row: int, col: int)
    requires
        0 <= row < height,
        0 <= col < width,
    ensures
        0 <= row * width + col < width * height,
        4 * (row * width + col) + 3 < buffer_len(width, height),
{
    assert(0 <= row * width + col < width * height) by (nonlinear_arith)
        requires
            0 <= row < height,
            0 <= col < width,
    ;
}

/// Distinct cells of a row-major grid have distinct pixel indices.
pub proof fn lemma_index_injective(width: int, r1: int, c1: int, r2: int, c2: int)
    requires
        0 <= c1 < width,
        0 <= c2 < width,
        r1 * width + c1 == r2 * width + c2,
    ensures
        r1 == r2,
        c1 == c2,
{
    lemma_fundamental_div_mod_converse(r1 * width + c1, width, r1, c1);
    lemma_fundamental_div_mod_converse(r2 * width + c2, width, r2, c2);
}

/// Two buffers of one size that agree on every pixel are the same bytes.
pub proof fn lemma_same_pixels_same_bytes(a: Seq<u8>, b: Seq<u8>, width: int, height: int)
    requires
        width >= 0,
        height >= 0,
        a.len() == buffer_len(width, height),
        b.len() == a.len(),
        forall|row: int, col: int|
            0 <= row < height && 0 <= col < width ==> #[trigger] pixel_rc(a, width, row, col)
                == pixel_rc(b, width, row, col),
    ensures
        a == b,
{
    assert forall|k: int| 0 <= k < a.len() implies a[k] == b[k] by {
        lemma_fundamental_div_mod(k, 4);
        let p = k / 4;
        assert(0 <= p < width * height);
        lemma_fundamental_div_mod(p, width);
        lemma_multiply_divide_lt(p, width, height);
        let row = p / width;
        let col = p % width;
        assert(0 <= row && 0 <= col < width) by {
            vstd::arithmetic::div_mod::lemma_div_pos_is_pos(p, width);
            vstd::arithmetic::div_mod::lemma_mod_pos_bound(p, width);
        }
        assert(row * width + col == p) by (nonlinear_arith)
            requires
                p == width * row + col,
        ;
        assert(pixel_rc(a, width, row, col) == pixel_rc(b, width, row, col));
    }
    assert(a =~= b);
}

pub fn read_pixel(buf: &[u8], i: usize) -> (p: Rgba8)
    requires
        4 * i + 3 < buf@.len(),
    ensures
        p == pixel_at(buf@, i as int),
{
    let _len = buf.len();
    let k = 4 * i;
    Rgba8 { r: buf[k], g: buf[k + 1], b: buf[k + 2], a: buf[k + 3] }
}

pub fn write_pixel(buf: &mut [u8], i: usize, p: Rgba8)
    requires
        4 * i + 3 < old(buf)@.len(),
    ensures
        final(buf)@.len() == old(buf)@.len(),
        pixel_at(final(buf)@, i as int) == p,
        forall|j: int|
            0 <= j && 4 * j + 3 < old(buf)@.len() && j != i ==> #[trigger] pixel_at(final(buf)@, j)
                == pixel_at(old(buf)@, j),
{
    let _len = buf.len();
    let k = 4 * i;
    buf[k] = p.r;
    buf[k + 1] = p.g;
    buf[k + 2] = p.b;
    buf[k + 3] = p.a;
}

/// A rectangle to copy, already placed inside both buffers: `width` by
/// `height` pixels from `(src_x, src_y)` of the source onto `(dst_x, dst_y)`
/// of the destination.
#[derive(Debug, Clone, Copy, PartialEq, Eq, Structural)]
pub struct Blit {
    pub src_x: u32,
    pub src_y: u32,
    pub dst_x: u32,
    pub dst_y: u32,
    pub width: u32,
    pub height: u32,
}

impl Blit {
    /// The rectangle lies inside the source and the destination buffer.
    pub open spec fn fits(self, src_width: int, src_height: int, dst_width: int, dst_height: int) -> bool {
        self.src_x + self.width <= src_width && self.src_y + self.height <= src_height
            && self.dst_x + self.width <= dst_width && self.dst_y + self.height <= dst_height
    }

    /// Destination cell `(row, col)` is covered by the rectangle.
    pub open spec fn covers(self, row: int, col: int) -> bool {
        self.dst_x <= col < self.dst_x + self.width && self.dst_y <= row < self.dst_y + self.height
    }

    /// The source row for destination row `row`.
    pub open spec fn src_row(self, row: int) -> int {
        self.src_y + (row - self.dst_y)
    }

    /// The source column for destination column `col`.
    pub open spec fn src_col(self, col: int) -> int {
        self.src_x + (col - self.dst_x)
    }
}

/// The in-place blit's per-pixel rule: a transparent source leaves the
/// destination alone, an opaque one is copied with alpha 255, and any other
/// is blended.
pub open spec fn fast_blend_spec(s: Rgba8, d: Rgba8) -> Rgba8 {
    if s.a == 0 {
        d
    } else if s.a == 255 {
        Rgba8 { r: s.r, g: s.g, b: s.b, a: 255 }
    } else {
        blend_spec(s, d)
    }
}

/// The fast paths give what the full blend gives, except on a destination
/// with zero alpha and some color under a transparent source, which the
/// fast path keeps and the full blend turns into transparent black.
pub proof fn lemma_fast_blend_agrees(s: Rgba8, d: Rgba8)
    requires
        s.a != 0 || d.a > 0 || d.transparent_black(),
    ensures
        fast_blend_spec(s, d) == blend_spec(s, d),
{
    if s.a == 0 {
        lemma_over_transparent(s, d);
    } else if s.a == 255 {
        lemma_over_opaque(s, d);
    }
}

/// Every source pixel that `b` reads has alpha 0.
pub open spec fn rect_transparent(src: Seq<u8>, src_width: int, b: Blit) -> bool {
    forall|row: int, col: int|
        b.src_y <= row < b.src_y + b.height && b.src_x <= col < b.src_x + b.width
            ==> #[trigger] pixel_rc(src, src_width, row, col).a == 0
}

pub open spec fn composite(fast: bool, s: Rgba8, d: Rgba8) -> Rgba8 {
    if fast {
        fast_blend_spec(s, d)
    } else {
        blend_spec(s, d)
    }
}

/// What destination cell `(row, col)` holds after the rectangle `b` of `src`
/// has been composited onto `dst`.
pub open spec fn blit_pixel(
    src: Seq<u8>,
    src_width: int,
    dst: Seq<u8>,
    dst_width: int,
    b: Blit,
    fast: bool,
    row: int,
    col: int,
) -> Rgba8 {
    let d = pixel_rc(dst, dst_width, row, col);
    if b.covers(row, col) {
        composite(fast, pixel_rc(src, src_width, b.src_row(row), b.src_col(col)), d)
    } else {
        d
    }
}

/// Composites rectangle `b` of `src` onto `dst` in place, one pixel at a
/// time in row-major order; with `fast`, transparent and opaque source
/// pixels skip the blend.
pub fn blit(
    src: &[u8],
    src_width: u32,
    src_height: u32,
    dst: &mut [u8],
    dst_width: u32,
    dst_height: u32,
    b: Blit,
    fast: bool,
)
    requires
        src@.len() == buffer_len(src_width as int, src_height as int),
        old(dst)@.len() == buffer_len(dst_width as int, dst_height as int),
        b.fits(src_width as int, src_height as int, dst_width as int, dst_height as int),
    ensures
        final(dst)@.len() == old(dst)@.len(),
        forall|row: int, col: int|
            0 <= row < dst_height && 0 <= col < dst_width ==> #[trigger] pixel_rc(
                final(dst)@,
                dst_width as int,
                row,
                col,
            ) == blit_pixel(
                src@,
                src_width as int,
                old(dst)@,
                dst_width as int,
                b,
                fast,
                row,
                col,
            ),
{
    let ghost orig = dst@;
    let _src_len = src.len();
    let _dst_len = dst.len();
    let sw = src_width as usize;
    let dw = dst_width as usize;
    let mut y: u32 = 0;
    while y < b.height
        invariant
            y <= b.height,
            src@.len() == buffer_len(src_width as int, src_height as int),
            dst@.len() == orig.len(),
            orig.len() == buffer_len(dst_width as int, dst_height as int),
            b.fits(src_width as int, src_height as int, dst_width as int, dst_height as int),
            sw == src_width,
            dw == dst_width,
            _src_len == src@.len(),
            _dst_len == orig.len(),
            forall|row: int, col: int|
                0 <= row < dst_height && 0 <= col < dst_width ==> #[trigger] pixel_rc(
                    dst@,
                    dst_width as int,
                    row,
                    col,
                ) == if b.covers(row, col) && row - b.dst_y < y {
                    blit_pixel(src@, src_width as int, orig, dst_width as int, b, fast, row, col)
                } else {
                    pixel_rc(orig, dst_width as int, row, col)
                },
        decreases b.height - y,
    {
        let mut x: u32 = 0;
        while x < b.width
            invariant
                y < b.height,
                x <= b.width,
                src@.len() == buffer_len(src_width as int, src_height as int),
                dst@.len() == orig.len(),
                orig.len() == buffer_len(dst_width as int, dst_height as int),
                b.fits(src_width as int, src_height as int, dst_width as int, dst_height as int),
                sw == src_width,
                dw == dst_width,
                _src_len == src@.len(),
                _dst_len == orig.len(),
                forall|row: int, col: int|
                    0 <= row < dst_height && 0 <= col < dst_width ==> #[trigger] pixel_rc(
                        dst@,
                        dst_width as int,
                        row,
                        col,
                    ) == if b.covers(row, col) && (row - b.dst_y < y || (row - b.dst_y == y
                        && col - b.dst_x < x)) {
                        blit_pixel(
                            src@,
                            src_width as int,
                            orig,
                            dst_width as int,
                            b,
                            fast,
                            row,
                            col,
                        )
                    } else {
                        pixel_rc(orig, dst_width as int, row, col)
                    },
            decreases b.width - x,
        {
            let sr = (b.src_y + y) as usize;
            let sc = (b.src_x + x) as usize;
            let dr = (b.dst_y + y) as usize;
            let dc = (b.dst_x + x) as usize;
            proof {
                lemma_index_in_bounds(src_width as int, src_height as int, sr as int, sc as int);
                lemma_index_in_bounds(dst_width as int, dst_height as int, dr as int, dc as int);
            }
            let si = sr * sw + sc;
            let di = dr * dw + dc;
            let ghost before = dst@;
            let s = read_pixel(src, si);
            if fast && s.a == 0 {
            } else if fast && s.a == 255 {
                write_pixel(dst, di, Rgba8 { r: s.r, g: s.g, b: s.b, a: 255 });
            } else {
                let d = read_pixel(dst, di);
                write_pixel(dst, di, blend_rgba(s, d));
            }
            proof {
                assert forall|row: int, col: int|
                    0 <= row < dst_height && 0 <= col < dst_width implies #[trigger] pixel_rc(
                        dst@,
                        dst_width as int,
                        row,
                        col,
                    ) == if b.covers(row, col) && (row - b.dst_y < y || (row - b.dst_y == y
                        && col - b.dst_x < x + 1)) {
                        blit_pixel(
                            src@,
                            src_width as int,
                            orig,
                            dst_width as int,
                            b,
                            fast,
                            row,
                            col,
                        )
                    } else {
                        pixel_rc(orig, dst_width as int, row, col)
                    } by {
                    lemma_index_in_bounds(dst_width as int, dst_height as int, row, col);
                    assert(pixel_rc(before, dst_width as int, row, col) == if b.covers(row, col)
                        && (row - b.dst_y < y || (row - b.dst_y == y && col - b.dst_x < x)) {
                        blit_pixel(
                            src@,
                            src_width as int,
                            orig,
                            dst_width as int,
                            b,
                            fast,
                            row,
                            col,
                        )
                    } else {
                        pixel_rc(orig, dst_width as int, row, col)
                    });
                    if row * dst_width + col == di {
                        lemma_index_injective(dst_width as int, row, col, dr as int, dc as int);
                    }
                }
            }
            x = x + 1;
        }
        y = y + 1;
    }
}

} // verus!
