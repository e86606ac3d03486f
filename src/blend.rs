use crate::buffer::{
    blit, blit_pixel, buffer_len, byte_len, lemma_same_pixels_same_bytes, pixel_at, pixel_rc,
    read_pixel, rect_transparent, Blit,
};
use crate::clip::{clip, clip_spec};
use crate::pixel::{blend_rgba, blend_spec, lemma_over_transparent, Rgba8};
use vstd::prelude::*;
use vstd::slice::slice_to_vec;

verus! {

/// Why a blend was refused. Nothing is read or written once one is found.
#[derive(Debug, Clone, Copy, PartialEq, Eq, Structural)]
pub enum BlendError {
    /// A buffer's length is not `width * height * 4`.
    SizeMismatch { expected: u128, src_len: usize, dst_len: usize },
    /// The source rectangle does not lie inside the source buffer.
    SourceRectOutOfBounds,
    /// The rectangle, placed at the destination offset, does not lie inside
    /// the destination buffer.
    DestinationRectOutOfBounds,
}

/// Blends pixel `i` of `src` over pixel `i` of `dst`.
pub fn blend_at(src: &[u8], dst: &[u8], i: usize) -> (p: Rgba8)
    requires
        4 * i + 3 < src@.len(),
        4 * i + 3 < dst@.len(),
    ensures
        p == blend_spec(pixel_at(src@, i as int), pixel_at(dst@, i as int)),
{
    blend_rgba(read_pixel(src, i), read_pixel(dst, i))
}

/// Relies on rayon's `into_par_iter` over `0..n`, `map` and `collect` into a
/// `Vec`: an indexed parallel iterator collects its items in the order of the
/// range, so item `i` is what the closure gave for `i`.
#[verifier::external_body]
fn par_blend_pixels(src: &[u8], dst: &[u8], n: usize) -> (out: Vec<Rgba8>)
    requires
        4 * n <= src@.len(),
        4 * n <= dst@.len(),
    ensures
        out@.len() == n,
        forall|i: int|
            0 <= i < n ==> #[trigger] out@[i] == blend_spec(pixel_at(src@, i), pixel_at(dst@, i)),
{
    let range = rayon::iter::IntoParallelIterator::into_par_iter(0..n);
    let pixels = rayon::iter::ParallelIterator::map(range, |i: usize| blend_at(src, dst, i));
    rayon::iter::ParallelIterator::collect(pixels)
}

/// Blends every pixel of `src` over the pixel with the same index of `dst`,
/// both `width` by `height`, into a new buffer; the pixels are blended in
/// parallel.
pub fn blend_surface(src: &[u8], dst: &[u8], width: u32, height: u32) -> (r: Result<
    Vec<u8>,
    BlendError,
>)
    ensures
        r matches Err(e) <==> (src@.len() != buffer_len(width as int, height as int) || dst@.len()
            != buffer_len(width as int, height as int)),
        r matches Err(e) ==> e == (BlendError::SizeMismatch {
            expected: buffer_len(width as int, height as int) as u128,
            src_len: src@.len() as usize,
            dst_len: dst@.len() as usize,
        }),
        r matches Ok(out) ==> out@.len() == src@.len() && forall|i: int|
            0 <= i < width * height ==> #[trigger] pixel_at(out@, i) == blend_spec(
                pixel_at(src@, i),
                pixel_at(dst@, i),
            ),
{
    let expected = byte_len(width, height);
    let src_len = src.len();
    let dst_len = dst.len();
    if src_len as u128 != expected || dst_len as u128 != expected {
        return Err(BlendError::SizeMismatch { expected, src_len, dst_len });
    }
    let n = src_len / 4;
    assert(n == width * height);
    let pixels = par_blend_pixels(src, dst, n);
    let mut out: Vec<u8> = Vec::with_capacity(src_len);
    let mut i: usize = 0;
    while i < n
        invariant
            i <= n,
            n == width * height,
            src_len == 4 * n,
            pixels@.len() == n,
            forall|j: int|
                0 <= j < n ==> #[trigger] pixels@[j] == blend_spec(
                    pixel_at(src@, j),
                    pixel_at(dst@, j),
                ),
            out@.len() == 4 * i,
            forall|j: int| 0 <= j < i ==> #[trigger] pixel_at(out@, j) == pixels@[j],
        decreases n - i,
    {
        let p = pixels[i];
        let ghost before = out@;
        out.push(p.r);
        out.push(p.g);
        out.push(p.b);
        out.push(p.a);
        proof {
            assert forall|j: int| 0 <= j < i + 1 implies #[trigger] pixel_at(out@, j)
                == pixels@[j] by {
                if j < i {
                    assert(pixel_at(before, j) == pixels@[j]);
                }
            }
        }
        i = i + 1;
    }
    Ok(out)
}

/// The rectangle that the checked blit copies.
pub open spec fn rect_blit(
    src_x: u32,
    src_y: u32,
    src_w: u32,
    src_h: u32,
    dst_x: u32,
    dst_y: u32,
) -> Blit {
    Blit { src_x, src_y, dst_x, dst_y, width: src_w, height: src_h }
}

/// Every destination pixel that `b` covers has nonzero alpha or is
/// transparent black.
pub open spec fn dst_visible_or_clear(dst: Seq<u8>, dst_width: int, b: Blit) -> bool {
    forall|row: int, col: int|
        #![trigger pixel_rc(dst, dst_width, row, col)]
        b.covers(row, col) ==> pixel_rc(dst, dst_width, row, col).a > 0 || pixel_rc(
            dst,
            dst_width,
            row,
            col,
        ).transparent_black()
}

/// Blends the `src_w` by `src_h` rectangle at `(src_x, src_y)` of `src` over
/// the rectangle of the same size at `(dst_x, dst_y)` of a copy of `dst`,
/// and returns the copy.
pub fn blend_rect(
    src: &[u8],
    src_width: u32,
    src_height: u32,
    src_x: u32,
    src_y: u32,
    src_w: u32,
    src_h: u32,
    dst: &[u8],
    dst_width: u32,
    dst_height: u32,
    dst_x: u32,
    dst_y: u32,
) -> (r: Result<Vec<u8>, BlendError>)
    ensures
        r == Err::<Vec<u8>, BlendError>(BlendError::SourceRectOutOfBounds) <==> (src_x + src_w
            > src_width || src_y + src_h > src_height),
        r == Err::<Vec<u8>, BlendError>(BlendError::DestinationRectOutOfBounds) <==> (src_x
            + src_w <= src_width && src_y + src_h <= src_height && (dst_x + src_w > dst_width
            || dst_y + src_h > dst_height)),
        r matches Err(BlendError::SizeMismatch { expected, src_len, dst_len }) <==> (
        rect_blit(src_x, src_y, src_w, src_h, dst_x, dst_y).fits(
            src_width as int,
            src_height as int,
            dst_width as int,
            dst_height as int,
        ) && (src@.len() != buffer_len(src_width as int, src_height as int) || dst@.len()
            != buffer_len(dst_width as int, dst_height as int))),
        r matches Err(BlendError::SizeMismatch { expected, src_len, dst_len }) ==> src_len
            == src@.len() && dst_len == dst@.len() && expected == if src@.len() != buffer_len(
            src_width as int,
            src_height as int,
        ) {
            buffer_len(src_width as int, src_height as int)
        } else {
            buffer_len(dst_width as int, dst_height as int)
        },
        r matches Ok(out) ==> (rect_transparent(
            src@,
            src_width as int,
            rect_blit(src_x, src_y, src_w, src_h, dst_x, dst_y),
        ) && dst_visible_or_clear(
            dst@,
            dst_width as int,
            rect_blit(src_x, src_y, src_w, src_h, dst_x, dst_y),
        ) ==> out@ == dst@),
        r matches Ok(out) ==> out@.len() == dst@.len() && forall|row: int, col: int|
            0 <= row < dst_height && 0 <= col < dst_width ==> #[trigger] pixel_rc(
                out@,
                dst_width as int,
                row,
                col,
            ) == blit_pixel(
                src@,
                src_width as int,
                dst@,
                dst_width as int,
                rect_blit(src_x, src_y, src_w, src_h, dst_x, dst_y),
                false,
                row,
                col,
            ),
{
    if src_x as u64 + src_w as u64 > src_width as u64 || src_y as u64 + src_h as u64
        > src_height as u64 {
        return Err(BlendError::SourceRectOutOfBounds);
    }
    if dst_x as u64 + src_w as u64 > dst_width as u64 || dst_y as u64 + src_h as u64
        > dst_height as u64 {
        return Err(BlendError::DestinationRectOutOfBounds);
    }
    let src_expected = byte_len(src_width, src_height);
    let dst_expected = byte_len(dst_width, dst_height);
    let src_len = src.len();
    let dst_len = dst.len();
    if src_len as u128 != src_expected || dst_len as u128 != dst_expected {
        let expected = if src_len as u128 != src_expected {
            src_expected
        } else {
            dst_expected
        };
        return Err(BlendError::SizeMismatch { expected, src_len, dst_len });
    }
    let b = Blit { src_x, src_y, dst_x, dst_y, width: src_w, height: src_h };
    let mut out = slice_to_vec(dst);
    blit(src, src_width, src_height, out.as_mut_slice(), dst_width, dst_height, b, false);
    proof {
        if rect_transparent(src@, src_width as int, b) && dst_visible_or_clear(
            dst@,
            dst_width as int,
            b,
        ) {
            assert forall|row: int, col: int|
                0 <= row < dst_height && 0 <= col < dst_width implies #[trigger] pixel_rc(
                    out@,
                    dst_width as int,
                    row,
                    col,
                ) == pixel_rc(dst@, dst_width as int, row, col) by {
                if b.covers(row, col) {
                    lemma_over_transparent(
                        pixel_rc(src@, src_width as int, b.src_row(row), b.src_col(col)),
                        pixel_rc(dst@, dst_width as int, row, col),
                    );
                }
            }
            lemma_same_pixels_same_bytes(out@, dst@, dst_width as int, dst_height as int);
        }
    }
    Ok(out)
}

/// Blends a rectangle of `src` into `dst` in place. The origins may be
/// negative and the rectangle may reach past either buffer: it is first
/// clipped to the part that lies inside both, and where nothing is left,
/// `dst` is not touched. A source pixel with alpha 0 leaves the destination
/// pixel as it is, one with alpha 255 is copied with alpha 255, and any
/// other is blended over it.
pub fn blend_rect_inplace(
    src: &[u8],
    src_width: u32,
    src_height: u32,
    src_x: i32,
    src_y: i32,
    src_w: u32,
    src_h: u32,
    dst: &mut [u8],
    dst_width: u32,
    dst_height: u32,
    dst_x: i32,
    dst_y: i32,
)
    requires
        src@.len() == buffer_len(src_width as int, src_height as int),
        old(dst)@.len() == buffer_len(dst_width as int, dst_height as int),
    ensures
        final(dst)@.len() == old(dst)@.len(),
        clip_spec(
            src_x as int,
            src_y as int,
            src_w as int,
            src_h as int,
            src_width as int,
            src_height as int,
            dst_x as int,
            dst_y as int,
            dst_width as int,
            dst_height as int,
        ) matches None ==> final(dst)@ == old(dst)@,
        clip_spec(
            src_x as int,
            src_y as int,
            src_w as int,
            src_h as int,
            src_width as int,
            src_height as int,
            dst_x as int,
            dst_y as int,
            dst_width as int,
            dst_height as int,
        ) matches Some(b) ==> (rect_transparent(src@, src_width as int, b) ==> final(dst)@ == old(
            dst,
        )@),
        clip_spec(
            src_x as int,
            src_y as int,
            src_w as int,
            src_h as int,
            src_width as int,
            src_height as int,
            dst_x as int,
            dst_y as int,
            dst_width as int,
            dst_height as int,
        ) matches Some(b) ==> forall|row: int, col: int|
            0 <= row < dst_height && 0 <= col < dst_width ==> #[trigger] pixel_rc(
                final(dst)@,
                dst_width as int,
                row,
                col,
            ) == blit_pixel(
                src@,
                src_width as int,
                old(dst)@,
                dst_width as int,
                b,
                true,
                row,
                col,
            ),
{
    match clip(
        src_x,
        src_y,
        src_w,
        src_h,
        src_width,
        src_height,
        dst_x,
        dst_y,
        dst_width,
        dst_height,
    ) {
        None => {},
        Some(b) => {
            let ghost before = dst@;
            blit(src, src_width, src_height, dst, dst_width, dst_height, b, true);
            proof {
                if rect_transparent(src@, src_width as int, b) {
                    assert forall|row: int, col: int|
                        0 <= row < dst_height && 0 <= col < dst_width implies #[trigger] pixel_rc(
                            dst@,
                            dst_width as int,
                            row,
                            col,
                        ) == pixel_rc(before, dst_width as int, row, col) by {
                        if b.covers(row, col) {
                            assert(pixel_rc(src@, src_width as int, b.src_row(row), b.src_col(col)).a
                                == 0);
                        }
                    }
                    lemma_same_pixels_same_bytes(dst@, before, dst_width as int, dst_height as int);
                }
            }
        },
    }
}

} // verus!
