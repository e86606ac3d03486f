use crate::buffer::Blit;
use vstd::prelude::*;

verus! {

/// Clipping along one axis, in four steps. `s` and `d` are the source and
/// destination starts, `len` the extent, `s_bound` and `d_bound` the two
/// buffers' extents on this axis. The result is the new `(s, len, d)`.
///
/// 1. A negative `s` is cut off: `d` advances by `-s`, `len` shrinks by the same.
/// 2. `len` is cut to end at `s_bound`.
/// 3. A negative `d` is cut off: `s` advances by `-d`, `len` shrinks by the same.
/// 4. `len` is cut to end at `d_bound`.
pub open spec fn clip_axis(s: int, len: int, s_bound: int, d: int, d_bound: int) -> (int, int, int) {
    let (s1, len1, d1) = if s < 0 {
        (0, len + s, d - s)
    } else {
        (s, len, d)
    };
    let len2 = if s1 + len1 > s_bound {
        s_bound - s1
    } else {
        len1
    };
    let (s3, len3, d3) = if d1 < 0 {
        (s1 - d1, len2 + d1, 0)
    } else {
        (s1, len2, d1)
    };
    let len4 = if d3 + len3 > d_bound {
        d_bound - d3
    } else {
        len3
    };
    (s3, len4, d3)
}

/// The part of the requested rectangle that lies inside both buffers, or
/// `None` where nothing is left of it.
pub open spec fn clip_spec(
    src_x: int,
    src_y: int,
    src_w: int,
    src_h: int,
    src_width: int,
    src_height: int,
    dst_x: int,
    dst_y: int,
    dst_width: int,
    dst_height: int,
) -> Option<Blit> {
    let (sx, w, dx) = clip_axis(src_x, src_w, src_width, dst_x, dst_width);
    let (sy, h, dy) = clip_axis(src_y, src_h, src_height, dst_y, dst_height);
    if w <= 0 || h <= 0 {
        None
    } else {
        Some(
            Blit {
                src_x: sx as u32,
                src_y: sy as u32,
                dst_x: dx as u32,
                dst_y: dy as u32,
                width: w as u32,
                height: h as u32,
            },
        )
    }
}

fn clip_one_axis(s: i32, len: u32, s_bound: u32, d: i32, d_bound: u32) -> (r: (i64, i64, i64))
    ensures
        (r.0 as int, r.1 as int, r.2 as int) == clip_axis(
            s as int,
            len as int,
            s_bound as int,
            d as int,
            d_bound as int,
        ),
        r.1 > 0 ==> 0 <= r.0 && r.0 + r.1 <= s_bound && 0 <= r.2 && r.2 + r.1 <= d_bound,
{
    let mut s = s as i64;
    let mut len = len as i64;
    let mut d = d as i64;
    if s < 0 {
        d = d - s;
        len = len + s;
        s = 0;
    }
    if s + len > s_bound as i64 {
        len = s_bound as i64 - s;
    }
    if d < 0 {
        s = s - d;
        len = len + d;
        d = 0;
    }
    if d + len > d_bound as i64 {
        len = d_bound as i64 - d;
    }
    (s, len, d)
}

/// Clips a blit request with signed origins against both buffers. The
/// source and destination rectangles are kept in step: whatever is cut off
/// one side is cut off the other as well.
pub fn clip(
    src_x: i32,
    src_y: i32,
    src_w: u32,
    src_h: u32,
    src_width: u32,
    src_height: u32,
    dst_x: i32,
    dst_y: i32,
    dst_width: u32,
    dst_height: u32,
) -> (r: Option<Blit>)
    ensures
        r == clip_spec(
            src_x as int,
            src_y as int,
            src_w as int,
            src_h as int,
            src_width as int,
            src_height as int,
            dst_x as int,
            dst_y as int,
            dst_width as int,
            dst_height as int,
        ),
        r matches Some(b) ==> b.fits(
            src_width as int,
            src_height as int,
            dst_width as int,
            dst_height as int,
        ),
        r matches Some(b) ==> b.width > 0 && b.height > 0,
{
    let (sx, w, dx) = clip_one_axis(src_x, src_w, src_width, dst_x, dst_width);
    let (sy, h, dy) = clip_one_axis(src_y, src_h, src_height, dst_y, dst_height);
    if w <= 0 || h <= 0 {
        None
    } else {
        Some(
            Blit {
                src_x: sx as u32,
                src_y: sy as u32,
                dst_x: dx as u32,
                dst_y: dy as u32,
                width: w as u32,
                height: h as u32,
            },
        )
    }
}

} // verus!
