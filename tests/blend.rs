use blendy::{
    blend_at, blend_pixel, blend_rect, blend_rect_inplace, blend_rgba, blend_surface, clip, Blit,
    BlendError, Rgba8,
};

fn solid(width: usize, height: usize, p: [u8; 4]) -> Vec<u8> {
    let mut v = Vec::new();
    for _ in 0..width * height {
        v.extend_from_slice(&p);
    }
    v
}

fn px(buf: &[u8], width: usize, row: usize, col: usize) -> [u8; 4] {
    let i = (row * width + col) * 4;
    [buf[i], buf[i + 1], buf[i + 2], buf[i + 3]]
}

#[test]
fn opaque_source_wins() {
    assert_eq!(blend_pixel((10, 20, 30, 255), (200, 100, 50, 77)), (10, 20, 30, 255));
    assert_eq!(blend_pixel((0, 0, 0, 255), (255, 255, 255, 255)), (0, 0, 0, 255));
}

#[test]
fn transparent_source_keeps_destination() {
    assert_eq!(blend_pixel((0, 0, 0, 0), (200, 100, 50, 77)), (200, 100, 50, 77));
    assert_eq!(blend_pixel((9, 9, 9, 0), (1, 2, 3, 255)), (1, 2, 3, 255));
    assert_eq!(blend_pixel((9, 9, 9, 0), (0, 0, 0, 0)), (0, 0, 0, 0));
}

#[test]
fn zero_alpha_everywhere_gives_transparent_black() {
    assert_eq!(blend_pixel((9, 9, 9, 0), (1, 2, 3, 0)), (0, 0, 0, 0));
}

#[test]
fn half_red_over_opaque_blue() {
    assert_eq!(blend_pixel((255, 0, 0, 128), (0, 0, 255, 255)), (128, 0, 127, 255));
}

#[test]
fn half_over_half() {
    // out_a = 0.5 + 0.5 * 0.5 in units of 1/255: 255*128 + 128*127 = 48896,
    // so alpha = round(48896 / 255) = 192.
    let (r, g, b, a) = blend_pixel((255, 0, 0, 128), (0, 0, 255, 128));
    assert_eq!(a, 192);
    assert_eq!(r, 170);
    assert_eq!(g, 0);
    assert_eq!(b, 85);
}

#[test]
fn round_trip_every_byte() {
    for c in 0..=255u8 {
        let p = Rgba8 { r: c, g: 255 - c, b: c / 2, a: c };
        assert_eq!(Rgba8::from_linear(p.to_linear()), p);
    }
}

#[test]
fn linear_over_matches_pixel_blend() {
    let s = Rgba8 { r: 40, g: 80, b: 120, a: 100 };
    let d = Rgba8 { r: 200, g: 10, b: 30, a: 180 };
    let direct = Rgba8::from_linear(s.to_linear().over(d.to_linear()));
    assert_eq!(direct, blend_rgba(s, d));
    assert_eq!(
        blend_pixel((40, 80, 120, 100), (200, 10, 30, 180)),
        (direct.r, direct.g, direct.b, direct.a)
    );
}

#[test]
fn surface_matches_per_pixel_blend() {
    let (w, h) = (5usize, 3usize);
    let mut src = Vec::new();
    let mut dst = Vec::new();
    for i in 0..w * h {
        let k = i as u8;
        src.extend_from_slice(&[k * 13, k * 7, 255 - k, k * 17]);
        dst.extend_from_slice(&[k * 3, 200 - k, k * 11, 255 - k * 5]);
    }
    let out = blend_surface(&src, &dst, w as u32, h as u32).unwrap();
    assert_eq!(out.len(), src.len());
    for i in 0..w * h {
        let s = (src[4 * i], src[4 * i + 1], src[4 * i + 2], src[4 * i + 3]);
        let d = (dst[4 * i], dst[4 * i + 1], dst[4 * i + 2], dst[4 * i + 3]);
        let (r, g, b, a) = blend_pixel(s, d);
        assert_eq!([out[4 * i], out[4 * i + 1], out[4 * i + 2], out[4 * i + 3]], [r, g, b, a]);
        let p = blend_at(&src, &dst, i);
        assert_eq!((p.r, p.g, p.b, p.a), (r, g, b, a));
    }
}

#[test]
fn surface_empty() {
    assert_eq!(blend_surface(&[], &[], 0, 7), Ok(vec![]));
}

#[test]
fn surface_rejects_short_destination() {
    let src = solid(4, 4, [1, 2, 3, 4]);
    let dst = vec![0u8; 4 * 4 * 4 - 1];
    assert_eq!(
        blend_surface(&src, &dst, 4, 4),
        Err(BlendError::SizeMismatch { expected: 64, src_len: 64, dst_len: 63 })
    );
}

#[test]
fn surface_rejects_short_source() {
    let src = vec![0u8; 8];
    let dst = solid(2, 2, [0, 0, 0, 255]);
    assert_eq!(
        blend_surface(&src, &dst, 2, 2),
        Err(BlendError::SizeMismatch { expected: 16, src_len: 8, dst_len: 16 })
    );
}

#[test]
fn rect_rejects_source_out_of_bounds() {
    let src = solid(4, 4, [0, 0, 255, 255]);
    let dst = solid(8, 8, [255, 0, 0, 255]);
    assert_eq!(
        blend_rect(&src, 4, 4, 2, 0, 3, 2, &dst, 8, 8, 0, 0),
        Err(BlendError::SourceRectOutOfBounds)
    );
    assert_eq!(
        blend_rect(&src, 4, 4, 0, 3, 1, 2, &dst, 8, 8, 0, 0),
        Err(BlendError::SourceRectOutOfBounds)
    );
}

#[test]
fn rect_rejects_destination_out_of_bounds() {
    let src = solid(4, 4, [0, 0, 255, 255]);
    let dst = solid(8, 8, [255, 0, 0, 255]);
    assert_eq!(
        blend_rect(&src, 4, 4, 0, 0, 4, 4, &dst, 8, 8, 5, 0),
        Err(BlendError::DestinationRectOutOfBounds)
    );
    assert_eq!(
        blend_rect(&src, 4, 4, 0, 0, 4, 4, &dst, 8, 8, 0, 5),
        Err(BlendError::DestinationRectOutOfBounds)
    );
}

#[test]
fn rect_source_error_comes_first() {
    let src = solid(2, 2, [0, 0, 255, 255]);
    let dst = solid(2, 2, [255, 0, 0, 255]);
    assert_eq!(
        blend_rect(&src, 2, 2, 1, 0, 2, 1, &dst, 2, 2, 9, 9),
        Err(BlendError::SourceRectOutOfBounds)
    );
}

#[test]
fn rect_rejects_wrong_buffer_length() {
    let src = solid(2, 2, [0, 0, 255, 255]);
    let dst = vec![0u8; 10];
    assert_eq!(
        blend_rect(&src, 2, 2, 0, 0, 1, 1, &dst, 2, 2, 0, 0),
        Err(BlendError::SizeMismatch { expected: 16, src_len: 16, dst_len: 10 })
    );
}

#[test]
fn rect_blends_inside_and_keeps_outside() {
    let src = solid(3, 3, [255, 0, 0, 128]);
    let dst = solid(5, 4, [0, 0, 255, 255]);
    let out = blend_rect(&src, 3, 3, 1, 1, 2, 2, &dst, 5, 4, 3, 2).unwrap();
    assert_eq!(out.len(), dst.len());
    for row in 0..4 {
        for col in 0..5 {
            let inside = (3..5).contains(&col) && (2..4).contains(&row);
            let want = if inside { [128, 0, 127, 255] } else { [0, 0, 255, 255] };
            assert_eq!(px(&out, 5, row, col), want, "cell ({}, {})", row, col);
        }
    }
}

#[test]
fn rect_transparent_source_is_pass_through() {
    let src = solid(3, 3, [50, 60, 70, 0]);
    let mut dst = Vec::new();
    for i in 0..16u8 {
        dst.extend_from_slice(&[i, 2 * i, 3 * i, 10 + i]);
    }
    let out = blend_rect(&src, 3, 3, 0, 0, 3, 3, &dst, 4, 4, 1, 1).unwrap();
    assert_eq!(out, dst);
}

#[test]
fn inplace_clips_off_top_left() {
    let src = solid(6, 6, [0, 0, 255, 255]);
    let mut dst = solid(10, 10, [255, 0, 0, 255]);
    blend_rect_inplace(&src, 6, 6, 0, 0, 6, 6, &mut dst, 10, 10, -2, -2);
    for row in 0..10 {
        for col in 0..10 {
            let want = if row < 4 && col < 4 { [0, 0, 255, 255] } else { [255, 0, 0, 255] };
            assert_eq!(px(&dst, 10, row, col), want, "cell ({}, {})", row, col);
        }
    }
}

#[test]
fn inplace_clips_off_bottom_right() {
    let src = solid(4, 4, [0, 255, 0, 255]);
    let mut dst = solid(5, 5, [0, 0, 0, 255]);
    blend_rect_inplace(&src, 4, 4, 0, 0, 4, 4, &mut dst, 5, 5, 3, 4);
    for row in 0..5 {
        for col in 0..5 {
            let want = if row == 4 && col >= 3 { [0, 255, 0, 255] } else { [0, 0, 0, 255] };
            assert_eq!(px(&dst, 5, row, col), want);
        }
    }
}

#[test]
fn inplace_negative_source_origin_shifts_destination() {
    let mut src = Vec::new();
    for i in 0..9u8 {
        src.extend_from_slice(&[i, i, i, 255]);
    }
    let mut dst = solid(3, 3, [200, 200, 200, 255]);
    blend_rect_inplace(&src, 3, 3, -1, 0, 3, 1, &mut dst, 3, 3, 0, 0);
    assert_eq!(px(&dst, 3, 0, 0), [200, 200, 200, 255]);
    assert_eq!(px(&dst, 3, 0, 1), [0, 0, 0, 255]);
    assert_eq!(px(&dst, 3, 0, 2), [1, 1, 1, 255]);
    assert_eq!(px(&dst, 3, 1, 0), [200, 200, 200, 255]);
}

#[test]
fn inplace_fully_outside_is_no_op() {
    let src = solid(2, 2, [0, 0, 255, 255]);
    let mut dst = solid(3, 3, [1, 2, 3, 4]);
    let before = dst.clone();
    blend_rect_inplace(&src, 2, 2, 0, 0, 2, 2, &mut dst, 3, 3, 3, 0);
    assert_eq!(dst, before);
    blend_rect_inplace(&src, 2, 2, 0, 0, 2, 2, &mut dst, 3, 3, -2, 1);
    assert_eq!(dst, before);
    blend_rect_inplace(&src, 2, 2, 5, 5, 2, 2, &mut dst, 3, 3, 0, 0);
    assert_eq!(dst, before);
}

#[test]
fn inplace_fast_paths() {
    let src = vec![9, 9, 9, 0, 10, 20, 30, 255, 255, 0, 0, 128];
    let mut dst = vec![1, 2, 3, 0, 4, 5, 6, 7, 0, 0, 255, 255];
    blend_rect_inplace(&src, 3, 1, 0, 0, 3, 1, &mut dst, 3, 1, 0, 0);
    assert_eq!(dst, vec![1, 2, 3, 0, 10, 20, 30, 255, 128, 0, 127, 255]);
}

#[test]
fn inplace_transparent_source_is_pass_through() {
    let src = solid(4, 4, [80, 90, 100, 0]);
    let mut dst = Vec::new();
    for i in 0..16u8 {
        dst.extend_from_slice(&[i, 0, 255 - i, i % 3]);
    }
    let before = dst.clone();
    blend_rect_inplace(&src, 4, 4, -1, 0, 4, 4, &mut dst, 4, 4, 1, -1);
    assert_eq!(dst, before);
}

#[test]
fn clip_keeps_both_sides_in_step() {
    assert_eq!(
        clip(0, 0, 6, 6, 6, 6, -2, -2, 10, 10),
        Some(Blit { src_x: 2, src_y: 2, dst_x: 0, dst_y: 0, width: 4, height: 4 })
    );
    assert_eq!(
        clip(-3, 1, 5, 9, 4, 4, 2, 0, 10, 2),
        Some(Blit { src_x: 0, src_y: 1, dst_x: 5, dst_y: 0, width: 2, height: 2 })
    );
    assert_eq!(clip(0, 0, 2, 2, 2, 2, 10, 0, 10, 10), None);
    assert_eq!(clip(0, 0, 0, 2, 2, 2, 0, 0, 10, 10), None);
}
