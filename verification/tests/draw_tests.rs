use png_raster::dither::{dither, find_closest_palette_color};
use png_raster::draw::{draw_background, draw_rectangle, draw_texture, Frame};
use png_raster::texture::{Pos, Texture};

fn px(frame: &Frame, x: usize, y: usize) -> u32 {
    frame.pixels[y * frame.width + x]
}

#[test]
fn background_gradient_values() {
    let mut frame = Frame::new(4, 3);
    draw_background(&mut frame, 7, 300);
    for y in 0..3usize {
        for x in 0..4usize {
            let expected = (((x + 7) & 0xff) | (((y + 300) & 0xff) << 8)) as u32;
            assert_eq!(px(&frame, x, y), expected);
        }
    }
}

#[test]
fn background_wraps_at_256() {
    let mut frame = Frame::new(2, 1);
    draw_background(&mut frame, 255, 0);
    assert_eq!(px(&frame, 0, 0), 255);
    assert_eq!(px(&frame, 1, 0), 0);
}

#[test]
fn rectangle_fills_clipped_region_only() {
    let mut frame = Frame::new(4, 4);
    let sentinel = 0x00c0ffee;
    draw_rectangle(&mut frame, 0, 0, 4, 4, sentinel);
    draw_rectangle(&mut frame, 3, 3, 10, 10, 0x123456);
    for y in 0..4usize {
        for x in 0..4usize {
            if x == 3 && y == 3 {
                assert_eq!(px(&frame, x, y), 0x123456);
            } else {
                assert_eq!(px(&frame, x, y), sentinel);
            }
        }
    }
}

#[test]
fn rectangle_entirely_outside_writes_nothing() {
    let mut frame = Frame::new(3, 3);
    let sentinel = 0x00aabbcc;
    draw_rectangle(&mut frame, 0, 0, 3, 3, sentinel);
    draw_rectangle(&mut frame, 5, 7, 10, 10, 0x123456);
    for y in 0..3usize {
        for x in 0..3usize {
            assert_eq!(px(&frame, x, y), sentinel);
        }
    }
}

#[test]
fn texture_blit_clips_at_last_cell() {
    let mut frame = Frame::new(4, 4);
    let sentinel = 0x00101010;
    draw_rectangle(&mut frame, 0, 0, 4, 4, sentinel);
    // A fully opaque 2 by 2 texture with distinct pixels.
    let tex = Texture {
        bitmap: vec![0xff111111, 0xff222222, 0xff333333, 0xff444444],
        width: 2,
        height: 2,
        pos: Pos { x: 0, y: 0 },
    };
    draw_texture(&mut frame, &tex, 3, 3);
    for y in 0..4usize {
        for x in 0..4usize {
            if x == 3 && y == 3 {
                // Fully opaque: the texture's top-left color channels,
                // with the destination's high byte left zero.
                assert_eq!(px(&frame, x, y), 0x111111);
            } else {
                assert_eq!(px(&frame, x, y), sentinel);
            }
        }
    }
}

#[test]
fn blit_transparent_keeps_background_and_opaque_replaces_it() {
    let mut frame = Frame::new(2, 1);
    draw_rectangle(&mut frame, 0, 0, 2, 1, 0x123456);
    let tex = Texture {
        bitmap: vec![0x00ff8040, 0xffff8040],
        width: 2,
        height: 1,
        pos: Pos { x: 0, y: 0 },
    };
    draw_texture(&mut frame, &tex, 0, 0);
    assert_eq!(px(&frame, 0, 0), 0x123456);
    assert_eq!(px(&frame, 1, 0), 0xff8040);
}

#[test]
fn blit_half_alpha_interpolates_each_channel() {
    let mut frame = Frame::new(1, 1);
    draw_rectangle(&mut frame, 0, 0, 1, 1, 0x123456);
    let tex = Texture {
        bitmap: vec![0x80ff8040],
        width: 1,
        height: 1,
        pos: Pos { x: 0, y: 0 },
    };
    draw_texture(&mut frame, &tex, 0, 0);
    // Per channel: (bg * (255 - 128) + fg * 128) / 255, rounded down.
    assert_eq!(px(&frame, 0, 0), 0x885a4a);
}

#[test]
fn closest_palette_color_exact_values() {
    assert_eq!(find_closest_palette_color(0x000000), 0x000000);
    assert_eq!(find_closest_palette_color(0xff0000), 0xff0000);
    assert_eq!(find_closest_palette_color(0x00ff00), 0x00ff00);
    assert_eq!(find_closest_palette_color(0xffffff), 0xffffff);
    // The saturating distance only measures channel reductions, so white
    // (never needing any) captures every mixed color whose channels do
    // not exactly undershoot an earlier palette entry.
    assert_eq!(find_closest_palette_color(0x808080), 0xffffff);
    assert_eq!(find_closest_palette_color(0x123456), 0xffffff);
}

#[test]
fn dither_solid_gray_lands_on_palette_colors() {
    let mut frame = Frame::new(8, 8);
    draw_rectangle(&mut frame, 0, 0, 8, 8, 0x808080);
    dither(&mut frame, 0, 0, 8, 8);
    let palette = [
        0x000000u32, 0xff0000, 0x00ff00, 0xffff00, 0x0000ff, 0xff00ff, 0x00ffff, 0xffffff,
    ];
    for y in 0..8usize {
        for x in 0..8usize {
            assert!(palette.contains(&px(&frame, x, y)));
        }
    }
    // Under the asymmetric (reduction-only) distance, mid gray maps to
    // white with zero quantization error, so no error is diffused.
    for y in 0..8usize {
        for x in 0..8usize {
            assert_eq!(px(&frame, x, y), 0xffffff);
        }
    }
}

#[test]
fn dither_leaves_rows_and_columns_past_region_untouched() {
    let mut frame = Frame::new(6, 6);
    draw_rectangle(&mut frame, 0, 0, 6, 6, 0x123456);
    dither(&mut frame, 0, 0, 3, 3);
    // Error diffusion reaches at most one cell right of and one row
    // below the processed region; cells beyond that stay untouched.
    for y in 0..6usize {
        for x in 0..6usize {
            if x > 3 || y > 3 {
                assert_eq!(px(&frame, x, y), 0x123456);
            }
        }
    }
}

#[test]
fn dither_region_starting_past_buffer_changes_nothing() {
    let mut frame = Frame::new(3, 3);
    draw_rectangle(&mut frame, 0, 0, 3, 3, 0x445566);
    dither(&mut frame, 7, 7, 4, 4);
    for y in 0..3usize {
        for x in 0..3usize {
            assert_eq!(px(&frame, x, y), 0x445566);
        }
    }
}

#[test]
fn frame_new_is_black() {
    let frame = Frame::new(3, 2);
    assert_eq!(frame.pixels, vec![0u32; 6]);
    assert_eq!(frame.width, 3);
    assert_eq!(frame.height, 2);
}
