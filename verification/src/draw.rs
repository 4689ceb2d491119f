use crate::texture::Texture;
use vstd::prelude::*;
use vstd::arithmetic::div_mod::{lemma_add_mod_noop, lemma_div_multiples_vanish};
use vstd::arithmetic::mul::lemma_mul_upper_bound;

verus! {

/// The destination of every compositing operation: an owned frame
/// buffer of packed 32-bit pixels, row-major, with its dimensions.
pub struct Frame {
    pub pixels: Vec<u32>,
    pub width: usize,
    pub height: usize,
}

impl Frame {
    /// The frame's pixel storage covers exactly its dimensions.
    pub open spec fn wf(self) -> bool {
        self.pixels@.len() == self.width * self.height
    }

    /// A frame of the given dimensions with every pixel black.
    pub fn new(width: usize, height: usize) -> (r: Frame)
        requires
            width * height <= usize::MAX,
        ensures
            r.wf(),
            r.width == width,
            r.height == height,
            forall|i: int| 0 <= i < r.pixels@.len() ==> r.pixels@[i] == 0u32,
    {
        let total = width * height;
        let mut pixels: Vec<u32> = Vec::new();
        let mut i: usize = 0;
        while i < total
            invariant
                i <= total,
                pixels@.len() == i,
                forall|j: int| 0 <= j < i ==> pixels@[j] == 0u32,
            decreases total - i,
        {
            pixels.push(0);
            i = i + 1;
        }
        Frame { pixels, width, height }
    }
}

/// A row-major pixel index stays inside a `w` by `h` grid.
pub proof fn lemma_row_major_index(w: int, h: int, x: int, y: int)
    requires
        0 <= x < w,
        0 <= y < h,
    ensures
        0 <= y * w + x < w * h,
{
    assert(y * w + x < w * h) by (nonlinear_arith)
        requires
            0 <= x < w,
            0 <= y < h,
    ;
    assert(0 <= y * w) by (nonlinear_arith)
        requires
            0 <= y,
            0 <= w,
    ;
}

/// Two different grid cells have different row-major indices.
pub proof fn lemma_row_major_distinct(w: int, x1: int, y1: int, x2: int, y2: int)
    requires
        0 <= x1 < w,
        0 <= x2 < w,
        x1 != x2 || y1 != y2,
    ensures
        y1 * w + x1 != y2 * w + x2,
{
    assert(y1 * w + x1 != y2 * w + x2) by (nonlinear_arith)
        requires
            0 <= x1 < w,
            0 <= x2 < w,
            x1 != x2 || y1 != y2,
    ;
}

/// The exclusive end of an iteration range, capped at the buffer
/// extent: `min(start + extent, bound)`.
pub open spec fn clip(start: int, extent: int, bound: int) -> int {
    if start + extent < bound {
        start + extent
    } else {
        bound
    }
}

/// The pixel of a row-major grid of width `w` at column `x`, row `y`.
/// Contracts quantify over pixels through this function.
pub open spec fn at(s: Seq<u32>, w: int, x: int, y: int) -> u32 {
    s[y * w + x]
}

/// Computes `min(start + extent, bound)` without overflow.
pub(crate) fn clip_end(start: usize, extent: usize, bound: usize) -> (r: usize)
    ensures
        r == clip(start as int, extent as int, bound as int),
{
    if start >= bound {
        bound
    } else if extent < bound - start {
        start + extent
    } else {
        bound
    }
}

/// The deterministic two-channel gradient of the procedural background
/// at pixel (x, y) under the given scroll offsets: the low byte follows
/// x, the next byte follows y, both wrapping.
pub open spec fn background_pixel(x: int, y: int, x_offset: int, y_offset: int) -> u32 {
    (((x + x_offset) % 256) + 256 * ((y + y_offset) % 256)) as u32
}

/// Fills every destination pixel with the procedural background
/// gradient driven by the scroll offsets.
pub fn draw_background(frame: &mut Frame, x_offset: usize, y_offset: usize)
    requires
        old(frame).wf(),
    ensures
        final(frame).wf(),
        final(frame).width == old(frame).width,
        final(frame).height == old(frame).height,
        forall|x: int, y: int|
            0 <= x < old(frame).width && 0 <= y < old(frame).height ==> at(
                final(frame).pixels@,
                old(frame).width as int,
                x,
                y,
            ) == background_pixel(x, y, x_offset as int, y_offset as int),
{
    let w = frame.width;
    let h = frame.height;
    let total_pixels = frame.pixels.len();
    let mut y: usize = 0;
    while y < h
        invariant
            frame.width == w,
            frame.height == h,
            frame.wf(),
            frame.pixels@.len() == total_pixels,
            y <= h,
            forall|xx: int, yy: int|
                0 <= xx < w && 0 <= yy < y ==> at(frame.pixels@, w as int, xx, yy)
                    == background_pixel(xx, yy, x_offset as int, y_offset as int),
        decreases h - y,
    {
        let mut x: usize = 0;
        while x < w
            invariant
                frame.width == w,
                frame.height == h,
                frame.wf(),
                frame.pixels@.len() == total_pixels,
                y < h,
                x <= w,
                forall|xx: int, yy: int|
                    0 <= xx < w && 0 <= yy < y ==> at(frame.pixels@, w as int, xx, yy)
                        == background_pixel(xx, yy, x_offset as int, y_offset as int),
                forall|xx: int|
                    0 <= xx < x ==> at(frame.pixels@, w as int, xx, y as int) == background_pixel(
                        xx,
                        y as int,
                        x_offset as int,
                        y_offset as int,
                    ),
            decreases w - x,
        {
            proof {
                lemma_row_major_index(w as int, h as int, x as int, y as int);
            }
            let ex = (x % 256 + x_offset % 256) % 256;
            let ey = (y % 256 + y_offset % 256) % 256;
            proof {
                lemma_add_mod_noop(x as int, x_offset as int, 256);
                lemma_add_mod_noop(y as int, y_offset as int, 256);
            }
            let px: u32 = (ex + 256 * ey) as u32;
            assert(px == background_pixel(x as int, y as int, x_offset as int, y_offset as int));
            let idx = y * w + x;
            let ghost pix_before = frame.pixels@;
            frame.pixels.set(idx, px);
            proof {
                assert forall|xx: int, yy: int|
                    0 <= xx < w && 0 <= yy < h && !(xx == x && yy == y) implies at(
                    frame.pixels@,
                    w as int,
                    xx,
                    yy,
                ) == at(pix_before, w as int, xx, yy) by {
                    lemma_row_major_index(w as int, h as int, xx, yy);
                    lemma_row_major_distinct(w as int, xx, yy, x as int, y as int);
                }
                assert(at(frame.pixels@, w as int, x as int, y as int) == px);
            }
            x = x + 1;
        }
        y = y + 1;
    }
}

/// Fills the clipped rectangle with one packed color, no blending;
/// pixels outside the clipped rectangle are untouched.
pub fn draw_rectangle(
    frame: &mut Frame,
    pos_x: usize,
    pos_y: usize,
    width: usize,
    height: usize,
    color: u32,
)
    requires
        old(frame).wf(),
    ensures
        final(frame).wf(),
        final(frame).width == old(frame).width,
        final(frame).height == old(frame).height,
        forall|x: int, y: int|
            0 <= x < old(frame).width && 0 <= y < old(frame).height ==> at(
                final(frame).pixels@,
                old(frame).width as int,
                x,
                y,
            ) == if pos_x <= x < clip(pos_x as int, width as int, old(frame).width as int) && pos_y
                <= y < clip(pos_y as int, height as int, old(frame).height as int) {
                color
            } else {
                at(old(frame).pixels@, old(frame).width as int, x, y)
            },
{
    let w = frame.width;
    let h = frame.height;
    let ghost orig = frame.pixels@;
    let total_pixels = frame.pixels.len();
    let x_end = clip_end(pos_x, width, w);
    let y_end = clip_end(pos_y, height, h);
    let mut y = pos_y;
    while y < y_end
        invariant
            frame.width == w,
            frame.height == h,
            frame.wf(),
            frame.pixels@.len() == total_pixels,
            x_end == clip(pos_x as int, width as int, w as int),
            y_end == clip(pos_y as int, height as int, h as int),
            y_end <= h,
            pos_y <= y,
            y <= y_end || y == pos_y,
            forall|xx: int, yy: int|
                0 <= xx < w && 0 <= yy < h ==> at(frame.pixels@, w as int, xx, yy) == if pos_x <= xx
                    < x_end && pos_y <= yy < y {
                    color
                } else {
                    at(orig, w as int, xx, yy)
                },
        decreases y_end - y,
    {
        let mut x = pos_x;
        while x < x_end
            invariant
                frame.width == w,
                frame.height == h,
                frame.wf(),
                frame.pixels@.len() == total_pixels,
                x_end == clip(pos_x as int, width as int, w as int),
                x_end <= w,
                pos_y <= y < y_end <= h,
                pos_x <= x,
                x <= x_end || x == pos_x,
                forall|xx: int, yy: int|
                    0 <= xx < w && 0 <= yy < h ==> at(frame.pixels@, w as int, xx, yy) == if (pos_x
                        <= xx < x_end && pos_y <= yy < y) || (yy == y && pos_x <= xx < x) {
                        color
                    } else {
                        at(orig, w as int, xx, yy)
                    },
            decreases x_end - x,
        {
            proof {
                lemma_row_major_index(w as int, h as int, x as int, y as int);
            }
            let idx = y * w + x;
            let ghost pix_before = frame.pixels@;
            frame.pixels.set(idx, color);
            proof {
                assert forall|xx: int, yy: int|
                    0 <= xx < w && 0 <= yy < h && !(xx == x && yy == y) implies at(
                    frame.pixels@,
                    w as int,
                    xx,
                    yy,
                ) == at(pix_before, w as int, xx, yy) by {
                    lemma_row_major_index(w as int, h as int, xx, yy);
                    lemma_row_major_distinct(w as int, xx, yy, x as int, y as int);
                }
                assert(at(frame.pixels@, w as int, x as int, y as int) == color);
                assert forall|xx: int, yy: int| 0 <= xx < w && 0 <= yy < h implies at(
                    frame.pixels@,
                    w as int,
                    xx,
                    yy,
                ) == (if (pos_x <= xx < x_end && pos_y <= yy < y) || (yy == y && pos_x <= xx < x
                    + 1) {
                    color
                } else {
                    at(orig, w as int, xx, yy)
                }) by {
                    if !(xx == x && yy == y) {
                        lemma_row_major_index(w as int, h as int, xx, yy);
                        lemma_row_major_distinct(w as int, xx, yy, x as int, y as int);
                        assert(at(pix_before, w as int, xx, yy) == (if (pos_x <= xx < x_end
                            && pos_y <= yy < y) || (yy == y && pos_x <= xx < x) {
                            color
                        } else {
                            at(orig, w as int, xx, yy)
                        }));
                    }
                }
            }
            x = x + 1;
        }
        y = y + 1;
    }
}

/// The red channel of a packed pixel.
pub open spec fn chan_r(p: u32) -> int {
    (p as int / 0x10000) % 0x100
}

/// The green channel of a packed pixel.
pub open spec fn chan_g(p: u32) -> int {
    (p as int / 0x100) % 0x100
}

/// The blue channel of a packed pixel.
pub open spec fn chan_b(p: u32) -> int {
    p as int % 0x100
}

/// The alpha channel of a packed pixel (the high byte).
pub open spec fn chan_a(p: u32) -> int {
    p as int / 0x1000000
}

/// One linearly interpolated channel: the destination value moved
/// toward the texture value by the fractional weight `alpha / 255`,
/// rounded down.
pub open spec fn blend_channel(bg: int, fg: int, alpha: int) -> int {
    (bg * (255 - alpha) + fg * alpha) / 255
}

/// One alpha-blended destination pixel: each color channel interpolated
/// independently under the texture pixel's alpha; the destination's high
/// byte is left zero, so the destination stays fully opaque.
pub open spec fn blend_pixel(bg: u32, fg: u32) -> u32 {
    (blend_channel(chan_r(bg), chan_r(fg), chan_a(fg)) * 0x10000 + blend_channel(
        chan_g(bg),
        chan_g(fg),
        chan_a(fg),
    ) * 0x100 + blend_channel(chan_b(bg), chan_b(fg), chan_a(fg))) as u32
}

/// Every blended channel stays within one byte.
pub proof fn lemma_blend_channel_range(bg: int, fg: int, alpha: int)
    requires
        0 <= bg <= 255,
        0 <= fg <= 255,
        0 <= alpha <= 255,
    ensures
        0 <= blend_channel(bg, fg, alpha) <= 255,
{
    lemma_mul_upper_bound(bg, 255, 255 - alpha, 255 - alpha);
    lemma_mul_upper_bound(fg, 255, alpha, alpha);
    assert(bg * (255 - alpha) >= 0) by (nonlinear_arith)
        requires
            bg >= 0,
            alpha <= 255,
    ;
    assert(fg * alpha >= 0) by (nonlinear_arith)
        requires
            fg >= 0,
            alpha >= 0,
    ;
    assert(255 * (255 - alpha) + 255 * alpha == 255 * 255) by (nonlinear_arith);
}

/// Law: blitting a fully transparent texture pixel leaves the
/// destination's color channels unchanged, and blitting a fully opaque
/// one replaces them exactly with the texture's color channels; in both
/// cases the destination's high byte is left zero.
pub proof fn lemma_blend_extremes(bg: u32, fg: u32)
    ensures
        chan_a(fg) == 0 ==> blend_pixel(bg, fg) == bg % 0x1000000,
        chan_a(fg) == 255 ==> blend_pixel(bg, fg) == fg % 0x1000000,
{
    if chan_a(fg) == 0 {
        lemma_div_multiples_vanish(chan_r(bg), 255);
        lemma_div_multiples_vanish(chan_g(bg), 255);
        lemma_div_multiples_vanish(chan_b(bg), 255);
        assert(chan_r(bg) * 255 == 255 * chan_r(bg)) by (nonlinear_arith);
        assert(chan_g(bg) * 255 == 255 * chan_g(bg)) by (nonlinear_arith);
        assert(chan_b(bg) * 255 == 255 * chan_b(bg)) by (nonlinear_arith);
        assert(blend_channel(chan_r(bg), chan_r(fg), 0) == chan_r(bg));
        assert(blend_channel(chan_g(bg), chan_g(fg), 0) == chan_g(bg));
        assert(blend_channel(chan_b(bg), chan_b(fg), 0) == chan_b(bg));
        assert(bg % 0x1000000 == chan_r(bg) * 0x10000 + chan_g(bg) * 0x100 + chan_b(bg))
            by (bit_vector);
    }
    if chan_a(fg) == 255 {
        lemma_div_multiples_vanish(chan_r(fg), 255);
        lemma_div_multiples_vanish(chan_g(fg), 255);
        lemma_div_multiples_vanish(chan_b(fg), 255);
        assert(chan_r(fg) * 255 == 255 * chan_r(fg)) by (nonlinear_arith);
        assert(chan_g(fg) * 255 == 255 * chan_g(fg)) by (nonlinear_arith);
        assert(chan_b(fg) * 255 == 255 * chan_b(fg)) by (nonlinear_arith);
        assert(blend_channel(chan_r(bg), chan_r(fg), 255) == chan_r(fg));
        assert(blend_channel(chan_g(bg), chan_g(fg), 255) == chan_g(fg));
        assert(blend_channel(chan_b(bg), chan_b(fg), 255) == chan_b(fg));
        assert(fg % 0x1000000 == chan_r(fg) * 0x10000 + chan_g(fg) * 0x100 + chan_b(fg))
            by (bit_vector);
    }
}

/// Blends one destination pixel with one texture pixel.
fn blend_one(bg: u32, fg: u32) -> (r: u32)
    ensures
        r == blend_pixel(bg, fg),
{
    let alpha = fg / 0x1000000;
    let bg_r = (bg / 0x10000) % 0x100;
    let bg_g = (bg / 0x100) % 0x100;
    let bg_b = bg % 0x100;
    let fg_r = (fg / 0x10000) % 0x100;
    let fg_g = (fg / 0x100) % 0x100;
    let fg_b = fg % 0x100;
    proof {
        lemma_blend_channel_range(bg_r as int, fg_r as int, alpha as int);
        lemma_blend_channel_range(bg_g as int, fg_g as int, alpha as int);
        lemma_blend_channel_range(bg_b as int, fg_b as int, alpha as int);
        lemma_mul_upper_bound(bg_r as int, 255, 255 - alpha, 255);
        lemma_mul_upper_bound(fg_r as int, 255, alpha as int, 255);
        lemma_mul_upper_bound(bg_g as int, 255, 255 - alpha, 255);
        lemma_mul_upper_bound(fg_g as int, 255, alpha as int, 255);
        lemma_mul_upper_bound(bg_b as int, 255, 255 - alpha, 255);
        lemma_mul_upper_bound(fg_b as int, 255, alpha as int, 255);
    }
    let r = (bg_r * (255 - alpha) + fg_r * alpha) / 255;
    let g = (bg_g * (255 - alpha) + fg_g * alpha) / 255;
    let b = (bg_b * (255 - alpha) + fg_b * alpha) / 255;
    r * 0x10000 + g * 0x100 + b
}

/// Blits the texture at the given position with per-pixel alpha
/// blending, clipped to the frame; pixels outside the clipped region
/// are untouched, and alpha is not written back.
pub fn draw_texture(frame: &mut Frame, texture: &Texture, pos_x: usize, pos_y: usize)
    requires
        old(frame).wf(),
        texture.wf(),
    ensures
        final(frame).wf(),
        final(frame).width == old(frame).width,
        final(frame).height == old(frame).height,
        forall|x: int, y: int|
            0 <= x < old(frame).width && 0 <= y < old(frame).height ==> at(
                final(frame).pixels@,
                old(frame).width as int,
                x,
                y,
            ) == if pos_x <= x < clip(pos_x as int, texture.width as int, old(frame).width as int)
                && pos_y <= y < clip(
                pos_y as int,
                texture.height as int,
                old(frame).height as int,
            ) {
                blend_pixel(
                    at(old(frame).pixels@, old(frame).width as int, x, y),
                    at(texture.bitmap@, texture.width as int, x - pos_x, y - pos_y),
                )
            } else {
                at(old(frame).pixels@, old(frame).width as int, x, y)
            },
{
    let w = frame.width;
    let h = frame.height;
    let tw = texture.width;
    let th = texture.height;
    let ghost orig = frame.pixels@;
    let total_pixels = frame.pixels.len();
    let t_total = texture.bitmap.len();
    let x_end = clip_end(pos_x, tw, w);
    let y_end = clip_end(pos_y, th, h);
    let mut y = pos_y;
    while y < y_end
        invariant
            frame.width == w,
            frame.height == h,
            frame.wf(),
            frame.pixels@.len() == total_pixels,
            texture.wf(),
            texture.bitmap@.len() == t_total,
            tw == texture.width,
            th == texture.height,
            x_end == clip(pos_x as int, tw as int, w as int),
            y_end == clip(pos_y as int, th as int, h as int),
            y_end <= h,
            pos_y <= y,
            y <= y_end || y == pos_y,
            forall|xx: int, yy: int|
                0 <= xx < w && 0 <= yy < h ==> at(frame.pixels@, w as int, xx, yy) == if pos_x <= xx
                    < x_end && pos_y <= yy < y {
                    blend_pixel(
                        at(orig, w as int, xx, yy),
                        at(texture.bitmap@, tw as int, xx - pos_x, yy - pos_y),
                    )
                } else {
                    at(orig, w as int, xx, yy)
                },
        decreases y_end - y,
    {
        let mut x = pos_x;
        while x < x_end
            invariant
                frame.width == w,
                frame.height == h,
                frame.wf(),
                frame.pixels@.len() == total_pixels,
                texture.wf(),
                texture.bitmap@.len() == t_total,
                tw == texture.width,
                th == texture.height,
                x_end == clip(pos_x as int, tw as int, w as int),
                x_end <= w,
                pos_y <= y < y_end,
                y_end == clip(pos_y as int, th as int, h as int),
                y_end <= h,
                pos_x <= x,
                x <= x_end || x == pos_x,
                forall|xx: int, yy: int|
                    0 <= xx < w && 0 <= yy < h ==> at(frame.pixels@, w as int, xx, yy) == if (pos_x
                        <= xx < x_end && pos_y <= yy < y) || (yy == y && pos_x <= xx < x) {
                        blend_pixel(
                            at(orig, w as int, xx, yy),
                            at(texture.bitmap@, tw as int, xx - pos_x, yy - pos_y),
                        )
                    } else {
                        at(orig, w as int, xx, yy)
                    },
            decreases x_end - x,
        {
            proof {
                lemma_row_major_index(w as int, h as int, x as int, y as int);
                lemma_row_major_index(tw as int, th as int, x - pos_x, y - pos_y);
            }
            let idx = y * w + x;
            let t_idx = (y - pos_y) * tw + (x - pos_x);
            let bg = frame.pixels[idx];
            let fg = texture.bitmap[t_idx];
            let blended = blend_one(bg, fg);
            let ghost pix_before = frame.pixels@;
            proof {
                assert(bg == at(pix_before, w as int, x as int, y as int));
                assert(fg == at(texture.bitmap@, tw as int, x - pos_x, y - pos_y));
                assert(at(pix_before, w as int, x as int, y as int) == at(
                    orig,
                    w as int,
                    x as int,
                    y as int,
                ));
            }
            frame.pixels.set(idx, blended);
            proof {
                assert forall|xx: int, yy: int|
                    0 <= xx < w && 0 <= yy < h && !(xx == x && yy == y) implies at(
                    frame.pixels@,
                    w as int,
                    xx,
                    yy,
                ) == at(pix_before, w as int, xx, yy) by {
                    lemma_row_major_index(w as int, h as int, xx, yy);
                    lemma_row_major_distinct(w as int, xx, yy, x as int, y as int);
                }
                assert(at(frame.pixels@, w as int, x as int, y as int) == blend_pixel(
                    at(orig, w as int, x as int, y as int),
                    at(texture.bitmap@, tw as int, x - pos_x, y - pos_y),
                ));
                assert forall|xx: int, yy: int| 0 <= xx < w && 0 <= yy < h implies at(
                    frame.pixels@,
                    w as int,
                    xx,
                    yy,
                ) == (if (pos_x <= xx < x_end && pos_y <= yy < y) || (yy == y && pos_x <= xx < x
                    + 1) {
                    blend_pixel(
                        at(orig, w as int, xx, yy),
                        at(texture.bitmap@, tw as int, xx - pos_x, yy - pos_y),
                    )
                } else {
                    at(orig, w as int, xx, yy)
                }) by {
                    if !(xx == x && yy == y) {
                        lemma_row_major_index(w as int, h as int, xx, yy);
                        lemma_row_major_distinct(w as int, xx, yy, x as int, y as int);
                        assert(at(pix_before, w as int, xx, yy) == (if (pos_x <= xx < x_end
                            && pos_y <= yy < y) || (yy == y && pos_x <= xx < x) {
                            blend_pixel(
                                at(orig, w as int, xx, yy),
                                at(texture.bitmap@, tw as int, xx - pos_x, yy - pos_y),
                            )
                        } else {
                            at(orig, w as int, xx, yy)
                        }));
                    }
                }
            }
            x = x + 1;
        }
        y = y + 1;
    }
}

} // verus!
