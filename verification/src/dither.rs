use crate::draw::{clip, clip_end, lemma_row_major_index, Frame};
use vstd::arithmetic::mul::lemma_mul_upper_bound;
use vstd::prelude::*;
use vstd::wrapping::u32_specs;

verus! {

/// The fixed, ordered 8-color palette the quantizer reduces to: black,
/// red, green, yellow, blue, magenta, cyan, white.
pub open spec fn palette() -> Seq<u32> {
    seq![
        0x000000u32,
        0xff0000u32,
        0x00ff00u32,
        0xffff00u32,
        0x0000ffu32,
        0xff00ffu32,
        0x00ffffu32,
        0xffffffu32,
    ]
}

/// A non-negative difference: `a - b`, never below zero.
pub open spec fn sat_sub(a: int, b: int) -> int {
    if a >= b {
        a - b
    } else {
        0
    }
}

/// The red bits of a packed pixel, kept in place (bits 16 through 23).
pub open spec fn red_bits(p: u32) -> int {
    ((p as int / 0x10000) % 0x100) * 0x10000
}

/// The green bits of a packed pixel, kept in place (bits 8 through 15).
pub open spec fn green_bits(p: u32) -> int {
    ((p as int / 0x100) % 0x100) * 0x100
}

/// The blue bits of a packed pixel (bits 0 through 7).
pub open spec fn blue_bits(p: u32) -> int {
    p as int % 0x100
}

/// The quantizer's squared color distance. Each channel difference is a
/// saturating subtraction of the pixel's channel bits minus the palette
/// entry's channel bits, both kept in their packed positions: it
/// measures only how much a channel must be reduced to reach the
/// palette color, never how much it must be raised.
pub open spec fn color_distance(p: u32, c: u32) -> int {
    let rd = sat_sub(red_bits(p), red_bits(c));
    let gd = sat_sub(green_bits(p), green_bits(c));
    let bd = sat_sub(blue_bits(p), blue_bits(c));
    rd * rd + gd * gd + bd * bd
}

/// The palette scan from entry `i` on, carrying the best entry so far
/// and its distance; a later entry wins only with a strictly smaller
/// distance.
pub open spec fn closest_from(p: u32, i: int, best: u32, best_d: int) -> u32
    decreases 8 - i,
{
    if i < 0 || i >= 8 {
        best
    } else {
        let c = palette()[i];
        let d = color_distance(p, c);
        if d < best_d {
            closest_from(p, i + 1, c, d)
        } else {
            closest_from(p, i + 1, best, best_d)
        }
    }
}

/// The palette color the quantizer replaces `p` with: the first entry
/// attaining the smallest distance in palette order, starting from
/// black with a sentinel distance just above the largest unshifted
/// per-byte distance.
pub open spec fn closest_palette_color(p: u32) -> u32 {
    closest_from(p, 0, 0u32, (255 * 255 * 3 + 1) as int)
}

/// The palette entry at index `i`.
fn palette_color(i: usize) -> (c: u32)
    requires
        i < 8,
    ensures
        c == palette()[i as int],
{
    if i == 0 {
        0x000000
    } else if i == 1 {
        0xff0000
    } else if i == 2 {
        0x00ff00
    } else if i == 3 {
        0xffff00
    } else if i == 4 {
        0x0000ff
    } else if i == 5 {
        0xff00ff
    } else if i == 6 {
        0x00ffff
    } else {
        0xffffff
    }
}

/// Scans the palette for the color closest to `pixel` under the
/// quantizer's saturating distance, keeping the earliest entry on ties.
pub fn find_closest_palette_color(pixel: u32) -> (r: u32)
    ensures
        r == closest_palette_color(pixel),
{
    let mut nearest_color: u32 = 0;
    let mut minimum_distance: u64 = 255 * 255 + 255 * 255 + 255 * 255 + 1;
    let mut i: usize = 0;
    while i < 8
        invariant
            i <= 8,
            closest_from(pixel, i as int, nearest_color, minimum_distance as int)
                == closest_palette_color(pixel),
        decreases 8 - i,
    {
        let c = palette_color(i);
        let pr = ((pixel / 0x10000) % 0x100) * 0x10000;
        let cr = ((c / 0x10000) % 0x100) * 0x10000;
        let pg = ((pixel / 0x100) % 0x100) * 0x100;
        let cg = ((c / 0x100) % 0x100) * 0x100;
        let pb = pixel % 0x100;
        let cb = c % 0x100;
        let rd: u32 = if pr >= cr {
            pr - cr
        } else {
            0
        };
        let gd: u32 = if pg >= cg {
            pg - cg
        } else {
            0
        };
        let bd: u32 = if pb >= cb {
            pb - cb
        } else {
            0
        };
        proof {
            lemma_mul_upper_bound(rd as int, 0xff0000, rd as int, 0xff0000);
            lemma_mul_upper_bound(gd as int, 0xff00, gd as int, 0xff00);
            lemma_mul_upper_bound(bd as int, 0xff, bd as int, 0xff);
        }
        let d: u64 = (rd as u64) * (rd as u64) + (gd as u64) * (gd as u64) + (bd as u64) * (
        bd as u64);
        proof {
            assert(d == color_distance(pixel, c));
        }
        let ghost prev_nearest = nearest_color;
        let ghost prev_min = minimum_distance;
        if d < minimum_distance {
            minimum_distance = d;
            nearest_color = c;
        }
        proof {
            assert(closest_from(pixel, i as int, prev_nearest, prev_min as int) == closest_from(
                pixel,
                i + 1,
                nearest_color,
                minimum_distance as int,
            ));
        }
        i = i + 1;
    }
    nearest_color
}

/// The quantization error diffused into a neighbor: the error scaled by
/// `num / 16` is added with wrapping arithmetic, as is the scaling
/// product itself.
pub open spec fn diffuse(pix: u32, err: u32, num: u32) -> u32 {
    u32_specs::wrapping_add(pix, (u32_specs::wrapping_mul(err, num) / 16) as u32)
}

/// One quantize-and-diffuse step at cell (x, y) of a `fw` by `fh` grid:
/// the pixel is replaced by its closest palette color, and the
/// quantization error (a saturating packed difference) is spread to the
/// four Floyd-Steinberg neighbors that lie within the buffer — 7/16
/// right, 3/16 below-left, 5/16 below, 1/16 below-right.
pub open spec fn dither_cell(pix: Seq<u32>, fw: int, fh: int, x: int, y: int) -> Seq<u32> {
    let idx = y * fw + x;
    let old_p = pix[idx];
    let new_p = closest_palette_color(old_p);
    let err = sat_sub32(old_p, new_p);
    let s1 = pix.update(idx, new_p);
    let s2 = if x < fw - 1 {
        s1.update(y * fw + x + 1, diffuse(s1[y * fw + x + 1], err, 7))
    } else {
        s1
    };
    let s3 = if x > 0 && y < fh - 1 {
        s2.update((y + 1) * fw + x - 1, diffuse(s2[(y + 1) * fw + x - 1], err, 3))
    } else {
        s2
    };
    let s4 = if y < fh - 1 {
        s3.update((y + 1) * fw + x, diffuse(s3[(y + 1) * fw + x], err, 5))
    } else {
        s3
    };
    if x < fw - 1 && y < fh - 1 {
        s4.update((y + 1) * fw + x + 1, diffuse(s4[(y + 1) * fw + x + 1], err, 1))
    } else {
        s4
    }
}

/// A saturating difference of packed pixels.
pub open spec fn sat_sub32(a: u32, b: u32) -> u32 {
    if a >= b {
        (a - b) as u32
    } else {
        0u32
    }
}

/// One dithered row: the cells from column `x` up to `x_end` of row
/// `y`, processed left to right.
pub open spec fn dither_row_fold(pix: Seq<u32>, fw: int, fh: int, y: int, x: int, x_end: int) -> Seq<
    u32,
>
    decreases x_end - x,
{
    if x >= x_end {
        pix
    } else {
        dither_row_fold(dither_cell(pix, fw, fh, x, y), fw, fh, y, x + 1, x_end)
    }
}

/// The dithered region: the rows from `y` up to `y_end`, each row's
/// cells from `x0` up to `x_end`, processed top to bottom — later cells
/// see the already-diffused errors of earlier ones.
pub open spec fn dither_fold(
    pix: Seq<u32>,
    fw: int,
    fh: int,
    x0: int,
    x_end: int,
    y: int,
    y_end: int,
) -> Seq<u32>
    decreases y_end - y,
{
    if y >= y_end {
        pix
    } else {
        dither_fold(dither_row_fold(pix, fw, fh, y, x0, x_end), fw, fh, x0, x_end, y + 1, y_end)
    }
}

/// The palette scan only ever returns a palette entry, as long as it
/// starts from one.
proof fn lemma_closest_from_in_palette(p: u32, i: int, best: u32, best_d: int)
    requires
        palette().contains(best),
    ensures
        palette().contains(closest_from(p, i, best, best_d)),
    decreases 8 - i,
{
    if 0 <= i < 8 {
        let c = palette()[i];
        assert(palette().contains(c)) by {
            assert(0 <= i < 8 && palette()[i] == c);
        }
        let d = color_distance(p, c);
        if d < best_d {
            lemma_closest_from_in_palette(p, i + 1, c, d);
        } else {
            lemma_closest_from_in_palette(p, i + 1, best, best_d);
        }
    }
}

/// The quantizer always lands on one of the eight palette colors.
pub proof fn lemma_closest_in_palette(p: u32)
    ensures
        palette().contains(closest_palette_color(p)),
{
    assert(palette().contains(0u32)) by {
        assert(palette()[0] == 0u32);
    }
    lemma_closest_from_in_palette(p, 0, 0u32, (255 * 255 * 3 + 1) as int);
}

/// One quantize-and-diffuse step keeps the buffer's length.
proof fn lemma_dither_cell_len(pix: Seq<u32>, fw: int, fh: int, x: int, y: int)
    requires
        0 <= x < fw,
        0 <= y < fh,
        pix.len() == fw * fh,
    ensures
        dither_cell(pix, fw, fh, x, y).len() == pix.len(),
{
    crate::draw::lemma_row_major_index(fw, fh, x, y);
    assert((y + 1) * fw == y * fw + fw) by (nonlinear_arith);
    if x < fw - 1 {
        crate::draw::lemma_row_major_index(fw, fh, x + 1, y);
    }
    if x > 0 && y < fh - 1 {
        crate::draw::lemma_row_major_index(fw, fh, x - 1, y + 1);
    }
    if y < fh - 1 {
        crate::draw::lemma_row_major_index(fw, fh, x, y + 1);
    }
    if x < fw - 1 && y < fh - 1 {
        crate::draw::lemma_row_major_index(fw, fh, x + 1, y + 1);
    }
}

/// One quantize-and-diffuse step writes only at its own cell and at
/// cells after it in row-major order: everything before is untouched.
proof fn lemma_dither_cell_preserves_prefix(
    pix: Seq<u32>,
    fw: int,
    fh: int,
    x: int,
    y: int,
    j: int,
)
    requires
        0 <= x < fw,
        0 <= y < fh,
        pix.len() == fw * fh,
        0 <= j < y * fw + x,
    ensures
        dither_cell(pix, fw, fh, x, y)[j] == pix[j],
{
    crate::draw::lemma_row_major_index(fw, fh, x, y);
    assert((y + 1) * fw == y * fw + fw) by (nonlinear_arith);
    if x < fw - 1 {
        crate::draw::lemma_row_major_index(fw, fh, x + 1, y);
    }
    if x > 0 && y < fh - 1 {
        crate::draw::lemma_row_major_index(fw, fh, x - 1, y + 1);
    }
    if y < fh - 1 {
        crate::draw::lemma_row_major_index(fw, fh, x, y + 1);
    }
    if x < fw - 1 && y < fh - 1 {
        crate::draw::lemma_row_major_index(fw, fh, x + 1, y + 1);
    }
    let idx = y * fw + x;
    let old_p = pix[idx];
    let new_p = closest_palette_color(old_p);
    let err = sat_sub32(old_p, new_p);
    let s1 = pix.update(idx, new_p);
    assert(s1[j] == pix[j]);
    let s2 = if x < fw - 1 {
        s1.update(idx + 1, diffuse(s1[idx + 1], err, 7))
    } else {
        s1
    };
    assert(s2[j] == s1[j]);
    let s3 = if x > 0 && y < fh - 1 {
        s2.update(idx + fw - 1, diffuse(s2[idx + fw - 1], err, 3))
    } else {
        s2
    };
    assert(s3[j] == s2[j]);
    let s4 = if y < fh - 1 {
        s3.update(idx + fw, diffuse(s3[idx + fw], err, 5))
    } else {
        s3
    };
    assert(s4[j] == s3[j]);
    let s5 = if x < fw - 1 && y < fh - 1 {
        s4.update(idx + fw + 1, diffuse(s4[idx + fw + 1], err, 1))
    } else {
        s4
    };
    assert(s5[j] == s4[j]);
    assert(dither_cell(pix, fw, fh, x, y) == s5);
}

/// One quantize-and-diffuse step leaves its own cell on a palette
/// color: the four diffusion targets all lie after it.
proof fn lemma_dither_cell_sets_palette(pix: Seq<u32>, fw: int, fh: int, x: int, y: int)
    requires
        0 <= x < fw,
        0 <= y < fh,
        pix.len() == fw * fh,
    ensures
        palette().contains(dither_cell(pix, fw, fh, x, y)[y * fw + x]),
{
    crate::draw::lemma_row_major_index(fw, fh, x, y);
    lemma_closest_in_palette(pix[y * fw + x]);
    assert((y + 1) * fw == y * fw + fw) by (nonlinear_arith);
    if x < fw - 1 {
        crate::draw::lemma_row_major_index(fw, fh, x + 1, y);
    }
    if x > 0 && y < fh - 1 {
        crate::draw::lemma_row_major_index(fw, fh, x - 1, y + 1);
    }
    if y < fh - 1 {
        crate::draw::lemma_row_major_index(fw, fh, x, y + 1);
    }
    if x < fw - 1 && y < fh - 1 {
        crate::draw::lemma_row_major_index(fw, fh, x + 1, y + 1);
    }
    let idx = y * fw + x;
    let old_p = pix[idx];
    let new_p = closest_palette_color(old_p);
    let err = sat_sub32(old_p, new_p);
    let s1 = pix.update(idx, new_p);
    assert(s1[idx] == new_p);
    let s2 = if x < fw - 1 {
        s1.update(idx + 1, diffuse(s1[idx + 1], err, 7))
    } else {
        s1
    };
    assert(s2[idx] == new_p);
    let s3 = if x > 0 && y < fh - 1 {
        s2.update(idx + fw - 1, diffuse(s2[idx + fw - 1], err, 3))
    } else {
        s2
    };
    assert(s3[idx] == new_p);
    let s4 = if y < fh - 1 {
        s3.update(idx + fw, diffuse(s3[idx + fw], err, 5))
    } else {
        s3
    };
    assert(s4[idx] == new_p);
    let s5 = if x < fw - 1 && y < fh - 1 {
        s4.update(idx + fw + 1, diffuse(s4[idx + fw + 1], err, 1))
    } else {
        s4
    };
    assert(s5[idx] == new_p);
    assert(dither_cell(pix, fw, fh, x, y) == s5);
}

/// A row's fold keeps the buffer's length.
proof fn lemma_row_fold_len(pix: Seq<u32>, fw: int, fh: int, y: int, x: int, x_end: int)
    requires
        0 <= y < fh,
        0 <= x,
        x_end <= fw,
        pix.len() == fw * fh,
    ensures
        dither_row_fold(pix, fw, fh, y, x, x_end).len() == pix.len(),
    decreases x_end - x,
{
    if x < x_end {
        lemma_dither_cell_len(pix, fw, fh, x, y);
        lemma_row_fold_len(dither_cell(pix, fw, fh, x, y), fw, fh, y, x + 1, x_end);
    }
}

/// A row's fold from column `x` on leaves everything before that
/// column's cell untouched.
proof fn lemma_row_fold_preserves_prefix(
    pix: Seq<u32>,
    fw: int,
    fh: int,
    y: int,
    x: int,
    x_end: int,
    j: int,
)
    requires
        0 <= y < fh,
        0 <= x,
        x_end <= fw,
        pix.len() == fw * fh,
        0 <= j < y * fw + x,
    ensures
        dither_row_fold(pix, fw, fh, y, x, x_end)[j] == pix[j],
    decreases x_end - x,
{
    if x < x_end {
        lemma_dither_cell_preserves_prefix(pix, fw, fh, x, y, j);
        lemma_dither_cell_len(pix, fw, fh, x, y);
        lemma_row_fold_preserves_prefix(
            dither_cell(pix, fw, fh, x, y),
            fw,
            fh,
            y,
            x + 1,
            x_end,
            j,
        );
    }
}

/// After a row's fold, every processed cell of that row holds a
/// palette color.
proof fn lemma_row_fold_quantizes(
    pix: Seq<u32>,
    fw: int,
    fh: int,
    y: int,
    x: int,
    x_end: int,
    cx: int,
)
    requires
        0 <= y < fh,
        0 <= x <= x_end <= fw,
        pix.len() == fw * fh,
        x <= cx < x_end,
    ensures
        palette().contains(dither_row_fold(pix, fw, fh, y, x, x_end)[y * fw + cx]),
    decreases x_end - x,
{
    let stepped = dither_cell(pix, fw, fh, x, y);
    lemma_dither_cell_len(pix, fw, fh, x, y);
    if cx == x {
        lemma_dither_cell_sets_palette(pix, fw, fh, x, y);
        lemma_row_fold_preserves_prefix(stepped, fw, fh, y, x + 1, x_end, y * fw + x);
    } else {
        lemma_row_fold_quantizes(stepped, fw, fh, y, x + 1, x_end, cx);
    }
}

/// The region's fold from row `y` on leaves everything before that
/// row's first processed cell untouched.
proof fn lemma_fold_preserves_prefix(
    pix: Seq<u32>,
    fw: int,
    fh: int,
    x0: int,
    x_end: int,
    y: int,
    y_end: int,
    j: int,
)
    requires
        0 <= y,
        y_end <= fh,
        0 <= x0 <= x_end <= fw,
        pix.len() == fw * fh,
        0 <= j < y * fw + x0,
    ensures
        dither_fold(pix, fw, fh, x0, x_end, y, y_end)[j] == pix[j],
    decreases y_end - y,
{
    if y < y_end {
        lemma_row_fold_preserves_prefix(pix, fw, fh, y, x0, x_end, j);
        lemma_row_fold_len(pix, fw, fh, y, x0, x_end);
        assert((y + 1) * fw == y * fw + fw) by (nonlinear_arith);
        lemma_fold_preserves_prefix(
            dither_row_fold(pix, fw, fh, y, x0, x_end),
            fw,
            fh,
            x0,
            x_end,
            y + 1,
            y_end,
            j,
        );
    }
}

/// Every processed cell of the whole region's fold holds a palette
/// color.
proof fn lemma_dither_fold_quantizes(
    pix: Seq<u32>,
    fw: int,
    fh: int,
    x0: int,
    x_end: int,
    y: int,
    y_end: int,
    cx: int,
    cy: int,
)
    requires
        0 <= y <= y_end <= fh,
        0 <= x0 <= x_end <= fw,
        pix.len() == fw * fh,
        x0 <= cx < x_end,
        y <= cy < y_end,
    ensures
        palette().contains(dither_fold(pix, fw, fh, x0, x_end, y, y_end)[cy * fw + cx]),
    decreases y_end - y,
{
    let rowed = dither_row_fold(pix, fw, fh, y, x0, x_end);
    lemma_row_fold_len(pix, fw, fh, y, x0, x_end);
    if cy == y {
        lemma_row_fold_quantizes(pix, fw, fh, y, x0, x_end, cx);
        assert((y + 1) * fw == y * fw + fw) by (nonlinear_arith);
        lemma_fold_preserves_prefix(rowed, fw, fh, x0, x_end, y + 1, y_end, cy * fw + cx);
    } else {
        lemma_dither_fold_quantizes(rowed, fw, fh, x0, x_end, y + 1, y_end, cx, cy);
    }
}

/// Law: dithering quantizes its region — after `dither`, every pixel
/// inside the clipped region holds one of the eight palette colors.
/// (The diffused error lands on later cells, each of which is itself
/// quantized before the pass ends.)
pub proof fn lemma_dither_region_on_palette(
    pix: Seq<u32>,
    fw: int,
    fh: int,
    x: int,
    y: int,
    width: int,
    height: int,
    cx: int,
    cy: int,
)
    requires
        pix.len() == fw * fh,
        0 <= x,
        0 <= y,
        x <= cx < clip(x, width, fw),
        y <= cy < clip(y, height, fh),
    ensures
        palette().contains(
            dither_fold(pix, fw, fh, x, clip(x, width, fw), y, clip(y, height, fh))[cy * fw + cx],
        ),
{
    lemma_dither_fold_quantizes(
        pix,
        fw,
        fh,
        x,
        clip(x, width, fw),
        y,
        clip(y, height, fh),
        cx,
        cy,
    );
}

/// Law: dithering a full-width region that runs to the bottom of the
/// buffer writes nothing above it. (For an interior region this fails:
/// error diffusion crosses the region's right, left-below and bottom
/// boundary by one cell, so only a region closed on those sides keeps
/// every write inside.)
pub proof fn lemma_dither_full_width_stays_inside(
    pix: Seq<u32>,
    fw: int,
    fh: int,
    y0: int,
    j: int,
)
    requires
        0 <= y0,
        0 <= fw,
        pix.len() == fw * fh,
        0 <= j < y0 * fw,
    ensures
        dither_fold(pix, fw, fh, 0, fw, y0, fh)[j] == pix[j],
{
    lemma_fold_preserves_prefix(pix, fw, fh, 0, fw, y0, fh, j);
}

/// Quantizes the clipped region to the fixed palette with
/// Floyd-Steinberg error diffusion, in place, row-major. The result is
/// exactly the `dither_fold` of the old pixels over the clipped region.
#[verifier::rlimit(60)]
pub fn dither(frame: &mut Frame, x: usize, y: usize, width: usize, height: usize)
    requires
        old(frame).wf(),
    ensures
        final(frame).wf(),
        final(frame).width == old(frame).width,
        final(frame).height == old(frame).height,
        final(frame).pixels@ == dither_fold(
            old(frame).pixels@,
            old(frame).width as int,
            old(frame).height as int,
            x as int,
            clip(x as int, width as int, old(frame).width as int),
            y as int,
            clip(y as int, height as int, old(frame).height as int),
        ),
{
    let w = frame.width;
    let h = frame.height;
    let total_pixels = frame.pixels.len();
    let ghost orig = frame.pixels@;
    let x_end = clip_end(x, width, w);
    let y_end = clip_end(y, height, h);
    let mut yy = y;
    while yy < y_end
        invariant
            frame.width == w,
            frame.height == h,
            frame.wf(),
            frame.pixels@.len() == total_pixels,
            x_end == clip(x as int, width as int, w as int),
            y_end == clip(y as int, height as int, h as int),
            x_end <= w,
            y_end <= h,
            y <= yy,
            yy <= y_end || yy == y,
            dither_fold(orig, w as int, h as int, x as int, x_end as int, y as int, y_end as int)
                == dither_fold(
                frame.pixels@,
                w as int,
                h as int,
                x as int,
                x_end as int,
                yy as int,
                y_end as int,
            ),
        decreases y_end - yy,
    {
        let ghost row_start_pix = frame.pixels@;
        let mut xx = x;
        while xx < x_end
            invariant
                frame.width == w,
                frame.height == h,
                frame.wf(),
                frame.pixels@.len() == total_pixels,
                x_end == clip(x as int, width as int, w as int),
                x_end <= w,
                y <= yy < y_end <= h,
                x <= xx,
                xx <= x_end || xx == x,
                dither_row_fold(row_start_pix, w as int, h as int, yy as int, x as int, x_end as int)
                    == dither_row_fold(
                    frame.pixels@,
                    w as int,
                    h as int,
                    yy as int,
                    xx as int,
                    x_end as int,
                ),
            decreases x_end - xx,
        {
            proof {
                lemma_row_major_index(w as int, h as int, xx as int, yy as int);
            }
            let ghost s0 = frame.pixels@;
            let idx = yy * w + xx;
            let old_p = frame.pixels[idx];
            let new_p = find_closest_palette_color(old_p);
            frame.pixels.set(idx, new_p);
            let err: u32 = if old_p >= new_p {
                old_p - new_p
            } else {
                0
            };
            let ghost s1 = s0.update(yy * w + xx, new_p);
            proof {
                assert(old_p == s0[yy * w + xx]);
                assert(err == sat_sub32(old_p, new_p));
                assert(frame.pixels@ == s1);
            }
            let ghost s2 = if (xx as int) < w - 1 {
                s1.update(yy * w + xx + 1, diffuse(s1[yy * w + xx + 1], err, 7))
            } else {
                s1
            };
            if xx < w - 1 {
                proof {
                    lemma_row_major_index(w as int, h as int, xx + 1, yy as int);
                }
                let nidx = yy * w + (xx + 1);
                let cur = frame.pixels[nidx];
                frame.pixels.set(nidx, cur.wrapping_add(err.wrapping_mul(7) / 16));
            }
            proof {
                assert(frame.pixels@ == s2);
            }
            let ghost s3 = if (xx as int) > 0 && (yy as int) < h - 1 {
                s2.update((yy + 1) * w + xx - 1, diffuse(s2[(yy + 1) * w + xx - 1], err, 3))
            } else {
                s2
            };
            if xx > 0 && yy < h - 1 {
                proof {
                    lemma_row_major_index(w as int, h as int, xx - 1, yy + 1);
                }
                let nidx = (yy + 1) * w + (xx - 1);
                let cur = frame.pixels[nidx];
                frame.pixels.set(nidx, cur.wrapping_add(err.wrapping_mul(3) / 16));
            }
            proof {
                assert(frame.pixels@ == s3);
            }
            let ghost s4 = if (yy as int) < h - 1 {
                s3.update((yy + 1) * w + xx, diffuse(s3[(yy + 1) * w + xx], err, 5))
            } else {
                s3
            };
            if yy < h - 1 {
                proof {
                    lemma_row_major_index(w as int, h as int, xx as int, yy + 1);
                }
                let nidx = (yy + 1) * w + xx;
                let cur = frame.pixels[nidx];
                frame.pixels.set(nidx, cur.wrapping_add(err.wrapping_mul(5) / 16));
            }
            proof {
                assert(frame.pixels@ == s4);
            }
            let ghost s5 = if (xx as int) < w - 1 && (yy as int) < h - 1 {
                s4.update((yy + 1) * w + xx + 1, diffuse(s4[(yy + 1) * w + xx + 1], err, 1))
            } else {
                s4
            };
            if xx < w - 1 && yy < h - 1 {
                proof {
                    lemma_row_major_index(w as int, h as int, xx + 1, yy + 1);
                }
                let nidx = (yy + 1) * w + (xx + 1);
                let cur = frame.pixels[nidx];
                frame.pixels.set(nidx, cur.wrapping_add(err.wrapping_mul(1) / 16));
            }
            proof {
                assert(frame.pixels@ == s5);
                assert(s5 == dither_cell(s0, w as int, h as int, xx as int, yy as int));
            }
            xx = xx + 1;
        }
        yy = yy + 1;
    }
}

} // verus!
