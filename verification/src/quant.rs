//! Pixel-to-glyph quantization, CPU path: sample a 2x4 pixel block into a 2x2
//! quadrant of colors, then partition the quadrant into two color clusters and
//! pick the quadrant-block glyph whose shape matches the bright cluster.

use vstd::prelude::*;
use crate::gfx::{avg_color, Color};

verus! {

/// Four sub-sampled colors of one cell's pixel block:
/// (top-left, top-right, bottom-right, bottom-left).
pub type Quadrant = (Color, Color, Color, Color);

/// Sum of the three channels; the brightness used to split the quadrant.
pub open spec fn luminance_of(c: Color) -> int {
    c.r + c.g + c.b
}

/// One of the four quadrant colors, counter-clockwise from top-left.
pub open spec fn quad_sel(q: Quadrant, k: int) -> Color {
    if k == 0 {
        q.0
    } else if k == 1 {
        q.1
    } else if k == 2 {
        q.2
    } else {
        q.3
    }
}

/// The brightness threshold: the mean luminance of the four quadrant colors.
pub open spec fn quad_threshold(q: Quadrant) -> int {
    (luminance_of(q.0) + luminance_of(q.1) + luminance_of(q.2) + luminance_of(q.3)) / 4
}

/// Whether quadrant color `k` belongs to the bright (foreground) cluster.
pub open spec fn quad_bit(q: Quadrant, k: int) -> bool {
    luminance_of(quad_sel(q, k)) > quad_threshold(q)
}

pub open spec fn bool_to_int(b: bool) -> int {
    if b {
        1
    } else {
        0
    }
}

/// How many quadrant colors fall in the bright cluster (never all four:
/// no value is strictly above the mean when all are equal to it).
pub open spec fn fg_count(q: Quadrant) -> int {
    bool_to_int(quad_bit(q, 0)) + bool_to_int(quad_bit(q, 1)) + bool_to_int(quad_bit(q, 2))
        + bool_to_int(quad_bit(q, 3))
}

/// Bitmask of the bright cluster: top-left = 1, top-right = 2,
/// bottom-right = 4, bottom-left = 8.
pub open spec fn quad_mask(q: Quadrant) -> int {
    bool_to_int(quad_bit(q, 0)) + 2 * bool_to_int(quad_bit(q, 1)) + 4 * bool_to_int(
        quad_bit(q, 2),
    ) + 8 * bool_to_int(quad_bit(q, 3))
}

/// Sum of the red channels over the quadrant colors in the chosen cluster.
pub open spec fn cluster_sum_r(q: Quadrant, want: bool) -> int {
    (if quad_bit(q, 0) == want {
        q.0.r as int
    } else {
        0
    }) + (if quad_bit(q, 1) == want {
        q.1.r as int
    } else {
        0
    }) + (if quad_bit(q, 2) == want {
        q.2.r as int
    } else {
        0
    }) + (if quad_bit(q, 3) == want {
        q.3.r as int
    } else {
        0
    })
}

/// Sum of the green channels over the quadrant colors in the chosen cluster.
pub open spec fn cluster_sum_g(q: Quadrant, want: bool) -> int {
    (if quad_bit(q, 0) == want {
        q.0.g as int
    } else {
        0
    }) + (if quad_bit(q, 1) == want {
        q.1.g as int
    } else {
        0
    }) + (if quad_bit(q, 2) == want {
        q.2.g as int
    } else {
        0
    }) + (if quad_bit(q, 3) == want {
        q.3.g as int
    } else {
        0
    })
}

/// Sum of the blue channels over the quadrant colors in the chosen cluster.
pub open spec fn cluster_sum_b(q: Quadrant, want: bool) -> int {
    (if quad_bit(q, 0) == want {
        q.0.b as int
    } else {
        0
    }) + (if quad_bit(q, 1) == want {
        q.1.b as int
    } else {
        0
    }) + (if quad_bit(q, 2) == want {
        q.2.b as int
    } else {
        0
    }) + (if quad_bit(q, 3) == want {
        q.3.b as int
    } else {
        0
    })
}

/// The mean color of the chosen cluster, assuming it has `n` members.
pub open spec fn cluster_color(q: Quadrant, want: bool, n: int) -> Color {
    Color {
        r: (cluster_sum_r(q, want) / n) as u8,
        g: (cluster_sum_g(q, want) / n) as u8,
        b: (cluster_sum_b(q, want) / n) as u8,
    }
}

/// The background color: the mean of the dim cluster (always non-empty).
pub open spec fn quant_background(q: Quadrant) -> Color {
    cluster_color(q, false, 4 - fg_count(q))
}

/// The foreground color: the mean of the bright cluster, or the background
/// color when every quadrant color is dim.
pub open spec fn quant_foreground(q: Quadrant) -> Color {
    if fg_count(q) == 0 {
        quant_background(q)
    } else {
        cluster_color(q, true, fg_count(q))
    }
}

/// The quadrant-block glyph whose filled quarters are the mask's set bits.
pub open spec fn glyph_for_mask(m: int) -> u32 {
    if m == 0 {
        0x20  // space
    } else if m == 1 {
        0x2598  // quadrant upper left
    } else if m == 2 {
        0x259D  // quadrant upper right
    } else if m == 3 {
        0x2580  // upper half block
    } else if m == 4 {
        0x2597  // quadrant lower right
    } else if m == 5 {
        0x259A  // quadrant upper left and lower right
    } else if m == 6 {
        0x2590  // right half block
    } else if m == 7 {
        0x259C  // quadrant upper left and upper right and lower right
    } else if m == 8 {
        0x2596  // quadrant lower left
    } else if m == 9 {
        0x258C  // left half block
    } else if m == 10 {
        0x259E  // quadrant upper right and lower left
    } else if m == 11 {
        0x259B  // quadrant upper left and upper right and lower left
    } else if m == 12 {
        0x2584  // lower half block
    } else if m == 13 {
        0x2599  // quadrant upper left and lower left and lower right
    } else if m == 14 {
        0x259F  // quadrant upper right and lower left and lower right
    } else {
        0x2588  // full block
    }
}

pub open spec fn quant_codepoint(q: Quadrant) -> u32 {
    glyph_for_mask(quad_mask(q))
}

/// The full quantization of one quadrant: glyph, background, foreground.
pub open spec fn quantize_spec(q: Quadrant) -> (u32, Color, Color) {
    (quant_codepoint(q), quant_background(q), quant_foreground(q))
}

/// Quantization is a pure function of the quadrant: equal 2x2 color blocks
/// always yield the same (glyph, background, foreground) triple.
pub proof fn lemma_quantization_deterministic(a: Quadrant, b: Quadrant)
    requires
        a == b,
    ensures
        quantize_spec(a) == quantize_spec(b),
{
}

/// Look up the quadrant-block glyph for a 4-bit brightness mask.
fn glyph_lookup(mask: u32) -> (r: u32)
    requires
        mask <= 15,
    ensures
        r == glyph_for_mask(mask as int),
{
    if mask == 0 {
        0x20
    } else if mask == 1 {
        0x2598
    } else if mask == 2 {
        0x259D
    } else if mask == 3 {
        0x2580
    } else if mask == 4 {
        0x2597
    } else if mask == 5 {
        0x259A
    } else if mask == 6 {
        0x2590
    } else if mask == 7 {
        0x259C
    } else if mask == 8 {
        0x2596
    } else if mask == 9 {
        0x258C
    } else if mask == 10 {
        0x259E
    } else if mask == 11 {
        0x259B
    } else if mask == 12 {
        0x2584
    } else if mask == 13 {
        0x2599
    } else if mask == 14 {
        0x259F
    } else {
        0x2588
    }
}

/// Map a 2x2 quadrant of colors to a glyph plus the two cluster colors that
/// best approximate it: background from the dim cluster, foreground from the
/// bright one.
#[verifier::rlimit(80)]
pub fn binarize_quadrant(q: Quadrant) -> (r: (u32, Color, Color))
    ensures
        r == quantize_spec(q),
{
    let l0: u16 = q.0.r as u16 + q.0.g as u16 + q.0.b as u16;
    let l1: u16 = q.1.r as u16 + q.1.g as u16 + q.1.b as u16;
    let l2: u16 = q.2.r as u16 + q.2.g as u16 + q.2.b as u16;
    let l3: u16 = q.3.r as u16 + q.3.g as u16 + q.3.b as u16;
    let sum: u16 = l0 + l1 + l2 + l3;
    let thr: u16 = sum / 4;

    let b0 = l0 > thr;
    let b1 = l1 > thr;
    let b2 = l2 > thr;
    let b3 = l3 > thr;

    let n1: u16 = (if b0 { 1u16 } else { 0u16 }) + (if b1 { 1u16 } else { 0u16 }) + (if b2 {
        1u16
    } else {
        0u16
    }) + (if b3 { 1u16 } else { 0u16 });

    proof {
        assert(thr == quad_threshold(q));
        assert(b0 == quad_bit(q, 0));
        assert(b1 == quad_bit(q, 1));
        assert(b2 == quad_bit(q, 2));
        assert(b3 == quad_bit(q, 3));
        assert(n1 == fg_count(q));
        assert(4 * thr <= sum);
        assert(n1 < 4) by {
            if b0 && b1 && b2 && b3 {
                assert(l0 + l1 + l2 + l3 >= 4 * thr + 4);
            }
        }
    }
    let n0: u16 = 4 - n1;

    let bg_sum_r: u16 = (if !b0 { q.0.r as u16 } else { 0u16 }) + (if !b1 {
        q.1.r as u16
    } else {
        0u16
    }) + (if !b2 { q.2.r as u16 } else { 0u16 }) + (if !b3 { q.3.r as u16 } else { 0u16 });
    let bg_sum_g: u16 = (if !b0 { q.0.g as u16 } else { 0u16 }) + (if !b1 {
        q.1.g as u16
    } else {
        0u16
    }) + (if !b2 { q.2.g as u16 } else { 0u16 }) + (if !b3 { q.3.g as u16 } else { 0u16 });
    let bg_sum_b: u16 = (if !b0 { q.0.b as u16 } else { 0u16 }) + (if !b1 {
        q.1.b as u16
    } else {
        0u16
    }) + (if !b2 { q.2.b as u16 } else { 0u16 }) + (if !b3 { q.3.b as u16 } else { 0u16 });

    proof {
        assert(bg_sum_r == cluster_sum_r(q, false));
        assert(bg_sum_g == cluster_sum_g(q, false));
        assert(bg_sum_b == cluster_sum_b(q, false));
    }
    let bg = Color {
        r: (bg_sum_r / n0) as u8,
        g: (bg_sum_g / n0) as u8,
        b: (bg_sum_b / n0) as u8,
    };

    proof {
        assert(bg == quant_background(q));
    }
    let fg = if n1 == 0 {
        bg
    } else {
        let fg_sum_r: u16 = (if b0 { q.0.r as u16 } else { 0u16 }) + (if b1 {
            q.1.r as u16
        } else {
            0u16
        }) + (if b2 { q.2.r as u16 } else { 0u16 }) + (if b3 { q.3.r as u16 } else { 0u16 });
        let fg_sum_g: u16 = (if b0 { q.0.g as u16 } else { 0u16 }) + (if b1 {
            q.1.g as u16
        } else {
            0u16
        }) + (if b2 { q.2.g as u16 } else { 0u16 }) + (if b3 { q.3.g as u16 } else { 0u16 });
        let fg_sum_b: u16 = (if b0 { q.0.b as u16 } else { 0u16 }) + (if b1 {
            q.1.b as u16
        } else {
            0u16
        }) + (if b2 { q.2.b as u16 } else { 0u16 }) + (if b3 { q.3.b as u16 } else { 0u16 });
        proof {
            assert(fg_sum_r == cluster_sum_r(q, true));
            assert(fg_sum_g == cluster_sum_g(q, true));
            assert(fg_sum_b == cluster_sum_b(q, true));
        }
        Color {
            r: (fg_sum_r / n1) as u8,
            g: (fg_sum_g / n1) as u8,
            b: (fg_sum_b / n1) as u8,
        }
    };

    proof {
        assert(fg == quant_foreground(q));
    }

    let mask: u32 = (if b0 { 1u32 } else { 0u32 }) + (if b1 { 2u32 } else { 0u32 }) + (if b2 {
        4u32
    } else {
        0u32
    }) + (if b3 { 8u32 } else { 0u32 });

    proof {
        assert(mask == quad_mask(q));
    }
    let glyph: u32 = glyph_lookup(mask);

    (glyph, bg, fg)
}

/// The color of the source pixel at `(x, y)` in a BGRA8888 buffer whose rows
/// are `row_length` pixels long.
pub open spec fn pixel_at(pixels: Seq<u8>, row_length: int, x: int, y: int) -> Color {
    Color {
        r: pixels[(x + y * row_length) * 4 + 2],
        g: pixels[(x + y * row_length) * 4 + 1],
        b: pixels[(x + y * row_length) * 4 + 0],
    }
}

/// The average of the pixel at `(x, y)` and the one directly below it: one
/// sub-cell sample covering a 1x2 pixel pair.
pub open spec fn pair_at(pixels: Seq<u8>, row_length: int, x: int, y: int) -> Color {
    avg_color(pixel_at(pixels, row_length, x, y), pixel_at(pixels, row_length, x, y + 1))
}

/// The 2x2 quadrant of samples covering the 2x4 pixel block of cell
/// `(cx, cy)`, counter-clockwise from top-left.
pub open spec fn quad_at(pixels: Seq<u8>, row_length: int, cx: int, cy: int) -> Quadrant {
    (
        pair_at(pixels, row_length, 2 * cx, 4 * cy),
        pair_at(pixels, row_length, 2 * cx + 1, 4 * cy),
        pair_at(pixels, row_length, 2 * cx + 1, 4 * cy + 2),
        pair_at(pixels, row_length, 2 * cx, 4 * cy + 2),
    )
}

/// Both byte reads of a 1x2 pixel pair at `(px, py)` stay inside a buffer of
/// `pw * ph` BGRA pixels.
pub proof fn lemma_pair_bounds(pw: int, ph: int, px: int, py: int)
    by (nonlinear_arith)
    requires
        0 <= px < pw,
        0 <= py,
        py + 1 < ph,
    ensures
        (px + py * pw) * 4 + 2 < 4 * pw * ph,
        (px + (py + 1) * pw) * 4 + 2 < 4 * pw * ph,
{
}

/// Read one BGRA pixel from the buffer.
fn read_pixel(pixels: &[u8], row_length: usize, x: usize, y: usize) -> (c: Color)
    requires
        (x + y * row_length) * 4 + 2 < pixels@.len(),
    ensures
        c == pixel_at(pixels@, row_length as int, x as int, y as int),
{
    let n: usize = pixels.len();
    proof {
        assert((x + y * row_length) * 4 + 2 < n);
    }
    let base: usize = (x + y * row_length) * 4;
    Color { r: pixels[base + 2], g: pixels[base + 1], b: pixels[base + 0] }
}

/// Read and average the 1x2 vertical pixel pair at `(x, y)`.
pub fn read_pair(pixels: &[u8], row_length: usize, x: usize, y: usize) -> (c: Color)
    requires
        y < usize::MAX,
        (x + y * row_length) * 4 + 2 < pixels@.len(),
        (x + (y + 1) * row_length) * 4 + 2 < pixels@.len(),
    ensures
        c == pair_at(pixels@, row_length as int, x as int, y as int),
{
    let a = read_pixel(pixels, row_length, x, y);
    let b = read_pixel(pixels, row_length, x, y + 1);
    a.avg_with(b)
}

} // verus!
