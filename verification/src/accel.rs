//! Accelerator binding model: the renderer's view of the optional GPU
//! pipeline (its lifecycle as a state machine) and the bounds-checked copy
//! plan for moving BGRA pixels into the accelerator's input surface. The
//! foreign calls themselves live outside the library; the library decides
//! what to do and checks every offset, the caller performs the calls and
//! reports the outcome.

use vstd::prelude::*;

verus! {

/// One packed record of the accelerator's output surface, per cell:
/// background RGB, foreground RGB, padding, glyph code point.
#[derive(Clone, Copy, PartialEq, Eq, Structural, Debug)]
pub struct FttyUnicodePixel {
    pub br: u8,
    pub bg: u8,
    pub bb: u8,
    pub fr: u8,
    pub fg: u8,
    pub fb: u8,
    pub _pad: u16,
    pub codepoint: u32,
}

/// The renderer's view of the optional accelerator. A pipeline only ever
/// exists under a live context, so the variants are: no context (permanent
/// CPU fallback), a context without a pipeline, or a pipeline of the given
/// size.
#[derive(Clone, Copy, PartialEq, Eq, Structural, Debug)]
pub enum AccelState {
    Unavailable,
    NoPipeline,
    Pipeline { width: u16, height: u16 },
}

/// What the caller must do to the accelerator after a grid resize: nothing,
/// create a pipeline of the given size, or resize the existing one.
#[derive(Clone, Copy, PartialEq, Eq, Structural, Debug)]
pub enum AccelAction {
    Nothing,
    CreatePipeline { width: u16, height: u16 },
    ResizePipeline { width: u16, height: u16 },
}

/// One copy from the source pixel buffer into the accelerator's input
/// surface: byte offsets into source and destination, and a byte length.
#[derive(Clone, Copy, PartialEq, Eq, Structural, Debug)]
pub struct CopySpan {
    pub src: usize,
    pub dst: usize,
    pub len: usize,
}

/// Whether the copy plan for this region is a single bulk copy: the source
/// row stride equals the input surface's row stride of two pixels per cell.
pub open spec fn plan_is_bulk(viewport_width: int, row_length: int) -> bool {
    row_length == 2 * viewport_width
}

/// The byte length of one input-surface row: two BGRA pixels per cell.
pub open spec fn input_row_bytes(viewport_width: int) -> int {
    viewport_width * 8
}

/// The number of spans the copy plan holds for a region.
pub open spec fn plan_len(viewport_width: int, row_length: int, top: int, left: int, right: int, bottom: int) -> int {
    if right <= left || bottom <= top {
        0
    } else if plan_is_bulk(viewport_width, row_length) {
        1
    } else {
        4 * (bottom - top)
    }
}

/// The `j`-th span of the copy plan for a region. In the bulk case the whole
/// row block is one copy; otherwise each source pixel row `py` of the region
/// is copied on its own, restricted to the dirty columns.
pub open spec fn plan_span(
    viewport_width: int,
    row_length: int,
    top: int,
    left: int,
    right: int,
    bottom: int,
    j: int,
) -> CopySpan {
    if plan_is_bulk(viewport_width, row_length) {
        CopySpan {
            src: (top * 4 * input_row_bytes(viewport_width)) as usize,
            dst: (top * 4 * input_row_bytes(viewport_width)) as usize,
            len: ((bottom - top) * 4 * input_row_bytes(viewport_width)) as usize,
        }
    } else {
        let py = 4 * top + j;
        CopySpan {
            src: ((py * row_length + left * 2) * 4) as usize,
            dst: ((py * 2 * viewport_width + left * 2) * 4) as usize,
            len: ((right - left) * 8) as usize,
        }
    }
}

/// Byte bounds of one per-row span: it stays inside the source buffer of
/// `pw * ph` pixels and inside the first `py + 1` input-surface rows.
proof fn lemma_span_bounds(vw: int, pw: int, ph: int, py: int, left: int, right: int)
    by (nonlinear_arith)
    requires
        0 <= left <= right <= vw,
        2 * vw <= pw,
        0 <= py < ph,
    ensures
        (py * pw + 2 * left) * 4 + (right - left) * 8 <= 4 * pw * ph,
        (py * 2 * vw + 2 * left) * 4 + (right - left) * 8 <= 8 * vw * (py + 1),
{
}

/// The input surface of a pipeline sized to the viewport holds
/// `32 * vw * vh` bytes, which fit in the source buffer's byte count.
proof fn lemma_surface_bounds(vw: int, vh: int, pw: int, ph: int)
    by (nonlinear_arith)
    requires
        0 <= vw,
        0 <= vh,
        2 * vw <= pw,
        4 * vh <= ph,
    ensures
        32 * vw * vh <= 4 * pw * ph,
{
}

/// Compute the bounds-checked copy plan that moves the dirty region's BGRA
/// pixels from the source buffer into the input surface of a pipeline sized
/// to the viewport: one bulk copy when the strides match, one copy per
/// source pixel row otherwise. Every span stays inside a source buffer of
/// `pixels_size` pixels and inside the input surface's bytes.
pub fn plan_input_copy(
    viewport: crate::gfx::Size,
    pixels_size: crate::gfx::Size,
    top: usize,
    left: usize,
    right: usize,
    bottom: usize,
) -> (plan: Vec<CopySpan>)
    requires
        left <= right <= viewport.width,
        top <= bottom <= viewport.height,
        2 * viewport.width <= pixels_size.width,
        4 * viewport.height <= pixels_size.height,
        16 * pixels_size.width * pixels_size.height <= usize::MAX,
    ensures
        plan@.len() == plan_len(
            viewport.width as int,
            pixels_size.width as int,
            top as int,
            left as int,
            right as int,
            bottom as int,
        ),
        forall|j: int|
            0 <= j < plan@.len() ==> #[trigger] plan@[j] == plan_span(
                viewport.width as int,
                pixels_size.width as int,
                top as int,
                left as int,
                right as int,
                bottom as int,
                j,
            ),
        forall|j: int|
            0 <= j < plan@.len() ==> (#[trigger] plan@[j]).src + plan@[j].len <= 4
                * pixels_size.width * pixels_size.height,
        forall|j: int|
            0 <= j < plan@.len() ==> (#[trigger] plan@[j]).dst + plan@[j].len <= 32
                * viewport.width * viewport.height,
{
    let ghost vw_i = viewport.width as int;
    let ghost vh_i = viewport.height as int;
    let ghost pw_i = pixels_size.width as int;
    let ghost ph_i = pixels_size.height as int;
    proof {
        lemma_surface_bounds(vw_i, vh_i, pw_i, ph_i);
    }

    let mut plan: Vec<CopySpan> = Vec::new();
    if right <= left || bottom <= top {
        return plan;
    }
    proof {
        assert(8 * vw_i <= usize::MAX && 32 * vw_i * vh_i <= usize::MAX && 4 * pw_i * ph_i
            <= usize::MAX && 2 * ph_i <= usize::MAX) by (nonlinear_arith)
            requires
                1 <= vw_i,
                1 <= vh_i,
                2 * vw_i <= pw_i,
                4 * vh_i <= ph_i,
                16 * pw_i * ph_i <= usize::MAX,
        ;
    }
    let vw: usize = viewport.width as usize;
    let rl: usize = pixels_size.width as usize;
    let row_bytes: usize = vw * 8;

    if rl == 2 * vw {
        // Strides match: the whole row block is one contiguous copy.
        proof {
            assert(top * 4 * (vw_i * 8) + (bottom - top) * 4 * (vw_i * 8) <= 32 * vw_i * vh_i)
                by (nonlinear_arith)
                requires
                    0 <= top <= bottom <= vh_i,
                    0 <= vw_i,
            ;
        }
        let start: usize = top * 4 * row_bytes;
        let len: usize = (bottom - top) * 4 * row_bytes;
        plan.push(CopySpan { src: start, dst: start, len });
        return plan;
    }

    // Strides differ: copy each source pixel row of the region on its own,
    // restricted to the dirty columns.
    let rows: usize = 4 * (bottom - top);
    let copy_bytes: usize = (right - left) * 8;
    let mut j: usize = 0;
    while j < rows
        invariant
            0 <= left < right <= vw_i,
            0 <= top < bottom <= vh_i,
            2 * vw_i <= pw_i,
            4 * vh_i <= ph_i,
            16 * pw_i * ph_i <= usize::MAX,
            32 * vw_i * vh_i <= 4 * pw_i * ph_i,
            8 * vw_i <= usize::MAX,
            32 * vw_i * vh_i <= usize::MAX,
            4 * pw_i * ph_i <= usize::MAX,
            2 * ph_i <= usize::MAX,
            vw_i == vw,
            pw_i == rl,
            rl != 2 * vw,
            rows == 4 * (bottom - top),
            copy_bytes == (right - left) * 8,
            0 <= j <= rows,
            plan@.len() == j,
            forall|k: int|
                0 <= k < j ==> #[trigger] plan@[k] == plan_span(
                    vw_i,
                    pw_i,
                    top as int,
                    left as int,
                    right as int,
                    bottom as int,
                    k,
                ),
            forall|k: int|
                0 <= k < j ==> (#[trigger] plan@[k]).src + plan@[k].len <= 4 * pw_i * ph_i,
            forall|k: int|
                0 <= k < j ==> (#[trigger] plan@[k]).dst + plan@[k].len <= 32 * vw_i * vh_i,
        decreases rows - j,
    {
        let py: usize = 4 * top + j;
        proof {
            assert(py < 4 * bottom);
            assert(4 * (bottom as int) <= ph_i);
            lemma_span_bounds(vw_i, pw_i, ph_i, py as int, left as int, right as int);
            assert(8 * vw_i * (py + 1) <= 32 * vw_i * vh_i) by (nonlinear_arith)
                requires
                    0 <= vw_i,
                    0 <= py,
                    py + 1 <= 4 * vh_i,
            ;
        }
        let src: usize = (py * rl + left * 2) * 4;
        let dst: usize = (py * 2 * vw + left * 2) * 4;
        plan.push(CopySpan { src, dst, len: copy_bytes });
        j = j + 1;
    }
    plan
}

} // verus!
