//! The double-buffered cell grid and its frame driver: resizing, rectangle
//! fills, pixel-background quantization, text composition, and the diff pass
//! that yields exactly the cells that changed since the previous frame.

use vstd::prelude::*;
use vstd::pervasive::VecAdditionalExecFns;
use vstd::arithmetic::div_mod::lemma_fundamental_div_mod_converse;
use crate::accel::{AccelAction, AccelState};
use crate::accel::FttyUnicodePixel;
use crate::cell::{default_cell, Cell, Grapheme};
use crate::gfx::{Color, Point, Rect, Size};
use crate::unicode::{display_width, display_width_of, graphemes_of, split_graphemes};
use crate::quant::{
    binarize_quadrant, lemma_pair_bounds, quad_at, quant_background, quant_codepoint,
    quant_foreground, read_pair,
};

verus! {

/// A per-cell mutation that `draw` applies over a rectangle: paint a uniform
/// color (clearing any text), or clear the text alone.
#[derive(Clone, Copy, Debug)]
pub enum CellOp {
    Fill(Color),
    ClearGrapheme,
}

/// Signed division truncating toward zero, as the hardware divides.
pub open spec fn trunc_div(a: int, d: int) -> int {
    if a >= 0 {
        a / d
    } else {
        -((-a) / d)
    }
}

/// Signed division rounding to the nearest integer, halves away from zero.
pub open spec fn round_div(a: int, d: int) -> int {
    if a >= 0 {
        (a + d / 2) / d
    } else {
        -(((-a) + d / 2) / d)
    }
}

/// The total display width, in cells, of the first `n` graphemes.
pub open spec fn width_sum(gs: Seq<Seq<char>>, n: int) -> int
    decreases n,
{
    if n <= 0 {
        0
    } else {
        width_sum(gs, n - 1) + display_width_of(gs[n - 1])
    }
}

/// `width_sum` never decreases as more graphemes are counted.
pub proof fn lemma_width_sum_mono(gs: Seq<Seq<char>>, a: int, b: int)
    requires
        a <= b,
    ensures
        width_sum(gs, a) <= width_sum(gs, b),
    decreases b,
{
    if a < b && b > 0 {
        lemma_width_sum_mono(gs, a, b - 1);
    }
}

/// The grid position that sub-cell `j` of grapheme `n` lands on when a text
/// run starts at `start`.
pub open spec fn slot_pos(start: int, gs: Seq<Seq<char>>, n: int, j: int) -> int {
    start + width_sum(gs, n) + j
}

/// Two distinct slots of one run never land on the same cell.
pub proof fn lemma_slot_unique(gs: Seq<Seq<char>>, start: int, n: int, j: int, n1: int, j1: int)
    requires
        0 <= n < gs.len(),
        0 <= j < display_width_of(gs[n]),
        0 <= n1 < gs.len(),
        0 <= j1 < display_width_of(gs[n1]),
        slot_pos(start, gs, n1, j1) == slot_pos(start, gs, n, j),
    ensures
        n1 == n && j1 == j,
{
    if n1 < n {
        lemma_width_sum_mono(gs, n1 + 1, n);
        assert(width_sum(gs, n1 + 1) == width_sum(gs, n1) + display_width_of(gs[n1]));
    } else if n1 > n {
        lemma_width_sum_mono(gs, n + 1, n1);
        assert(width_sum(gs, n + 1) == width_sum(gs, n) + display_width_of(gs[n]));
    }
}

/// A prefix agrees with the longer sequence at every index it covers.
pub proof fn lemma_prefix_index<T>(a: Seq<T>, b: Seq<T>, i: int)
    requires
        a.is_prefix_of(b),
        0 <= i < a.len(),
    ensures
        a[i] == b[i],
{
    assert(a =~= b.subrange(0, a.len() as int));
    assert(a[i] == b.subrange(0, a.len() as int)[i]);
}

/// When the whole run was placed, every slot lies before the final
/// position.
pub proof fn lemma_text_tail_done(gs: Seq<Seq<char>>, start: int, pos: int, n: int)
    requires
        n == gs.len(),
        pos == start + width_sum(gs, n),
    ensures
        forall|n1: int, j1: int|
            0 <= n1 < gs.len() && 0 <= j1 < display_width_of(gs[n1]) ==> #[trigger] slot_pos(
                start,
                gs,
                n1,
                j1,
            ) < pos,
{
    assert forall|n1: int, j1: int|
        0 <= n1 < gs.len() && 0 <= j1 < display_width_of(gs[n1]) implies #[trigger] slot_pos(
        start,
        gs,
        n1,
        j1,
    ) < pos by {
        lemma_width_sum_mono(gs, n1 + 1, n);
        assert(width_sum(gs, n1 + 1) == width_sum(gs, n1) + display_width_of(gs[n1]));
    }
}

/// `a` clamped below at zero.
pub open spec fn clamp0(a: int) -> int {
    if a < 0 {
        0
    } else {
        a
    }
}

/// The smaller of two integers.
pub open spec fn min_i(a: int, b: int) -> int {
    if a < b {
        a
    } else {
        b
    }
}

/// The larger of two integers.
pub open spec fn max_i(a: int, b: int) -> int {
    if a < b {
        b
    } else {
        a
    }
}

/// How a background pass ended: skipped on an undersized pixel buffer, done
/// on the CPU, or handed to the accelerator for the computed cell region.
#[derive(Clone, Copy, PartialEq, Eq, Structural, Debug)]
pub enum BackgroundPass {
    Skipped,
    CpuDone,
    AccelDispatch { top: usize, left: usize, right: usize, bottom: usize },
}

/// One cell after the CPU path wrote it: the sampled quadrant and its
/// quantization; position and text overlay are untouched.
pub open spec fn cpu_cell(pixels: Seq<u8>, rl: int, x: int, y: int, c: Cell) -> Cell {
    let q = quad_at(pixels, rl, x, y);
    Cell {
        quadrant: q,
        background: quant_background(q),
        foreground: quant_foreground(q),
        codepoint: quant_codepoint(q),
        ..c
    }
}

/// One cell after the accelerator read-back wrote record `rec` into it:
/// colors and glyph from the record; quadrant, position and text untouched.
pub open spec fn accel_cell(rec: FttyUnicodePixel, c: Cell) -> Cell {
    Cell {
        background: Color { r: rec.br, g: rec.bg, b: rec.bb },
        foreground: Color { r: rec.fr, g: rec.fg, b: rec.fb },
        codepoint: rec.codepoint,
        ..c
    }
}

/// One navigation overlay element: its text and the colors it is drawn
/// with.
#[derive(Clone, Debug)]
pub struct TextElement {
    pub text: String,
    pub background: Color,
    pub foreground: Color,
}

/// The result of applying one draw operation to a cell.
pub open spec fn apply_op(c: Cell, op: CellOp) -> Cell {
    match op {
        CellOp::Fill(color) => Cell {
            grapheme: Option::None,
            quadrant: (color, color, color, color),
            background: color,
            foreground: color,
            codepoint: 0x20,
            ..c
        },
        CellOp::ClearGrapheme => Cell { grapheme: Option::None, ..c },
    }
}

/// The renderer: a row-major grid of (previous, current) cell pairs with one
/// guard row above the viewport, the arena of interned grapheme records that
/// cells reference, the viewport size, and the accelerator's state.
pub struct Renderer {
    pub cells: Vec<(Cell, Cell)>,
    pub graphemes: Vec<Grapheme>,
    pub size: Size,
    pub accel: AccelState,
}

/// Content equality of two grapheme records: same text, sub-cell index,
/// width and color.
pub open spec fn grapheme_eq(a: Grapheme, b: Grapheme) -> bool {
    &&& a.text@ == b.text@
    &&& a.index == b.index
    &&& a.width == b.width
    &&& a.color == b.color
}

/// Truncating division by 2 or 4, matching `trunc_div`.
fn trunc_div_exec(a: i64, d: i64) -> (r: i64)
    requires
        d == 2 || d == 4,
        -0x2_0000_0000 <= a <= 0x2_0000_0000,
    ensures
        r as int == trunc_div(a as int, d as int),
        -0x2_0000_0000 <= r <= 0x2_0000_0000,
{
    if a >= 0 {
        ((a as u64) / (d as u64)) as i64
    } else {
        -((((-a) as u64) / (d as u64)) as i64)
    }
}

/// Rounding division by 2 or 4, matching `round_div`.
fn round_div_exec(a: i64, d: i64) -> (r: i64)
    requires
        d == 2 || d == 4,
        -0x2_0000_0000 <= a <= 0x2_0000_0000,
    ensures
        r as int == round_div(a as int, d as int),
        -0x2_0000_0000 <= r <= 0x2_0000_0000,
{
    if a >= 0 {
        (((a as u64) + ((d / 2) as u64)) / (d as u64)) as i64
    } else {
        -(((((-a) as u64) + ((d / 2) as u64)) / (d as u64)) as i64)
    }
}

/// The element's text as a string slice.
fn element_text(elem: &TextElement) -> (s: &str)
    ensures
        s@ == elem.text@,
{
    elem.text.as_str()
}

/// Clamp a signed value into `[0, hi]`.
fn clamp_to(a: i64, hi: usize) -> (r: usize)
    requires
        hi <= 0xFFFF,
    ensures
        r as int == min_i(clamp0(a as int), hi as int),
{
    if a < 0 {
        0
    } else if a > hi as i64 {
        hi
    } else {
        a as usize
    }
}

impl Renderer {
    /// Cell count of the grid: the viewport rows plus the guard row.
    pub open spec fn grid_len(self) -> int {
        self.size.width * (self.size.height + 1)
    }

    /// A grapheme handle is either absent or points into the arena.
    pub open spec fn handle_ok(self, g: Option<usize>) -> bool {
        match g {
            Option::None => true,
            Option::Some(h) => h < self.graphemes@.len(),
        }
    }

    /// The cell pair at `i` is well formed: both cells sit at the row-major
    /// position `i` and any grapheme handles point into the arena.
    pub open spec fn cell_ok(self, i: int) -> bool {
        let p = self.cells@[i].0;
        let c = self.cells@[i].1;
        &&& p.cursor == c.cursor
        &&& c.cursor.x == i % (self.size.width as int)
        &&& c.cursor.y == i / (self.size.width as int)
        &&& self.handle_ok(p.grapheme)
        &&& self.handle_ok(c.grapheme)
    }

    /// Grid well-formedness: bounded viewport, exact grid length, and every
    /// cell pair well formed.
    pub open spec fn wf(self) -> bool {
        &&& self.size.width <= 0xFFFF
        &&& self.size.height <= 0xFFFF
        &&& self.cells@.len() == self.grid_len()
        &&& forall|i: int| 0 <= i < self.cells@.len() ==> #[trigger] self.cell_ok(i)
    }

    /// Whether two grapheme slots display the same text: both empty, or both
    /// referring to records of equal content (handles may differ).
    pub open spec fn grapheme_matches(self, a: Option<usize>, b: Option<usize>) -> bool {
        match (a, b) {
            (Option::None, Option::None) => true,
            (Option::Some(ha), Option::Some(hb)) => grapheme_eq(
                self.graphemes@[ha as int],
                self.graphemes@[hb as int],
            ),
            _ => false,
        }
    }

    /// Whether the previous and current cell at `i` display identically, by
    /// full structural comparison (grapheme slots by pointed-to content).
    pub open spec fn cell_matches(self, i: int) -> bool {
        let p = self.cells@[i].0;
        let c = self.cells@[i].1;
        &&& p.cursor == c.cursor
        &&& p.quadrant == c.quadrant
        &&& p.background == c.background
        &&& p.foreground == c.foreground
        &&& p.codepoint == c.codepoint
        &&& self.grapheme_matches(p.grapheme, c.grapheme)
    }

    /// The cells a diff pass over the first `n` positions forwards to the
    /// painter: the current cell of every position that does not match its
    /// previous frame, in grid order.
    pub open spec fn paint_prefix(self, n: int) -> Seq<Cell>
        decreases n,
    {
        if n <= 0 {
            Seq::empty()
        } else if self.cell_matches(n - 1) {
            self.paint_prefix(n - 1)
        } else {
            self.paint_prefix(n - 1).push(self.cells@[n - 1].1)
        }
    }

    /// A fresh renderer: empty grid, empty arena, and the accelerator either
    /// waiting for its first pipeline or permanently unavailable.
    pub fn new(accel_available: bool) -> (r: Renderer)
        ensures
            r.wf(),
            r.size == (Size { width: 0u32, height: 0u32 }),
            r.cells@.len() == 0,
            r.graphemes@.len() == 0,
            r.accel == if accel_available {
                AccelState::NoPipeline
            } else {
                AccelState::Unavailable
            },
    {
        Renderer {
            cells: Vec::new(),
            graphemes: Vec::new(),
            size: Size::new(0, 0),
            accel: if accel_available {
                AccelState::NoPipeline
            } else {
                AccelState::Unavailable
            },
        }
    }

    pub fn get_size(&self) -> (s: Size)
        ensures
            s == self.size,
    {
        self.size
    }

    /// Resize the grid: reallocate every (previous, current) pair to the
    /// default cell at its position, drop all interned graphemes, and say
    /// what the caller must do to the accelerator pipeline for the new size.
    pub fn set_size(&mut self, size: Size) -> (action: AccelAction)
        requires
            old(self).wf(),
            1 <= size.width <= 0xFFFF,
            size.height <= 0xFFFF,
        ensures
            final(self).wf(),
            final(self).size == size,
            final(self).graphemes@.len() == 0,
            final(self).accel == old(self).accel,
            final(self).cells@.len() == size.width * (size.height + 1),
            forall|i: int|
                0 <= i < final(self).cells@.len() ==> #[trigger] final(self).cells@[i] == (
                default_cell(
                    (i % (size.width as int)) as u32,
                    (i / (size.width as int)) as u32,
                ),
                default_cell((i % (size.width as int)) as u32, (i / (size.width as int)) as u32),
            ),
            action == match old(self).accel {
                AccelState::Unavailable => AccelAction::Nothing,
                AccelState::NoPipeline => AccelAction::CreatePipeline {
                    width: size.width as u16,
                    height: size.height as u16,
                },
                AccelState::Pipeline { .. } => AccelAction::ResizePipeline {
                    width: size.width as u16,
                    height: size.height as u16,
                },
            },
    {
        self.size = size;
        self.graphemes = Vec::new();

        let w: usize = size.width as usize;
        let h: usize = size.height as usize;
        proof {
            assert(w * (h + 1) <= 0xFFFF * 0x10000) by (nonlinear_arith)
                requires
                    w <= 0xFFFF,
                    h <= 0xFFFF,
            ;
        }
        let n: usize = w * (h + 1);

        self.cells = Vec::new();
        let mut i: usize = 0;
        while i < n
            invariant
                1 <= w,
                w == size.width,
                h == size.height,
                n == w * (h + 1),
                i <= n,
                self.size == size,
                self.graphemes@.len() == 0,
                self.accel == old(self).accel,
                self.cells@.len() == i,
                forall|j: int|
                    0 <= j < i ==> #[trigger] self.cells@[j] == (
                    default_cell((j % (w as int)) as u32, (j / (w as int)) as u32),
                    default_cell((j % (w as int)) as u32, (j / (w as int)) as u32),
                ),
            decreases n - i,
        {
            proof {
                assert(i / w <= h) by (nonlinear_arith)
                    requires
                        1 <= w,
                        0 <= i,
                        i < w * (h + 1),
                ;
            }
            let x: u32 = (i % w) as u32;
            let y: u32 = (i / w) as u32;
            let c = Cell::new(x, y);
            self.cells.push((c, c));
            i = i + 1;
        }

        proof {
            assert forall|i2: int| 0 <= i2 < self.cells@.len() implies #[trigger] self.cell_ok(
                i2,
            ) by {
                assert(self.cells@[i2] == (
                    default_cell((i2 % (w as int)) as u32, (i2 / (w as int)) as u32),
                    default_cell((i2 % (w as int)) as u32, (i2 / (w as int)) as u32),
                ));
                assert(0 <= i2 % (w as int) < w as int);
                assert(0 <= i2 / (w as int) <= h) by (nonlinear_arith)
                    requires
                        1 <= w,
                        0 <= i2,
                        i2 < w * (h + 1),
                ;
            }
        }

        match self.accel {
            AccelState::Unavailable => AccelAction::Nothing,
            AccelState::NoPipeline => AccelAction::CreatePipeline {
                width: size.width as u16,
                height: size.height as u16,
            },
            AccelState::Pipeline { .. } => AccelAction::ResizePipeline {
                width: size.width as u16,
                height: size.height as u16,
            },
        }
    }

    /// Record the outcome of the pipeline create or resize that the last
    /// `set_size` asked for: on success a pipeline now covers the current
    /// grid size; on failure the handle is null again and the CPU fallback
    /// takes over until a later resize succeeds.
    pub fn accel_result(&mut self, success: bool)
        requires
            old(self).wf(),
            old(self).accel != AccelState::Unavailable,
        ensures
            final(self).wf(),
            final(self).cells@ == old(self).cells@,
            final(self).graphemes@ == old(self).graphemes@,
            final(self).size == old(self).size,
            final(self).accel == if success {
                AccelState::Pipeline {
                    width: old(self).size.width as u16,
                    height: old(self).size.height as u16,
                }
            } else {
                AccelState::NoPipeline
            },
    {
        if success {
            self.accel = AccelState::Pipeline {
                width: self.size.width as u16,
                height: self.size.height as u16,
            };
        } else {
            self.accel = AccelState::NoPipeline;
        }
        proof {
            assert forall|i: int| 0 <= i < self.cells@.len() implies #[trigger] self.cell_ok(i) by {
                assert(old(self).cell_ok(i));
            }
        }
    }

    /// Drop the text overlay: clear every current cell's grapheme reference
    /// without touching the pixel-rendered colors.
    pub fn clear_text(&mut self)
        requires
            old(self).wf(),
        ensures
            final(self).wf(),
            final(self).size == old(self).size,
            final(self).accel == old(self).accel,
            final(self).graphemes@ == old(self).graphemes@,
            final(self).cells@.len() == old(self).cells@.len(),
            forall|i: int|
                0 <= i < final(self).cells@.len() ==> #[trigger] final(self).cells@[i] == (
                old(self).cells@[i].0,
                Cell { grapheme: Option::None, ..old(self).cells@[i].1 },
            ),
    {
        let n: usize = self.cells.len();
        let mut i: usize = 0;
        while i < n
            invariant
                n == self.cells@.len(),
                n == old(self).cells@.len(),
                i <= n,
                self.size == old(self).size,
                self.accel == old(self).accel,
                self.graphemes@ == old(self).graphemes@,
                forall|j: int|
                    0 <= j < i ==> #[trigger] self.cells@[j] == (
                    old(self).cells@[j].0,
                    Cell { grapheme: Option::None, ..old(self).cells@[j].1 },
                ),
                forall|j: int| i <= j < n ==> #[trigger] self.cells@[j] == old(self).cells@[j],
            decreases n - i,
        {
            let pair = self.cells[i];
            let mut cur = pair.1;
            cur.grapheme = Option::None;
            self.cells.set(i, (pair.0, cur));
            i = i + 1;
        }
        proof {
            assert forall|i2: int| 0 <= i2 < self.cells@.len() implies #[trigger] self.cell_ok(
                i2,
            ) by {
                assert(old(self).cell_ok(i2));
            }
        }
    }

    /// Whether the previous and current cell at `i` compare equal, grapheme
    /// slots by the content of the records they reference.
    fn cells_match_at(&self, i: usize) -> (b: bool)
        requires
            self.wf(),
            i < self.cells@.len(),
        ensures
            b == self.cell_matches(i as int),
    {
        proof {
            assert(self.cell_ok(i as int));
        }
        let pair = self.cells[i];
        let p = pair.0;
        let c = pair.1;
        if p.cursor != c.cursor {
            return false;
        }
        if p.quadrant.0 != c.quadrant.0 || p.quadrant.1 != c.quadrant.1 || p.quadrant.2
            != c.quadrant.2 || p.quadrant.3 != c.quadrant.3 {
            return false;
        }
        if p.background != c.background || p.foreground != c.foreground || p.codepoint
            != c.codepoint {
            return false;
        }
        match (p.grapheme, c.grapheme) {
            (Option::None, Option::None) => true,
            (Option::Some(ha), Option::Some(hb)) => {
                let ga = &self.graphemes[ha];
                let gb = &self.graphemes[hb];
                ga.text == gb.text && ga.index == gb.index && ga.width == gb.width && ga.color
                    == gb.color
            },
            _ => false,
        }
    }

    /// The diff pass: forward every cell whose current state differs from
    /// the previous frame, in grid order, and bring the previous buffer up
    /// to date so the next pass paints nothing for untouched state.
    pub fn diff_frame(&mut self) -> (out: Vec<Cell>)
        requires
            old(self).wf(),
        ensures
            final(self).wf(),
            final(self).size == old(self).size,
            final(self).accel == old(self).accel,
            final(self).graphemes@ == old(self).graphemes@,
            final(self).cells@.len() == old(self).cells@.len(),
            forall|i: int|
                0 <= i < final(self).cells@.len() ==> #[trigger] final(self).cells@[i].1
                    == old(self).cells@[i].1,
            forall|i: int|
                0 <= i < final(self).cells@.len() ==> #[trigger] final(self).cell_matches(i),
            forall|i: int|
                0 <= i < final(self).cells@.len() && !old(self).cell_matches(i)
                    ==> #[trigger] final(self).cells@[i].0 == old(self).cells@[i].1,
            forall|i: int|
                0 <= i < final(self).cells@.len() && old(self).cell_matches(i)
                    ==> #[trigger] final(self).cells@[i].0 == old(self).cells@[i].0,
            out@ == old(self).paint_prefix(old(self).cells@.len() as int),
    {
        let n: usize = self.cells.len();
        let mut out: Vec<Cell> = Vec::new();
        let mut i: usize = 0;
        while i < n
            invariant
                old(self).wf(),
                n == self.cells@.len(),
                n == old(self).cells@.len(),
                i <= n,
                self.wf(),
                self.size == old(self).size,
                self.accel == old(self).accel,
                self.graphemes@ == old(self).graphemes@,
                forall|j: int| i <= j < n ==> #[trigger] self.cells@[j] == old(self).cells@[j],
                forall|j: int|
                    0 <= j < n ==> #[trigger] self.cells@[j].1 == old(self).cells@[j].1,
                forall|j: int| 0 <= j < i ==> #[trigger] self.cell_matches(j),
                forall|j: int|
                    0 <= j < i && !old(self).cell_matches(j) ==> #[trigger] self.cells@[j].0
                        == old(self).cells@[j].1,
                forall|j: int|
                    0 <= j < i && old(self).cell_matches(j) ==> #[trigger] self.cells@[j].0
                        == old(self).cells@[j].0,
                out@ == old(self).paint_prefix(i as int),
            decreases n - i,
        {
            proof {
                assert(self.cells@[i as int] == old(self).cells@[i as int]);
                assert(self.cell_matches(i as int) == old(self).cell_matches(i as int));
            }
            let matches = self.cells_match_at(i);
            if !matches {
                let pair = self.cells[i];
                let cur = pair.1;
                self.cells.set(i, (cur, cur));
                out.push(cur);
            }
            proof {
                assert forall|j: int| 0 <= j < n implies #[trigger] self.cell_ok(j) by {
                    assert(old(self).cell_ok(j));
                }
            }
            i = i + 1;
        }
        out
    }

    /// Whether row-major position `i` lies inside `bounds` in cell space.
    pub open spec fn in_rect(self, bounds: Rect, i: int) -> bool {
        let w = self.size.width as int;
        &&& bounds.origin.x <= i % w < bounds.origin.x + bounds.size.width
        &&& bounds.origin.y <= i / w < bounds.origin.y + bounds.size.height
    }

    /// Apply a mutation to every cell of a rectangular cell-space region,
    /// already clipped to the viewport by the caller. Rows address the grid
    /// directly, so the guard row itself can be drawn.
    pub fn draw(&mut self, bounds: Rect, op: CellOp)
        requires
            old(self).wf(),
            0 <= bounds.origin.x,
            0 <= bounds.origin.y,
            bounds.origin.x + bounds.size.width <= old(self).size.width,
            bounds.origin.y + bounds.size.height <= old(self).size.height + 1,
        ensures
            final(self).wf(),
            final(self).size == old(self).size,
            final(self).accel == old(self).accel,
            final(self).graphemes@ == old(self).graphemes@,
            final(self).cells@.len() == old(self).cells@.len(),
            forall|i: int|
                0 <= i < final(self).cells@.len() ==> #[trigger] final(self).cells@[i] == (
                old(self).cells@[i].0,
                if old(self).in_rect(bounds, i) {
                    apply_op(old(self).cells@[i].1, op)
                } else {
                    old(self).cells@[i].1
                },
            ),
    {
        let w: usize = self.size.width as usize;
        let left: usize = bounds.origin.x as usize;
        let top: usize = bounds.origin.y as usize;
        let right: usize = left + bounds.size.width as usize;
        let bottom: usize = top + bounds.size.height as usize;
        let n: usize = self.cells.len();
        let mut y: usize = top;
        while y < bottom
            invariant
                old(self).wf(),
                self.wf(),
                n == self.cells@.len(),
                w as int == self.size.width as int,
                left as int == bounds.origin.x as int,
                top as int == bounds.origin.y as int,
                right as int == bounds.origin.x + bounds.size.width,
                bottom as int == bounds.origin.y + bounds.size.height,
                right <= w,
                bottom as int <= self.size.height + 1,
                top <= y <= bottom,
                self.size == old(self).size,
                self.accel == old(self).accel,
                self.graphemes@ == old(self).graphemes@,
                self.cells@.len() == old(self).cells@.len(),
                forall|i: int|
                    0 <= i < self.cells@.len() ==> #[trigger] self.cells@[i] == (
                    old(self).cells@[i].0,
                    if old(self).in_rect(bounds, i) && i / (w as int) < y {
                        apply_op(old(self).cells@[i].1, op)
                    } else {
                        old(self).cells@[i].1
                    },
                ),
            decreases bottom - y,
        {
            let mut x: usize = left;
            while x < right
                invariant
                    old(self).wf(),
                    self.wf(),
                    n == self.cells@.len(),
                    w as int == self.size.width as int,
                    left as int == bounds.origin.x as int,
                    top as int == bounds.origin.y as int,
                    right as int == bounds.origin.x + bounds.size.width,
                    bottom as int == bounds.origin.y + bounds.size.height,
                    right <= w,
                    bottom as int <= self.size.height + 1,
                    top <= y < bottom,
                    left <= x <= right,
                    self.size == old(self).size,
                    self.accel == old(self).accel,
                    self.graphemes@ == old(self).graphemes@,
                    self.cells@.len() == old(self).cells@.len(),
                    forall|i: int|
                        0 <= i < self.cells@.len() ==> #[trigger] self.cells@[i] == (
                        old(self).cells@[i].0,
                        if old(self).in_rect(bounds, i) && (i / (w as int) < y || (i / (w as int)
                            == y && i % (w as int) < x)) {
                            apply_op(old(self).cells@[i].1, op)
                        } else {
                            old(self).cells@[i].1
                        },
                    ),
                decreases right - x,
            {
                proof {
                    assert((y * w + x) < n) by (nonlinear_arith)
                        requires
                            0 <= x < w,
                            0 <= y,
                            y as int <= self.size.height as int,
                            n == self.size.width * (self.size.height + 1),
                            w as int == self.size.width as int,
                    ;
                    lemma_fundamental_div_mod_converse((y * w + x) as int, w as int, y as int, x as int);
                }
                let idx: usize = y * w + x;
                let pair = self.cells[idx];
                let newc = match op {
                    CellOp::Fill(color) => Cell {
                        cursor: pair.1.cursor,
                        grapheme: Option::None,
                        quadrant: (color, color, color, color),
                        background: color,
                        foreground: color,
                        codepoint: 0x20,
                    },
                    CellOp::ClearGrapheme => Cell { grapheme: Option::None, ..pair.1 },
                };
                self.cells.set(idx, (pair.0, newc));
                proof {
                    assert forall|j: int| 0 <= j < self.cells@.len() implies #[trigger] self.cell_ok(
                        j,
                    ) by {
                        assert(old(self).cell_ok(j));
                    }
                    assert forall|i: int|
                        0 <= i < n && (#[trigger] (i / (w as int))) == y && i % (w as int)
                            == x implies i == idx by {
                        vstd::arithmetic::div_mod::lemma_fundamental_div_mod(i, w as int);
                        assert(i == (w as int) * y + x);
                        assert((w as int) * y == y * (w as int)) by (nonlinear_arith);
                    }
                }
                x = x + 1;
            }
            y = y + 1;
        }
    }

    /// Paint a uniform rectangle: clear any text and set the quadrant, both
    /// colors and a space glyph, so the region displays as a solid block of
    /// the color.
    pub fn fill_rect(&mut self, rect: Rect, color: Color)
        requires
            old(self).wf(),
            0 <= rect.origin.x,
            0 <= rect.origin.y,
            rect.origin.x + rect.size.width <= old(self).size.width,
            rect.origin.y + rect.size.height <= old(self).size.height + 1,
        ensures
            final(self).wf(),
            final(self).size == old(self).size,
            final(self).accel == old(self).accel,
            final(self).graphemes@ == old(self).graphemes@,
            final(self).cells@.len() == old(self).cells@.len(),
            forall|i: int|
                0 <= i < final(self).cells@.len() ==> #[trigger] final(self).cells@[i] == (
                old(self).cells@[i].0,
                if old(self).in_rect(rect, i) {
                    apply_op(old(self).cells@[i].1, CellOp::Fill(color))
                } else {
                    old(self).cells@[i].1
                },
            ),
    {
        self.draw(rect, CellOp::Fill(color))
    }

    /// The dirty rectangle's left cell column: the pixel origin clamped at
    /// zero, divided by the two pixels per cell (floor), clamped to the
    /// viewport.
    pub open spec fn bg_left(self, rect: Rect) -> int {
        min_i(clamp0(rect.origin.x as int) / 2, self.size.width as int)
    }

    /// The dirty rectangle's top cell row: the pixel origin clamped at zero,
    /// divided by the four pixels per cell (floor), clamped to the viewport.
    pub open spec fn bg_top(self, rect: Rect) -> int {
        min_i(clamp0(rect.origin.y as int) / 4, self.size.height as int)
    }

    /// The dirty rectangle's right cell column: the pixel extent divided by
    /// two pixels per cell (ceiling), clamped to the viewport and never left
    /// of `bg_left`.
    pub open spec fn bg_right(self, rect: Rect) -> int {
        max_i(
            min_i((clamp0(rect.origin.x as int) + rect.size.width + 1) / 2, self.size.width as int),
            self.bg_left(rect),
        )
    }

    /// The dirty rectangle's bottom cell row: the pixel extent divided by
    /// four pixels per cell (ceiling), clamped to the viewport and never
    /// above `bg_top`.
    pub open spec fn bg_bottom(self, rect: Rect) -> int {
        max_i(
            min_i(
                (clamp0(rect.origin.y as int) + rect.size.height + 3) / 4,
                self.size.height as int,
            ),
            self.bg_top(rect),
        )
    }

    /// Whether row-major position `i` is written by a background pass over
    /// the region: the dirty columns, one row down (the guard row at the
    /// dirty row itself is skipped).
    pub open spec fn in_bg_rows(self, top: int, left: int, right: int, bottom: int, i: int) -> bool {
        let w = self.size.width as int;
        &&& left <= i % w < right
        &&& top + 1 <= i / w < bottom + 1
    }

    /// The CPU path's effect: every cell of the region holds the sampled
    /// quadrant and its quantization; everything else is untouched.
    pub open spec fn cpu_pass(
        self,
        post: Renderer,
        pixels: Seq<u8>,
        rl: int,
        top: int,
        left: int,
        right: int,
        bottom: int,
    ) -> bool {
        &&& post.size == self.size
        &&& post.accel == self.accel
        &&& post.graphemes@ == self.graphemes@
        &&& post.cells@.len() == self.cells@.len()
        &&& forall|i: int|
            0 <= i < post.cells@.len() ==> #[trigger] post.cells@[i] == (
                self.cells@[i].0,
                if self.in_bg_rows(top, left, right, bottom, i) {
                    cpu_cell(
                        pixels,
                        rl,
                        i % (self.size.width as int),
                        i / (self.size.width as int) - 1,
                        self.cells@[i].1,
                    )
                } else {
                    self.cells@[i].1
                },
            )
    }

    /// The accelerator read-back's effect: every cell of the region holds
    /// its output record's colors and glyph; everything else is untouched.
    pub open spec fn accel_pass(
        self,
        post: Renderer,
        records: Seq<FttyUnicodePixel>,
        top: int,
        left: int,
        right: int,
        bottom: int,
    ) -> bool {
        &&& post.size == self.size
        &&& post.accel == self.accel
        &&& post.graphemes@ == self.graphemes@
        &&& post.cells@.len() == self.cells@.len()
        &&& forall|i: int|
            0 <= i < post.cells@.len() ==> #[trigger] post.cells@[i] == (
                self.cells@[i].0,
                if self.in_bg_rows(top, left, right, bottom, i) {
                    accel_cell(records[i - (self.size.width as int)], self.cells@[i].1)
                } else {
                    self.cells@[i].1
                },
            )
    }

    /// Quantize the dirty pixel rectangle into the current cell buffer. An
    /// undersized pixel buffer makes the call a no-op. With a live pipeline
    /// the computed cell region is handed back for accelerator dispatch and
    /// the grid is left for `apply_accel_output`. Otherwise the CPU path
    /// samples and quantizes every covered cell in place.
    #[verifier::rlimit(100)]
    pub fn draw_background(&mut self, pixels: &[u8], pixels_size: Size, rect: Rect) -> (pass:
        BackgroundPass)
        requires
            old(self).wf(),
            (pixels@.len() >= 32 * old(self).size.width * old(self).size.height && !(old(self).accel is Pipeline)) ==> 2 * old(self).size.width <= pixels_size.width && 4 * old(self).size.height <= pixels_size.height && pixels@.len() >= 4 * pixels_size.width
                * pixels_size.height,
        ensures
            final(self).wf(),
            final(self).size == old(self).size,
            final(self).accel == old(self).accel,
            (pass == BackgroundPass::Skipped) <==> pixels@.len() < 32 * old(self).size.width * old(self).size.height,
            pass == BackgroundPass::Skipped ==> final(self).cells@ == old(self).cells@ && final(self).graphemes@ == old(self).graphemes@,
            pixels@.len() >= 32 * old(self).size.width * old(self).size.height && old(self).accel is Pipeline ==> pass == (BackgroundPass::AccelDispatch {
                top: old(self).bg_top(rect) as usize,
                left: old(self).bg_left(rect) as usize,
                right: old(self).bg_right(rect) as usize,
                bottom: old(self).bg_bottom(rect) as usize,
            }) && final(self).cells@ == old(self).cells@ && final(self).graphemes@ == old(self).graphemes@,
            pixels@.len() >= 32 * old(self).size.width * old(self).size.height && !(old(self).accel is Pipeline) ==> pass == BackgroundPass::CpuDone && old(self).cpu_pass(
                *final(self),
                pixels@,
                pixels_size.width as int,
                old(self).bg_top(rect),
                old(self).bg_left(rect),
                old(self).bg_right(rect),
                old(self).bg_bottom(rect),
            ),
    {
        let vw64: u64 = self.size.width as u64;
        let vh64: u64 = self.size.height as u64;
        proof {
            assert(32 * (vw64 as int) * (vh64 as int) <= 32 * 0xFFFF * 0xFFFF) by (nonlinear_arith)
                requires
                    vw64 <= 0xFFFF,
                    vh64 <= 0xFFFF,
            ;
        }
        let need: u64 = 32u64 * vw64 * vh64;
        if (pixels.len() as u64) < need {
            return BackgroundPass::Skipped;
        }

        let ox0: u64 = if rect.origin.x < 0 {
            0
        } else {
            rect.origin.x as u64
        };
        let oy0: u64 = if rect.origin.y < 0 {
            0
        } else {
            rect.origin.y as u64
        };
        let mut left64: u64 = ox0 / 2;
        if left64 > vw64 {
            left64 = vw64;
        }
        let mut top64: u64 = oy0 / 4;
        if top64 > vh64 {
            top64 = vh64;
        }
        let mut right64: u64 = (ox0 + rect.size.width as u64 + 1) / 2;
        if right64 > vw64 {
            right64 = vw64;
        }
        if right64 < left64 {
            right64 = left64;
        }
        let mut bottom64: u64 = (oy0 + rect.size.height as u64 + 3) / 4;
        if bottom64 > vh64 {
            bottom64 = vh64;
        }
        if bottom64 < top64 {
            bottom64 = top64;
        }
        let left: usize = left64 as usize;
        let top: usize = top64 as usize;
        let right: usize = right64 as usize;
        let bottom: usize = bottom64 as usize;
        proof {
            assert(left as int == self.bg_left(rect));
            assert(top as int == self.bg_top(rect));
            assert(right as int == self.bg_right(rect));
            assert(bottom as int == self.bg_bottom(rect));
        }

        match self.accel {
            AccelState::Pipeline { .. } => {
                return BackgroundPass::AccelDispatch { top, left, right, bottom };
            },
            _ => {},
        }

        self.draw_background_fallback(pixels, pixels_size, top, left, right, bottom);
        BackgroundPass::CpuDone
    }

    /// The CPU quantization path: for every cell of the region, sample the
    /// 2x2 quadrant of its 2x4 pixel block, quantize it, and write the
    /// quadrant, both colors and the glyph into the current cell one row
    /// below (the guard row is skipped).
    pub fn draw_background_fallback(
        &mut self,
        pixels: &[u8],
        pixels_size: Size,
        top: usize,
        left: usize,
        right: usize,
        bottom: usize,
    )
        requires
            old(self).wf(),
            left <= right <= old(self).size.width,
            top <= bottom <= old(self).size.height,
            2 * old(self).size.width <= pixels_size.width,
            4 * old(self).size.height <= pixels_size.height,
            pixels@.len() >= 4 * pixels_size.width * pixels_size.height,
        ensures
            final(self).wf(),
            old(self).cpu_pass(
                *final(self),
                pixels@,
                pixels_size.width as int,
                top as int,
                left as int,
                right as int,
                bottom as int,
            ),
    {
        let w: usize = self.size.width as usize;
        let rl: usize = pixels_size.width as usize;
        let n: usize = self.cells.len();
        let ghost pw = pixels_size.width as int;
        let ghost ph = pixels_size.height as int;

        let mut y: usize = top;
        while y < bottom
            invariant
                old(self).wf(),
                self.wf(),
                n == self.cells@.len(),
                w as int == self.size.width as int,
                rl as int == pw,
                pw == pixels_size.width as int,
                ph == pixels_size.height as int,
                2 * (self.size.width as int) <= pw,
                4 * (self.size.height as int) <= ph,
                pixels@.len() >= 4 * pw * ph,
                left <= right,
                right as int <= self.size.width as int,
                top <= y <= bottom,
                bottom as int <= self.size.height as int,
                self.size == old(self).size,
                self.accel == old(self).accel,
                self.graphemes@ == old(self).graphemes@,
                self.cells@.len() == old(self).cells@.len(),
                forall|i: int|
                    0 <= i < self.cells@.len() ==> #[trigger] self.cells@[i] == (
                    old(self).cells@[i].0,
                    if old(self).in_bg_rows(
                        top as int,
                        left as int,
                        right as int,
                        bottom as int,
                        i,
                    ) && i / (w as int) < y + 1 {
                        cpu_cell(
                            pixels@,
                            pw,
                            i % (w as int),
                            i / (w as int) - 1,
                            old(self).cells@[i].1,
                        )
                    } else {
                        old(self).cells@[i].1
                    },
                ),
            decreases bottom - y,
        {
            let mut x: usize = left;
            while x < right
                invariant
                    old(self).wf(),
                    self.wf(),
                    n == self.cells@.len(),
                    w as int == self.size.width as int,
                    rl as int == pw,
                    pw == pixels_size.width as int,
                    ph == pixels_size.height as int,
                    2 * (self.size.width as int) <= pw,
                    4 * (self.size.height as int) <= ph,
                    pixels@.len() >= 4 * pw * ph,
                    left <= x <= right,
                    right as int <= self.size.width as int,
                    top <= y < bottom,
                    bottom as int <= self.size.height as int,
                    self.size == old(self).size,
                    self.accel == old(self).accel,
                    self.graphemes@ == old(self).graphemes@,
                    self.cells@.len() == old(self).cells@.len(),
                    forall|i: int|
                        0 <= i < self.cells@.len() ==> #[trigger] self.cells@[i] == (
                        old(self).cells@[i].0,
                        if old(self).in_bg_rows(
                            top as int,
                            left as int,
                            right as int,
                            bottom as int,
                            i,
                        ) && (i / (w as int) < y + 1 || (i / (w as int) == y + 1 && i % (w as int)
                            < x)) {
                            cpu_cell(
                                pixels@,
                                pw,
                                i % (w as int),
                                i / (w as int) - 1,
                                old(self).cells@[i].1,
                            )
                        } else {
                            old(self).cells@[i].1
                        },
                    ),
                decreases right - x,
            {
                proof {
                    lemma_pair_bounds(pw, ph, 2 * x as int, 4 * y as int);
                    lemma_pair_bounds(pw, ph, 2 * x + 1, 4 * y as int);
                    lemma_pair_bounds(pw, ph, 2 * x + 1, 4 * y + 2);
                    lemma_pair_bounds(pw, ph, 2 * x as int, 4 * y + 2);
                    assert(((y + 1) * w + x) < n) by (nonlinear_arith)
                        requires
                            0 <= x < w,
                            0 <= y,
                            (y as int) < self.size.height as int,
                            n == self.size.width * (self.size.height + 1),
                            w as int == self.size.width as int,
                    ;
                    lemma_fundamental_div_mod_converse(
                        ((y + 1) * w + x) as int,
                        w as int,
                        y as int + 1,
                        x as int,
                    );
                }
                let q = (
                    read_pair(pixels, rl, 2 * x, 4 * y),
                    read_pair(pixels, rl, 2 * x + 1, 4 * y),
                    read_pair(pixels, rl, 2 * x + 1, 4 * y + 2),
                    read_pair(pixels, rl, 2 * x, 4 * y + 2),
                );
                let triple = binarize_quadrant(q);
                let idx: usize = (y + 1) * w + x;
                let pair = self.cells[idx];
                let mut cur = pair.1;
                cur.quadrant = q;
                cur.background = triple.1;
                cur.foreground = triple.2;
                cur.codepoint = triple.0;
                self.cells.set(idx, (pair.0, cur));
                proof {
                    assert(q == quad_at(pixels@, pw, x as int, y as int));
                    assert(cur == cpu_cell(pixels@, pw, x as int, y as int, old(self).cells@[idx as int].1));
                    assert forall|j: int| 0 <= j < self.cells@.len() implies #[trigger] self.cell_ok(
                        j,
                    ) by {
                        assert(old(self).cell_ok(j));
                    }
                    assert forall|i: int|
                        0 <= i < n && (#[trigger] (i / (w as int))) == y + 1 && i % (w as int)
                            == x implies i == idx by {
                        vstd::arithmetic::div_mod::lemma_fundamental_div_mod(i, w as int);
                        assert(i == (w as int) * (y + 1) + x);
                        assert((w as int) * (y + 1) == (y + 1) * (w as int)) by (nonlinear_arith);
                    }
                }
                x = x + 1;
            }
            y = y + 1;
        }
    }

    /// Write the accelerator's output records back into the current cell
    /// buffer for every cell of the dispatched region, skipping the guard
    /// row; quadrants and text overlays are untouched.
    pub fn apply_accel_output(
        &mut self,
        records: &Vec<FttyUnicodePixel>,
        top: usize,
        left: usize,
        right: usize,
        bottom: usize,
    )
        requires
            old(self).wf(),
            left <= right <= old(self).size.width,
            top <= bottom <= old(self).size.height,
            records@.len() >= old(self).size.width * old(self).size.height,
        ensures
            final(self).wf(),
            old(self).accel_pass(
                *final(self),
                records@,
                top as int,
                left as int,
                right as int,
                bottom as int,
            ),
    {
        let w: usize = self.size.width as usize;
        let n: usize = self.cells.len();
        let m: usize = records.len();
        let mut y: usize = top;
        while y < bottom
            invariant
                old(self).wf(),
                self.wf(),
                n == self.cells@.len(),
                m == records@.len(),
                w as int == self.size.width as int,
                records@.len() >= (self.size.width as int) * (self.size.height as int),
                left <= right,
                right as int <= self.size.width as int,
                top <= y <= bottom,
                bottom as int <= self.size.height as int,
                self.size == old(self).size,
                self.accel == old(self).accel,
                self.graphemes@ == old(self).graphemes@,
                self.cells@.len() == old(self).cells@.len(),
                forall|i: int|
                    0 <= i < self.cells@.len() ==> #[trigger] self.cells@[i] == (
                    old(self).cells@[i].0,
                    if old(self).in_bg_rows(
                        top as int,
                        left as int,
                        right as int,
                        bottom as int,
                        i,
                    ) && i / (w as int) < y + 1 {
                        accel_cell(records@[i - (w as int)], old(self).cells@[i].1)
                    } else {
                        old(self).cells@[i].1
                    },
                ),
            decreases bottom - y,
        {
            let mut x: usize = left;
            while x < right
                invariant
                    old(self).wf(),
                    self.wf(),
                    n == self.cells@.len(),
                    m == records@.len(),
                    w as int == self.size.width as int,
                    records@.len() >= (self.size.width as int) * (self.size.height as int),
                    left <= x <= right,
                    right as int <= self.size.width as int,
                    top <= y < bottom,
                    bottom as int <= self.size.height as int,
                    self.size == old(self).size,
                    self.accel == old(self).accel,
                    self.graphemes@ == old(self).graphemes@,
                    self.cells@.len() == old(self).cells@.len(),
                    forall|i: int|
                        0 <= i < self.cells@.len() ==> #[trigger] self.cells@[i] == (
                        old(self).cells@[i].0,
                        if old(self).in_bg_rows(
                            top as int,
                            left as int,
                            right as int,
                            bottom as int,
                            i,
                        ) && (i / (w as int) < y + 1 || (i / (w as int) == y + 1 && i % (w as int)
                            < x)) {
                            accel_cell(records@[i - (w as int)], old(self).cells@[i].1)
                        } else {
                            old(self).cells@[i].1
                        },
                    ),
                decreases right - x,
            {
                proof {
                    assert((y * w + x) < (self.size.width as int) * (self.size.height as int))
                        by (nonlinear_arith)
                        requires
                            0 <= x < w,
                            0 <= y,
                            (y as int) < self.size.height as int,
                            w as int == self.size.width as int,
                    ;
                    assert(((y + 1) * w + x) < n) by (nonlinear_arith)
                        requires
                            0 <= x < w,
                            0 <= y,
                            (y as int) < self.size.height as int,
                            n == self.size.width * (self.size.height + 1),
                            w as int == self.size.width as int,
                    ;
                    lemma_fundamental_div_mod_converse(
                        ((y + 1) * w + x) as int,
                        w as int,
                        y as int + 1,
                        x as int,
                    );
                }
                proof {
                    assert((y * w + x) < m);
                }
                let rec = records[y * w + x];
                let idx: usize = (y + 1) * w + x;
                let pair = self.cells[idx];
                let mut cur = pair.1;
                cur.background = Color { r: rec.br, g: rec.bg, b: rec.bb };
                cur.foreground = Color { r: rec.fr, g: rec.fg, b: rec.fb };
                cur.codepoint = rec.codepoint;
                self.cells.set(idx, (pair.0, cur));
                proof {
                    assert(((y + 1) as int) * (w as int) == (y as int) * (w as int) + (w as int))
                        by (nonlinear_arith);
                    assert(idx as int - (w as int) == y * (w as int) + x);
                    assert(cur == accel_cell(records@[idx as int - (w as int)], old(self).cells@[idx as int].1));
                    assert forall|j: int| 0 <= j < self.cells@.len() implies #[trigger] self.cell_ok(
                        j,
                    ) by {
                        assert(old(self).cell_ok(j));
                    }
                    assert forall|i: int|
                        0 <= i < n && (#[trigger] (i / (w as int))) == y + 1 && i % (w as int)
                            == x implies i == idx by {
                        vstd::arithmetic::div_mod::lemma_fundamental_div_mod(i, w as int);
                        assert(i == (w as int) * (y + 1) + x);
                        assert((w as int) * (y + 1) == (y + 1) * (w as int)) by (nonlinear_arith);
                    }
                }
                x = x + 1;
            }
            y = y + 1;
        }
    }

    /// Cross-path consistency: over the same region, the CPU path and the
    /// accelerator read-back write exactly the same set of cells (the dirty
    /// rectangle one row down), both leave every other cell alone, and
    /// neither touches a cell's position, text overlay or previous-frame
    /// copy.
    pub proof fn lemma_cross_path_shape(
        r0: Renderer,
        rc: Renderer,
        rg: Renderer,
        pixels: Seq<u8>,
        rl: int,
        records: Seq<FttyUnicodePixel>,
        top: int,
        left: int,
        right: int,
        bottom: int,
    )
        requires
            r0.cpu_pass(rc, pixels, rl, top, left, right, bottom),
            r0.accel_pass(rg, records, top, left, right, bottom),
        ensures
            forall|i: int|
                0 <= i < r0.cells@.len() && !r0.in_bg_rows(top, left, right, bottom, i)
                    ==> #[trigger] rc.cells@[i] == r0.cells@[i] && #[trigger] rg.cells@[i]
                    == r0.cells@[i],
            forall|i: int|
                0 <= i < r0.cells@.len() ==> (#[trigger] rc.cells@[i]).1.grapheme
                    == r0.cells@[i].1.grapheme && (#[trigger] rg.cells@[i]).1.grapheme
                    == r0.cells@[i].1.grapheme,
            forall|i: int|
                0 <= i < r0.cells@.len() ==> (#[trigger] rc.cells@[i]).0 == r0.cells@[i].0 && (
                #[trigger] rg.cells@[i]).0 == r0.cells@[i].0,
            forall|i: int|
                0 <= i < r0.cells@.len() ==> (#[trigger] rc.cells@[i]).1.cursor
                    == r0.cells@[i].1.cursor && (#[trigger] rg.cells@[i]).1.cursor
                    == r0.cells@[i].1.cursor,
    {
    }

    /// The grid position where a text run placed at pixel `origin` starts:
    /// the pixel column halved, plus the grid row picked by the pixel row,
    /// clamped into the grid (a negative index places the run past the end,
    /// so nothing is drawn).
    pub open spec fn text_start(self, origin: Point<i32>) -> int {
        let idx = trunc_div(origin.x as int, 2) + trunc_div(origin.y as int + 1, 4) * (
        self.size.width as int);
        if idx < 0 {
            self.cells@.len() as int
        } else {
            min_i(idx, self.cells@.len() as int)
        }
    }

    /// The cell rectangle a clear-mode `draw_text` call blanks: the pixel
    /// rectangle scaled to cells with rounding, shifted one row down, and
    /// clamped to the viewport.
    pub open spec fn text_clear_rect(self, origin: Point<i32>, size: Size) -> Rect {
        let vw = self.size.width as int;
        let vh = self.size.height as int;
        let cx = round_div(origin.x as int, 2);
        let cy = round_div(origin.y as int, 4) + 1;
        let cw = round_div(size.width as int, 2);
        let ch = round_div(size.height as int, 4);
        let left = min_i(clamp0(cx), vw);
        let right = min_i(clamp0(cx + cw), vw);
        let top = min_i(clamp0(cy), vh);
        let bottom = min_i(clamp0(cy + ch), vh);
        Rect {
            origin: Point { x: left as i32, y: top as i32 },
            size: Size {
                width: (if right < left {
                    0
                } else {
                    right - left
                }) as u32,
                height: (if bottom < top {
                    0
                } else {
                    bottom - top
                }) as u32,
            },
        }
    }

    /// Whether the grapheme slot `g` already displays `text` in `color`, so
    /// the compositor keeps the shared record instead of interning another.
    pub open spec fn keep_grapheme(self, g: Option<usize>, text: Seq<char>, color: Color) -> bool {
        match g {
            Option::Some(h) => self.graphemes@[h as int].color == color
                && self.graphemes@[h as int].text@ == text,
            Option::None => false,
        }
    }

    /// Whether every slot of the run that lands before `upto` already
    /// displays its grapheme in the right color.
    pub open spec fn all_slots_kept(
        self,
        gs: Seq<Seq<char>>,
        start: int,
        color: Color,
        upto: int,
    ) -> bool {
        forall|n1: int, j1: int|
            0 <= n1 < gs.len() && 0 <= j1 < display_width_of(gs[n1]) && #[trigger] slot_pos(
                start,
                gs,
                n1,
                j1,
            ) < upto ==> self.keep_grapheme(
                self.cells@[slot_pos(start, gs, n1, j1)].1.grapheme,
                gs[n1],
                color,
            )
    }

    /// How one placed slot reads afterwards: kept untouched when text and
    /// color already match, else referring to a freshly interned record with
    /// this slot's text, sub-cell index, width and color.
    pub open spec fn slot_written(
        self,
        post: Renderer,
        gs: Seq<Seq<char>>,
        start: int,
        color: Color,
        n: int,
        j: int,
    ) -> bool {
        let p = slot_pos(start, gs, n, j);
        let c0 = self.cells@[p].1;
        if self.keep_grapheme(c0.grapheme, gs[n], color) {
            post.cells@[p].1 == c0
        } else {
            exists|h: int|
                self.graphemes@.len() <= h < post.graphemes@.len() && post.cells@[p].1 == (Cell {
                    grapheme: Option::Some(h as usize),
                    ..c0
                }) && (#[trigger] post.graphemes@[h]).text@ == gs[n] && post.graphemes@[h].index
                    == j && post.graphemes@[h].width == display_width_of(gs[n])
                    && post.graphemes@[h].color == color
        }
    }

    /// The place-mode effect of `draw_text`: the run's slots cover
    /// consecutive cells from its start position, each kept or freshly
    /// interned, the run is clipped at the end of the grid, and nothing
    /// else changes.
    pub open spec fn text_place_effect(
        self,
        post: Renderer,
        string: Seq<char>,
        origin: Point<i32>,
        color: Color,
    ) -> bool {
        let gs = graphemes_of(string);
        let start = self.text_start(origin);
        let len = self.cells@.len() as int;
        let total = width_sum(gs, gs.len() as int);
        &&& post.size == self.size
        &&& post.accel == self.accel
        &&& self.graphemes@.is_prefix_of(post.graphemes@)
        &&& post.cells@.len() == len
        &&& forall|i: int| 0 <= i < len ==> (#[trigger] post.cells@[i]).0 == self.cells@[i].0
        &&& forall|i: int|
            0 <= i < len && (i < start || i >= start + total) ==> (#[trigger] post.cells@[i]).1
                == self.cells@[i].1
        &&& forall|n: int, j: int|
            0 <= n < gs.len() && 0 <= j < display_width_of(gs[n]) && #[trigger] slot_pos(
                start,
                gs,
                n,
                j,
            ) < len ==> self.slot_written(post, gs, start, color, n, j)
    }

    /// The clear-mode effect of `draw_text`: every cell of the scaled
    /// rectangle loses its grapheme reference; colors, the arena and the
    /// previous frame are untouched.
    pub open spec fn text_clear_effect(
        self,
        post: Renderer,
        origin: Point<i32>,
        size: Size,
    ) -> bool {
        let r = self.text_clear_rect(origin, size);
        &&& post.size == self.size
        &&& post.accel == self.accel
        &&& post.graphemes@ == self.graphemes@
        &&& post.cells@.len() == self.cells@.len()
        &&& forall|i: int|
            0 <= i < post.cells@.len() ==> #[trigger] post.cells@[i] == (
                self.cells@[i].0,
                if self.in_rect(r, i) {
                    Cell { grapheme: Option::None, ..self.cells@[i].1 }
                } else {
                    self.cells@[i].1
                },
            )
    }

    /// Render a text run into the grid. A size larger than 2x2 pixels means
    /// "blank this region's text": the rectangle is scaled to cells with
    /// rounding and covered graphemes are cleared. Otherwise the string's
    /// grapheme clusters are placed on consecutive cells from the origin,
    /// one cell per display column, sharing one interned record per
    /// grapheme; a run past the end of the grid is silently clipped; a cell
    /// whose grapheme already shows the same text and color keeps its
    /// record, so an identical run changes nothing at all.
    pub fn draw_text(&mut self, string: &str, origin: Point<i32>, size: Size, color: Color)
        requires
            old(self).wf(),
        ensures
            final(self).wf(),
            size.width > 2 && size.height > 2 ==> old(self).text_clear_effect(
                *final(self),
                origin,
                size,
            ),
            !(size.width > 2 && size.height > 2) ==> old(self).text_place_effect(
                *final(self),
                string@,
                origin,
                color,
            ),
            !(size.width > 2 && size.height > 2) && old(self).all_slots_kept(
                graphemes_of(string@),
                old(self).text_start(origin),
                color,
                old(self).cells@.len() as int,
            ) ==> final(self).cells@ == old(self).cells@ && final(self).graphemes@ == old(
                self,
            ).graphemes@,
    {
        if size.width > 2 && size.height > 2 {
            self.draw_text_clear(origin, size);
            return ;
        }
        self.draw_text_place(string, origin, color);
    }

    /// Clear-mode text drawing: blank the grapheme references of the scaled
    /// rectangle.
    fn draw_text_clear(&mut self, origin: Point<i32>, size: Size)
        requires
            old(self).wf(),
        ensures
            final(self).wf(),
            old(self).text_clear_effect(*final(self), origin, size),
    {
        let vw: usize = self.size.width as usize;
        let vh: usize = self.size.height as usize;
        let cx: i64 = round_div_exec(origin.x as i64, 2);
        let cy: i64 = round_div_exec(origin.y as i64, 4) + 1;
        let cw: i64 = round_div_exec(size.width as i64, 2);
        let ch: i64 = round_div_exec(size.height as i64, 4);
        let left: usize = clamp_to(cx, vw);
        let right: usize = clamp_to(cx + cw, vw);
        let top: usize = clamp_to(cy, vh);
        let bottom: usize = clamp_to(cy + ch, vh);
        let rw: u32 = if right < left {
            0
        } else {
            (right - left) as u32
        };
        let rh: u32 = if bottom < top {
            0
        } else {
            (bottom - top) as u32
        };
        let rect = Rect::new(left as i32, top as i32, rw, rh);
        proof {
            assert(rect == self.text_clear_rect(origin, size));
        }
        self.draw(rect, CellOp::ClearGrapheme);
    }

    /// Place-mode text drawing: walk the string's grapheme clusters in
    /// order, assigning each covered cell its slot, reusing matching
    /// records, and stopping silently at the end of the grid.
    fn draw_text_place(&mut self, string: &str, origin: Point<i32>, color: Color)
        requires
            old(self).wf(),
        ensures
            final(self).wf(),
            old(self).text_place_effect(*final(self), string@, origin, color),
            old(self).all_slots_kept(
                graphemes_of(string@),
                old(self).text_start(origin),
                color,
                old(self).cells@.len() as int,
            ) ==> final(self).cells@ == old(self).cells@ && final(self).graphemes@ == old(
                self,
            ).graphemes@,
    {
        let len: usize = self.cells.len();
        let vw: i64 = self.size.width as i64;
        let qx: i64 = trunc_div_exec(origin.x as i64, 2);
        let qy: i64 = trunc_div_exec(origin.y as i64 + 1, 4);
        proof {
            assert(qy * vw >= -0x2_0000_0000_0000 && qy * vw <= 0x2_0000_0000_0000)
                by (nonlinear_arith)
                requires
                    -0x2_0000_0000 <= qy <= 0x2_0000_0000,
                    0 <= vw <= 0xFFFF,
            ;
        }
        proof {
            assert(len <= 0x1_0000_0000) by (nonlinear_arith)
                requires
                    len == self.size.width * (self.size.height + 1),
                    self.size.width <= 0xFFFF,
                    self.size.height <= 0xFFFF,
            ;
        }
        let idx: i64 = qx + qy * vw;
        let start: usize = if idx < 0 {
            len
        } else if idx >= len as i64 {
            len
        } else {
            idx as usize
        };
        proof {
            assert(qy * vw == trunc_div(origin.y as int + 1, 4) * (self.size.width as int));
            assert(start as int == self.text_start(origin));
        }

        let gs: Vec<String> = split_graphemes(string);
        let ghost gseq = graphemes_of(string@);
        let ghost startg = start as int;
        proof {
            assert forall|n1: int| 0 <= n1 implies #[trigger] width_sum(gseq, n1) >= 0 by {
                lemma_width_sum_mono(gseq, 0, n1);
            }
        }

        let mut pos: usize = start;
        let mut n: usize = 0;
        while n < gs.len()
            invariant
                old(self).wf(),
                self.wf(),
                self.size == old(self).size,
                self.accel == old(self).accel,
                len == self.cells@.len(),
                len == old(self).cells@.len(),
                start <= len,
                startg == start as int,
                startg == old(self).text_start(origin),
                gseq == graphemes_of(string@),
                gs@.len() == gseq.len(),
                forall|t: int| 0 <= t < gs@.len() ==> (#[trigger] gs@[t])@ == gseq[t],
                old(self).graphemes@.is_prefix_of(self.graphemes@),
                forall|i: int|
                    0 <= i < len ==> (#[trigger] self.cells@[i]).0 == old(self).cells@[i].0,
                forall|i: int|
                    0 <= i < len && (i < start || pos <= i) ==> (#[trigger] self.cells@[i]).1
                        == old(self).cells@[i].1,
                forall|n1: int| 0 <= n1 ==> #[trigger] width_sum(gseq, n1) >= 0,
                n <= gs@.len(),
                start <= pos,
                pos as int == startg + width_sum(gseq, n as int),
                pos <= len,
                forall|n1: int, j1: int|
                    0 <= n1 < gseq.len() && 0 <= j1 < display_width_of(gseq[n1])
                        && #[trigger] slot_pos(startg, gseq, n1, j1) < pos ==> old(
                        self,
                    ).slot_written(*self, gseq, startg, color, n1, j1),
                old(self).all_slots_kept(gseq, startg, color, pos as int) ==> self.cells@ == old(
                    self,
                ).cells@ && self.graphemes@ == old(self).graphemes@,
            decreases gs@.len() - n,
        {
            let gstr_text: String = gs[n].clone();
            let wid: usize = display_width(gstr_text.as_str());
            let mut j: usize = 0;
            while j < wid
                invariant
                    old(self).wf(),
                    self.wf(),
                    self.size == old(self).size,
                    self.accel == old(self).accel,
                    len == self.cells@.len(),
                    len == old(self).cells@.len(),
                    start <= len,
                    startg == start as int,
                    startg == old(self).text_start(origin),
                    gseq == graphemes_of(string@),
                    gs@.len() == gseq.len(),
                    forall|t: int| 0 <= t < gs@.len() ==> (#[trigger] gs@[t])@ == gseq[t],
                    old(self).graphemes@.is_prefix_of(self.graphemes@),
                    forall|i: int|
                        0 <= i < len ==> (#[trigger] self.cells@[i]).0 == old(self).cells@[i].0,
                    forall|i: int|
                        0 <= i < len && (i < start || pos <= i) ==> (#[trigger] self.cells@[i]).1
                            == old(self).cells@[i].1,
                    forall|n1: int| 0 <= n1 ==> #[trigger] width_sum(gseq, n1) >= 0,
                    n < gs@.len(),
                    gstr_text@ == gseq[n as int],
                    wid as int == display_width_of(gseq[n as int]),
                    j <= wid,
                    start <= pos,
                    pos as int == startg + width_sum(gseq, n as int) + j,
                    pos <= len,
                    forall|n1: int, j1: int|
                        0 <= n1 < gseq.len() && 0 <= j1 < display_width_of(gseq[n1])
                            && #[trigger] slot_pos(startg, gseq, n1, j1) < pos ==> old(
                            self,
                        ).slot_written(*self, gseq, startg, color, n1, j1),
                    old(self).all_slots_kept(gseq, startg, color, pos as int) ==> self.cells@
                        == old(self).cells@ && self.graphemes@ == old(self).graphemes@,
                decreases wid - j,
            {
                if pos >= len {
                    proof {
                        lemma_width_sum_mono(gseq, n as int + 1, gseq.len() as int);
                        assert(width_sum(gseq, n as int + 1) == width_sum(gseq, n as int)
                            + display_width_of(gseq[n as int]));
                    }
                    return ;
                }
                let ghost prev = *self;
                let pair = self.cells[pos];
                let cur = pair.1;
                let keep: bool = match cur.grapheme {
                    Option::Some(h) => {
                        proof {
                            assert(self.cell_ok(pos as int));
                        }
                        let g = &self.graphemes[h];
                        g.color == color && g.text == gstr_text
                    },
                    Option::None => false,
                };
                proof {
                    assert(keep == prev.keep_grapheme(cur.grapheme, gseq[n as int], color));
                    assert(cur == old(self).cells@[pos as int].1);
                    match cur.grapheme {
                        Option::Some(h0) => {
                            assert(old(self).cell_ok(pos as int));
                            lemma_prefix_index(
                                old(self).graphemes@,
                                self.graphemes@,
                                h0 as int,
                            );
                        },
                        Option::None => {},
                    }
                    assert(keep == old(self).keep_grapheme(
                        old(self).cells@[pos as int].1.grapheme,
                        gseq[n as int],
                        color,
                    ));
                }
                let ghost hw = self.graphemes@.len();
                if !keep {
                    proof {
                        if old(self).all_slots_kept(gseq, startg, color, pos as int + 1) {
                            assert(old(self).all_slots_kept(gseq, startg, color, pos as int));
                            assert(slot_pos(startg, gseq, n as int, j as int) < pos as int + 1);
                            assert(old(self).keep_grapheme(
                                old(self).cells@[slot_pos(startg, gseq, n as int, j as int)].1.grapheme,
                                gseq[n as int],
                                color,
                            ));
                            assert(false);
                        }
                    }
                    let h: usize = self.graphemes.len();
                    let newg = Grapheme { text: gstr_text.clone(), index: j, width: wid, color };
                    self.graphemes.push(newg);
                    let mut cur2 = cur;
                    cur2.grapheme = Option::Some(h);
                    self.cells.set(pos, (pair.0, cur2));
                }
                proof {
                    assert forall|j2: int| 0 <= j2 < self.cells@.len() implies #[trigger] self.cell_ok(
                        j2,
                    ) by {
                        assert(prev.cell_ok(j2));
                    }
                    assert forall|n1: int, j1: int|
                        0 <= n1 < gseq.len() && 0 <= j1 < display_width_of(gseq[n1])
                            && #[trigger] slot_pos(startg, gseq, n1, j1) < pos as int
                            + 1 implies old(self).slot_written(
                        *self,
                        gseq,
                        startg,
                        color,
                        n1,
                        j1,
                    ) by {
                        if slot_pos(startg, gseq, n1, j1) < pos as int {
                            assert(old(self).slot_written(prev, gseq, startg, color, n1, j1));
                            lemma_width_sum_mono(gseq, 0, n1);
                            let p1 = slot_pos(startg, gseq, n1, j1);
                            assert(0 <= p1 < len);
                            let c1 = old(self).cells@[p1].1;
                            if !old(self).keep_grapheme(c1.grapheme, gseq[n1], color) {
                                let h1 = choose|h1: int|
                                    old(self).graphemes@.len() <= h1 < prev.graphemes@.len()
                                        && prev.cells@[p1].1 == (Cell {
                                        grapheme: Option::Some(h1 as usize),
                                        ..c1
                                    }) && (#[trigger] prev.graphemes@[h1]).text@ == gseq[n1]
                                        && prev.graphemes@[h1].index == j1
                                        && prev.graphemes@[h1].width == display_width_of(gseq[n1])
                                        && prev.graphemes@[h1].color == color;
                                assert(self.graphemes@[h1] == prev.graphemes@[h1]);
                                assert(self.cells@[p1].1 == prev.cells@[p1].1);
                            }
                        } else {
                            lemma_slot_unique(gseq, startg, n as int, j as int, n1, j1);
                            assert(n1 == n as int && j1 == j as int);
                            if !old(self).keep_grapheme(cur.grapheme, gseq[n as int], color) {
                                assert(self.graphemes@[hw as int].text@ == gseq[n as int]);
                                assert(self.graphemes@[hw as int].index == j as int);
                                assert(self.graphemes@[hw as int].width == display_width_of(
                                    gseq[n as int],
                                ));
                                assert(self.graphemes@[hw as int].color == color);
                                assert(self.cells@[pos as int].1 == (Cell {
                                    grapheme: Option::Some(hw as usize),
                                    ..cur
                                }));
                                assert(old(self).graphemes@.len() <= hw < self.graphemes@.len());
                            }
                        }
                    }
                }
                pos = pos + 1;
                j = j + 1;
            }
            n = n + 1;
        }
        proof {
            lemma_text_tail_done(gseq, startg, pos as int, n as int);
        }
    }

    /// The fill step of an overlay: one row at `(x, y)`, as wide as the
    /// element's text, painted in its background color.
    pub open spec fn overlay_fill_effect(
        self,
        post: Renderer,
        x: u32,
        y: u32,
        elem: TextElement,
    ) -> bool {
        let r = Rect {
            origin: Point { x: x as i32, y: y as i32 },
            size: Size { width: display_width_of(elem.text@) as u32, height: 1u32 },
        };
        &&& post.size == self.size
        &&& post.accel == self.accel
        &&& post.graphemes@ == self.graphemes@
        &&& post.cells@.len() == self.cells@.len()
        &&& forall|i: int|
            0 <= i < post.cells@.len() ==> #[trigger] post.cells@[i] == (
                self.cells@[i].0,
                if self.in_rect(r, i) {
                    apply_op(self.cells@[i].1, CellOp::Fill(elem.background))
                } else {
                    self.cells@[i].1
                },
            )
    }

    /// Draw one overlay element whose row is known to fit: fill its row
    /// with the background color, then place its text over it in the
    /// foreground color.
    pub fn draw_overlay_at(&mut self, x: u32, y: u32, elem: &TextElement)
        requires
            old(self).wf(),
            x + display_width_of(elem.text@) <= old(self).size.width,
            y <= old(self).size.height,
            old(self).size.width >= 1,
        ensures
            final(self).wf(),
            final(self).size == old(self).size,
            final(self).accel == old(self).accel,
            exists|mid: Renderer|
                old(self).overlay_fill_effect(mid, x, y, *elem) && #[trigger] mid.text_place_effect(
                    *final(self),
                    elem.text@,
                    Point { x: (2 * x) as i32, y: y as i32 },
                    elem.foreground,
                ),
    {
        let w: usize = display_width(element_text(elem));
        let rect = Rect::new(x as i32, y as i32, w as u32, 1);
        self.fill_rect(rect, elem.background);
        let ghost mid = *self;
        self.draw_text(
            &elem.text,
            Point::new((2 * x) as i32, y as i32),
            Size::splat(0),
            elem.foreground,
        );
        proof {
            assert(old(self).overlay_fill_effect(mid, x, y, *elem));
        }
    }

    /// Draw one overlay element, clipping at the viewport: the element is
    /// drawn exactly when its text's width fits on row `y` at column `x`,
    /// and the grid is untouched when it does not.
    pub fn draw_overlay(&mut self, x: u32, y: u32, elem: &TextElement) -> (drawn: bool)
        requires
            old(self).wf(),
            old(self).size.width >= 1,
        ensures
            final(self).wf(),
            final(self).size == old(self).size,
            final(self).accel == old(self).accel,
            drawn <==> (x + display_width_of(elem.text@) <= old(self).size.width && y <= old(
                self,
            ).size.height),
            drawn ==> exists|mid: Renderer|
                old(self).overlay_fill_effect(mid, x, y, *elem) && #[trigger] mid.text_place_effect(
                    *final(self),
                    elem.text@,
                    Point { x: (2 * x) as i32, y: y as i32 },
                    elem.foreground,
                ),
            !drawn ==> final(self).cells@ == old(self).cells@ && final(self).graphemes@ == old(
                self,
            ).graphemes@,
    {
        let w: usize = display_width(element_text(elem));
        if y <= self.size.height && x <= self.size.width {
            let room: u32 = self.size.width - x;
            if w as u64 <= room as u64 {
                self.draw_overlay_at(x, y, elem);
                true
            } else {
                false
            }
        } else {
            false
        }
    }

    /// The interned grapheme record a cell's handle refers to.
    pub fn grapheme_at(&self, h: usize) -> (g: &Grapheme)
        requires
            h < self.graphemes@.len(),
        ensures
            g == self.graphemes@[h as int],
    {
        &self.graphemes[h]
    }

    /// One overlay element applied to the grid: drawn (fill plus text) when
    /// its row fits, and a no-op when it does not.
    pub open spec fn overlay_step(
        self,
        post: Renderer,
        x: u32,
        y: u32,
        elem: TextElement,
    ) -> bool {
        &&& post.size == self.size
        &&& post.accel == self.accel
        &&& if x + display_width_of(elem.text@) <= self.size.width && y <= self.size.height {
            exists|m2: Renderer|
                self.overlay_fill_effect(m2, x, y, elem) && #[trigger] m2.text_place_effect(
                    post,
                    elem.text@,
                    Point { x: (2 * x) as i32, y: y as i32 },
                    elem.foreground,
                )
        } else {
            post.cells@ == self.cells@ && post.graphemes@ == self.graphemes@
        }
    }

    /// The first `k` overlay elements applied to the grid, in order.
    pub open spec fn overlays_applied(
        self,
        post: Renderer,
        overlays: Seq<(u32, u32, TextElement)>,
        k: int,
    ) -> bool
        decreases k,
    {
        if k <= 0 {
            post == self
        } else {
            exists|mid: Renderer|
                self.overlays_applied(mid, overlays, k - 1) && #[trigger] mid.overlay_step(
                    post,
                    overlays[k - 1].0,
                    overlays[k - 1].1,
                    overlays[k - 1].2,
                )
        }
    }

    /// Extending an applied overlay prefix by one drawn element applies the
    /// longer prefix.
    pub proof fn lemma_overlays_applied_snoc(
        pre: Renderer,
        mid: Renderer,
        post: Renderer,
        overlays: Seq<(u32, u32, TextElement)>,
        k1: int,
    )
        requires
            k1 >= 1,
            pre.overlays_applied(mid, overlays, k1 - 1),
            mid.overlay_step(post, overlays[k1 - 1].0, overlays[k1 - 1].1, overlays[k1 - 1].2),
        ensures
            pre.overlays_applied(post, overlays, k1),
    {
        reveal_with_fuel(Renderer::overlays_applied, 2);
        assert(pre.overlays_applied(post, overlays, k1)) by {
            assert(pre.overlays_applied(mid, overlays, k1 - 1));
            assert(mid.overlay_step(
                post,
                overlays[k1 - 1].0,
                overlays[k1 - 1].1,
                overlays[k1 - 1].2,
            ));
        }
    }

    /// One frame: draw every overlay element in order, then diff the grid
    /// against the previous frame. The result is exactly the paint list of
    /// the composed state, the previous buffer is brought up to date, and a
    /// second call on unchanged state returns an empty list.
    pub fn render(&mut self, overlays: &Vec<(u32, u32, TextElement)>) -> (out: Vec<Cell>)
        requires
            old(self).wf(),
            old(self).size.width >= 1,
        ensures
            final(self).wf(),
            final(self).size == old(self).size,
            final(self).accel == old(self).accel,
            forall|i: int|
                0 <= i < final(self).cells@.len() ==> #[trigger] final(self).cell_matches(i),
            exists|mid: Renderer|
                #[trigger] old(self).overlays_applied(mid, overlays@, overlays@.len() as int)
                    && out@ == mid.paint_prefix(mid.cells@.len() as int) && final(self).graphemes@
                    == mid.graphemes@ && final(self).cells@.len() == mid.cells@.len() && (forall|
                    i: int,
                |
                    0 <= i < mid.cells@.len() ==> (#[trigger] final(self).cells@[i]).1
                        == mid.cells@[i].1),
    {
        let mut k: usize = 0;
        let n: usize = overlays.len();
        while k < n
            invariant
                old(self).wf(),
                self.wf(),
                self.size == old(self).size,
                self.accel == old(self).accel,
                self.size.width >= 1,
                n == overlays@.len(),
                k <= n,
                old(self).overlays_applied(*self, overlays@, k as int),
            decreases n - k,
        {
            let ghost prev = *self;
            let x: u32 = overlays[k].0;
            let y: u32 = overlays[k].1;
            self.draw_overlay(x, y, &overlays[k].2);
            proof {
                Self::lemma_overlays_applied_snoc(
                    *old(self),
                    prev,
                    *self,
                    overlays@,
                    k as int + 1,
                );
            }
            k = k + 1;
        }
        let ghost mid = *self;
        let out = self.diff_frame();
        proof {
            assert(old(self).overlays_applied(mid, overlays@, overlays@.len() as int));
        }
        out
    }

    /// After a diff pass the buffers agree everywhere, and a pass over a
    /// state whose buffers agree forwards nothing: rendering the same
    /// immutable state twice paints zero cells the second time.
    pub proof fn lemma_diff_idempotent(r: Renderer, n: int)
        requires
            0 <= n <= r.cells@.len(),
            forall|i: int| 0 <= i < n ==> #[trigger] r.cell_matches(i),
        ensures
            r.paint_prefix(n) == Seq::<Cell>::empty(),
        decreases n,
    {
        if n > 0 {
            Self::lemma_diff_idempotent(r, n - 1);
        }
    }

    /// Diff correctness: every cell a diff pass forwards comes from a
    /// position whose current state differs from the previous frame; a cell
    /// that did not change between two frames is never forwarded.
    pub proof fn lemma_paint_only_changed(r: Renderer, n: int, k: int)
        requires
            0 <= n <= r.cells@.len(),
            0 <= k < r.paint_prefix(n).len(),
        ensures
            exists|i: int|
                0 <= i < n && !(#[trigger] r.cell_matches(i)) && r.paint_prefix(n)[k]
                    == r.cells@[i].1,
        decreases n,
    {
        if n > 0 {
            if r.cell_matches(n - 1) {
                Self::lemma_paint_only_changed(r, n - 1, k);
            } else {
                if k < r.paint_prefix(n - 1).len() {
                    Self::lemma_paint_only_changed(r, n - 1, k);
                } else {
                    assert(!r.cell_matches(n - 1) && r.paint_prefix(n)[k] == r.cells@[n - 1].1);
                }
            }
        }
    }
}

} // verus!
