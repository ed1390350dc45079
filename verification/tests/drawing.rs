use carbonyl::accel::plan_input_copy;
use carbonyl::quant::binarize_quadrant;
use carbonyl::renderer::BackgroundPass;
use carbonyl::{Color, FttyUnicodePixel, Point, Rect, Renderer, Size};

fn idx(width: usize, x: usize, y: usize) -> usize {
    y * width + x
}

/// A solid-color BGRA buffer of `w x h` pixels.
fn bgra(w: usize, h: usize, b: u8, g: u8, r: u8) -> Vec<u8> {
    let mut v = Vec::with_capacity(w * h * 4);
    for _ in 0..w * h {
        v.push(b);
        v.push(g);
        v.push(r);
        v.push(255);
    }
    v
}

#[test]
fn grapheme_instance_reused_on_identical_draw() {
    // Drawing "A" twice at the same cell and color triggers zero new
    // grapheme records; the stored instance is unchanged.
    let mut r = Renderer::new(false);
    r.set_size(Size::new(8, 4));
    r.draw_text("A", Point::new(0, 0), Size::splat(0), Color::new(1, 2, 3));
    let arena_len = r.graphemes.len();
    let handle = r.cells[0].1.grapheme;
    assert_eq!(arena_len, 1);
    assert!(handle.is_some());

    r.draw_text("A", Point::new(0, 0), Size::splat(0), Color::new(1, 2, 3));
    assert_eq!(r.graphemes.len(), arena_len);
    assert_eq!(r.cells[0].1.grapheme, handle);
}

#[test]
fn changed_color_replaces_grapheme() {
    let mut r = Renderer::new(false);
    r.set_size(Size::new(8, 4));
    r.draw_text("A", Point::new(0, 0), Size::splat(0), Color::new(1, 2, 3));
    let handle = r.cells[0].1.grapheme;
    r.draw_text("A", Point::new(0, 0), Size::splat(0), Color::new(9, 9, 9));
    assert_ne!(r.cells[0].1.grapheme, handle);
    assert_eq!(r.graphemes.len(), 2);
}

#[test]
fn double_width_occupies_two_cells() {
    // A double-width character covers two consecutive cells sharing the
    // same text with sub-cell indexes 0 then 1.
    let mut r = Renderer::new(false);
    r.set_size(Size::new(8, 4));
    r.draw_text("\u{4e16}", Point::new(0, 0), Size::splat(0), Color::new(1, 2, 3));
    let h0 = r.cells[0].1.grapheme.expect("first cell has a grapheme");
    let h1 = r.cells[1].1.grapheme.expect("second cell has a grapheme");
    let g0 = r.grapheme_at(h0).clone();
    let g1 = r.grapheme_at(h1).clone();
    assert_eq!(g0.text, "\u{4e16}");
    assert_eq!(g1.text, "\u{4e16}");
    assert_eq!(g0.index, 0);
    assert_eq!(g1.index, 1);
    assert_eq!(g0.width, 2);
    assert_eq!(g1.width, 2);
    assert!(r.cells[2].1.grapheme.is_none());
}

#[test]
fn combining_mark_is_one_grapheme() {
    // "e" plus a combining acute accent is one user-perceived character:
    // one cell, one record holding both code points.
    let mut r = Renderer::new(false);
    r.set_size(Size::new(8, 4));
    r.draw_text("e\u{301}x", Point::new(0, 0), Size::splat(0), Color::new(1, 2, 3));
    let h0 = r.cells[0].1.grapheme.expect("first cell has a grapheme");
    assert_eq!(r.grapheme_at(h0).text, "e\u{301}");
    let h1 = r.cells[1].1.grapheme.expect("second cell has a grapheme");
    assert_eq!(r.grapheme_at(h1).text, "x");
}

#[test]
fn text_clips_at_end_of_grid() {
    // A run needing more cells than remain is truncated silently and never
    // writes out of bounds.
    let mut r = Renderer::new(false);
    r.set_size(Size::new(4, 1));
    // Start at the last cell of the grid (row 1 = first viewport row).
    r.draw_text("wxyz", Point::new(6, 0), Size::splat(0), Color::new(1, 2, 3));
    assert_eq!(r.cells.len(), 8);
    let h = r.cells[3].1.grapheme.expect("cell at start has a grapheme");
    assert_eq!(r.grapheme_at(h).text, "w");
    // "wxyz" fills cells 3..7; the last cell is never reached.
    assert!(r.cells[6].1.grapheme.is_some());
    assert!(r.cells[7].1.grapheme.is_none());
    assert_eq!(r.graphemes.len(), 4);
}

#[test]
fn clear_mode_blanks_region_text() {
    let mut r = Renderer::new(false);
    r.set_size(Size::new(8, 4));
    // Place text on grid row 1 (pixel row 4).
    r.draw_text("abcd", Point::new(0, 4), Size::splat(0), Color::new(1, 2, 3));
    assert!(r.cells[idx(8, 0, 1)].1.grapheme.is_some());
    // A size over 2x2 pixels means "blank this region's text"; the pixel
    // rectangle from the origin covers grid rows 1..4.
    r.draw_text("", Point::new(0, 0), Size::new(16, 16), Color::new(0, 0, 0));
    for x in 0..8 {
        assert!(r.cells[idx(8, x, 1)].1.grapheme.is_none());
    }
}

#[test]
fn quantization_is_deterministic() {
    let q = (
        Color::new(250, 10, 10),
        Color::new(10, 10, 10),
        Color::new(10, 250, 10),
        Color::new(10, 10, 250),
    );
    let a = binarize_quadrant(q);
    let b = binarize_quadrant(q);
    assert_eq!(a, b);
}

#[test]
fn quantization_uniform_block_is_space() {
    let c = Color::new(120, 40, 200);
    let (cp, bg, fg) = binarize_quadrant((c, c, c, c));
    assert_eq!(cp, 0x20);
    assert_eq!(bg, c);
    assert_eq!(fg, c);
}

#[test]
fn quantization_single_bright_corner() {
    // Luminances 765,0,0,0: threshold 191, only the top-left is bright.
    let w = Color::new(255, 255, 255);
    let k = Color::new(0, 0, 0);
    let (cp, bg, fg) = binarize_quadrant((w, k, k, k));
    assert_eq!(cp, 0x2598); // quadrant upper left
    assert_eq!(bg, k);
    assert_eq!(fg, w);
}

#[test]
fn solid_red_fills_grid_with_red() {
    // 10x5 grid, solid red BGRA input: every viewport cell resolves to red
    // background and foreground, a space glyph, and a uniform red quadrant.
    let mut r = Renderer::new(false);
    r.set_size(Size::new(10, 5));
    let pixels = bgra(20, 20, 0, 0, 255);
    let pass = r.draw_background(&pixels, Size::new(20, 20), Rect::new(0, 0, 20, 20));
    assert_eq!(pass, BackgroundPass::CpuDone);
    let red = Color::new(255, 0, 0);
    for y in 0..5 {
        for x in 0..10 {
            let cell = r.cells[idx(10, x, y + 1)].1;
            assert_eq!(cell.background, red);
            assert_eq!(cell.foreground, red);
            assert_eq!(cell.codepoint, 0x20);
            assert_eq!(cell.quadrant, (red, red, red, red));
        }
    }
}

#[test]
fn undersized_buffer_is_a_no_op() {
    let mut r = Renderer::new(false);
    r.set_size(Size::new(10, 5));
    let before: Vec<_> = r.cells.iter().map(|p| p.1.background).collect();
    let pixels = bgra(10, 10, 0, 0, 255); // 400 bytes < 1600 required
    let pass = r.draw_background(&pixels, Size::new(10, 10), Rect::new(0, 0, 20, 20));
    assert_eq!(pass, BackgroundPass::Skipped);
    let after: Vec<_> = r.cells.iter().map(|p| p.1.background).collect();
    assert_eq!(before, after);
}

#[test]
fn live_pipeline_dispatches_region() {
    let mut r = Renderer::new(true);
    r.set_size(Size::new(10, 5));
    r.accel_result(true);
    let pixels = bgra(20, 20, 0, 0, 255);
    // Dirty pixel rectangle x 4..9, y 5..11 maps to cells 2..5 x 1..3.
    let pass = r.draw_background(&pixels, Size::new(20, 20), Rect::new(4, 5, 5, 6));
    assert_eq!(pass, BackgroundPass::AccelDispatch { top: 1, left: 2, right: 5, bottom: 3 });
}

#[test]
fn cpu_and_accel_paths_have_the_same_shape() {
    // With no accelerator, draw_background populates background,
    // foreground and codepoint for exactly the cells an accelerator
    // read-back over the same region would.
    let mut cpu = Renderer::new(false);
    cpu.set_size(Size::new(4, 2));
    let pixels = bgra(8, 8, 10, 200, 30);
    let pass = cpu.draw_background(&pixels, Size::new(8, 8), Rect::new(0, 0, 8, 8));
    assert_eq!(pass, BackgroundPass::CpuDone);

    let mut gpu = Renderer::new(false);
    gpu.set_size(Size::new(4, 2));
    // Simulate the accelerator by quantizing each cell's quadrant into an
    // output record, as a functioning pipeline would on the same input.
    let mut records = Vec::new();
    for y in 0..2 {
        for x in 0..4 {
            let cell = cpu.cells[idx(4, x, y + 1)].1;
            let (cp, bg, fg) = binarize_quadrant(cell.quadrant);
            records.push(FttyUnicodePixel {
                br: bg.r,
                bg: bg.g,
                bb: bg.b,
                fr: fg.r,
                fg: fg.g,
                fb: fg.b,
                _pad: 0,
                codepoint: cp,
            });
        }
    }
    gpu.apply_accel_output(&records, 0, 0, 4, 2);

    for y in 0..2 {
        for x in 0..4 {
            let c = cpu.cells[idx(4, x, y + 1)].1;
            let g = gpu.cells[idx(4, x, y + 1)].1;
            assert_eq!(c.background, g.background);
            assert_eq!(c.foreground, g.foreground);
            assert_eq!(c.codepoint, g.codepoint);
            assert!(c.grapheme.is_none() && g.grapheme.is_none());
        }
    }
    // The guard row is untouched by both paths.
    for x in 0..4 {
        assert_eq!(cpu.cells[x].1.codepoint, 0x20);
        assert_eq!(gpu.cells[x].1.codepoint, 0x20);
    }
}

#[test]
fn copy_plan_bulk_when_strides_match() {
    let plan = plan_input_copy(Size::new(10, 5), Size::new(20, 20), 1, 2, 5, 3);
    assert_eq!(plan.len(), 1);
    // One contiguous copy of pixel rows 4..12, 80 bytes per pixel row.
    assert_eq!(plan[0].src, 1 * 4 * 80);
    assert_eq!(plan[0].dst, 1 * 4 * 80);
    assert_eq!(plan[0].len, 2 * 4 * 80);
}

#[test]
fn copy_plan_rows_when_strides_differ() {
    let plan = plan_input_copy(Size::new(10, 5), Size::new(32, 20), 1, 2, 5, 3);
    assert_eq!(plan.len(), 8);
    for (j, span) in plan.iter().enumerate() {
        let py = 4 + j;
        assert_eq!(span.src, (py * 32 + 4) * 4);
        assert_eq!(span.dst, (py * 20 + 4) * 4);
        assert_eq!(span.len, 3 * 2 * 4);
    }
}

#[test]
fn overlay_draws_fill_and_text() {
    let mut r = Renderer::new(false);
    r.set_size(Size::new(10, 3));
    let elem = carbonyl::renderer::TextElement {
        text: String::from("ok"),
        background: Color::new(30, 30, 30),
        foreground: Color::new(250, 250, 250),
    };
    let drawn = r.draw_overlay(1, 0, &elem);
    assert!(drawn);
    assert_eq!(r.cells[1].1.background, Color::new(30, 30, 30));
    assert_eq!(r.cells[2].1.background, Color::new(30, 30, 30));
    let h = r.cells[1].1.grapheme.expect("text placed over the fill");
    assert_eq!(r.grapheme_at(h).text, "o");
    assert_eq!(r.grapheme_at(h).color, Color::new(250, 250, 250));
}

#[test]
fn overlay_too_wide_is_skipped() {
    let mut r = Renderer::new(false);
    r.set_size(Size::new(4, 2));
    let elem = carbonyl::renderer::TextElement {
        text: String::from("too wide to fit"),
        background: Color::new(1, 1, 1),
        foreground: Color::new(2, 2, 2),
    };
    let drawn = r.draw_overlay(0, 0, &elem);
    assert!(!drawn);
    for pair in r.cells.iter() {
        assert!(pair.1.grapheme.is_none());
        assert_eq!(pair.1.background, Color::new(0, 0, 0));
    }
}

#[test]
fn color_average_rounds_down() {
    let a = Color::new(10, 0, 255);
    let b = Color::new(11, 1, 255);
    assert_eq!(a.avg_with(b), Color::new(10, 0, 255));
}
