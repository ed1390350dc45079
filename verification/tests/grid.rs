use carbonyl::{AccelAction, AccelState, Cell, Color, Renderer, Size};

fn idx(width: usize, x: usize, y: usize) -> usize {
    y * width + x
}

#[test]
fn new_renderer_is_empty() {
    let r = Renderer::new(false);
    assert_eq!(r.cells.len(), 0);
    assert_eq!(r.graphemes.len(), 0);
    assert_eq!(r.get_size(), Size::new(0, 0));
    assert_eq!(r.accel, AccelState::Unavailable);
}

#[test]
fn default_cell_state() {
    let c = Cell::new(3, 7);
    assert_eq!(c.cursor.x, 3);
    assert_eq!(c.cursor.y, 7);
    assert!(c.grapheme.is_none());
    assert_eq!(c.codepoint, 0x20);
    assert_eq!(c.background, Color::new(0, 0, 0));
    assert_eq!(c.foreground, Color::new(0, 0, 0));
    assert_eq!(c.quadrant.0, Color::new(0, 0, 0));
}

#[test]
fn set_size_allocates_guard_row() {
    let mut r = Renderer::new(false);
    r.set_size(Size::new(10, 5));
    assert_eq!(r.cells.len(), 10 * 6);
    for y in 0..6 {
        for x in 0..10 {
            let (prev, cur) = r.cells[idx(10, x, y)];
            assert_eq!(cur.cursor.x, x as u32);
            assert_eq!(cur.cursor.y, y as u32);
            assert!(cur.grapheme.is_none());
            assert_eq!(cur.codepoint, 0x20);
            assert_eq!(prev.cursor.x, x as u32);
        }
    }
}

#[test]
fn resize_resets_all_state() {
    // Resize from 10x5 to 20x10: graphemes cleared, grid length updated,
    // colors back to default black and space glyphs.
    let mut r = Renderer::new(false);
    r.set_size(Size::new(10, 5));
    r.fill_rect(carbonyl::Rect::new(0, 0, 10, 5), Color::new(9, 9, 9));
    r.draw_text("hi", carbonyl::Point::new(0, 0), Size::splat(0), Color::new(1, 2, 3));
    assert!(r.graphemes.len() > 0);

    r.set_size(Size::new(20, 10));
    assert_eq!(r.cells.len(), 20 * 11);
    assert_eq!(r.graphemes.len(), 0);
    for pair in r.cells.iter() {
        assert!(pair.1.grapheme.is_none());
        assert_eq!(pair.1.background, Color::new(0, 0, 0));
        assert_eq!(pair.1.codepoint, 0x20);
    }
}

#[test]
fn diff_reports_only_changed_cells() {
    // A fill touches one rectangle; the diff forwards exactly those cells.
    let mut r = Renderer::new(false);
    r.set_size(Size::new(8, 4));
    r.fill_rect(carbonyl::Rect::new(2, 1, 3, 2), Color::new(200, 10, 10));
    let painted = r.diff_frame();
    assert_eq!(painted.len(), 6);
    for c in painted.iter() {
        assert!(c.cursor.x >= 2 && c.cursor.x < 5);
        assert!(c.cursor.y >= 1 && c.cursor.y < 3);
        assert_eq!(c.background, Color::new(200, 10, 10));
    }
}

#[test]
fn second_diff_paints_nothing() {
    // Rendering the same immutable state twice paints zero cells the
    // second time.
    let mut r = Renderer::new(false);
    r.set_size(Size::new(8, 4));
    r.fill_rect(carbonyl::Rect::new(0, 0, 8, 4), Color::new(5, 6, 7));
    let first = r.diff_frame();
    assert!(first.len() > 0);
    let second = r.diff_frame();
    assert_eq!(second.len(), 0);
}

#[test]
fn clear_text_keeps_colors() {
    let mut r = Renderer::new(false);
    r.set_size(Size::new(6, 3));
    r.fill_rect(carbonyl::Rect::new(0, 0, 6, 3), Color::new(40, 50, 60));
    r.draw_text("abc", carbonyl::Point::new(0, 0), Size::splat(0), Color::new(1, 1, 1));
    r.clear_text();
    for pair in r.cells.iter() {
        assert!(pair.1.grapheme.is_none());
    }
    assert_eq!(r.cells[idx(6, 0, 0)].1.background, Color::new(40, 50, 60));
}

#[test]
fn accel_lifecycle_actions() {
    // With a context: first resize asks to create, later resizes ask to
    // resize, and a failure falls back until the next success.
    let mut r = Renderer::new(true);
    assert_eq!(r.accel, AccelState::NoPipeline);
    let action = r.set_size(Size::new(10, 5));
    assert_eq!(action, AccelAction::CreatePipeline { width: 10, height: 5 });
    r.accel_result(true);
    assert_eq!(r.accel, AccelState::Pipeline { width: 10, height: 5 });

    let action = r.set_size(Size::new(12, 6));
    assert_eq!(action, AccelAction::ResizePipeline { width: 12, height: 6 });
    r.accel_result(false);
    assert_eq!(r.accel, AccelState::NoPipeline);

    let action = r.set_size(Size::new(12, 6));
    assert_eq!(action, AccelAction::CreatePipeline { width: 12, height: 6 });
}

#[test]
fn frame_is_idempotent_through_render() {
    // A full frame (overlays plus diff) on unchanged state paints nothing
    // the second time.
    let mut r = Renderer::new(false);
    r.set_size(Size::new(10, 3));
    let overlays = vec![(
        0u32,
        0u32,
        carbonyl::renderer::TextElement {
            text: String::from("hi"),
            background: Color::new(3, 3, 3),
            foreground: Color::new(9, 9, 9),
        },
    )];
    let first = r.render(&overlays);
    assert!(first.len() > 0);
    let second = r.render(&overlays);
    assert_eq!(second.len(), 0);
}

#[test]
fn unavailable_accel_never_asks() {
    let mut r = Renderer::new(false);
    let action = r.set_size(Size::new(4, 4));
    assert_eq!(action, AccelAction::Nothing);
    assert_eq!(r.accel, AccelState::Unavailable);
}
