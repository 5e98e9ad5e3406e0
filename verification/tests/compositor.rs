use dvtr::{Compositor, Rect, RenderOp, ScreenBuffer};

#[test]
fn unchanged_screen_emits_nothing() {
    let mut s = ScreenBuffer::new(8, 3);
    s.process(b"hello");
    let mut comp = Compositor::new(8, 3);
    let rect = Rect::new(0, 0, 8, 3);
    let first = comp.render_pane(&s, rect, true, 0);
    assert!(!first.is_empty());
    // Rendering the very same screen again emits zero operations.
    let second = comp.render_pane(&s, rect, true, 0);
    assert_eq!(second.len(), 0);
}

#[test]
fn single_cell_change_emits_one_run() {
    let mut s = ScreenBuffer::new(8, 3);
    s.process(b"hello");
    let mut comp = Compositor::new(8, 3);
    let rect = Rect::new(0, 0, 8, 3);
    let _ = comp.render_pane(&s, rect, true, 0);
    // Change exactly one cell's character, everything else identical.
    s.process(b"\x1b[1;1HZ");
    let ops = comp.render_pane(&s, rect, true, 0);
    assert_eq!(ops.len(), 3);
    assert_eq!(ops[0], RenderOp::MoveTo(0, 0));
    assert!(matches!(ops[1], RenderOp::SetStyle { .. }));
    assert_eq!(ops[2], RenderOp::Print('Z'));
}

#[test]
fn focus_flip_redraws_pane() {
    let mut s = ScreenBuffer::new(4, 2);
    s.process(b"ab");
    let mut comp = Compositor::new(4, 2);
    let rect = Rect::new(0, 0, 4, 2);
    let _ = comp.render_pane(&s, rect, true, 0);
    // The focus flag is part of the change-detection key.
    let ops = comp.render_pane(&s, rect, false, 0);
    let prints = ops.iter().filter(|o| matches!(o, RenderOp::Print(_))).count();
    assert_eq!(prints, 8);
    // And the flag sticks: same unfocused pass emits nothing.
    let ops2 = comp.render_pane(&s, rect, false, 0);
    assert!(ops2.is_empty());
}

#[test]
fn invalidate_forces_redraw() {
    let mut s = ScreenBuffer::new(4, 2);
    s.process(b"ab");
    let mut comp = Compositor::new(4, 2);
    let rect = Rect::new(0, 0, 4, 2);
    let _ = comp.render_pane(&s, rect, true, 0);
    comp.invalidate();
    let ops = comp.render_pane(&s, rect, true, 0);
    let prints = ops.iter().filter(|o| matches!(o, RenderOp::Print(_))).count();
    assert_eq!(prints, 8);
}

#[test]
fn scroll_offset_renders_history() {
    let mut s = ScreenBuffer::new(4, 2);
    s.process(b"old\r\nmid\r\nnew");
    let mut comp = Compositor::new(4, 2);
    let rect = Rect::new(0, 0, 4, 2);
    let _ = comp.render_pane(&s, rect, true, 0);
    let ops = comp.render_pane(&s, rect, true, 1);
    // The viewport scrolled one line into history: the top row shows
    // the archived line.
    assert!(ops.contains(&RenderOp::Print('o')));
}
