//! The differential compositor: it remembers what was last drawn at
//! every physical cell and, for each pane render pass, emits only the
//! operations needed to bring the physical terminal up to date.

use vstd::prelude::*;

use crate::cell::{Attrs, Cell, Color};
use crate::pane::Rect;
use crate::screen::{get_scrolled_spec, ScreenBuffer, ScreenView};

verus! {

/// One operation of the patch a render pass emits. The I/O layer maps
/// these to terminal escape sequences.
#[derive(Debug, Clone, Copy, PartialEq, Eq, Structural)]
pub enum RenderOp {
    /// Move the physical cursor to (column, row).
    MoveTo(u16, u16),
    /// Reset the output style, then apply these colors and attributes;
    /// `dim` additionally forces the dim attribute (unfocused panes).
    SetStyle {
        /// Foreground color, `None` for the terminal default.
        fg: Option<Color>,
        /// Background color, `None` for the terminal default.
        bg: Option<Color>,
        /// The cell's own attributes.
        attrs: Attrs,
        /// Whether dimming is forced regardless of `attrs`.
        dim: bool,
    },
    /// Write one character at the cursor, advancing it.
    Print(char),
}

/// What the compositor remembers of one physical cell: the cell last
/// drawn there and whether its pane was focused at the time.
#[derive(Debug, Clone, Copy, PartialEq, Eq, Structural)]
pub struct RenderedCell {
    /// The cell as last drawn.
    pub cell: Cell,
    /// Whether the owning pane was drawn focused.
    pub focused: bool,
}

impl RenderedCell {
    /// The record a fresh compositor starts with.
    pub open spec fn default_spec() -> RenderedCell {
        RenderedCell { cell: Cell::default_spec(), focused: true }
    }
}

/// The compositor's mathematical state.
#[verifier::ext_equal]
pub ghost struct CompositorView {
    /// Physical terminal width.
    pub width: u16,
    /// Physical terminal height.
    pub height: u16,
    /// Last-drawn record, row major, length `width * height`.
    pub frame: Seq<RenderedCell>,
}

impl CompositorView {
    /// The record covers exactly the physical grid.
    pub open spec fn wf(self) -> bool {
        self.frame.len() == self.width as int * self.height as int
    }
}

/// The record the compositor holds at (`x`, `y`) of the target `rect`
/// after rendering `bv` there: the scrollback-blended source cell plus
/// the focus flag.
pub open spec fn rendered_at(bv: ScreenView, x: int, y: int, focused: bool, offset: usize)
    -> RenderedCell {
    RenderedCell { cell: get_scrolled_spec(bv, x as u16, y as u16, offset), focused }
}

/// Whether position (`x`, `y`) of the pane's rect already shows, in
/// frame `f`, exactly what a render pass would draw (positions off the
/// physical screen are vacuously up to date).
pub open spec fn cell_up_to_date(c: CompositorView, bv: ScreenView, rect: Rect, focused: bool,
    offset: usize, x: int, y: int) -> bool {
    let sx = rect.x + x;
    let sy = rect.y + y;
    sx < c.width && sy < c.height ==> c.frame[sy * c.width as int + sx]
        == rendered_at(bv, x, y, focused, offset)
}

/// The extent of a render pass: the target rect clamped to the pane's
/// grid.
pub open spec fn pass_width(rect: Rect, bv: ScreenView) -> int {
    if rect.width < bv.width {
        rect.width as int
    } else {
        bv.width as int
    }
}

/// The extent of a render pass: rows.
pub open spec fn pass_height(rect: Rect, bv: ScreenView) -> int {
    if rect.height < bv.height {
        rect.height as int
    } else {
        bv.height as int
    }
}

/// Whether every cell of the pass is already up to date.
pub open spec fn all_up_to_date(c: CompositorView, bv: ScreenView, rect: Rect, focused: bool,
    offset: usize) -> bool {
    forall|x: int, y: int| 0 <= x < pass_width(rect, bv) && 0 <= y < pass_height(rect, bv)
        ==> #[trigger] cell_up_to_date(c, bv, rect, focused, offset, x, y)
}

/// The frame after a render pass: every on-screen cell of the pass
/// holds its source cell and focus flag; everything else is untouched.
pub open spec fn frame_after_pass(c: CompositorView, bv: ScreenView, rect: Rect, focused: bool,
    offset: usize) -> Seq<RenderedCell> {
    Seq::new(c.frame.len(), |j: int| {
        let sy = j / c.width as int;
        let sx = j % c.width as int;
        if rect.y <= sy < rect.y + pass_height(rect, bv)
            && rect.x <= sx < rect.x + pass_width(rect, bv) {
            rendered_at(bv, sx - rect.x, sy - rect.y, focused, offset)
        } else {
            c.frame[j]
        }
    })
}

/// A flat row-major index decomposes uniquely into its row and column.
pub proof fn lemma_flat_unique(w: int, sx: int, sy: int)
    by (nonlinear_arith)
    requires
        w >= 1,
        0 <= sx < w,
        0 <= sy,
    ensures
        (sy * w + sx) / w == sy,
        (sy * w + sx) % w == sx,
{
}

/// A flat index of a `w x h` grid decomposes into an in-range row and
/// column.
pub proof fn lemma_flat_bounds(w: int, h: int, j: int)
    by (nonlinear_arith)
    requires
        w >= 1,
        0 <= j < w * h,
    ensures
        0 <= j / w < h,
        0 <= j % w < w,
{
}

/// A flat index recomposes from its row and column.
pub proof fn lemma_flat_recompose(w: int, j: int)
    by (nonlinear_arith)
    requires
        w >= 1,
        0 <= j,
    ensures
        j == (j / w) * w + (j % w),
{
}

/// A grid with no columns has no cells.
pub proof fn lemma_empty_grid(w: int, h: int)
    by (nonlinear_arith)
    requires
        w == 0,
    ensures
        w * h == 0,
{
}

/// The emitter's running state during a render pass: the operations
/// queued so far, whether the next changed cell needs a cursor move
/// (set whenever a cell was skipped), and the style of the last emitted
/// cell (valid once `applied` holds; a cursor move invalidates it).
#[verifier::ext_equal]
pub ghost struct PatchState {
    /// Operations emitted so far.
    pub ops: Seq<RenderOp>,
    /// Whether the run of changed cells was interrupted.
    pub need_move: bool,
    /// Foreground of the last emitted style.
    pub fg: Option<Color>,
    /// Background of the last emitted style.
    pub bg: Option<Color>,
    /// Attributes of the last emitted style.
    pub attrs: Attrs,
    /// Whether any style was emitted since the last cursor move.
    pub applied: bool,
}

/// The emitter's state at the start of a pass: nothing emitted, a move
/// pending, no style applied.
pub open spec fn init_patch() -> PatchState {
    PatchState {
        ops: Seq::empty(),
        need_move: true,
        fg: None,
        bg: None,
        attrs: Attrs(0),
        applied: false,
    }
}

/// One cell of the pass: an up-to-date (or off-screen) cell emits
/// nothing — an on-screen one interrupts the run; a changed cell emits
/// a cursor move when the run was interrupted, a style when it differs
/// from the last emitted one (or none was emitted since the last move),
/// and the character itself.
pub open spec fn emit_cell(st: PatchState, c: CompositorView, bv: ScreenView, rect: Rect,
    focused: bool, offset: usize, x: int, y: int) -> PatchState {
    let sx = rect.x + x;
    let sy = rect.y + y;
    if sx < c.width && sy < c.height {
        let target = rendered_at(bv, x, y, focused, offset);
        if c.frame[sy * c.width as int + sx] == target {
            PatchState { need_move: true, ..st }
        } else {
            let st1 = if st.need_move {
                PatchState {
                    ops: st.ops.push(RenderOp::MoveTo(sx as u16, sy as u16)),
                    need_move: false,
                    fg: None,
                    bg: None,
                    attrs: Attrs(0),
                    applied: false,
                }
            } else {
                st
            };
            let cell = target.cell;
            let st2 = if cell.attrs != st1.attrs || cell.fg != st1.fg || cell.bg != st1.bg
                || !st1.applied {
                PatchState {
                    ops: st1.ops.push(RenderOp::SetStyle {
                        fg: cell.fg,
                        bg: cell.bg,
                        attrs: cell.attrs,
                        dim: !focused,
                    }),
                    fg: cell.fg,
                    bg: cell.bg,
                    attrs: cell.attrs,
                    applied: true,
                    ..st1
                }
            } else {
                st1
            };
            PatchState { ops: st2.ops.push(RenderOp::Print(cell.ch)), ..st2 }
        }
    } else {
        st
    }
}

/// The emitter folded over row `y` from column `x` on.
pub open spec fn emit_row(st: PatchState, c: CompositorView, bv: ScreenView, rect: Rect,
    focused: bool, offset: usize, y: int, x: int) -> PatchState
    decreases pass_width(rect, bv) - x,
{
    if x >= pass_width(rect, bv) {
        st
    } else {
        emit_row(emit_cell(st, c, bv, rect, focused, offset, x, y), c, bv, rect, focused,
            offset, y, x + 1)
    }
}

/// The emitter folded over the rows from `y` on; each row starts with
/// the run interrupted.
pub open spec fn emit_rows(st: PatchState, c: CompositorView, bv: ScreenView, rect: Rect,
    focused: bool, offset: usize, y: int) -> PatchState
    decreases pass_height(rect, bv) - y,
{
    if y >= pass_height(rect, bv) {
        st
    } else {
        emit_rows(emit_row(PatchState { need_move: true, ..st }, c, bv, rect, focused,
            offset, y, 0), c, bv, rect, focused, offset, y + 1)
    }
}

/// The exact patch a render pass emits.
pub open spec fn render_ops_spec(c: CompositorView, bv: ScreenView, rect: Rect, focused: bool,
    offset: usize) -> Seq<RenderOp> {
    emit_rows(init_patch(), c, bv, rect, focused, offset, 0).ops
}

/// A row whose remaining cells are all up to date emits nothing and,
/// when the run was already interrupted, leaves the emitter state
/// untouched.
proof fn lemma_emit_row_clean(st: PatchState, c: CompositorView, bv: ScreenView, rect: Rect,
    focused: bool, offset: usize, y: int, x: int)
    requires
        st.need_move,
        forall|xx: int| x <= xx < pass_width(rect, bv)
            ==> #[trigger] cell_up_to_date(c, bv, rect, focused, offset, xx, y),
    ensures
        emit_row(st, c, bv, rect, focused, offset, y, x) == st,
    decreases pass_width(rect, bv) - x,
{
    if x < pass_width(rect, bv) {
        assert(cell_up_to_date(c, bv, rect, focused, offset, x, y));
        assert(emit_cell(st, c, bv, rect, focused, offset, x, y) =~= st);
        lemma_emit_row_clean(st, c, bv, rect, focused, offset, y, x + 1);
    }
}

/// A row whose remaining cells are all up to date emits nothing,
/// whatever the emitter state.
proof fn lemma_emit_row_clean_ops(st: PatchState, c: CompositorView, bv: ScreenView,
    rect: Rect, focused: bool, offset: usize, y: int, x: int)
    requires
        forall|xx: int| x <= xx < pass_width(rect, bv)
            ==> #[trigger] cell_up_to_date(c, bv, rect, focused, offset, xx, y),
    ensures
        emit_row(st, c, bv, rect, focused, offset, y, x).ops == st.ops,
    decreases pass_width(rect, bv) - x,
{
    if x < pass_width(rect, bv) {
        assert(cell_up_to_date(c, bv, rect, focused, offset, x, y));
        lemma_emit_row_clean_ops(emit_cell(st, c, bv, rect, focused, offset, x, y), c, bv,
            rect, focused, offset, y, x + 1);
    }
}

/// Rows whose cells are all up to date emit nothing.
proof fn lemma_emit_rows_clean(st: PatchState, c: CompositorView, bv: ScreenView, rect: Rect,
    focused: bool, offset: usize, y: int)
    requires
        forall|xx: int, yy: int| 0 <= xx < pass_width(rect, bv) && y <= yy < pass_height(rect,
            bv) ==> #[trigger] cell_up_to_date(c, bv, rect, focused, offset, xx, yy),
    ensures
        emit_rows(st, c, bv, rect, focused, offset, y).ops == st.ops,
    decreases pass_height(rect, bv) - y,
{
    if y < pass_height(rect, bv) {
        lemma_emit_row_clean_ops(PatchState { need_move: true, ..st }, c, bv, rect, focused,
            offset, y, 0);
        lemma_emit_rows_clean(emit_row(PatchState { need_move: true, ..st }, c, bv, rect,
            focused, offset, y, 0), c, bv, rect, focused, offset, y + 1);
    }
}

/// A row with exactly one changed (on-screen) cell among its remaining
/// ones, reached with the run interrupted, emits exactly one cursor
/// move to it, one style, and its character.
proof fn lemma_emit_row_single(st: PatchState, c: CompositorView, bv: ScreenView, rect: Rect,
    focused: bool, offset: usize, y: int, x: int, cx: int)
    requires
        st.need_move,
        x <= cx < pass_width(rect, bv),
        rect.x + cx < c.width,
        rect.y + y < c.height,
        !cell_up_to_date(c, bv, rect, focused, offset, cx, y),
        forall|xx: int| x <= xx < pass_width(rect, bv) && xx != cx
            ==> #[trigger] cell_up_to_date(c, bv, rect, focused, offset, xx, y),
    ensures
        emit_row(st, c, bv, rect, focused, offset, y, x).ops == st.ops
            .push(RenderOp::MoveTo((rect.x + cx) as u16, (rect.y + y) as u16))
            .push(RenderOp::SetStyle {
                fg: get_scrolled_spec(bv, cx as u16, y as u16, offset).fg,
                bg: get_scrolled_spec(bv, cx as u16, y as u16, offset).bg,
                attrs: get_scrolled_spec(bv, cx as u16, y as u16, offset).attrs,
                dim: !focused,
            })
            .push(RenderOp::Print(get_scrolled_spec(bv, cx as u16, y as u16, offset).ch)),
    decreases pass_width(rect, bv) - x,
{
    if x < cx {
        assert(cell_up_to_date(c, bv, rect, focused, offset, x, y));
        assert(emit_cell(st, c, bv, rect, focused, offset, x, y) =~= st);
        lemma_emit_row_single(st, c, bv, rect, focused, offset, y, x + 1, cx);
    } else {
        let hit = emit_cell(st, c, bv, rect, focused, offset, cx, y);
        lemma_emit_row_clean_ops(hit, c, bv, rect, focused, offset, y, cx + 1);
    }
}

/// P7's second half, at the patch level: when exactly one cell of the
/// pass differs from the record (cell plus focus key), the patch is
/// exactly one cursor move to that position, one style, and that one
/// character.
pub proof fn lemma_single_change_patch(c: CompositorView, bv: ScreenView, rect: Rect,
    focused: bool, offset: usize, cx: int, cy: int)
    requires
        0 <= cx < pass_width(rect, bv),
        0 <= cy < pass_height(rect, bv),
        rect.x + cx < c.width,
        rect.y + cy < c.height,
        !cell_up_to_date(c, bv, rect, focused, offset, cx, cy),
        forall|xx: int, yy: int| 0 <= xx < pass_width(rect, bv)
            && 0 <= yy < pass_height(rect, bv) && !(xx == cx && yy == cy)
            ==> #[trigger] cell_up_to_date(c, bv, rect, focused, offset, xx, yy),
    ensures
        render_ops_spec(c, bv, rect, focused, offset) =~= seq![
            RenderOp::MoveTo((rect.x + cx) as u16, (rect.y + cy) as u16),
            RenderOp::SetStyle {
                fg: get_scrolled_spec(bv, cx as u16, cy as u16, offset).fg,
                bg: get_scrolled_spec(bv, cx as u16, cy as u16, offset).bg,
                attrs: get_scrolled_spec(bv, cx as u16, cy as u16, offset).attrs,
                dim: !focused,
            },
            RenderOp::Print(get_scrolled_spec(bv, cx as u16, cy as u16, offset).ch),
        ],
{
    lemma_rows_single(init_patch(), c, bv, rect, focused, offset, 0, cx, cy);
}

/// Rows from `y` on, all up to date but for the one changed cell at
/// (`cx`, `cy`) with `cy >= y`: the emitter adds exactly the three
/// operations for it.
proof fn lemma_rows_single(st: PatchState, c: CompositorView, bv: ScreenView, rect: Rect,
    focused: bool, offset: usize, y: int, cx: int, cy: int)
    requires
        y <= cy < pass_height(rect, bv),
        0 <= cx < pass_width(rect, bv),
        rect.x + cx < c.width,
        rect.y + cy < c.height,
        !cell_up_to_date(c, bv, rect, focused, offset, cx, cy),
        forall|xx: int, yy: int| 0 <= xx < pass_width(rect, bv)
            && y <= yy < pass_height(rect, bv) && !(xx == cx && yy == cy)
            ==> #[trigger] cell_up_to_date(c, bv, rect, focused, offset, xx, yy),
    ensures
        emit_rows(st, c, bv, rect, focused, offset, y).ops == st.ops
            .push(RenderOp::MoveTo((rect.x + cx) as u16, (rect.y + cy) as u16))
            .push(RenderOp::SetStyle {
                fg: get_scrolled_spec(bv, cx as u16, cy as u16, offset).fg,
                bg: get_scrolled_spec(bv, cx as u16, cy as u16, offset).bg,
                attrs: get_scrolled_spec(bv, cx as u16, cy as u16, offset).attrs,
                dim: !focused,
            })
            .push(RenderOp::Print(get_scrolled_spec(bv, cx as u16, cy as u16, offset).ch)),
    decreases pass_height(rect, bv) - y,
{
    let st0 = PatchState { need_move: true, ..st };
    if y == cy {
        lemma_emit_row_single(st0, c, bv, rect, focused, offset, y, 0, cx);
        lemma_emit_rows_clean(emit_row(st0, c, bv, rect, focused, offset, y, 0), c, bv, rect,
            focused, offset, y + 1);
    } else {
        lemma_emit_row_clean(st0, c, bv, rect, focused, offset, y, 0);
        lemma_rows_single(st0, c, bv, rect, focused, offset, y + 1, cx, cy);
    }
}

/// A record in which every cell shows NUL can never be up to date: a
/// screen's cells, its scrollback lines and the blank filler all hold
/// real characters (the decoder absorbs NUL bytes), so invalidating the
/// record forces the next pass to redraw.
pub proof fn lemma_invalidate_forces_redraw(c: CompositorView, bv: ScreenView, rect: Rect,
    focused: bool, offset: usize)
    requires
        c.wf(),
        bv.wf(),
        forall|j: int| 0 <= j < c.frame.len() ==> (#[trigger] c.frame[j]).cell.ch == '\0',
        pass_width(rect, bv) >= 1,
        pass_height(rect, bv) >= 1,
        rect.x < c.width,
        rect.y < c.height,
    ensures
        !all_up_to_date(c, bv, rect, focused, offset),
{
    crate::screen::lemma_index_in_grid(rect.x, rect.y, c.width, c.height);
    crate::screen::lemma_index_in_grid(0, 0, bv.width, bv.height);
    let src = get_scrolled_spec(bv, 0, 0, offset);
    assert(src.ch != '\0');
    assert(!cell_up_to_date(c, bv, rect, focused, offset, 0, 0));
}

/// Compositor for the physical terminal: remembers the last-drawn cell
/// at every position and emits minimal patches.
pub struct Compositor {
    width: u16,
    height: u16,
    last_frame: Vec<RenderedCell>,
}

impl View for Compositor {
    type V = CompositorView;

    closed spec fn view(&self) -> CompositorView {
        CompositorView {
            width: self.width,
            height: self.height,
            frame: self.last_frame@,
        }
    }
}

impl Compositor {
    /// Well-formedness of the record.
    pub open spec fn wf(&self) -> bool {
        self@.wf()
    }

    /// A compositor for a `width x height` physical terminal, with
    /// every cell recorded as the default blank (focused).
    pub fn new(width: u16, height: u16) -> (r: Compositor)
        ensures
            r@.width == width,
            r@.height == height,
            r@.frame == Seq::new((width as int * height as int) as nat,
                |_j: int| RenderedCell::default_spec()),
            r.wf(),
    {
        proof {
            crate::screen::lemma_index_in_grid(0, 0,
                if width == 0 { 1 } else { width },
                if height == 0 { 1 } else { height });
        }
        let n: usize = (width as usize) * (height as usize);
        let r = Compositor {
            width,
            height,
            last_frame: vec![RenderedCell { cell: Cell::default(), focused: true }; n],
        };
        proof {
            assert(r@.frame =~= Seq::new((width as int * height as int) as nat,
                |_j: int| RenderedCell::default_spec()));
        }
        r
    }

    /// Track a new physical size, resetting every record to the default
    /// (which forces a redraw of cells that are not default blanks).
    pub fn resize(&mut self, width: u16, height: u16)
        ensures
            final(self)@.width == width,
            final(self)@.height == height,
            final(self)@.frame == Seq::new((width as int * height as int) as nat,
                |_j: int| RenderedCell::default_spec()),
            final(self).wf(),
    {
        let fresh = Compositor::new(width, height);
        *self = fresh;
    }

    /// Mark every record as impossible to match (a NUL character never
    /// arrives from a screen, whose decoder absorbs it), forcing a full
    /// redraw on the next pass.
    pub fn invalidate(&mut self)
        ensures
            final(self)@.width == old(self)@.width,
            final(self)@.height == old(self)@.height,
            final(self)@.frame == Seq::new(old(self)@.frame.len(), |j: int| RenderedCell {
                cell: Cell { ch: '\0', ..old(self)@.frame[j].cell },
                ..old(self)@.frame[j]
            }),
            old(self).wf() ==> final(self).wf(),
    {
        let n = self.last_frame.len();
        let mut i: usize = 0;
        while i < n
            invariant
                i <= n,
                n == self@.frame.len(),
                self@.width == old(self)@.width,
                self@.height == old(self)@.height,
                forall|j: int| 0 <= j < n ==> #[trigger] self@.frame[j] == (if j < i {
                    RenderedCell {
                        cell: Cell { ch: '\0', ..old(self)@.frame[j].cell },
                        ..old(self)@.frame[j]
                    }
                } else {
                    old(self)@.frame[j]
                }),
            decreases n - i,
        {
            let prev = self.last_frame[i];
            self.last_frame.set(i, RenderedCell {
                cell: Cell { ch: '\0', fg: prev.cell.fg, bg: prev.cell.bg, attrs: prev.cell.attrs },
                focused: prev.focused,
            });
            i = i + 1;
        }
        proof {
            assert(self@.frame =~= Seq::new(old(self)@.frame.len(), |j: int| RenderedCell {
                cell: Cell { ch: '\0', ..old(self)@.frame[j].cell },
                ..old(self)@.frame[j]
            }));
        }
    }

    /// Render one pane into `rect` of the physical grid: compare every
    /// source cell (live grid, or scrollback-blended when
    /// `scroll_offset > 0`) plus the focus flag against the record, skip
    /// unchanged cells entirely, and emit one cursor move per run of
    /// changed cells with style changes only where the style differs
    /// from the previously emitted cell. Afterwards the record holds
    /// exactly what a fresh draw of the pane would show; the patch is
    /// empty precisely when every cell was already up to date.
    pub fn render_pane(&mut self, buffer: &ScreenBuffer, rect: Rect, focused: bool,
        scroll_offset: usize) -> (ops: Vec<RenderOp>)
        requires
            old(self).wf(),
            buffer.wf(),
        ensures
            final(self).wf(),
            final(self)@.width == old(self)@.width,
            final(self)@.height == old(self)@.height,
            final(self)@.frame == frame_after_pass(old(self)@, buffer@, rect, focused,
                scroll_offset),
            (ops@.len() == 0) <==> all_up_to_date(old(self)@, buffer@, rect, focused,
                scroll_offset),
            ops@ == render_ops_spec(old(self)@, buffer@, rect, focused, scroll_offset),
    {
        let mut ops: Vec<RenderOp> = Vec::new();
        let w: usize = self.width as usize;
        let frame_len: usize = self.last_frame.len();
        let pass_h: u16 = if rect.height < buffer.height() { rect.height } else { buffer.height() };
        let pass_w: u16 = if rect.width < buffer.width() { rect.width } else { buffer.width() };
        let mut last_fg: Option<Color> = None;
        let mut last_bg: Option<Color> = None;
        let mut last_attrs: Attrs = Attrs(0);
        let mut need_move: bool = true;
        let mut attrs_applied: bool = false;
        let ghost c0 = old(self)@;
        let ghost bv = buffer@;
        let ghost goal = emit_rows(init_patch(), c0, bv, rect, focused, scroll_offset, 0);
        let mut y: u16 = 0;
        proof {
            assert(PatchState {
                ops: ops@,
                need_move: need_move,
                fg: last_fg,
                bg: last_bg,
                attrs: last_attrs,
                applied: attrs_applied,
            } =~= init_patch());
        }
        while y < pass_h
            invariant
                y <= pass_h,
                w == self@.width,
                frame_len == self@.frame.len(),
                self@.width == c0.width,
                self@.height == c0.height,
                self@.frame.len() == c0.frame.len(),
                c0.wf(),
                bv.wf(),
                bv == buffer@,
                buffer.wf(),
                pass_h == pass_height(rect, bv),
                pass_w == pass_width(rect, bv),
                forall|j: int| 0 <= j < frame_len ==> #[trigger] self@.frame[j] == ({
                    let sy = j / c0.width as int;
                    let sx = j % c0.width as int;
                    if rect.y <= sy < rect.y + y && rect.x <= sx < rect.x + pass_w as int {
                        rendered_at(bv, sx - rect.x, sy - rect.y, focused, scroll_offset)
                    } else {
                        c0.frame[j]
                    }
                }),
                (ops@.len() == 0) <==> (forall|xx: int, yy: int| 0 <= xx < pass_w as int
                    && 0 <= yy < y as int ==> #[trigger] cell_up_to_date(c0, bv, rect, focused,
                        scroll_offset, xx, yy)),
                emit_rows(PatchState {
                    ops: ops@,
                    need_move: need_move,
                    fg: last_fg,
                    bg: last_bg,
                    attrs: last_attrs,
                    applied: attrs_applied,
                }, c0, bv, rect, focused, scroll_offset, y as int) == goal,
            decreases pass_h - y,
        {
            let ghost st_head = PatchState {
                ops: ops@,
                need_move: need_move,
                fg: last_fg,
                bg: last_bg,
                attrs: last_attrs,
                applied: attrs_applied,
            };
            let sy: usize = rect.y as usize + y as usize;
            let mut x: u16 = 0;
            need_move = true;
            proof {
                assert(emit_rows(st_head, c0, bv, rect, focused, scroll_offset, y as int)
                    == emit_rows(emit_row(PatchState { need_move: true, ..st_head }, c0, bv,
                        rect, focused, scroll_offset, y as int, 0), c0, bv, rect, focused,
                        scroll_offset, y as int + 1));
                assert(PatchState { need_move: true, ..st_head } =~= PatchState {
                    ops: ops@,
                    need_move: need_move,
                    fg: last_fg,
                    bg: last_bg,
                    attrs: last_attrs,
                    applied: attrs_applied,
                });
            }
            while x < pass_w
                invariant
                    x <= pass_w,
                    y < pass_h,
                    sy == rect.y as int + y as int,
                    w == self@.width,
                    frame_len == self@.frame.len(),
                    self@.width == c0.width,
                    self@.height == c0.height,
                    self@.frame.len() == c0.frame.len(),
                    c0.wf(),
                    bv.wf(),
                    bv == buffer@,
                    buffer.wf(),
                    pass_h == pass_height(rect, bv),
                    pass_w == pass_width(rect, bv),
                    forall|j: int| 0 <= j < frame_len ==> #[trigger] self@.frame[j] == ({
                        let jy = j / c0.width as int;
                        let jx = j % c0.width as int;
                        if (rect.y <= jy < rect.y + y && rect.x <= jx < rect.x + pass_w as int)
                            || (jy == rect.y + y as int && rect.x <= jx < rect.x + x as int) {
                            rendered_at(bv, jx - rect.x, jy - rect.y, focused, scroll_offset)
                        } else {
                            c0.frame[j]
                        }
                    }),
                    (ops@.len() == 0) <==> ((forall|xx: int, yy: int| 0 <= xx < pass_w as int
                        && 0 <= yy < y as int ==> #[trigger] cell_up_to_date(c0, bv, rect,
                            focused, scroll_offset, xx, yy))
                        && (forall|xx: int| 0 <= xx < x as int ==> #[trigger] cell_up_to_date(
                            c0, bv, rect, focused, scroll_offset, xx, y as int))),
                    emit_rows(emit_row(PatchState {
                        ops: ops@,
                        need_move: need_move,
                        fg: last_fg,
                        bg: last_bg,
                        attrs: last_attrs,
                        applied: attrs_applied,
                    }, c0, bv, rect, focused, scroll_offset, y as int, x as int), c0, bv,
                        rect, focused, scroll_offset, y as int + 1) == goal,
                decreases pass_w - x,
            {
                let ghost pst = PatchState {
                    ops: ops@,
                    need_move: need_move,
                    fg: last_fg,
                    bg: last_bg,
                    attrs: last_attrs,
                    applied: attrs_applied,
                };
                let sx: usize = rect.x as usize + x as usize;
                let cell = buffer.get_scrolled(x, y, scroll_offset);
                if sx < w && sy < self.height as usize {
                    proof {
                        crate::screen::lemma_index_in_grid(sx as u16, sy as u16, c0.width,
                            c0.height);
                        lemma_flat_unique(c0.width as int, sx as int, sy as int);
                    }
                    let idx: usize = sy * w + sx;
                    let last = self.last_frame[idx];
                    if last.cell == cell && last.focused == focused {
                        need_move = true;
                        proof {
                            assert(cell_up_to_date(c0, bv, rect, focused, scroll_offset,
                                x as int, y as int));
                        }
                    } else {
                        if need_move {
                            ops.push(RenderOp::MoveTo(sx as u16, sy as u16));
                            need_move = false;
                            last_fg = None;
                            last_bg = None;
                            last_attrs = Attrs(0);
                            attrs_applied = false;
                        }
                        let attrs_changed = cell.attrs != last_attrs;
                        let colors_changed = cell.fg != last_fg || cell.bg != last_bg;
                        if attrs_changed || colors_changed || !attrs_applied {
                            ops.push(RenderOp::SetStyle {
                                fg: cell.fg,
                                bg: cell.bg,
                                attrs: cell.attrs,
                                dim: !focused,
                            });
                            last_fg = cell.fg;
                            last_bg = cell.bg;
                            last_attrs = cell.attrs;
                            attrs_applied = true;
                        }
                        ops.push(RenderOp::Print(cell.ch));
                        self.last_frame.set(idx, RenderedCell { cell, focused });
                        proof {
                            assert(!cell_up_to_date(c0, bv, rect, focused, scroll_offset,
                                x as int, y as int));
                        }
                    }
                } else {
                    proof {
                        assert(cell_up_to_date(c0, bv, rect, focused, scroll_offset,
                            x as int, y as int));
                    }
                }
                proof {
                    let wi = c0.width as int;
                    assert forall|j: int| 0 <= j < frame_len implies
                        #[trigger] self@.frame[j] == ({
                        let jy = j / wi;
                        let jx = j % wi;
                        if (rect.y <= jy < rect.y + y && rect.x <= jx < rect.x + pass_w as int)
                            || (jy == rect.y + y as int
                                && rect.x <= jx < rect.x + x as int + 1) {
                            rendered_at(bv, jx - rect.x, jy - rect.y, focused, scroll_offset)
                        } else {
                            c0.frame[j]
                        }
                    }) by {
                        if c0.width >= 1 {
                            lemma_flat_bounds(wi, c0.height as int, j);
                            lemma_flat_recompose(wi, j);
                        } else {
                            lemma_empty_grid(wi, c0.height as int);
                        }
                    }
                }
                proof {
                    assert(PatchState {
                        ops: ops@,
                        need_move: need_move,
                        fg: last_fg,
                        bg: last_bg,
                        attrs: last_attrs,
                        applied: attrs_applied,
                    } =~= emit_cell(pst, c0, bv, rect, focused, scroll_offset, x as int,
                        y as int));
                    assert(emit_row(pst, c0, bv, rect, focused, scroll_offset, y as int,
                        x as int) == emit_row(emit_cell(pst, c0, bv, rect, focused,
                        scroll_offset, x as int, y as int), c0, bv, rect, focused,
                        scroll_offset, y as int, x as int + 1));
                }
                x = x + 1;
            }
            proof {
                let stq = PatchState {
                    ops: ops@,
                    need_move: need_move,
                    fg: last_fg,
                    bg: last_bg,
                    attrs: last_attrs,
                    applied: attrs_applied,
                };
                assert(emit_row(stq, c0, bv, rect, focused, scroll_offset, y as int,
                    x as int) == stq);
            }
            y = y + 1;
        }
        proof {
            let stf = PatchState {
                ops: ops@,
                need_move: need_move,
                fg: last_fg,
                bg: last_bg,
                attrs: last_attrs,
                applied: attrs_applied,
            };
            assert(emit_rows(stf, c0, bv, rect, focused, scroll_offset, y as int) == stf);
            assert(self@.frame =~= frame_after_pass(c0, bv, rect, focused, scroll_offset));
        }
        ops
    }
}

} // verus!
