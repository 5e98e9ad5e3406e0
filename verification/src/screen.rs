//! The virtual screen: a fixed-size grid of cells together with the
//! resumable byte-decoder state that mutates it.
//!
//! `process` consumes raw bytes — text, UTF-8 fragments and ANSI/VT
//! control sequences, in chunks cut at arbitrary positions — and applies
//! the resulting state transitions. Its effect is specified exactly by
//! [`feed_spec`], a fold of the single-byte step function [`step_spec`]
//! over the input, which is what makes properties such as chunk-split
//! independence provable.

use vstd::prelude::*;

use crate::cell::{Attrs, Cell, Color, Style};

verus! {

/// Default bound on the number of scrollback lines kept per screen.
pub const DEFAULT_SCROLLBACK: usize = 1000;

/// The byte-decoder's current mode. Part of the screen's durable state,
/// so that escape sequences and UTF-8 characters may span `process` calls.
#[derive(Debug, Clone, Copy, PartialEq, Eq, Structural)]
pub enum ParseState {
    /// Plain text and C0 control bytes.
    Normal,
    /// After ESC.
    Escape,
    /// After ESC `[`: accumulating a control-sequence body.
    Csi,
    /// After ESC `]`: accumulating an operating-system-command string.
    Osc,
    /// After ESC `P`/`_`/`^`/`X`: a device-control or similar string,
    /// consumed and discarded until its terminator.
    Dcs,
    /// After ESC `(` and friends: exactly one charset byte is consumed.
    CharsetSelect,
}

/// The mathematical state of a virtual screen: every field of
/// [`ScreenBuffer`], as sequences and plain values.
#[verifier::ext_equal]
pub ghost struct ScreenView {
    /// Row-major grid contents, length `width * height`.
    pub cells: Seq<Cell>,
    /// Grid width in columns (at least 1).
    pub width: u16,
    /// Grid height in rows (at least 1).
    pub height: u16,
    /// Cursor column, below `width`.
    pub cursor_x: u16,
    /// Cursor row, below `height`.
    pub cursor_y: u16,
    /// The style applied to the next printed character.
    pub style: Style,
    /// Decoder mode.
    pub state: ParseState,
    /// Bytes of the escape sequence accumulated so far.
    pub parse_buffer: Seq<u8>,
    /// Bytes of the UTF-8 character accumulated so far.
    pub utf8_buffer: Seq<u8>,
    /// Continuation bytes still expected for the current UTF-8 character.
    pub utf8_remaining: u8,
    /// Grid saved on entering the alternate screen.
    pub saved_cells: Option<Seq<Cell>>,
    /// Cursor position saved by save-cursor or on entering the alternate screen.
    pub saved_cursor: Option<(u16, u16)>,
    /// Whether the screen is in alternate-screen mode.
    pub in_alternate: bool,
    /// Pane title, set by OSC 0/1/2.
    pub title: Option<Seq<char>>,
    /// Whether the cursor should be drawn.
    pub cursor_visible: bool,
    /// First row of the scroll region (inclusive).
    pub scroll_top: u16,
    /// Last row of the scroll region (inclusive), below `height`.
    pub scroll_bottom: u16,
    /// Lines evicted off the top of the screen, oldest first.
    pub scrollback: Seq<Seq<Cell>>,
    /// Bound on `scrollback`'s length.
    pub scrollback_limit: usize,
}

/// No cell of `cells` holds the NUL character: process output never
/// produces one (the decoder absorbs NUL bytes), which lets a NUL mark
/// a compositor record as impossible to match.
pub open spec fn no_nul(cells: Seq<Cell>) -> bool {
    forall|i: int| 0 <= i < cells.len() ==> (#[trigger] cells[i]).ch != '\0'
}

impl ScreenView {
    /// Well-formedness: the grid is exactly `width * height` cells, the
    /// cursor and scroll region lie inside it, the UTF-8 accumulator is
    /// consistent, and the scrollback respects its bound.
    pub open spec fn wf(self) -> bool {
        &&& self.width >= 1
        &&& self.height >= 1
        &&& self.cells.len() == self.width as int * self.height as int
        &&& self.cursor_x < self.width
        &&& self.cursor_y < self.height
        &&& self.scroll_top <= self.scroll_bottom
        &&& self.scroll_bottom < self.height
        &&& self.utf8_remaining <= 3
        &&& (self.utf8_remaining > 0 ==> 1 <= self.utf8_buffer.len()
            && self.utf8_buffer.len() + self.utf8_remaining <= 4)
        &&& (self.utf8_remaining == 0 ==> self.utf8_buffer.len() == 0)
        &&& self.scrollback.len() <= self.scrollback_limit
        &&& no_nul(self.cells)
        &&& (match self.saved_cells {
            Some(s) => no_nul(s),
            None => true,
        })
        &&& (forall|k: int| 0 <= k < self.scrollback.len()
            ==> no_nul(#[trigger] self.scrollback[k]))
    }

    /// Index of column `x` of row `y` in the row-major grid.
    pub open spec fn index_of(self, x: u16, y: u16) -> int {
        y as int * self.width as int + x as int
    }

    /// The blank cell used by erase and scroll operations: a space
    /// carrying the current background color (never the foreground).
    pub open spec fn blank(self) -> Cell {
        Cell { ch: ' ', fg: None, bg: self.style.bg, attrs: Attrs(0) }
    }
}

/// `cells` with positions `start <= i < end` replaced by `c`.
pub open spec fn fill_range_spec(cells: Seq<Cell>, start: int, end: int, c: Cell) -> Seq<Cell> {
    Seq::new(cells.len(), |i: int| if start <= i < end { c } else { cells[i] })
}

/// Row `y` of a `width`-column grid, as a sequence of `width` cells.
pub open spec fn row_of(cells: Seq<Cell>, width: u16, y: u16) -> Seq<Cell> {
    cells.subrange(y as int * width as int, y as int * width as int + width as int)
}

/// Multiplying a larger row index by the width gives a larger offset.
pub proof fn lemma_index_in_grid(x: u16, y: u16, width: u16, height: u16)
    by (nonlinear_arith)
    requires
        x < width,
        y < height,
    ensures
        0 <= y as int * width as int + x as int,
        (y as int * width as int + x as int) < (width as int * height as int),
        (y as int * width as int + x as int) < ((y as int + 1) * width as int),
        (y as int + 1) * width as int <= (width as int * height as int),
        (y as int * width as int + x as int) < 0xFFFF_FFFF,
        (width as int * height as int) < 0xFFFF_FFFF,
{
}

/// Two distinct rows of a grid occupy disjoint index ranges.
pub proof fn lemma_distinct_rows(a: u16, b: u16, width: u16)
    by (nonlinear_arith)
    requires
        a < b,
    ensures
        (a as int + 1) * width as int <= (b as int * width as int),
{
}

/// Rows stacked below `height` rows stay inside the grid.
pub proof fn lemma_row_bounds(y: u16, width: u16, height: u16)
    by (nonlinear_arith)
    requires
        y < height,
    ensures
        0 <= y as int * width as int,
        (y as int + 1) * width as int <= (width as int * height as int),
        y as int * width as int + width as int == (y as int + 1) * width as int,
        y as int * width as int <= (y as int + 1) * width as int,
        ((y as int + 1) * width as int) < 0xFFFF_FFFF,
{
}

/// Screen buffer for one pane: the current display state plus the
/// decoder state needed to resume parsing across byte chunks.
pub struct ScreenBuffer {
    cells: Vec<Cell>,
    width: u16,
    height: u16,
    cursor_x: u16,
    cursor_y: u16,
    current: Style,
    parse_state: ParseState,
    parse_buffer: Vec<u8>,
    utf8_buffer: Vec<u8>,
    utf8_remaining: u8,
    saved_cells: Option<Vec<Cell>>,
    saved_cursor: Option<(u16, u16)>,
    in_alternate_screen: bool,
    title: Option<String>,
    cursor_visible: bool,
    scroll_top: u16,
    scroll_bottom: u16,
    scrollback: std::collections::VecDeque<Vec<Cell>>,
    scrollback_limit: usize,
}

impl View for ScreenBuffer {
    type V = ScreenView;

    closed spec fn view(&self) -> ScreenView {
        ScreenView {
            cells: self.cells@,
            width: self.width,
            height: self.height,
            cursor_x: self.cursor_x,
            cursor_y: self.cursor_y,
            style: self.current,
            state: self.parse_state,
            parse_buffer: self.parse_buffer@,
            utf8_buffer: self.utf8_buffer@,
            utf8_remaining: self.utf8_remaining,
            saved_cells: match self.saved_cells {
                Some(v) => Some(v@),
                None => None,
            },
            saved_cursor: self.saved_cursor,
            in_alternate: self.in_alternate_screen,
            title: match self.title {
                Some(ref s) => Some(s@),
                None => None,
            },
            cursor_visible: self.cursor_visible,
            scroll_top: self.scroll_top,
            scroll_bottom: self.scroll_bottom,
            scrollback: self.scrollback@.map(|_i: int, line: Vec<Cell>| line@),
            scrollback_limit: self.scrollback_limit,
        }
    }
}

/// The view a fresh `width x height` screen has (dimensions already
/// clamped to at least 1).
pub open spec fn new_screen_spec(width: u16, height: u16) -> ScreenView {
    ScreenView {
        cells: Seq::new((width as int * height as int) as nat, |_i: int| Cell::default_spec()),
        width: width,
        height: height,
        cursor_x: 0,
        cursor_y: 0,
        style: Style::default_spec(),
        state: ParseState::Normal,
        parse_buffer: Seq::empty(),
        utf8_buffer: Seq::empty(),
        utf8_remaining: 0,
        saved_cells: None,
        saved_cursor: None,
        in_alternate: false,
        title: None,
        cursor_visible: true,
        scroll_top: 0,
        scroll_bottom: (height - 1) as u16,
        scrollback: Seq::empty(),
        scrollback_limit: DEFAULT_SCROLLBACK as usize,
    }
}

impl ScreenBuffer {
    /// Well-formedness of the screen, as [`ScreenView::wf`] states it.
    /// `new` establishes it and every method preserves it.
    pub open spec fn wf(&self) -> bool {
        self@.wf()
    }

    /// Create a screen of the given size. Dimensions of zero are clamped
    /// to 1 so that the grid always has at least one cell.
    pub fn new(width: u16, height: u16) -> (r: ScreenBuffer)
        ensures
            r@ == new_screen_spec(if width == 0 { 1u16 } else { width },
                                  if height == 0 { 1u16 } else { height }),
            r@.wf(),
    {
        let width = if width == 0 { 1u16 } else { width };
        let height = if height == 0 { 1u16 } else { height };
        proof {
            lemma_index_in_grid(0, 0, width, height);
        }
        let n: usize = (width as usize) * (height as usize);
        let r = ScreenBuffer {
            cells: vec![Cell::default(); n],
            width,
            height,
            cursor_x: 0,
            cursor_y: 0,
            current: Style::default(),
            parse_state: ParseState::Normal,
            parse_buffer: Vec::new(),
            utf8_buffer: Vec::new(),
            utf8_remaining: 0,
            saved_cells: None,
            saved_cursor: None,
            in_alternate_screen: false,
            title: None,
            cursor_visible: true,
            scroll_top: 0,
            scroll_bottom: height - 1,
            scrollback: std::collections::VecDeque::new(),
            scrollback_limit: DEFAULT_SCROLLBACK,
        };
        proof {
            assert(r@.cells =~= new_screen_spec(width, height).cells);
            assert(r@.scrollback =~= new_screen_spec(width, height).scrollback);
            assert(r@ =~= new_screen_spec(width, height));
        }
        r
    }

    /// Grid width in columns.
    pub fn width(&self) -> (r: u16)
        ensures
            r == self@.width,
    {
        self.width
    }

    /// Grid height in rows.
    pub fn height(&self) -> (r: u16)
        ensures
            r == self@.height,
    {
        self.height
    }

    /// Cursor position as (column, row).
    pub fn cursor(&self) -> (r: (u16, u16))
        requires
            self.wf(),
        ensures
            r.0 == self@.cursor_x,
            r.1 == self@.cursor_y,
            r.0 < self@.width,
            r.1 < self@.height,
    {
        (self.cursor_x, self.cursor_y)
    }

    /// Whether the cursor should be drawn.
    pub fn cursor_visible(&self) -> (r: bool)
        ensures
            r == self@.cursor_visible,
    {
        self.cursor_visible
    }

    /// The style that the next printed character would carry.
    pub fn current_style(&self) -> (r: Style)
        ensures
            r == self@.style,
    {
        self.current
    }

    /// Whether the screen is in alternate-screen mode.
    pub fn in_alternate(&self) -> (r: bool)
        ensures
            r == self@.in_alternate,
    {
        self.in_alternate_screen
    }

    /// Number of lines in the scrollback.
    pub fn scrollback_len(&self) -> (r: usize)
        ensures
            r == self@.scrollback.len(),
    {
        self.scrollback.len()
    }

    /// Bound on the number of scrollback lines kept.
    pub fn scrollback_limit(&self) -> (r: usize)
        ensures
            r == self@.scrollback_limit,
    {
        self.scrollback_limit
    }

    /// Change the scrollback bound, dropping the oldest lines if the
    /// scrollback already exceeds it.
    pub fn set_scrollback_limit(&mut self, limit: usize)
        requires
            old(self).wf(),
        ensures
            final(self).wf(),
            final(self)@ == (ScreenView {
                scrollback: old(self)@.scrollback.skip(
                    if old(self)@.scrollback.len() <= limit { 0 }
                    else { old(self)@.scrollback.len() - limit }),
                scrollback_limit: limit,
                ..old(self)@
            }),
    {
        let ghost orig = self@.scrollback;
        let ghost dropped: int = if orig.len() <= limit { 0 } else { orig.len() - limit };
        while self.scrollback.len() > limit
            invariant
                self@ == (ScreenView { scrollback: self@.scrollback, ..old(self)@ }),
                dropped == (if orig.len() <= limit { 0int } else { orig.len() - limit }),
                orig.len() - self@.scrollback.len() <= dropped,
                self@.scrollback.len() <= orig.len(),
                self@.scrollback =~= orig.skip(orig.len() - self@.scrollback.len()),
            decreases self.scrollback.len(),
        {
            let ghost pre = self@.scrollback;
            let ghost predq = self.scrollback@;
            self.scrollback.pop_front();
            proof {
                assert(self@.scrollback.len() == pre.len() - 1);
                assert forall|i: int| 0 <= i < pre.len() - 1 implies self@.scrollback[i] == pre[i + 1] by {
                    assert(self@.scrollback[i] == self.scrollback@[i]@);
                    assert(pre[i + 1] == predq[i + 1]@);
                }
                assert(self@.scrollback =~= orig.skip(orig.len() - self@.scrollback.len()));
            }
        }
        self.scrollback_limit = limit;
        proof {
            assert(self@.scrollback =~= orig.skip(dropped));
            assert(self@ =~= (ScreenView {
                scrollback: orig.skip(dropped),
                scrollback_limit: limit,
                ..old(self)@
            }));
        }
    }

    /// The pane title, if one has been set by an OSC sequence.
    pub fn title(&self) -> (r: Option<&str>)
        ensures
            match r {
                Some(t) => self@.title == Some(t@),
                None => self@.title is None,
            },
    {
        match self.title {
            Some(ref s) => Some(s.as_str()),
            None => None,
        }
    }

    /// The cell at live grid position (`x`, `y`); a blank default cell
    /// when the position lies outside the grid.
    pub fn get(&self, x: u16, y: u16) -> (r: Cell)
        requires
            self.wf(),
        ensures
            r == get_spec(self@, x, y),
    {
        if x < self.width && y < self.height {
            proof {
                lemma_index_in_grid(x, y, self.width, self.height);
            }
            let idx: usize = (y as usize) * (self.width as usize) + (x as usize);
            self.cells[idx]
        } else {
            Cell::default()
        }
    }
}

/// The cell `get` returns: the grid cell when in bounds, a default
/// blank cell otherwise.
pub open spec fn get_spec(v: ScreenView, x: u16, y: u16) -> Cell {
    if x < v.width && y < v.height {
        v.cells[v.index_of(x, y)]
    } else {
        Cell::default_spec()
    }
}

} // verus!

verus! {

// ---------------------------------------------------------------------------
// Grid operations: specification twins
// ---------------------------------------------------------------------------

/// `v` with its grid replaced.
pub open spec fn with_cells(v: ScreenView, cells: Seq<Cell>) -> ScreenView {
    ScreenView { cells: cells, ..v }
}

/// The two views have the same dimensions and scrollback bound: no byte
/// ever changes these.
pub open spec fn same_geometry(a: ScreenView, b: ScreenView) -> bool {
    &&& a.width == b.width
    &&& a.height == b.height
    &&& a.scrollback_limit == b.scrollback_limit
}

/// Erase the whole display with the current-background blank.
pub open spec fn erase_all_spec(v: ScreenView) -> ScreenView {
    with_cells(v, fill_range_spec(v.cells, 0, v.cells.len() as int, v.blank()))
}

/// Erase from the cursor to the end of the display.
pub open spec fn erase_below_spec(v: ScreenView) -> ScreenView {
    with_cells(v, fill_range_spec(v.cells, v.index_of(v.cursor_x, v.cursor_y),
        v.cells.len() as int, v.blank()))
}

/// Erase from the start of the display through the cursor.
pub open spec fn erase_above_spec(v: ScreenView) -> ScreenView {
    with_cells(v, fill_range_spec(v.cells, 0,
        v.index_of(v.cursor_x, v.cursor_y) + 1, v.blank()))
}

/// Erase the cursor's whole row.
pub open spec fn erase_line_spec(v: ScreenView) -> ScreenView {
    with_cells(v, fill_range_spec(v.cells, v.index_of(0, v.cursor_y),
        v.index_of(0, v.cursor_y) + v.width as int, v.blank()))
}

/// Erase from the cursor to the end of its row.
pub open spec fn erase_line_right_spec(v: ScreenView) -> ScreenView {
    with_cells(v, fill_range_spec(v.cells, v.index_of(v.cursor_x, v.cursor_y),
        v.index_of(0, v.cursor_y) + v.width as int, v.blank()))
}

/// Erase from the start of the cursor's row through the cursor.
pub open spec fn erase_line_left_spec(v: ScreenView) -> ScreenView {
    with_cells(v, fill_range_spec(v.cells, v.index_of(0, v.cursor_y),
        v.index_of(v.cursor_x, v.cursor_y) + 1, v.blank()))
}

/// Blank `n` cells at the cursor, not shifting the rest of the row.
pub open spec fn erase_chars_spec(v: ScreenView, n: u16) -> ScreenView {
    with_cells(v, fill_range_spec(v.cells, v.index_of(v.cursor_x, v.cursor_y),
        v.index_of(0, v.cursor_y) + (if v.cursor_x as int + n as int <= v.width as int {
            v.cursor_x as int + n as int
        } else {
            v.width as int
        }), v.blank()))
}

/// Delete `n` characters at the cursor, shifting the rest of the row
/// left and blank-filling its tail.
pub open spec fn delete_chars_spec(v: ScreenView, n: u16) -> ScreenView {
    with_cells(v, Seq::new(v.cells.len(), |i: int| {
        let row = v.index_of(0, v.cursor_y);
        if row + (v.cursor_x as int) <= i < row + (v.width as int) {
            if i + (n as int) < row + (v.width as int) {
                v.cells[i + n as int]
            } else {
                v.blank()
            }
        } else {
            v.cells[i]
        }
    }))
}

/// Insert `n` blank characters at the cursor, shifting the rest of the
/// row right; cells pushed past the right edge are lost.
pub open spec fn insert_chars_spec(v: ScreenView, n: u16) -> ScreenView {
    with_cells(v, Seq::new(v.cells.len(), |i: int| {
        let row = v.index_of(0, v.cursor_y);
        if row + (v.cursor_x as int) <= i < row + (v.width as int) {
            if i < row + (v.cursor_x as int) + (n as int) {
                v.blank()
            } else {
                v.cells[i - n as int]
            }
        } else {
            v.cells[i]
        }
    }))
}

/// The grid after the scroll region's rows shift up by one: rows `top`
/// to `bottom - 1` take the row below them, row `bottom` becomes blank.
pub open spec fn scroll_up_cells(v: ScreenView) -> Seq<Cell> {
    Seq::new(v.cells.len(), |i: int| {
        let w = v.width as int;
        if v.scroll_top as int * w <= i < v.scroll_bottom as int * w {
            v.cells[i + w]
        } else if v.scroll_bottom as int * w <= i < (v.scroll_bottom as int + 1) * w {
            v.blank()
        } else {
            v.cells[i]
        }
    })
}

/// `sb` with `line` appended, dropping the oldest line if that would
/// exceed `limit`.
pub open spec fn push_capped(sb: Seq<Seq<Cell>>, line: Seq<Cell>, limit: usize) -> Seq<Seq<Cell>> {
    let p = sb.push(line);
    if p.len() > limit {
        p.subrange(1, p.len() as int)
    } else {
        p
    }
}

/// Scroll the scroll region up by one line. When the region starts at
/// row 0 and the screen is not in alternate mode, the evicted top row
/// enters the scrollback (bounded; oldest dropped first).
pub open spec fn scroll_up_spec(v: ScreenView) -> ScreenView {
    ScreenView {
        cells: scroll_up_cells(v),
        scrollback: if v.scroll_top == 0 && !v.in_alternate {
            push_capped(v.scrollback, row_of(v.cells, v.width, 0), v.scrollback_limit)
        } else {
            v.scrollback
        },
        ..v
    }
}

/// Scroll the scroll region down by one line: rows `top + 1` to `bottom`
/// take the row above them, row `top` becomes blank. Nothing enters the
/// scrollback.
pub open spec fn scroll_down_spec(v: ScreenView) -> ScreenView {
    with_cells(v, Seq::new(v.cells.len(), |i: int| {
        let w = v.width as int;
        if (v.scroll_top as int + 1) * w <= i < (v.scroll_bottom as int + 1) * w {
            v.cells[i - w]
        } else if v.scroll_top as int * w <= i < (v.scroll_top as int + 1) * w {
            v.blank()
        } else {
            v.cells[i]
        }
    }))
}

/// Delete `n` lines at the cursor row, shifting the rows below (within
/// the scroll region) up and blank-filling the region's tail. A no-op
/// when the cursor lies outside the scroll region.
pub open spec fn delete_lines_spec(v: ScreenView, n: u16) -> ScreenView {
    if v.scroll_top <= v.cursor_y <= v.scroll_bottom {
        with_cells(v, Seq::new(v.cells.len(), |i: int| {
            let w = v.width as int;
            if v.cursor_y as int * w <= i < (v.scroll_bottom as int + 1) * w {
                if i + (n as int * w) < ((v.scroll_bottom as int + 1) * w) {
                    v.cells[i + n as int * w]
                } else {
                    v.blank()
                }
            } else {
                v.cells[i]
            }
        }))
    } else {
        v
    }
}

/// Insert `n` blank lines at the cursor row, shifting the rows below
/// down within the scroll region. A no-op when the cursor lies outside
/// the scroll region.
pub open spec fn insert_lines_spec(v: ScreenView, n: u16) -> ScreenView {
    if v.scroll_top <= v.cursor_y <= v.scroll_bottom {
        with_cells(v, Seq::new(v.cells.len(), |i: int| {
            let w = v.width as int;
            if v.cursor_y as int * w <= i < (v.scroll_bottom as int + 1) * w {
                if i < (v.cursor_y as int + n as int) * w {
                    v.blank()
                } else {
                    v.cells[i - n as int * w]
                }
            } else {
                v.cells[i]
            }
        }))
    } else {
        v
    }
}

/// A line feed: at the scroll region's bottom row the region scrolls
/// up and the cursor row stays; anywhere else the cursor moves down one
/// row, stopping at the last row.
pub open spec fn line_feed_spec(v: ScreenView) -> ScreenView {
    if v.cursor_y == v.scroll_bottom {
        scroll_up_spec(v)
    } else if v.cursor_y + 1 < v.height {
        ScreenView { cursor_y: (v.cursor_y + 1) as u16, ..v }
    } else {
        v
    }
}

/// Print one character: write it at the cursor with the current style,
/// then advance the cursor, wrapping to column 0 of the next row (with
/// a line feed) past the last column.
pub open spec fn put_char_spec(v: ScreenView, ch: char) -> ScreenView {
    let written = with_cells(v, v.cells.update(v.index_of(v.cursor_x, v.cursor_y),
        Cell { ch: ch, fg: v.style.fg, bg: v.style.bg, attrs: v.style.attrs }));
    if v.cursor_x + 1 < v.width {
        ScreenView { cursor_x: (v.cursor_x + 1) as u16, ..written }
    } else {
        line_feed_spec(ScreenView { cursor_x: 0, ..written })
    }
}

// ---------------------------------------------------------------------------
// Grid operations: executable code
// ---------------------------------------------------------------------------

impl ScreenBuffer {
    /// The blank cell for erase and scroll operations: a space carrying
    /// the current background color.
    fn blank_cell(&self) -> (r: Cell)
        ensures
            r == self@.blank(),
    {
        Cell { ch: ' ', fg: None, bg: self.current.bg, attrs: Attrs(0) }
    }

    /// Replace every cell with index in `start .. end` by `c`.
    fn fill_cells(&mut self, start: usize, end: usize, c: Cell)
        requires
            start <= end,
            end <= old(self)@.cells.len(),
        ensures
            final(self)@ == with_cells(old(self)@,
                fill_range_spec(old(self)@.cells, start as int, end as int, c)),
    {
        let mut i: usize = start;
        while i < end
            invariant
                start <= i <= end,
                end <= self@.cells.len(),
                self@ == with_cells(old(self)@, self@.cells),
                self@.cells.len() == old(self)@.cells.len(),
                forall|j: int| 0 <= j < self@.cells.len() ==>
                    self@.cells[j] == (if start <= j < i { c } else { old(self)@.cells[j] }),
            decreases end - i,
        {
            self.cells.set(i, c);
            i = i + 1;
        }
        proof {
            assert(self@.cells =~= fill_range_spec(old(self)@.cells, start as int, end as int, c));
            assert(self@ =~= with_cells(old(self)@,
                fill_range_spec(old(self)@.cells, start as int, end as int, c)));
        }
    }

    /// Copy row `src` of the grid over row `dst`.
    fn copy_row(&mut self, dst: u16, src: u16)
        requires
            old(self)@.wf(),
            dst < old(self)@.height,
            src < old(self)@.height,
            dst != src,
        ensures
            final(self)@ == with_cells(old(self)@, Seq::new(old(self)@.cells.len(), |i: int| {
                let w = old(self)@.width as int;
                if dst as int * w <= i < (dst as int + 1) * w {
                    old(self)@.cells[i - dst as int * w + src as int * w]
                } else {
                    old(self)@.cells[i]
                }
            })),
    {
        proof {
            lemma_row_bounds(dst, self.width, self.height);
            lemma_row_bounds(src, self.width, self.height);
            if dst < src {
                lemma_distinct_rows(dst, src, self.width);
            } else {
                lemma_distinct_rows(src, dst, self.width);
            }
        }
        let w: usize = self.width as usize;
        let n: usize = self.cells.len();
        let dst_start: usize = (dst as usize) * w;
        let src_start: usize = (src as usize) * w;
        let mut col: usize = 0;
        while col < w
            invariant
                col <= w,
                n == self@.cells.len(),
                w == old(self)@.width,
                dst_start == dst as int * w,
                src_start == src as int * w,
                dst_start + w <= self@.cells.len(),
                src_start + w <= self@.cells.len(),
                src_start + w <= dst_start || dst_start + w <= src_start,
                self@ == with_cells(old(self)@, self@.cells),
                self@.cells.len() == old(self)@.cells.len(),
                forall|j: int| 0 <= j < self@.cells.len() ==>
                    self@.cells[j] == (if dst_start <= j < dst_start + col {
                        old(self)@.cells[j - dst_start + src_start]
                    } else {
                        old(self)@.cells[j]
                    }),
            decreases w - col,
        {
            let cell = self.cells[src_start + col];
            self.cells.set(dst_start + col, cell);
            col = col + 1;
        }
        proof {
            assert(final(self)@.cells =~= Seq::new(old(self)@.cells.len(), |i: int| {
                let wi = old(self)@.width as int;
                if dst as int * wi <= i < (dst as int + 1) * wi {
                    old(self)@.cells[i - dst as int * wi + src as int * wi]
                } else {
                    old(self)@.cells[i]
                }
            }));
            assert(final(self)@ =~= with_cells(old(self)@, final(self)@.cells));
        }
    }

    /// Blank-fill row `row` of the grid with `c`.
    fn fill_row(&mut self, row: u16, c: Cell)
        requires
            old(self)@.wf(),
            row < old(self)@.height,
        ensures
            final(self)@ == with_cells(old(self)@,
                fill_range_spec(old(self)@.cells, row as int * old(self)@.width as int,
                    (row as int + 1) * old(self)@.width as int, c)),
    {
        proof {
            lemma_row_bounds(row, self.width, self.height);
        }
        let w: usize = self.width as usize;
        let start: usize = (row as usize) * w;
        self.fill_cells(start, start + w, c);
    }
}

} // verus!

verus! {

/// Multiplication distributes over addition.
pub proof fn lemma_mul_distrib(a: int, b: int, w: int)
    by (nonlinear_arith)
    ensures
        (a + b) * w == a * w + b * w,
{
}

/// Multiplication by a nonnegative factor preserves order.
pub proof fn lemma_mul_mono(a: int, b: int, w: int)
    by (nonlinear_arith)
    requires
        a <= b,
        w >= 0,
    ensures
        a * w <= b * w,
{
}

impl ScreenBuffer {
    /// Scroll the scroll region up one line, archiving the evicted row
    /// in the scrollback when the region starts at row 0 outside
    /// alternate-screen mode.
    fn scroll_up(&mut self)
        requires
            old(self)@.wf(),
        ensures
            final(self)@ == scroll_up_spec(old(self)@),
            final(self)@.wf(),
            same_geometry(old(self)@, final(self)@),
    {
        let w: usize = self.width as usize;
        proof {
            lemma_row_bounds(0, self.width, self.height);
        }
        if self.scroll_top == 0 && !self.in_alternate_screen {
            let mut line: Vec<Cell> = Vec::new();
            let mut x: usize = 0;
            while x < w
                invariant
                    x <= w,
                    w == self@.width,
                    self@ == old(self)@,
                    w <= self@.cells.len(),
                    line@ =~= self@.cells.subrange(0, x as int),
                decreases w - x,
            {
                let cell = self.cells[x];
                line.push(cell);
                x = x + 1;
            }
            proof {
                assert(line@ =~= row_of(old(self)@.cells, old(self)@.width, 0));
            }
            let ghost pre_sb = self@.scrollback;
            let ghost predq = self.scrollback@;
            self.scrollback.push_back(line);
            proof {
                assert forall|i: int| 0 <= i < self@.scrollback.len() implies
                    self@.scrollback[i] == pre_sb.push(line@)[i] by {
                    assert(self@.scrollback[i] == self.scrollback@[i]@);
                    if i < predq.len() {
                        assert(pre_sb[i] == predq[i]@);
                    }
                }
                assert(self@.scrollback =~= pre_sb.push(line@));
            }
            if self.scrollback.len() > self.scrollback_limit {
                let ghost mid = self@.scrollback;
                let ghost middq = self.scrollback@;
                self.scrollback.pop_front();
                proof {
                    assert forall|i: int| 0 <= i < self@.scrollback.len() implies
                        self@.scrollback[i] == mid[i + 1] by {
                        assert(self@.scrollback[i] == self.scrollback@[i]@);
                        assert(mid[i + 1] == middq[i + 1]@);
                    }
                    assert(self@.scrollback =~= mid.subrange(1, mid.len() as int));
                }
            }
            proof {
                assert(self@.scrollback =~= push_capped(pre_sb,
                    row_of(old(self)@.cells, old(self)@.width, 0),
                    self@.scrollback_limit));
            }
        }
        // Shift the region's rows up by one.
        let top = self.scroll_top;
        let bottom = self.scroll_bottom;
        let ghost after_sb = self@.scrollback;
        let mut r: u16 = top;
        while r < bottom
            invariant
                top <= r <= bottom,
                self@ == (ScreenView { cells: self@.cells, scrollback: after_sb, ..old(self)@ }),
                self@.wf(),
                top == self@.scroll_top,
                bottom == self@.scroll_bottom,
                self@.cells.len() == old(self)@.cells.len(),
                forall|j: int| 0 <= j < self@.cells.len() ==>
                    self@.cells[j] == (if top as int * self@.width as int <= j
                            < (r as int * self@.width as int) {
                        old(self)@.cells[j + self@.width as int]
                    } else {
                        old(self)@.cells[j]
                    }),
            decreases bottom - r,
        {
            proof {
                lemma_row_bounds(r, self.width, self.height);
                lemma_row_bounds((r + 1) as u16, self.width, self.height);
                lemma_mul_mono(top as int, r as int, self@.width as int);
                lemma_mul_mono(r as int + 2, bottom as int + 1, self@.width as int);
                lemma_mul_mono(bottom as int + 1, self@.height as int, self@.width as int);
            }
            let ghost prev = self@.cells;
            self.copy_row(r, r + 1);
            proof {
                let w = self@.width as int;
                assert forall|j: int| 0 <= j < self@.cells.len() implies
                    self@.cells[j] == (if top as int * w <= j < ((r as int + 1) * w) {
                        old(self)@.cells[j + w]
                    } else {
                        old(self)@.cells[j]
                    }) by {
                    if r as int * w <= j < ((r as int + 1) * w) {
                        assert(self@.cells[j] == prev[j - r as int * w + (r as int + 1) * w]);
                        assert(j - r as int * w + (r as int + 1) * w == j + w);
                    }
                }
            }
            r = r + 1;
        }
        let blank = self.blank_cell();
        proof {
            lemma_mul_mono(top as int, bottom as int, self@.width as int);
        }
        self.fill_row(bottom, blank);
        proof {
            lemma_row_bounds(bottom, self.width, self.height);
            assert(self@.cells =~= scroll_up_cells(old(self)@));
            assert(self@ =~= scroll_up_spec(old(self)@));
        }
    }

    /// Scroll the scroll region down one line; the vacated top row is
    /// blank-filled and nothing enters the scrollback.
    fn scroll_down(&mut self)
        requires
            old(self)@.wf(),
        ensures
            final(self)@ == scroll_down_spec(old(self)@),
            final(self)@.wf(),
            same_geometry(old(self)@, final(self)@),
    {
        let top = self.scroll_top;
        let bottom = self.scroll_bottom;
        let mut rr: u16 = bottom;
        while rr > top
            invariant
                top <= rr <= bottom,
                self@ == (ScreenView { cells: self@.cells, ..old(self)@ }),
                self@.wf(),
                top == self@.scroll_top,
                bottom == self@.scroll_bottom,
                self@.cells.len() == old(self)@.cells.len(),
                forall|j: int| 0 <= j < self@.cells.len() ==>
                    self@.cells[j] == (if (rr as int + 1) * self@.width as int <= j
                            < ((bottom as int + 1) * self@.width as int) {
                        old(self)@.cells[j - self@.width as int]
                    } else {
                        old(self)@.cells[j]
                    }),
            decreases rr,
        {
            proof {
                lemma_row_bounds(rr, self.width, self.height);
                lemma_row_bounds((rr - 1) as u16, self.width, self.height);
                lemma_mul_mono(rr as int + 1, bottom as int + 1, self@.width as int);
                lemma_mul_mono(bottom as int + 1, self@.height as int, self@.width as int);
                lemma_mul_mono(top as int, rr as int - 1, self@.width as int);
            }
            let ghost prev = self@.cells;
            self.copy_row(rr, rr - 1);
            proof {
                let w = self@.width as int;
                assert forall|j: int| 0 <= j < self@.cells.len() implies
                    self@.cells[j] == (if rr as int * w <= j
                            < ((bottom as int + 1) * w) {
                        old(self)@.cells[j - w]
                    } else {
                        old(self)@.cells[j]
                    }) by {
                    if rr as int * w <= j < ((rr as int + 1) * w) {
                        assert(self@.cells[j] == prev[j - rr as int * w + (rr as int - 1) * w]);
                        assert(j - rr as int * w + (rr as int - 1) * w == j - w);
                    }
                }
            }
            rr = rr - 1;
        }
        let blank = self.blank_cell();
        proof {
            lemma_mul_mono(top as int + 1, bottom as int + 1, self@.width as int);
        }
        self.fill_row(top, blank);
        proof {
            lemma_row_bounds(top, self.width, self.height);
            assert(self@.cells =~= scroll_down_spec(old(self)@).cells);
            assert(self@ =~= scroll_down_spec(old(self)@));
        }
    }

    /// Delete `n` lines at the cursor row within the scroll region.
    fn delete_lines(&mut self, n: u16)
        requires
            old(self)@.wf(),
            n >= 1,
        ensures
            final(self)@ == delete_lines_spec(old(self)@, n),
            final(self)@.wf(),
            same_geometry(old(self)@, final(self)@),
    {
        if self.cursor_y < self.scroll_top || self.cursor_y > self.scroll_bottom {
            return;
        }
        let y = self.cursor_y;
        let bottom = self.scroll_bottom;
        let blank = self.blank_cell();
        let mut r: u16 = y;
        while r <= bottom
            invariant
                y <= r <= bottom + 1,
                n >= 1,
                self@ == (ScreenView { cells: self@.cells, ..old(self)@ }),
                self@.wf(),
                y == self@.cursor_y,
                bottom == self@.scroll_bottom,
                y <= bottom,
                blank == self@.blank(),
                self@.cells.len() == old(self)@.cells.len(),
                forall|j: int| 0 <= j < self@.cells.len() ==>
                    self@.cells[j] == (if y as int * self@.width as int <= j
                            < (r as int * self@.width as int) {
                        if j + (n as int * self@.width as int)
                                < ((bottom as int + 1) * self@.width as int) {
                            old(self)@.cells[j + n as int * self@.width as int]
                        } else {
                            blank
                        }
                    } else {
                        old(self)@.cells[j]
                    }),
            decreases bottom + 1 - r,
        {
            let src: usize = r as usize + n as usize;
            proof {
                lemma_row_bounds(r, self.width, self.height);
                lemma_mul_mono(y as int, r as int, self@.width as int);
                lemma_mul_mono(bottom as int + 1, self@.height as int, self@.width as int);
                lemma_mul_distrib(r as int, 1, self@.width as int);
                lemma_mul_distrib(r as int, n as int, self@.width as int);
                lemma_mul_distrib(r as int + n as int, 1, self@.width as int);
                if src <= bottom as usize {
                    lemma_mul_mono(src as int + 1, bottom as int + 1, self@.width as int);
                    lemma_mul_mono(r as int + 1, src as int, self@.width as int);
                } else {
                    lemma_mul_mono(bottom as int + 1, src as int, self@.width as int);
                }
            }
            let ghost prev = self@.cells;
            if src <= bottom as usize {
                self.copy_row(r, src as u16);
                proof {
                    let w = self@.width as int;
                    assert forall|j: int| 0 <= j < self@.cells.len() implies
                        self@.cells[j] == (if y as int * w <= j < ((r as int + 1) * w) {
                            if j + (n as int * w) < ((bottom as int + 1) * w) {
                                old(self)@.cells[j + n as int * w]
                            } else {
                                blank
                            }
                        } else {
                            old(self)@.cells[j]
                        }) by {
                        if r as int * w <= j < ((r as int + 1) * w) {
                            assert(self@.cells[j] == prev[j - r as int * w + src as int * w]);
                            assert(j - r as int * w + src as int * w == j + n as int * w);
                            assert(j + n as int * w < ((bottom as int + 1) * w));
                        }
                    }
                }
            } else {
                self.fill_row(r, blank);
                proof {
                    let w = self@.width as int;
                    assert forall|j: int| 0 <= j < self@.cells.len() implies
                        self@.cells[j] == (if y as int * w <= j < ((r as int + 1) * w) {
                            if j + (n as int * w) < ((bottom as int + 1) * w) {
                                old(self)@.cells[j + n as int * w]
                            } else {
                                blank
                            }
                        } else {
                            old(self)@.cells[j]
                        }) by {
                        if r as int * w <= j < ((r as int + 1) * w) {
                            assert(j + n as int * w >= (r as int + n as int) * w);
                        }
                    }
                }
            }
            r = r + 1;
        }
        proof {
            assert(self@.cells =~= delete_lines_spec(old(self)@, n).cells);
            assert(self@ =~= delete_lines_spec(old(self)@, n));
        }
    }

    /// Insert `n` blank lines at the cursor row within the scroll region.
    fn insert_lines(&mut self, n: u16)
        requires
            old(self)@.wf(),
            n >= 1,
        ensures
            final(self)@ == insert_lines_spec(old(self)@, n),
            final(self)@.wf(),
            same_geometry(old(self)@, final(self)@),
    {
        if self.cursor_y < self.scroll_top || self.cursor_y > self.scroll_bottom {
            return;
        }
        let y = self.cursor_y;
        let bottom = self.scroll_bottom;
        let blank = self.blank_cell();
        let mut rr: usize = bottom as usize + 1;
        while rr > y as usize
            invariant
                y as usize <= rr <= bottom as usize + 1,
                n >= 1,
                self@ == (ScreenView { cells: self@.cells, ..old(self)@ }),
                self@.wf(),
                y == self@.cursor_y,
                bottom == self@.scroll_bottom,
                y <= bottom,
                blank == self@.blank(),
                self@.cells.len() == old(self)@.cells.len(),
                forall|j: int| 0 <= j < self@.cells.len() ==>
                    self@.cells[j] == (if rr as int * self@.width as int <= j
                            < ((bottom as int + 1) * self@.width as int) {
                        if j < ((y as int + n as int) * self@.width as int) {
                            blank
                        } else {
                            old(self)@.cells[j - n as int * self@.width as int]
                        }
                    } else {
                        old(self)@.cells[j]
                    }),
            decreases rr,
        {
            let r: u16 = (rr - 1) as u16;
            proof {
                lemma_row_bounds(r, self.width, self.height);
                lemma_mul_mono(rr as int, bottom as int + 1, self@.width as int);
                lemma_mul_mono(bottom as int + 1, self@.height as int, self@.width as int);
                lemma_mul_distrib(r as int, 1, self@.width as int);
                lemma_mul_distrib(r as int - n as int, n as int, self@.width as int);
                if rr - 1 >= y as usize + n as usize {
                    lemma_mul_mono(y as int + n as int, r as int, self@.width as int);
                    lemma_mul_mono(y as int, r as int - n as int, self@.width as int);
                    lemma_mul_mono(r as int - n as int + 1, r as int, self@.width as int);
                    lemma_mul_distrib(r as int - n as int, 1, self@.width as int);
                } else {
                    lemma_mul_mono(r as int + 1, y as int + n as int, self@.width as int);
                }
            }
            let ghost prev = self@.cells;
            if rr - 1 >= y as usize + n as usize {
                let src: u16 = ((rr - 1) - n as usize) as u16;
                self.copy_row(r, src);
                proof {
                    let w = self@.width as int;
                    assert forall|j: int| 0 <= j < self@.cells.len() implies
                        self@.cells[j] == (if r as int * w <= j < ((bottom as int + 1) * w) {
                            if j < ((y as int + n as int) * w) {
                                blank
                            } else {
                                old(self)@.cells[j - n as int * w]
                            }
                        } else {
                            old(self)@.cells[j]
                        }) by {
                        if r as int * w <= j < ((r as int + 1) * w) {
                            assert(self@.cells[j] == prev[j - r as int * w + src as int * w]);
                            assert(j - r as int * w + src as int * w == j - n as int * w);
                            assert(j >= (y as int + n as int) * w);
                        }
                    }
                }
            } else {
                self.fill_row(r, blank);
                proof {
                    let w = self@.width as int;
                    assert forall|j: int| 0 <= j < self@.cells.len() implies
                        self@.cells[j] == (if r as int * w <= j < ((bottom as int + 1) * w) {
                            if j < ((y as int + n as int) * w) {
                                blank
                            } else {
                                old(self)@.cells[j - n as int * w]
                            }
                        } else {
                            old(self)@.cells[j]
                        }) by {
                        if r as int * w <= j < ((r as int + 1) * w) {
                            assert(j < (y as int + n as int) * w);
                        }
                    }
                }
            }
            rr = rr - 1;
        }
        proof {
            assert(self@.cells =~= insert_lines_spec(old(self)@, n).cells);
            assert(self@ =~= insert_lines_spec(old(self)@, n));
        }
    }

    /// A line feed: scroll at the region's bottom row, otherwise move
    /// the cursor down one row, stopping at the last row.
    fn line_feed(&mut self)
        requires
            old(self)@.wf(),
        ensures
            final(self)@ == line_feed_spec(old(self)@),
            final(self)@.wf(),
            same_geometry(old(self)@, final(self)@),
    {
        if self.cursor_y == self.scroll_bottom {
            self.scroll_up();
        } else if self.cursor_y + 1 < self.height {
            self.cursor_y = self.cursor_y + 1;
        }
    }

    /// Print one character at the cursor with the current style and
    /// advance the cursor, wrapping (with a line feed) past the last
    /// column.
    fn put_char(&mut self, ch: char)
        requires
            old(self)@.wf(),
            ch != '\0',
        ensures
            final(self)@ == put_char_spec(old(self)@, ch),
            final(self)@.wf(),
            same_geometry(old(self)@, final(self)@),
    {
        proof {
            lemma_index_in_grid(self.cursor_x, self.cursor_y, self.width, self.height);
        }
        let idx: usize = (self.cursor_y as usize) * (self.width as usize)
            + (self.cursor_x as usize);
        let cell = Cell {
            ch,
            fg: self.current.fg,
            bg: self.current.bg,
            attrs: self.current.attrs,
        };
        self.cells.set(idx, cell);
        if self.cursor_x + 1 < self.width {
            self.cursor_x = self.cursor_x + 1;
            proof {
                assert(self@ =~= put_char_spec(old(self)@, ch));
            }
        } else {
            self.cursor_x = 0;
            proof {
                assert(self@ =~= (ScreenView {
                    cursor_x: 0,
                    ..with_cells(old(self)@, old(self)@.cells.update(
                        old(self)@.index_of(old(self)@.cursor_x, old(self)@.cursor_y), cell))
                }));
            }
            self.line_feed();
        }
    }

    /// Erase the whole display.
    fn erase_all(&mut self)
        requires
            old(self)@.wf(),
        ensures
            final(self)@ == erase_all_spec(old(self)@),
            final(self)@.wf(),
            same_geometry(old(self)@, final(self)@),
    {
        let blank = self.blank_cell();
        let end = self.cells.len();
        self.fill_cells(0, end, blank);
    }

    /// Erase from the cursor to the end of the display.
    fn erase_below(&mut self)
        requires
            old(self)@.wf(),
        ensures
            final(self)@ == erase_below_spec(old(self)@),
            final(self)@.wf(),
            same_geometry(old(self)@, final(self)@),
    {
        proof {
            lemma_index_in_grid(self.cursor_x, self.cursor_y, self.width, self.height);
        }
        let blank = self.blank_cell();
        let start: usize = (self.cursor_y as usize) * (self.width as usize)
            + (self.cursor_x as usize);
        let end = self.cells.len();
        self.fill_cells(start, end, blank);
    }

    /// Erase from the start of the display through the cursor.
    fn erase_above(&mut self)
        requires
            old(self)@.wf(),
        ensures
            final(self)@ == erase_above_spec(old(self)@),
            final(self)@.wf(),
            same_geometry(old(self)@, final(self)@),
    {
        proof {
            lemma_index_in_grid(self.cursor_x, self.cursor_y, self.width, self.height);
        }
        let blank = self.blank_cell();
        let end: usize = (self.cursor_y as usize) * (self.width as usize)
            + (self.cursor_x as usize) + 1;
        self.fill_cells(0, end, blank);
    }

    /// Erase the cursor's whole row.
    fn erase_line(&mut self)
        requires
            old(self)@.wf(),
        ensures
            final(self)@ == erase_line_spec(old(self)@),
            final(self)@.wf(),
            same_geometry(old(self)@, final(self)@),
    {
        proof {
            lemma_row_bounds(self.cursor_y, self.width, self.height);
        }
        let blank = self.blank_cell();
        let start: usize = (self.cursor_y as usize) * (self.width as usize);
        let end: usize = start + self.width as usize;
        self.fill_cells(start, end, blank);
    }

    /// Erase from the cursor to the end of its row.
    fn erase_line_right(&mut self)
        requires
            old(self)@.wf(),
        ensures
            final(self)@ == erase_line_right_spec(old(self)@),
            final(self)@.wf(),
            same_geometry(old(self)@, final(self)@),
    {
        proof {
            lemma_row_bounds(self.cursor_y, self.width, self.height);
        }
        let blank = self.blank_cell();
        let row: usize = (self.cursor_y as usize) * (self.width as usize);
        let start: usize = row + self.cursor_x as usize;
        let end: usize = row + self.width as usize;
        self.fill_cells(start, end, blank);
    }

    /// Erase from the start of the cursor's row through the cursor.
    fn erase_line_left(&mut self)
        requires
            old(self)@.wf(),
        ensures
            final(self)@ == erase_line_left_spec(old(self)@),
            final(self)@.wf(),
            same_geometry(old(self)@, final(self)@),
    {
        proof {
            lemma_row_bounds(self.cursor_y, self.width, self.height);
        }
        let blank = self.blank_cell();
        let start: usize = (self.cursor_y as usize) * (self.width as usize);
        let end: usize = start + self.cursor_x as usize + 1;
        self.fill_cells(start, end, blank);
    }

    /// Blank `n` cells at the cursor without shifting the row.
    fn erase_chars(&mut self, n: u16)
        requires
            old(self)@.wf(),
        ensures
            final(self)@ == erase_chars_spec(old(self)@, n),
            final(self)@.wf(),
            same_geometry(old(self)@, final(self)@),
    {
        proof {
            lemma_row_bounds(self.cursor_y, self.width, self.height);
        }
        let blank = self.blank_cell();
        let row: usize = (self.cursor_y as usize) * (self.width as usize);
        let start: usize = row + self.cursor_x as usize;
        let stop: usize = if self.cursor_x as usize + n as usize <= self.width as usize {
            self.cursor_x as usize + n as usize
        } else {
            self.width as usize
        };
        let end: usize = row + stop;
        self.fill_cells(start, end, blank);
    }

    /// Delete `n` characters at the cursor, shifting the rest of the
    /// row left.
    fn delete_chars(&mut self, n: u16)
        requires
            old(self)@.wf(),
        ensures
            final(self)@ == delete_chars_spec(old(self)@, n),
            final(self)@.wf(),
            same_geometry(old(self)@, final(self)@),
    {
        proof {
            lemma_row_bounds(self.cursor_y, self.width, self.height);
        }
        let blank = self.blank_cell();
        let w: usize = self.width as usize;
        let row: usize = (self.cursor_y as usize) * w;
        let len: usize = self.cells.len();
        let mut col: usize = self.cursor_x as usize;
        while col < w
            invariant
                self@.cursor_x as usize <= col <= w,
                w == self@.width,
                row == self@.cursor_y as int * w,
                len == self@.cells.len(),
                row + w <= len,
                self@ == (ScreenView { cells: self@.cells, ..old(self)@ }),
                self@.wf(),
                blank == self@.blank(),
                self@.cells.len() == old(self)@.cells.len(),
                forall|j: int| 0 <= j < self@.cells.len() ==>
                    self@.cells[j] == (if row + self@.cursor_x as int <= j < (row + col) {
                        if j + (n as int) < row + w {
                            old(self)@.cells[j + n as int]
                        } else {
                            blank
                        }
                    } else {
                        old(self)@.cells[j]
                    }),
            decreases w - col,
        {
            if col + (n as usize) < w {
                let cell = self.cells[row + col + n as usize];
                self.cells.set(row + col, cell);
            } else {
                self.cells.set(row + col, blank);
            }
            col = col + 1;
        }
        proof {
            assert(self@.cells =~= delete_chars_spec(old(self)@, n).cells);
            assert(self@ =~= delete_chars_spec(old(self)@, n));
        }
    }

    /// Insert `n` blank characters at the cursor, shifting the rest of
    /// the row right.
    fn insert_chars(&mut self, n: u16)
        requires
            old(self)@.wf(),
        ensures
            final(self)@ == insert_chars_spec(old(self)@, n),
            final(self)@.wf(),
            same_geometry(old(self)@, final(self)@),
    {
        proof {
            lemma_row_bounds(self.cursor_y, self.width, self.height);
        }
        let blank = self.blank_cell();
        let w: usize = self.width as usize;
        let row: usize = (self.cursor_y as usize) * w;
        let len: usize = self.cells.len();
        let x: usize = self.cursor_x as usize;
        let mut col: usize = w;
        while col > x
            invariant
                x <= col <= w,
                x == self@.cursor_x,
                w == self@.width,
                row == self@.cursor_y as int * w,
                len == self@.cells.len(),
                row + w <= len,
                self@ == (ScreenView { cells: self@.cells, ..old(self)@ }),
                self@.wf(),
                blank == self@.blank(),
                self@.cells.len() == old(self)@.cells.len(),
                forall|j: int| 0 <= j < self@.cells.len() ==>
                    self@.cells[j] == (if row + col <= j < (row + w) {
                        if j < row + x + (n as int) {
                            blank
                        } else {
                            old(self)@.cells[j - n as int]
                        }
                    } else {
                        old(self)@.cells[j]
                    }),
            decreases col,
        {
            col = col - 1;
            if col < x + (n as usize) {
                self.cells.set(row + col, blank);
            } else {
                let cell = self.cells[row + col - n as usize];
                self.cells.set(row + col, cell);
            }
        }
        proof {
            assert(self@.cells =~= insert_chars_spec(old(self)@, n).cells);
            assert(self@ =~= insert_chars_spec(old(self)@, n));
        }
    }
}

} // verus!

verus! {

// ---------------------------------------------------------------------------
// Cursor, mode and screen-switch operations
// ---------------------------------------------------------------------------

/// Remember the cursor position.
pub open spec fn save_cursor_spec(v: ScreenView) -> ScreenView {
    ScreenView { saved_cursor: Some((v.cursor_x, v.cursor_y)), ..v }
}

/// Return to the remembered cursor position, clamped into the grid;
/// a no-op when none was saved.
pub open spec fn restore_cursor_spec(v: ScreenView) -> ScreenView {
    match v.saved_cursor {
        Some(p) => ScreenView {
            cursor_x: if p.0 < v.width { p.0 } else { (v.width - 1) as u16 },
            cursor_y: if p.1 < v.height { p.1 } else { (v.height - 1) as u16 },
            ..v
        },
        None => v,
    }
}

/// Full reset: clear the display (with the background in effect at the
/// time), home the cursor and drop the style.
pub open spec fn full_reset_spec(v: ScreenView) -> ScreenView {
    ScreenView {
        cursor_x: 0,
        cursor_y: 0,
        style: Style::default_spec(),
        ..erase_all_spec(v)
    }
}

/// Enter the alternate screen: save the grid and cursor, then present a
/// cleared grid. Idempotent: a no-op when already in alternate mode.
pub open spec fn enter_alternate_spec(v: ScreenView) -> ScreenView {
    if v.in_alternate {
        v
    } else {
        ScreenView {
            cells: fill_range_spec(v.cells, 0, v.cells.len() as int, v.blank()),
            cursor_x: 0,
            cursor_y: 0,
            saved_cells: Some(v.cells),
            saved_cursor: Some((v.cursor_x, v.cursor_y)),
            in_alternate: true,
            ..v
        }
    }
}

/// Leave the alternate screen: restore the saved grid and cursor. With
/// no saved grid, or one of another size, the display is cleared
/// instead. Idempotent: a no-op when not in alternate mode.
pub open spec fn leave_alternate_spec(v: ScreenView) -> ScreenView {
    if !v.in_alternate {
        v
    } else {
        ScreenView {
            cells: match v.saved_cells {
                Some(c) => if c.len() == v.cells.len() {
                    c
                } else {
                    fill_range_spec(v.cells, 0, v.cells.len() as int, v.blank())
                },
                None => fill_range_spec(v.cells, 0, v.cells.len() as int, v.blank()),
            },
            cursor_x: match v.saved_cursor {
                Some(p) => if p.0 < v.width { p.0 } else { (v.width - 1) as u16 },
                None => 0,
            },
            cursor_y: match v.saved_cursor {
                Some(p) => if p.1 < v.height { p.1 } else { (v.height - 1) as u16 },
                None => 0,
            },
            saved_cells: None,
            saved_cursor: None,
            in_alternate: false,
            ..v
        }
    }
}

/// A private-mode set/reset: mode 25 toggles cursor visibility, modes
/// 47, 1047 and 1049 switch the alternate screen; others are ignored.
pub open spec fn private_mode_spec(v: ScreenView, mode: u16, set: bool) -> ScreenView {
    if mode == 25 {
        ScreenView { cursor_visible: set, ..v }
    } else if mode == 47 || mode == 1047 || mode == 1049 {
        if set {
            enter_alternate_spec(v)
        } else {
            leave_alternate_spec(v)
        }
    } else {
        v
    }
}

/// Move the cursor up `n` rows, stopping at the top edge.
pub open spec fn cursor_up_spec(v: ScreenView, n: u16) -> ScreenView {
    ScreenView { cursor_y: if v.cursor_y >= n { (v.cursor_y - n) as u16 } else { 0 }, ..v }
}

/// Move the cursor down `n` rows, stopping at the bottom edge.
pub open spec fn cursor_down_spec(v: ScreenView, n: u16) -> ScreenView {
    ScreenView {
        cursor_y: if v.cursor_y as int + n as int <= v.height as int - 1 {
            (v.cursor_y + n) as u16
        } else {
            (v.height - 1) as u16
        },
        ..v
    }
}

/// Move the cursor right `n` columns, stopping at the right edge.
pub open spec fn cursor_right_spec(v: ScreenView, n: u16) -> ScreenView {
    ScreenView {
        cursor_x: if v.cursor_x as int + n as int <= v.width as int - 1 {
            (v.cursor_x + n) as u16
        } else {
            (v.width - 1) as u16
        },
        ..v
    }
}

/// Move the cursor left `n` columns, stopping at the left edge.
pub open spec fn cursor_left_spec(v: ScreenView, n: u16) -> ScreenView {
    ScreenView { cursor_x: if v.cursor_x >= n { (v.cursor_x - n) as u16 } else { 0 }, ..v }
}

/// Place the cursor at 0-based (`col`, `row`), clamped into the grid.
pub open spec fn cursor_pos_spec(v: ScreenView, row: u16, col: u16) -> ScreenView {
    ScreenView {
        cursor_x: if col < v.width { col } else { (v.width - 1) as u16 },
        cursor_y: if row < v.height { row } else { (v.height - 1) as u16 },
        ..v
    }
}

/// Set the scroll region to 0-based rows `top ..= bottom` and home the
/// cursor; ignored unless `top < bottom < height`.
pub open spec fn scroll_region_spec(v: ScreenView, top: u16, bottom: u16) -> ScreenView {
    if top < bottom && bottom < v.height {
        ScreenView { scroll_top: top, scroll_bottom: bottom, cursor_x: 0, cursor_y: 0, ..v }
    } else {
        v
    }
}

/// The grid after a resize: the overlapping top-left rectangle is kept,
/// new cells are blank defaults.
pub open spec fn resize_cells_spec(v: ScreenView, w2: u16, h2: u16) -> Seq<Cell> {
    Seq::new((w2 as int * h2 as int) as nat, |i: int| {
        let y = i / w2 as int;
        let x = i % w2 as int;
        if x < v.width && y < v.height {
            v.cells[y * v.width as int + x]
        } else {
            Cell::default_spec()
        }
    })
}

/// Resize the screen (dimensions clamped to at least 1): keep the
/// overlapping content, clamp the cursor, reset the scroll region to the
/// full new height. A same-size resize is a no-op.
pub open spec fn resize_spec(v: ScreenView, width: u16, height: u16) -> ScreenView {
    let w2 = if width == 0 { 1u16 } else { width };
    let h2 = if height == 0 { 1u16 } else { height };
    if w2 == v.width && h2 == v.height {
        v
    } else {
        ScreenView {
            cells: resize_cells_spec(v, w2, h2),
            width: w2,
            height: h2,
            cursor_x: if v.cursor_x < w2 { v.cursor_x } else { (w2 - 1) as u16 },
            cursor_y: if v.cursor_y < h2 { v.cursor_y } else { (h2 - 1) as u16 },
            scroll_top: 0,
            scroll_bottom: (h2 - 1) as u16,
            ..v
        }
    }
}

impl ScreenBuffer {
    /// Resize the grid, preserving the overlapping top-left rectangle.
    /// Dimensions of zero are clamped to 1.
    pub fn resize(&mut self, width: u16, height: u16)
        requires
            old(self)@.wf(),
        ensures
            final(self)@ == resize_spec(old(self)@, width, height),
            final(self)@.wf(),
    {
        let width = if width == 0 { 1u16 } else { width };
        let height = if height == 0 { 1u16 } else { height };
        if width == self.width && height == self.height {
            return;
        }
        proof {
            lemma_index_in_grid(0, 0, width, height);
        }
        let n: usize = (width as usize) * (height as usize);
        let mut new_cells: Vec<Cell> = Vec::with_capacity(n);
        let mut i: usize = 0;
        while i < n
            invariant
                i <= n,
                n == width as int * height as int,
                width >= 1,
                height >= 1,
                self@ == old(self)@,
                self@.wf(),
                new_cells@.len() == i as int,
                forall|j: int| 0 <= j < i ==>
                    new_cells@[j] == resize_cells_spec(old(self)@, width, height)[j],
            decreases n - i,
        {
            let y: usize = i / (width as usize);
            let x: usize = i % (width as usize);
            let cell = if x < self.width as usize && y < self.height as usize {
                proof {
                    lemma_index_in_grid(x as u16, y as u16, self.width, self.height);
                }
                self.cells[y * (self.width as usize) + x]
            } else {
                Cell::default()
            };
            new_cells.push(cell);
            i = i + 1;
        }
        self.cells = new_cells;
        self.width = width;
        self.height = height;
        if self.cursor_x >= width {
            self.cursor_x = width - 1;
        }
        if self.cursor_y >= height {
            self.cursor_y = height - 1;
        }
        self.scroll_top = 0;
        self.scroll_bottom = height - 1;
        proof {
            assert(self@.cells =~= resize_cells_spec(old(self)@, width, height));
            assert(no_nul(self@.cells)) by {
                assert forall|k: int| 0 <= k < self@.cells.len() implies
                    (#[trigger] self@.cells[k]).ch != '\0' by {
                    let yy = k / width as int;
                    let xx = k % width as int;
                    assert(0 <= xx < width && 0 <= yy) by (nonlinear_arith)
                        requires
                            width >= 1,
                            0 <= k,
                            xx == k % width as int,
                            yy == k / width as int,
                    ;
                    if xx < old(self)@.width && yy < old(self)@.height {
                        lemma_index_in_grid(xx as u16, yy as u16, old(self)@.width,
                            old(self)@.height);
                    }
                }
            }
            assert(self@ =~= resize_spec(old(self)@, width, height));
        }
    }

    /// Remember the cursor position.
    fn save_cursor(&mut self)
        requires
            old(self)@.wf(),
        ensures
            final(self)@ == save_cursor_spec(old(self)@),
            final(self)@.wf(),
            same_geometry(old(self)@, final(self)@),
    {
        self.saved_cursor = Some((self.cursor_x, self.cursor_y));
    }

    /// Return to the remembered cursor position, clamped into the grid.
    fn restore_cursor(&mut self)
        requires
            old(self)@.wf(),
        ensures
            final(self)@ == restore_cursor_spec(old(self)@),
            final(self)@.wf(),
            same_geometry(old(self)@, final(self)@),
    {
        match self.saved_cursor {
            Some((x, y)) => {
                self.cursor_x = if x < self.width { x } else { self.width - 1 };
                self.cursor_y = if y < self.height { y } else { self.height - 1 };
            }
            None => {}
        }
    }

    /// Full reset: clear, home, drop the style.
    fn full_reset(&mut self)
        requires
            old(self)@.wf(),
        ensures
            final(self)@ == full_reset_spec(old(self)@),
            final(self)@.wf(),
            same_geometry(old(self)@, final(self)@),
    {
        self.erase_all();
        self.cursor_x = 0;
        self.cursor_y = 0;
        self.current = Style::default();
    }

    /// Enter the alternate screen (no-op when already there).
    fn enter_alternate_screen(&mut self)
        requires
            old(self)@.wf(),
        ensures
            final(self)@ == enter_alternate_spec(old(self)@),
            final(self)@.wf(),
            same_geometry(old(self)@, final(self)@),
    {
        if self.in_alternate_screen {
            return;
        }
        self.saved_cells = Some(self.cells.clone());
        self.saved_cursor = Some((self.cursor_x, self.cursor_y));
        self.in_alternate_screen = true;
        self.erase_all();
        self.cursor_x = 0;
        self.cursor_y = 0;
        proof {
            assert(self@ =~= enter_alternate_spec(old(self)@));
        }
    }

    /// Leave the alternate screen (no-op when not there).
    fn leave_alternate_screen(&mut self)
        requires
            old(self)@.wf(),
        ensures
            final(self)@ == leave_alternate_spec(old(self)@),
            final(self)@.wf(),
            same_geometry(old(self)@, final(self)@),
    {
        if !self.in_alternate_screen {
            return;
        }
        let saved = self.saved_cells.take();
        match saved {
            Some(cells) => {
                if cells.len() == self.cells.len() {
                    self.cells = cells;
                } else {
                    self.erase_all();
                }
            }
            None => {
                self.erase_all();
            }
        }
        let saved_cursor = self.saved_cursor.take();
        match saved_cursor {
            Some((x, y)) => {
                self.cursor_x = if x < self.width { x } else { self.width - 1 };
                self.cursor_y = if y < self.height { y } else { self.height - 1 };
            }
            None => {
                self.cursor_x = 0;
                self.cursor_y = 0;
            }
        }
        self.in_alternate_screen = false;
        proof {
            assert(self@ =~= leave_alternate_spec(old(self)@));
        }
    }

    /// Apply a private mode set/reset (cursor visibility, alternate
    /// screen).
    fn handle_private_mode(&mut self, mode: u16, is_set: bool)
        requires
            old(self)@.wf(),
        ensures
            final(self)@ == private_mode_spec(old(self)@, mode, is_set),
            final(self)@.wf(),
            same_geometry(old(self)@, final(self)@),
    {
        if mode == 25 {
            self.cursor_visible = is_set;
        } else if mode == 47 || mode == 1047 || mode == 1049 {
            if is_set {
                self.enter_alternate_screen();
            } else {
                self.leave_alternate_screen();
            }
        }
    }
}

} // verus!

verus! {

// ---------------------------------------------------------------------------
// CSI parameter parsing
// ---------------------------------------------------------------------------

/// Index of the first `sep` byte in `s`, or `s.len()` if none occurs.
pub open spec fn first_byte_at(s: Seq<u8>, sep: u8) -> int
    decreases s.len(),
{
    if s.len() == 0 {
        0
    } else if s[0] == sep {
        0
    } else {
        1 + first_byte_at(s.skip(1), sep)
    }
}

/// The first `sep` position is within bounds, and characterized as the
/// first occurrence.
pub proof fn lemma_first_byte_at(s: Seq<u8>, sep: u8)
    ensures
        0 <= first_byte_at(s, sep) <= s.len(),
        forall|k: int| 0 <= k < first_byte_at(s, sep) ==> s[k] != sep,
        first_byte_at(s, sep) < s.len() ==> s[first_byte_at(s, sep)] == sep,
    decreases s.len(),
{
    if s.len() > 0 && s[0] != sep {
        lemma_first_byte_at(s.skip(1), sep);
        assert forall|k: int| 0 <= k < first_byte_at(s, sep) implies s[k] != sep by {
            if k > 0 {
                assert(s.skip(1)[k - 1] == s[k]);
            }
        }
        if first_byte_at(s, sep) < s.len() {
            assert(s.skip(1)[first_byte_at(s, sep) - 1] == s[first_byte_at(s, sep)]);
        }
    }
}

/// Whether every byte of `s` is an ASCII digit.
pub open spec fn all_digits(s: Seq<u8>) -> bool {
    forall|k: int| 0 <= k < s.len() ==> 48 <= #[trigger] s[k] <= 57
}

/// The numeric value of a digit string (most significant digit first).
pub open spec fn digits_val(s: Seq<u8>) -> int
    decreases s.len(),
{
    if s.len() == 0 {
        0
    } else {
        digits_val(s.drop_last()) * 10 + (s.last() - 48)
    }
}

/// A parameter segment parses as a `u16` exactly when it is a nonempty
/// digit string whose value fits; anything else is dropped.
pub open spec fn seg_parse(s: Seq<u8>) -> Option<u16> {
    if s.len() > 0 && all_digits(s) && digits_val(s) <= 65535 {
        Some(digits_val(s) as u16)
    } else {
        None
    }
}

/// A parsed segment as zero or one parameters.
pub open spec fn seg_as_params(seg: Seq<u8>) -> Seq<u16> {
    match seg_parse(seg) {
        Some(p) => seq![p],
        None => Seq::empty(),
    }
}

/// The numeric parameters of the remaining bytes `s`, with `seg` the
/// bytes of the current (unterminated) segment accumulated so far.
pub open spec fn parse_params_loop(s: Seq<u8>, seg: Seq<u8>) -> Seq<u16>
    decreases s.len(),
{
    if s.len() == 0 {
        seg_as_params(seg)
    } else if s[0] == 59 {
        seg_as_params(seg) + parse_params_loop(s.skip(1), Seq::empty())
    } else {
        parse_params_loop(s.skip(1), seg.push(s[0]))
    }
}

/// The numeric parameters of a CSI body: semicolon-separated segments,
/// each kept when it parses as a `u16` and dropped otherwise.
pub open spec fn parse_params_spec(s: Seq<u8>) -> Seq<u16> {
    parse_params_loop(s, Seq::empty())
}

impl ScreenBuffer {
    /// Parse the digit segment `s[from .. to]`, yielding its value when
    /// it is a nonempty all-digit string that fits in a `u16`.
    fn parse_segment(s: &[u8], from: usize, to: usize) -> (r: Option<u16>)
        requires
            from <= to <= s@.len(),
        ensures
            r == seg_parse(s@.subrange(from as int, to as int)),
    {
        let ghost seg = s@.subrange(from as int, to as int);
        if from == to {
            return None;
        }
        let mut acc: u32 = 0;
        let mut k: usize = from;
        while k < to
            invariant
                from <= k <= to <= s@.len(),
                seg == s@.subrange(from as int, to as int),
                all_digits(seg.subrange(0, k - from)),
                digits_val(seg.subrange(0, k - from)) <= 65535 ==>
                    acc == digits_val(seg.subrange(0, k - from)),
                digits_val(seg.subrange(0, k - from)) > 65535 ==> acc > 65535,
                acc <= 100000,
            decreases to - k,
        {
            let b = s[k];
            if b < 48 || b > 57 {
                proof {
                    assert(seg[k as int - from as int] == b);
                    assert(!all_digits(seg));
                }
                return None;
            }
            let d: u32 = (b - 48) as u32;
            acc = acc * 10 + d;
            if acc > 65535 {
                acc = 70000;
            }
            proof {
                let pre = seg.subrange(0, k - from as int);
                let cur = seg.subrange(0, k + 1 - from as int);
                assert(cur.drop_last() =~= pre);
                assert(cur.last() == b);
                assert(digits_val(cur) == digits_val(pre) * 10 + (b - 48));
            }
            k = k + 1;
        }
        proof {
            assert(seg.subrange(0, to - from as int) =~= seg);
        }
        if acc <= 65535 {
            Some(acc as u16)
        } else {
            None
        }
    }

    /// Find the first `sep` at or after `from`, or `s.len()`.
    fn find_byte(s: &[u8], from: usize, sep: u8) -> (r: usize)
        requires
            from <= s@.len(),
        ensures
            r == from + first_byte_at(s@.skip(from as int), sep),
            from <= r <= s@.len(),
            r < s@.len() ==> s@[r as int] == sep,
            forall|k: int| from <= k < r ==> s@[k] != sep,
    {
        proof {
            lemma_first_byte_at(s@.skip(from as int), sep);
        }
        let mut k: usize = from;
        while k < s.len()
            invariant
                from <= k <= s@.len(),
                forall|j: int| from <= j < k ==> s@[j] != sep,
            decreases s@.len() - k,
        {
            if s[k] == sep {
                proof {
                    let suf = s@.skip(from as int);
                    lemma_first_byte_at(suf, sep);
                    assert(suf[k - from as int] == sep);
                    assert forall|j: int| 0 <= j < k - from implies suf[j] != sep by {
                        assert(suf[j] == s@[j + from]);
                    }
                    if first_byte_at(suf, sep) < k - from {
                        assert(suf[first_byte_at(suf, sep)] == sep);
                        assert(false);
                    }
                    if first_byte_at(suf, sep) > k - from {
                        assert(false);
                    }
                }
                return k;
            }
            k = k + 1;
        }
        proof {
            let suf = s@.skip(from as int);
            lemma_first_byte_at(suf, sep);
            if first_byte_at(suf, sep) < suf.len() {
                let p = first_byte_at(suf, sep);
                assert(suf[p] == s@[p + from]);
                assert(false);
            }
        }
        s.len()
    }

    /// Parse the semicolon-separated numeric parameters in `s[.. to]`.
    fn parse_params(s: &[u8], to: usize) -> (r: Vec<u16>)
        requires
            to <= s@.len(),
        ensures
            r@ == parse_params_spec(s@.take(to as int)),
    {
        let ghost suf = s@.take(to as int);
        let mut out: Vec<u16> = Vec::new();
        let mut seg: Vec<u8> = Vec::new();
        let mut k: usize = 0;
        proof {
            assert(suf.skip(0) =~= suf);
            assert(out@ + parse_params_loop(suf, seg@) =~= parse_params_loop(suf, seg@));
        }
        while k < to
            invariant
                k <= to <= s@.len(),
                suf == s@.take(to as int),
                parse_params_spec(suf) == out@ + parse_params_loop(suf.skip(k as int), seg@),
            decreases to - k,
        {
            let b = s[k];
            proof {
                assert(suf.skip(k as int)[0] == b);
                assert(suf.skip(k as int).skip(1) =~= suf.skip(k as int + 1));
            }
            if b == 59 {
                match Self::parse_segment(&seg, 0, seg.len()) {
                    Some(p) => {
                        proof {
                            assert(seg@.subrange(0, seg@.len() as int) =~= seg@);
                        }
                        out.push(p);
                    }
                    None => {
                        proof {
                            assert(seg@.subrange(0, seg@.len() as int) =~= seg@);
                        }
                    }
                }
                seg.clear();
                proof {
                    assert(parse_params_spec(suf) == out@ + parse_params_loop(
                        suf.skip(k as int + 1), seg@));
                }
            } else {
                seg.push(b);
            }
            k = k + 1;
        }
        proof {
            assert(suf.skip(to as int).len() == 0);
        }
        match Self::parse_segment(&seg, 0, seg.len()) {
            Some(p) => {
                proof {
                    assert(seg@.subrange(0, seg@.len() as int) =~= seg@);
                }
                out.push(p);
            }
            None => {
                proof {
                    assert(seg@.subrange(0, seg@.len() as int) =~= seg@);
                }
            }
        }
        out
    }
}

} // verus!

verus! {

// ---------------------------------------------------------------------------
// SGR (select graphic rendition)
// ---------------------------------------------------------------------------

/// The colon-separated parts of the remaining bytes `s`, with `part`
/// the bytes of the current part accumulated so far.
pub open spec fn colon_parts_loop(s: Seq<u8>, part: Seq<u8>) -> Seq<Seq<u8>>
    decreases s.len(),
{
    if s.len() == 0 {
        seq![part]
    } else if s[0] == 58 {
        seq![part] + colon_parts_loop(s.skip(1), Seq::empty())
    } else {
        colon_parts_loop(s.skip(1), part.push(s[0]))
    }
}

/// A segment split at its colons; always at least one part.
pub open spec fn split_colons(s: Seq<u8>) -> Seq<Seq<u8>> {
    colon_parts_loop(s, Seq::empty())
}

/// Each part parsed as a numeric parameter, unparsable parts dropped.
pub open spec fn parse_all_parts(parts: Seq<Seq<u8>>) -> Seq<u16>
    decreases parts.len(),
{
    if parts.len() == 0 {
        Seq::empty()
    } else {
        seg_as_params(parts[0]) + parse_all_parts(parts.skip(1))
    }
}

/// Whether `s` holds a colon byte.
pub open spec fn contains_colon(s: Seq<u8>) -> bool {
    exists|k: int| 0 <= k < s.len() && s[k] == 58
}

/// The parameters one SGR segment contributes. A segment without colon
/// sub-parameters parses as a plain number. With colons: a `4:0`
/// sub-parameter form turns underline off (24), any other `4:n` turns it
/// on (4); underline-color (`58:...`) is dropped whole; `38:...` and
/// `48:...` color forms are flattened to their semicolon equivalents;
/// any other form keeps only its first part.
pub open spec fn sgr_segment_params(seg: Seq<u8>) -> Seq<u16> {
    if !contains_colon(seg) {
        seg_as_params(seg)
    } else {
        let parts = split_colons(seg);
        if parts[0] == seq![52u8] {
            if parts.len() > 1 && parts[1] == seq![48u8] {
                seq![24u16]
            } else {
                seq![4u16]
            }
        } else if parts[0] == seq![53u8, 56u8] {
            Seq::empty()
        } else if parts[0] == seq![51u8, 56u8] || parts[0] == seq![52u8, 56u8] {
            parse_all_parts(parts)
        } else {
            seg_as_params(parts[0])
        }
    }
}

/// The parameters of an SGR body: semicolon-separated segments, each
/// contributing via [`sgr_segment_params`].
pub open spec fn sgr_params_loop(s: Seq<u8>, seg: Seq<u8>) -> Seq<u16>
    decreases s.len(),
{
    if s.len() == 0 {
        sgr_segment_params(seg)
    } else if s[0] == 59 {
        sgr_segment_params(seg) + sgr_params_loop(s.skip(1), Seq::empty())
    } else {
        sgr_params_loop(s.skip(1), seg.push(s[0]))
    }
}

/// The parameter list of an SGR control-sequence body.
pub open spec fn sgr_params_spec(s: Seq<u8>) -> Seq<u16> {
    sgr_params_loop(s, Seq::empty())
}

/// The effect of a single SGR parameter on the style (the multi-part
/// color forms 38/48 are handled by [`apply_sgr_from`]).
pub open spec fn apply_sgr_one(st: Style, p: u16) -> Style {
    if p == 0 {
        Style::default_spec()
    } else if p == 1 {
        Style { attrs: Attrs(st.attrs.0 | crate::cell::ATTR_BOLD), ..st }
    } else if p == 2 {
        Style { attrs: Attrs(st.attrs.0 | crate::cell::ATTR_DIM), ..st }
    } else if p == 3 {
        Style { attrs: Attrs(st.attrs.0 | crate::cell::ATTR_ITALIC), ..st }
    } else if p == 4 {
        Style { attrs: Attrs(st.attrs.0 | crate::cell::ATTR_UNDERLINE), ..st }
    } else if p == 7 {
        Style { attrs: Attrs(st.attrs.0 | crate::cell::ATTR_REVERSE), ..st }
    } else if p == 9 {
        Style { attrs: Attrs(st.attrs.0 | crate::cell::ATTR_STRIKETHROUGH), ..st }
    } else if p == 21 {
        Style { attrs: Attrs(st.attrs.0 & !crate::cell::ATTR_BOLD), ..st }
    } else if p == 22 {
        Style { attrs: Attrs(st.attrs.0 & !crate::cell::ATTR_BOLD & !crate::cell::ATTR_DIM), ..st }
    } else if p == 23 {
        Style { attrs: Attrs(st.attrs.0 & !crate::cell::ATTR_ITALIC), ..st }
    } else if p == 24 {
        Style { attrs: Attrs(st.attrs.0 & !crate::cell::ATTR_UNDERLINE), ..st }
    } else if p == 27 {
        Style { attrs: Attrs(st.attrs.0 & !crate::cell::ATTR_REVERSE), ..st }
    } else if p == 29 {
        Style { attrs: Attrs(st.attrs.0 & !crate::cell::ATTR_STRIKETHROUGH), ..st }
    } else if 30 <= p <= 37 {
        Style { fg: Some(Color::Named((p - 30) as u8)), ..st }
    } else if p == 39 {
        Style { fg: None, ..st }
    } else if 40 <= p <= 47 {
        Style { bg: Some(Color::Named((p - 40) as u8)), ..st }
    } else if p == 49 {
        Style { bg: None, ..st }
    } else if 90 <= p <= 97 {
        Style { fg: Some(Color::Named((p - 90 + 8) as u8)), ..st }
    } else if 100 <= p <= 107 {
        Style { bg: Some(Color::Named((p - 100 + 8) as u8)), ..st }
    } else {
        st
    }
}

/// Fold the SGR parameters from position `i` over the style. The
/// extended color forms `38;5;N`, `38;2;R;G;B` (and `48;...`) consume
/// the extra parameters they read.
pub open spec fn apply_sgr_from(st: Style, params: Seq<u16>, i: int) -> Style
    decreases params.len() - i,
    when 0 <= i <= params.len()
{
    if i >= params.len() {
        st
    } else {
        let p = params[i];
        if p == 38 && i + 2 < params.len() && params[i + 1] == 5 {
            apply_sgr_from(Style { fg: Some(Color::Indexed(params[i + 2] as u8)), ..st },
                params, i + 3)
        } else if p == 38 && i + 4 < params.len() && params[i + 1] == 2 {
            apply_sgr_from(Style { fg: Some(Color::Rgb(params[i + 2] as u8,
                params[i + 3] as u8, params[i + 4] as u8)), ..st }, params, i + 5)
        } else if p == 48 && i + 2 < params.len() && params[i + 1] == 5 {
            apply_sgr_from(Style { bg: Some(Color::Indexed(params[i + 2] as u8)), ..st },
                params, i + 3)
        } else if p == 48 && i + 4 < params.len() && params[i + 1] == 2 {
            apply_sgr_from(Style { bg: Some(Color::Rgb(params[i + 2] as u8,
                params[i + 3] as u8, params[i + 4] as u8)), ..st }, params, i + 5)
        } else {
            apply_sgr_from(apply_sgr_one(st, p), params, i + 1)
        }
    }
}

/// The style after an SGR parameter list; an empty list means reset.
pub open spec fn apply_sgr_spec(st: Style, params: Seq<u16>) -> Style {
    if params.len() == 0 {
        Style::default_spec()
    } else {
        apply_sgr_from(st, params, 0)
    }
}

impl ScreenBuffer {
    /// Split one SGR segment at its colons.
    fn split_colons_exec(seg: &[u8]) -> (r: Vec<Vec<u8>>)
        ensures
            r@.map(|_i: int, p: Vec<u8>| p@) == split_colons(seg@),
            r@.len() >= 1,
    {
        let mut parts: Vec<Vec<u8>> = Vec::new();
        let mut part: Vec<u8> = Vec::new();
        let mut k: usize = 0;
        proof {
            assert(seg@.skip(0) =~= seg@);
            assert(parts@.map(|_i: int, p: Vec<u8>| p@)
                + colon_parts_loop(seg@, part@) =~= colon_parts_loop(seg@, part@));
        }
        while k < seg.len()
            invariant
                k <= seg@.len(),
                split_colons(seg@) == parts@.map(|_i: int, p: Vec<u8>| p@)
                    + colon_parts_loop(seg@.skip(k as int), part@),
            decreases seg@.len() - k,
        {
            let b = seg[k];
            proof {
                assert(seg@.skip(k as int)[0] == b);
                assert(seg@.skip(k as int).skip(1) =~= seg@.skip(k as int + 1));
            }
            if b == 58 {
                let ghost pre = parts@;
                parts.push(part);
                part = Vec::new();
                proof {
                    assert(parts@.map(|_i: int, p: Vec<u8>| p@) =~=
                        pre.map(|_i: int, p: Vec<u8>| p@).push(parts@[pre.len() as int]@));
                    assert((pre.map(|_i: int, p: Vec<u8>| p@).push(parts@[pre.len() as int]@)
                        + colon_parts_loop(seg@.skip(k as int + 1), Seq::empty())) =~=
                        (pre.map(|_i: int, p: Vec<u8>| p@)
                            + (seq![parts@[pre.len() as int]@]
                                + colon_parts_loop(seg@.skip(k as int + 1), Seq::empty()))));
                }
            } else {
                part.push(b);
            }
            k = k + 1;
        }
        let ghost pre = parts@;
        parts.push(part);
        proof {
            assert(seg@.skip(seg@.len() as int).len() == 0);
            assert(parts@.map(|_i: int, p: Vec<u8>| p@) =~=
                pre.map(|_i: int, p: Vec<u8>| p@).push(parts@[pre.len() as int]@));
            assert(pre.map(|_i: int, p: Vec<u8>| p@).push(parts@[pre.len() as int]@) =~=
                pre.map(|_i: int, p: Vec<u8>| p@) + seq![parts@[pre.len() as int]@]);
        }
        parts
    }

    /// The parameters contributed by one SGR segment.
    fn sgr_segment(seg: &[u8]) -> (r: Vec<u16>)
        ensures
            r@ == sgr_segment_params(seg@),
    {
        let j = Self::find_byte(seg, 0, 58);
        if j == seg.len() {
            proof {
                assert(!contains_colon(seg@));
                assert(seg@.subrange(0, seg@.len() as int) =~= seg@);
            }
            let mut out: Vec<u16> = Vec::new();
            match Self::parse_segment(seg, 0, seg.len()) {
                Some(p) => {
                    out.push(p);
                    proof {
                        assert(out@ =~= sgr_segment_params(seg@));
                    }
                }
                None => {
                    proof {
                        assert(out@ =~= sgr_segment_params(seg@));
                    }
                }
            }
            return out;
        }
        proof {
            assert(contains_colon(seg@));
        }
        let parts = Self::split_colons_exec(seg);
        let ghost sparts = split_colons(seg@);
        proof {
            assert(parts@[0]@ == sparts[0]);
        }
        let first = &parts[0];
        let mut out: Vec<u16> = Vec::new();
        if first.len() == 1 && first[0] == 52 {
            proof {
                assert(first@ =~= seq![52u8]);
            }
            if parts.len() > 1 {
                proof {
                    assert(parts@[1]@ == sparts[1]);
                }
                let second = &parts[1];
                if second.len() == 1 && second[0] == 48 {
                    proof {
                        assert(second@ =~= seq![48u8]);
                    }
                    out.push(24);
                    proof {
                        assert(out@ =~= seq![24u16]);
                    }
                    return out;
                }
                proof {
                    assert(second@ !~= seq![48u8]);
                }
            }
            out.push(4);
            proof {
                assert(out@ =~= seq![4u16]);
            }
            return out;
        }
        proof {
            assert(first@ !~= seq![52u8]);
        }
        if first.len() == 2 && first[0] == 53 && first[1] == 56 {
            proof {
                assert(first@ =~= seq![53u8, 56u8]);
            }
            return out;
        }
        proof {
            assert(first@ !~= seq![53u8, 56u8]);
        }
        let is38 = first.len() == 2 && first[0] == 51 && first[1] == 56;
        let is48 = first.len() == 2 && first[0] == 52 && first[1] == 56;
        if is38 || is48 {
            proof {
                if is38 {
                    assert(first@ =~= seq![51u8, 56u8]);
                } else {
                    assert(first@ =~= seq![52u8, 56u8]);
                }
            }
            let mut k: usize = 0;
            proof {
                assert(sparts.skip(0) =~= sparts);
                assert(out@ + parse_all_parts(sparts) =~= parse_all_parts(sparts));
            }
            while k < parts.len()
                invariant
                    k <= parts@.len(),
                    sparts == parts@.map(|_i: int, p: Vec<u8>| p@),
                    parse_all_parts(sparts) == out@ + parse_all_parts(sparts.skip(k as int)),
                decreases parts@.len() - k,
            {
                proof {
                    assert(sparts.skip(k as int)[0] == parts@[k as int]@);
                    assert(sparts.skip(k as int).skip(1) =~= sparts.skip(k as int + 1));
                }
                let part = &parts[k];
                match Self::parse_segment(part, 0, part.len()) {
                    Some(p) => {
                        proof {
                            assert(part@.subrange(0, part@.len() as int) =~= part@);
                        }
                        out.push(p);
                    }
                    None => {
                        proof {
                            assert(part@.subrange(0, part@.len() as int) =~= part@);
                        }
                    }
                }
                k = k + 1;
            }
            proof {
                assert(parse_all_parts(sparts.skip(sparts.len() as int)) =~= Seq::<u16>::empty());
            }
            return out;
        }
        proof {
            assert(first@ !~= seq![51u8, 56u8]);
            assert(first@ !~= seq![52u8, 56u8]);
        }
        match Self::parse_segment(first, 0, first.len()) {
            Some(p) => {
                proof {
                    assert(first@.subrange(0, first@.len() as int) =~= first@);
                }
                out.push(p);
                proof {
                    assert(out@ =~= sgr_segment_params(seg@));
                }
            }
            None => {
                proof {
                    assert(first@.subrange(0, first@.len() as int) =~= first@);
                    assert(out@ =~= sgr_segment_params(seg@));
                }
            }
        }
        out
    }

    /// Parse an SGR body into its parameter list, handling colon
    /// sub-parameters.
    fn sgr_params(s: &[u8], to: usize) -> (r: Vec<u16>)
        requires
            to <= s@.len(),
        ensures
            r@ == sgr_params_spec(s@.take(to as int)),
    {
        let ghost body = s@.take(to as int);
        let mut out: Vec<u16> = Vec::new();
        let mut seg: Vec<u8> = Vec::new();
        let mut k: usize = 0;
        proof {
            assert(body.skip(0) =~= body);
            assert(out@ + sgr_params_loop(body, seg@) =~= sgr_params_loop(body, seg@));
        }
        while k < to
            invariant
                k <= to <= s@.len(),
                body == s@.take(to as int),
                sgr_params_spec(body) == out@ + sgr_params_loop(
                    body.skip(k as int), seg@),
            decreases to - k,
        {
            let b = s[k];
            proof {
                assert(body.skip(k as int)[0] == b);
                assert(body.skip(k as int).skip(1) =~= body.skip(k as int + 1));
            }
            if b == 59 {
                let mut piece = Self::sgr_segment(&seg);
                out.append(&mut piece);
                seg.clear();
            } else {
                seg.push(b);
            }
            k = k + 1;
        }
        proof {
            assert(body.skip(to as int).len() == 0);
        }
        let mut piece = Self::sgr_segment(&seg);
        out.append(&mut piece);
        out
    }

    /// Apply an SGR parameter list to the current style.
    fn process_sgr(&mut self, params: &Vec<u16>)
        requires
            old(self)@.wf(),
        ensures
            final(self)@ == (ScreenView {
                style: apply_sgr_spec(old(self)@.style, params@),
                ..old(self)@
            }),
            final(self)@.wf(),
            same_geometry(old(self)@, final(self)@),
    {
        if params.len() == 0 {
            self.current = Style::default();
            return;
        }
        let ghost orig = self@.style;
        let mut i: usize = 0;
        while i < params.len()
            invariant
                i <= params@.len(),
                self@ == (ScreenView { style: self@.style, ..old(self)@ }),
                apply_sgr_from(self@.style, params@, i as int)
                    == apply_sgr_from(orig, params@, 0),
            decreases params@.len() - i,
        {
            let p = params[i];
            if p == 38 && params.len() - i > 2 && params[i + 1] == 5 {
                self.current = Style {
                    fg: Some(Color::Indexed(#[verifier::truncate] (params[i + 2] as u8))),
                    ..self.current
                };
                i = i + 3;
            } else if p == 38 && params.len() - i > 4 && params[i + 1] == 2 {
                self.current = Style {
                    fg: Some(Color::Rgb(
                        #[verifier::truncate] (params[i + 2] as u8),
                        #[verifier::truncate] (params[i + 3] as u8),
                        #[verifier::truncate] (params[i + 4] as u8),
                    )),
                    ..self.current
                };
                i = i + 5;
            } else if p == 48 && params.len() - i > 2 && params[i + 1] == 5 {
                self.current = Style {
                    bg: Some(Color::Indexed(#[verifier::truncate] (params[i + 2] as u8))),
                    ..self.current
                };
                i = i + 3;
            } else if p == 48 && params.len() - i > 4 && params[i + 1] == 2 {
                self.current = Style {
                    bg: Some(Color::Rgb(
                        #[verifier::truncate] (params[i + 2] as u8),
                        #[verifier::truncate] (params[i + 3] as u8),
                        #[verifier::truncate] (params[i + 4] as u8),
                    )),
                    ..self.current
                };
                i = i + 5;
            } else {
                if p == 0 {
                    self.current = Style::default();
                } else if p == 1 {
                    self.current.attrs.set(crate::cell::ATTR_BOLD);
                } else if p == 2 {
                    self.current.attrs.set(crate::cell::ATTR_DIM);
                } else if p == 3 {
                    self.current.attrs.set(crate::cell::ATTR_ITALIC);
                } else if p == 4 {
                    self.current.attrs.set(crate::cell::ATTR_UNDERLINE);
                } else if p == 7 {
                    self.current.attrs.set(crate::cell::ATTR_REVERSE);
                } else if p == 9 {
                    self.current.attrs.set(crate::cell::ATTR_STRIKETHROUGH);
                } else if p == 21 {
                    self.current.attrs.clear(crate::cell::ATTR_BOLD);
                } else if p == 22 {
                    self.current.attrs.clear(crate::cell::ATTR_BOLD);
                    self.current.attrs.clear(crate::cell::ATTR_DIM);
                } else if p == 23 {
                    self.current.attrs.clear(crate::cell::ATTR_ITALIC);
                } else if p == 24 {
                    self.current.attrs.clear(crate::cell::ATTR_UNDERLINE);
                } else if p == 27 {
                    self.current.attrs.clear(crate::cell::ATTR_REVERSE);
                } else if p == 29 {
                    self.current.attrs.clear(crate::cell::ATTR_STRIKETHROUGH);
                } else if 30 <= p && p <= 37 {
                    self.current.fg = Some(Color::Named((p - 30) as u8));
                } else if p == 39 {
                    self.current.fg = None;
                } else if 40 <= p && p <= 47 {
                    self.current.bg = Some(Color::Named((p - 40) as u8));
                } else if p == 49 {
                    self.current.bg = None;
                } else if 90 <= p && p <= 97 {
                    self.current.fg = Some(Color::Named((p - 90 + 8) as u8));
                } else if 100 <= p && p <= 107 {
                    self.current.bg = Some(Color::Named((p - 100 + 8) as u8));
                }
                i = i + 1;
            }
        }
    }
}

} // verus!

verus! {

// ---------------------------------------------------------------------------
// UTF-8 decoding
// ---------------------------------------------------------------------------

/// How many bytes a UTF-8 sequence led by `b` has; 0 when `b` is no
/// multi-byte lead (stray continuation bytes and 0xF8..0xFF included).
pub open spec fn utf8_lead_len(b: u8) -> int {
    if 0xC0 <= b <= 0xDF {
        2
    } else if 0xE0 <= b <= 0xEF {
        3
    } else if 0xF0 <= b <= 0xF7 {
        4
    } else {
        0
    }
}

/// The code point carried by an accumulated 2-, 3- or 4-byte sequence.
pub open spec fn utf8_codepoint(buf: Seq<u8>) -> u32 {
    if buf.len() == 2 {
        ((buf[0] & 0x1F) as u32) << 6 | ((buf[1] & 0x3F) as u32)
    } else if buf.len() == 3 {
        ((buf[0] & 0x0F) as u32) << 12 | ((buf[1] & 0x3F) as u32) << 6
            | ((buf[2] & 0x3F) as u32)
    } else if buf.len() == 4 {
        ((buf[0] & 0x07) as u32) << 18 | ((buf[1] & 0x3F) as u32) << 12
            | ((buf[2] & 0x3F) as u32) << 6 | ((buf[3] & 0x3F) as u32)
    } else {
        0
    }
}

/// The smallest code point a sequence of the given length may encode;
/// anything lower is an overlong (invalid) encoding.
pub open spec fn utf8_min_codepoint(len: int) -> u32 {
    if len == 2 {
        0x80
    } else if len == 3 {
        0x800
    } else {
        0x10000
    }
}

/// Whether `cp` is a Unicode scalar value: at most 0x10FFFF and not a
/// surrogate.
pub open spec fn is_scalar_value(cp: u32) -> bool {
    cp < 0xD800 || (0xE000 <= cp && cp <= 0x10FFFF)
}

/// Decode a complete accumulated multi-byte sequence: the character it
/// encodes, or `None` for overlong encodings, surrogates and values
/// beyond the Unicode range.
pub open spec fn utf8_decode_acc(buf: Seq<u8>) -> Option<char> {
    if 2 <= buf.len() <= 4 {
        let cp = utf8_codepoint(buf);
        if cp >= utf8_min_codepoint(buf.len() as int) && is_scalar_value(cp) {
            Some(cp as char)
        } else {
            None
        }
    } else {
        None
    }
}

/// Decode a whole byte sequence as UTF-8: `None` as soon as any part of
/// it is malformed (matching strict validation).
pub open spec fn utf8_decode_seq(s: Seq<u8>) -> Option<Seq<char>>
    decreases s.len(),
{
    if s.len() == 0 {
        Some(Seq::empty())
    } else if s[0] <= 0x7F {
        match utf8_decode_seq(s.skip(1)) {
            Some(cs) => Some(seq![s[0] as char] + cs),
            None => None,
        }
    } else {
        let l = utf8_lead_len(s[0]);
        if l >= 2 && s.len() >= l
            && (forall|k: int| 1 <= k < l ==> (#[trigger] s[k] & 0xC0) == 0x80) {
            match utf8_decode_acc(s.subrange(0, l)) {
                Some(c) => match utf8_decode_seq(s.skip(l)) {
                    Some(cs) => Some(seq![c] + cs),
                    None => None,
                },
                None => None,
            }
        } else {
            None
        }
    }
}

/// Relies on char::from_u32 of std: it returns the character with the
/// given code point, and `None` exactly for surrogates (0xD800..=0xDFFF)
/// and values above 0x10FFFF.
#[verifier::external_body]
fn char_from_u32(v: u32) -> (r: Option<char>)
    ensures
        r is Some <==> is_scalar_value(v),
        match r {
            Some(c) => c as u32 == v,
            None => true,
        },
{
    char::from_u32(v)
}

/// Relies on String's FromIterator over chars (via Iterator::collect):
/// the collected string holds exactly the characters of the slice, in
/// order.
#[verifier::external_body]
fn chars_to_string(v: &[char]) -> (r: String)
    ensures
        r@ == v@,
{
    v.iter().collect()
}

impl ScreenBuffer {
    /// Decode one complete accumulated multi-byte sequence.
    fn decode_acc(buf: &[u8]) -> (r: Option<char>)
        ensures
            r == utf8_decode_acc(buf@),
    {
        let cp: u32;
        if buf.len() == 2 {
            cp = ((buf[0] & 0x1F) as u32) << 6u32 | ((buf[1] & 0x3F) as u32);
        } else if buf.len() == 3 {
            cp = ((buf[0] & 0x0F) as u32) << 12u32 | ((buf[1] & 0x3F) as u32) << 6u32
                | ((buf[2] & 0x3F) as u32);
        } else if buf.len() == 4 {
            cp = ((buf[0] & 0x07) as u32) << 18u32 | ((buf[1] & 0x3F) as u32) << 12u32
                | ((buf[2] & 0x3F) as u32) << 6u32 | ((buf[3] & 0x3F) as u32);
        } else {
            return None;
        }
        let min: u32 = if buf.len() == 2 {
            0x80
        } else if buf.len() == 3 {
            0x800
        } else {
            0x10000
        };
        if cp < min {
            return None;
        }
        let r = Self::char_from_u32_checked(cp);
        proof {
            match r {
                Some(c) => {
                    vstd::utf8::char_u32_cast(c, cp);
                }
                None => {}
            }
        }
        r
    }

    /// `char_from_u32` under a name private to this impl.
    fn char_from_u32_checked(v: u32) -> (r: Option<char>)
        ensures
            r is Some <==> is_scalar_value(v),
            match r {
                Some(c) => c as u32 == v,
                None => true,
            },
    {
        char_from_u32(v)
    }

    /// Decode a whole byte slice as UTF-8.
    fn decode_seq(s: &[u8], from: usize) -> (r: Option<Vec<char>>)
        requires
            from <= s@.len(),
        ensures
            match r {
                Some(cs) => utf8_decode_seq(s@.skip(from as int)) == Some(cs@),
                None => utf8_decode_seq(s@.skip(from as int)) is None,
            },
        decreases s@.len() - from,
    {
        let ghost suf = s@.skip(from as int);
        if from == s.len() {
            proof {
                assert(suf.len() == 0);
            }
            return Some(Vec::new());
        }
        let b = s[from];
        proof {
            assert(suf[0] == b);
        }
        if b <= 0x7F {
            proof {
                assert(suf.skip(1) =~= s@.skip(from as int + 1));
            }
            match Self::decode_seq(s, from + 1) {
                Some(mut cs) => {
                    cs.insert(0, b as char);
                    proof {
                        assert(cs@ =~= seq![b as char] + cs@.skip(1));
                    }
                    Some(cs)
                }
                None => None,
            }
        } else {
            let l: usize = if b >= 0xC0 && b <= 0xDF {
                2
            } else if b >= 0xE0 && b <= 0xEF {
                3
            } else if b >= 0xF0 && b <= 0xF7 {
                4
            } else {
                return None;
            };
            if s.len() - from < l {
                return None;
            }
            let n: usize = s.len();
            let mut k: usize = 1;
            let mut acc: Vec<u8> = Vec::new();
            acc.push(b);
            while k < l
                invariant
                    1 <= k <= l,
                    n == s@.len(),
                    from <= n,
                    from + l <= n,
                    suf == s@.skip(from as int),
                    suf.len() == n - from,
                    suf.len() >= 1,
                    b == suf[0],
                    b > 0x7F,
                    l == utf8_lead_len(b),
                    2 <= l <= 4,
                    acc@ =~= suf.subrange(0, k as int),
                    forall|j: int| 1 <= j < k ==> (#[trigger] suf[j] & 0xC0) == 0x80,
                decreases l - k,
            {
                let c = s[from + k];
                proof {
                    assert(suf[k as int] == c);
                }
                if c & 0xC0 != 0x80 {
                    proof {
                        assert((suf[k as int] & 0xC0) != 0x80);
                    }
                    return None;
                }
                acc.push(c);
                k = k + 1;
            }
            match Self::decode_acc(&acc) {
                Some(c) => {
                    proof {
                        assert(suf.skip(l as int) =~= s@.skip(from as int + l));
                    }
                    match Self::decode_seq(s, from + l) {
                        Some(mut cs) => {
                            cs.insert(0, c);
                            proof {
                                assert(cs@ =~= seq![c] + cs@.skip(1));
                            }
                            Some(cs)
                        }
                        None => None,
                    }
                }
                None => None,
            }
        }
    }
}

} // verus!

verus! {

// ---------------------------------------------------------------------------
// The byte-decoder step function
// ---------------------------------------------------------------------------

/// Horizontal tab: the cursor moves to the next multiple of 8, clamped
/// to the last column.
pub open spec fn tab_spec(v: ScreenView) -> ScreenView {
    let t = (v.cursor_x as int / 8 + 1) * 8;
    ScreenView {
        cursor_x: if t >= v.width as int { (v.width - 1) as u16 } else { t as u16 },
        ..v
    }
}

/// One byte in `Normal` mode with no UTF-8 sequence pending: control
/// bytes act, printable ASCII prints, UTF-8 lead bytes open the
/// accumulator, anything else is absorbed.
pub open spec fn step_normal_base_spec(v: ScreenView, b: u8) -> ScreenView {
    if b == 0x1b {
        ScreenView { state: ParseState::Escape, parse_buffer: Seq::empty(), ..v }
    } else if b == 0x08 {
        ScreenView { cursor_x: if v.cursor_x >= 1 { (v.cursor_x - 1) as u16 } else { 0 }, ..v }
    } else if b == 0x09 {
        tab_spec(v)
    } else if b == 0x0a {
        line_feed_spec(v)
    } else if b == 0x0d {
        ScreenView { cursor_x: 0, ..v }
    } else if 0xC0 <= b && b <= 0xF7 {
        ScreenView {
            utf8_buffer: seq![b],
            utf8_remaining: (utf8_lead_len(b) - 1) as u8,
            ..v
        }
    } else if 0x20 <= b && b <= 0x7E {
        put_char_spec(v, b as char)
    } else {
        v
    }
}

/// One byte in `Normal` mode. While a UTF-8 sequence is pending, a
/// continuation byte extends (and possibly completes) it; any other
/// byte aborts the sequence and is then treated afresh — never more
/// than one abort-and-retry per byte.
pub open spec fn step_normal_spec(v: ScreenView, b: u8) -> ScreenView {
    if v.utf8_remaining > 0 {
        if b & 0xC0 == 0x80 {
            let buf = v.utf8_buffer.push(b);
            if v.utf8_remaining == 1 {
                let done = ScreenView { utf8_buffer: Seq::empty(), utf8_remaining: 0, ..v };
                match utf8_decode_acc(buf) {
                    Some(c) => put_char_spec(done, c),
                    None => done,
                }
            } else {
                ScreenView { utf8_buffer: buf, utf8_remaining: (v.utf8_remaining - 1) as u8, ..v }
            }
        } else {
            step_normal_base_spec(
                ScreenView { utf8_buffer: Seq::empty(), utf8_remaining: 0, ..v }, b)
        }
    } else {
        step_normal_base_spec(v, b)
    }
}

/// One byte after ESC: open a CSI/OSC/DCS accumulator or a charset
/// select, apply a single-byte effect, or fall back to `Normal`.
pub open spec fn step_escape_spec(v: ScreenView, b: u8) -> ScreenView {
    if b == 0x5B {
        ScreenView { state: ParseState::Csi, parse_buffer: Seq::empty(), ..v }
    } else if b == 0x5D {
        ScreenView { state: ParseState::Osc, parse_buffer: Seq::empty(), ..v }
    } else if b == 0x50 || b == 0x5F || b == 0x5E || b == 0x58 {
        ScreenView { state: ParseState::Dcs, parse_buffer: Seq::empty(), ..v }
    } else if b == 0x28 || b == 0x29 || b == 0x2A || b == 0x2B || b == 0x2D || b == 0x2E
        || b == 0x2F {
        ScreenView { state: ParseState::CharsetSelect, ..v }
    } else if b == 0x4D {
        ScreenView {
            state: ParseState::Normal,
            cursor_y: if v.cursor_y >= 1 { (v.cursor_y - 1) as u16 } else { 0 },
            ..v
        }
    } else if b == 0x37 || b == 0x73 {
        ScreenView { state: ParseState::Normal, ..save_cursor_spec(v) }
    } else if b == 0x38 || b == 0x75 {
        ScreenView { state: ParseState::Normal, ..restore_cursor_spec(v) }
    } else if b == 0x63 {
        ScreenView { state: ParseState::Normal, ..full_reset_spec(v) }
    } else if b == 0x44 {
        ScreenView { state: ParseState::Normal, ..line_feed_spec(v) }
    } else if b == 0x45 {
        ScreenView { state: ParseState::Normal,
            ..line_feed_spec(ScreenView { cursor_x: 0, ..v }) }
    } else {
        ScreenView { state: ParseState::Normal, ..v }
    }
}

/// Scroll the region up `k` times.
pub open spec fn scroll_up_n_spec(v: ScreenView, k: int) -> ScreenView
    decreases k,
{
    if k <= 0 {
        v
    } else {
        scroll_up_spec(scroll_up_n_spec(v, k - 1))
    }
}

/// Scroll the region down `k` times.
pub open spec fn scroll_down_n_spec(v: ScreenView, k: int) -> ScreenView
    decreases k,
{
    if k <= 0 {
        v
    } else {
        scroll_down_spec(scroll_down_n_spec(v, k - 1))
    }
}

/// The first parameter, or `default` when absent.
pub open spec fn csi_nth(params: Seq<u16>, i: int, default: u16) -> u16 {
    if params.len() > i {
        params[i]
    } else {
        default
    }
}

/// The count argument of a CSI sequence: the first parameter, absent or
/// zero meaning 1.
pub open spec fn csi_n(params: Seq<u16>) -> u16 {
    let p = csi_nth(params, 0, 1);
    if p >= 1 {
        p
    } else {
        1
    }
}

/// Dispatch a completed control sequence: the accumulated buffer's last
/// byte selects the effect, the rest parses as parameters.
pub open spec fn execute_csi_spec(v: ScreenView) -> ScreenView {
    let buf = v.parse_buffer;
    if buf.len() == 0 {
        v
    } else {
        let fin = buf.last();
        let body = buf.drop_last();
        if fin == 0x6D {
            ScreenView { style: apply_sgr_spec(v.style, sgr_params_spec(body)), ..v }
        } else {
            let params = parse_params_spec(body);
            let n = csi_n(params);
            if fin == 0x41 {
                cursor_up_spec(v, n)
            } else if fin == 0x42 {
                cursor_down_spec(v, n)
            } else if fin == 0x43 {
                cursor_right_spec(v, n)
            } else if fin == 0x44 {
                cursor_left_spec(v, n)
            } else if fin == 0x48 || fin == 0x66 {
                let row = if csi_nth(params, 0, 1) >= 1 { csi_nth(params, 0, 1) } else { 1 };
                let col = if csi_nth(params, 1, 1) >= 1 { csi_nth(params, 1, 1) } else { 1 };
                cursor_pos_spec(v, (row - 1) as u16, (col - 1) as u16)
            } else if fin == 0x4A {
                let m = csi_nth(params, 0, 0);
                if m == 0 {
                    erase_below_spec(v)
                } else if m == 1 {
                    erase_above_spec(v)
                } else if m == 2 || m == 3 {
                    erase_all_spec(v)
                } else {
                    v
                }
            } else if fin == 0x4B {
                let m = csi_nth(params, 0, 0);
                if m == 0 {
                    erase_line_right_spec(v)
                } else if m == 1 {
                    erase_line_left_spec(v)
                } else if m == 2 {
                    erase_line_spec(v)
                } else {
                    v
                }
            } else if fin == 0x4C {
                insert_lines_spec(v, n)
            } else if fin == 0x4D {
                delete_lines_spec(v, n)
            } else if fin == 0x72 {
                let top = if csi_nth(params, 0, 1) >= 1 { csi_nth(params, 0, 1) } else { 1 };
                let bot = if csi_nth(params, 1, v.height) >= 1 {
                    csi_nth(params, 1, v.height)
                } else {
                    1
                };
                scroll_region_spec(v, (top - 1) as u16, (bot - 1) as u16)
            } else if fin == 0x47 {
                let col = if csi_nth(params, 0, 1) >= 1 { csi_nth(params, 0, 1) } else { 1 };
                ScreenView {
                    cursor_x: if col - 1 < v.width { (col - 1) as u16 } else { (v.width - 1) as u16 },
                    ..v
                }
            } else if fin == 0x64 {
                let row = if csi_nth(params, 0, 1) >= 1 { csi_nth(params, 0, 1) } else { 1 };
                ScreenView {
                    cursor_y: if row - 1 < v.height { (row - 1) as u16 } else { (v.height - 1) as u16 },
                    ..v
                }
            } else if fin == 0x73 {
                save_cursor_spec(v)
            } else if fin == 0x75 {
                restore_cursor_spec(v)
            } else if fin == 0x68 || fin == 0x6C {
                if body.len() >= 1 && body[0] == 0x3F {
                    match seg_parse(body.skip(1)) {
                        Some(mode) => private_mode_spec(v, mode, fin == 0x68),
                        None => v,
                    }
                } else {
                    v
                }
            } else if fin == 0x58 {
                erase_chars_spec(v, n)
            } else if fin == 0x50 {
                delete_chars_spec(v, n)
            } else if fin == 0x40 {
                insert_chars_spec(v, n)
            } else if fin == 0x53 {
                scroll_up_n_spec(v, n as int)
            } else if fin == 0x54 {
                scroll_down_n_spec(v, n as int)
            } else {
                v
            }
        }
    }
}

/// One byte in `Csi` mode: a final byte (0x40..=0x7E) executes the
/// sequence; others accumulate, with a 64-byte safety cap.
pub open spec fn step_csi_spec(v: ScreenView, b: u8) -> ScreenView {
    if 0x40 <= b && b <= 0x7E {
        ScreenView {
            state: ParseState::Normal,
            ..execute_csi_spec(ScreenView { parse_buffer: v.parse_buffer.push(b), ..v })
        }
    } else {
        let buf = v.parse_buffer.push(b);
        ScreenView {
            parse_buffer: buf,
            state: if buf.len() > 64 { ParseState::Normal } else { ParseState::Csi },
            ..v
        }
    }
}

/// Dispatch a completed OSC string: `code;text` with code 0, 1 or 2 and
/// well-formed UTF-8 text sets the title; everything else is dropped.
/// The accumulator is cleared either way.
pub open spec fn execute_osc_spec(v: ScreenView) -> ScreenView {
    let buf = v.parse_buffer;
    let k = first_byte_at(buf, 59);
    let title = if k < buf.len()
        && (buf.subrange(0, k) == seq![48u8] || buf.subrange(0, k) == seq![49u8]
            || buf.subrange(0, k) == seq![50u8]) {
        match utf8_decode_seq(buf.skip(k + 1)) {
            Some(cs) => Some(cs),
            None => v.title,
        }
    } else {
        v.title
    };
    ScreenView { title: title, parse_buffer: Seq::empty(), ..v }
}

/// One byte in `Osc` mode: BEL or ESC-backslash terminates and
/// dispatches; others accumulate, with a 256-byte safety cap.
pub open spec fn step_osc_spec(v: ScreenView, b: u8) -> ScreenView {
    if b == 0x07 {
        ScreenView { state: ParseState::Normal, ..execute_osc_spec(v) }
    } else if b == 0x1B {
        ScreenView { parse_buffer: v.parse_buffer.push(b), ..v }
    } else if v.parse_buffer.len() > 0 && v.parse_buffer.last() == 0x1B && b == 0x5C {
        ScreenView {
            state: ParseState::Normal,
            ..execute_osc_spec(ScreenView { parse_buffer: v.parse_buffer.drop_last(), ..v })
        }
    } else {
        let buf = v.parse_buffer.push(b);
        ScreenView {
            parse_buffer: buf,
            state: if buf.len() > 256 { ParseState::Normal } else { ParseState::Osc },
            ..v
        }
    }
}

/// One byte in `Dcs` mode (also APC/PM/SOS): consumed and discarded
/// until BEL, ESC-backslash or a C1 terminator.
pub open spec fn step_dcs_spec(v: ScreenView, b: u8) -> ScreenView {
    if b == 0x07 {
        ScreenView { state: ParseState::Normal, ..v }
    } else if b == 0x1B {
        ScreenView { parse_buffer: v.parse_buffer.push(b), ..v }
    } else if v.parse_buffer.len() > 0 && v.parse_buffer.last() == 0x1B && b == 0x5C {
        ScreenView { state: ParseState::Normal, ..v }
    } else if b == 0x9C {
        ScreenView { state: ParseState::Normal, ..v }
    } else {
        let buf = if v.parse_buffer.len() > 0 && v.parse_buffer.last() == 0x1B {
            Seq::<u8>::empty()
        } else {
            v.parse_buffer
        };
        ScreenView {
            parse_buffer: buf,
            state: if buf.len() > 4096 { ParseState::Normal } else { ParseState::Dcs },
            ..v
        }
    }
}

/// One byte consumed in any decoder mode: the single-byte transition of
/// the whole state machine.
pub open spec fn step_spec(v: ScreenView, b: u8) -> ScreenView {
    match v.state {
        ParseState::Normal => step_normal_spec(v, b),
        ParseState::Escape => step_escape_spec(v, b),
        ParseState::Csi => step_csi_spec(v, b),
        ParseState::Osc => step_osc_spec(v, b),
        ParseState::Dcs => step_dcs_spec(v, b),
        ParseState::CharsetSelect => ScreenView { state: ParseState::Normal, ..v },
    }
}

/// Folding `step_spec` over a byte sequence: the exact effect of
/// `process`.
pub open spec fn feed_spec(v: ScreenView, bytes: Seq<u8>) -> ScreenView
    decreases bytes.len(),
{
    if bytes.len() == 0 {
        v
    } else {
        feed_spec(step_spec(v, bytes[0]), bytes.skip(1))
    }
}

/// Appending one byte to the input applies one more step at the end.
pub proof fn lemma_feed_snoc(v: ScreenView, s: Seq<u8>, b: u8)
    ensures
        feed_spec(v, s.push(b)) == step_spec(feed_spec(v, s), b),
    decreases s.len(),
{
    if s.len() == 0 {
        assert(s.push(b)[0] == b);
        assert(s.push(b).skip(1) =~= Seq::<u8>::empty());
        assert(feed_spec(step_spec(v, b), Seq::<u8>::empty()) == step_spec(v, b));
        assert(feed_spec(v, s.push(b)) == feed_spec(step_spec(v, b), s.push(b).skip(1)));
    } else {
        assert(s.push(b)[0] == s[0]);
        assert(s.push(b).skip(1) =~= s.skip(1).push(b));
        assert(feed_spec(v, s.push(b)) == feed_spec(step_spec(v, s[0]), s.skip(1).push(b)));
        lemma_feed_snoc(step_spec(v, s[0]), s.skip(1), b);
        assert(feed_spec(v, s) == feed_spec(step_spec(v, s[0]), s.skip(1)));
    }
}

} // verus!

verus! {

impl ScreenBuffer {
    /// Handle a byte in `Normal` mode with no UTF-8 sequence pending.
    fn process_normal_base(&mut self, b: u8)
        requires
            old(self)@.wf(),
            old(self)@.utf8_remaining == 0,
        ensures
            final(self)@ == step_normal_base_spec(old(self)@, b),
            final(self)@.wf(),
            same_geometry(old(self)@, final(self)@),
    {
        if b == 0x1b {
            self.parse_state = ParseState::Escape;
            self.parse_buffer.clear();
        } else if b == 0x08 {
            self.cursor_x = if self.cursor_x >= 1 { self.cursor_x - 1 } else { 0 };
        } else if b == 0x09 {
            let t: u32 = (self.cursor_x as u32 / 8 + 1) * 8;
            if t >= self.width as u32 {
                self.cursor_x = self.width - 1;
            } else {
                self.cursor_x = t as u16;
            }
        } else if b == 0x0a {
            self.line_feed();
        } else if b == 0x0d {
            self.cursor_x = 0;
        } else if b >= 0xC0 && b <= 0xDF {
            self.utf8_buffer.clear();
            self.utf8_buffer.push(b);
            self.utf8_remaining = 1;
            proof {
                assert(self@.utf8_buffer =~= seq![b]);
            }
        } else if b >= 0xE0 && b <= 0xEF {
            self.utf8_buffer.clear();
            self.utf8_buffer.push(b);
            self.utf8_remaining = 2;
            proof {
                assert(self@.utf8_buffer =~= seq![b]);
            }
        } else if b >= 0xF0 && b <= 0xF7 {
            self.utf8_buffer.clear();
            self.utf8_buffer.push(b);
            self.utf8_remaining = 3;
            proof {
                assert(self@.utf8_buffer =~= seq![b]);
            }
        } else if b >= 0x20 && b <= 0x7E {
            self.put_char(b as char);
        }
    }

    /// Handle a byte in `Normal` mode.
    fn process_normal(&mut self, b: u8)
        requires
            old(self)@.wf(),
        ensures
            final(self)@ == step_normal_spec(old(self)@, b),
            final(self)@.wf(),
            same_geometry(old(self)@, final(self)@),
    {
        if self.utf8_remaining > 0 {
            if b & 0xC0 == 0x80 {
                self.utf8_buffer.push(b);
                self.utf8_remaining = self.utf8_remaining - 1;
                if self.utf8_remaining == 0 {
                    let c_opt = Self::decode_acc(self.utf8_buffer.as_slice());
                    self.utf8_buffer = Vec::new();
                    proof {
                        assert(self@.utf8_buffer =~= Seq::<u8>::empty());
                    }
                    match c_opt {
                        Some(c) => {
                            self.put_char(c);
                        }
                        None => {}
                    }
                }
            } else {
                self.utf8_buffer = Vec::new();
                self.utf8_remaining = 0;
                proof {
                    assert(self@.utf8_buffer =~= Seq::<u8>::empty());
                }
                self.process_normal_base(b);
            }
        } else {
            self.process_normal_base(b);
        }
    }

    /// Handle a byte after ESC.
    fn process_escape(&mut self, b: u8)
        requires
            old(self)@.wf(),
        ensures
            final(self)@ == step_escape_spec(old(self)@, b),
            final(self)@.wf(),
            same_geometry(old(self)@, final(self)@),
    {
        if b == 0x5B {
            self.parse_state = ParseState::Csi;
            self.parse_buffer.clear();
        } else if b == 0x5D {
            self.parse_state = ParseState::Osc;
            self.parse_buffer.clear();
        } else if b == 0x50 || b == 0x5F || b == 0x5E || b == 0x58 {
            self.parse_state = ParseState::Dcs;
            self.parse_buffer.clear();
        } else if b == 0x28 || b == 0x29 || b == 0x2A || b == 0x2B || b == 0x2D || b == 0x2E
            || b == 0x2F {
            self.parse_state = ParseState::CharsetSelect;
        } else if b == 0x4D {
            self.cursor_y = if self.cursor_y >= 1 { self.cursor_y - 1 } else { 0 };
            self.parse_state = ParseState::Normal;
        } else if b == 0x37 || b == 0x73 {
            self.save_cursor();
            self.parse_state = ParseState::Normal;
        } else if b == 0x38 || b == 0x75 {
            self.restore_cursor();
            self.parse_state = ParseState::Normal;
        } else if b == 0x63 {
            self.full_reset();
            self.parse_state = ParseState::Normal;
        } else if b == 0x44 {
            self.line_feed();
            self.parse_state = ParseState::Normal;
        } else if b == 0x45 {
            self.cursor_x = 0;
            self.line_feed();
            self.parse_state = ParseState::Normal;
        } else {
            self.parse_state = ParseState::Normal;
        }
    }

    /// Execute the accumulated control sequence.
    #[verifier::rlimit(100)]
    fn execute_csi(&mut self)
        requires
            old(self)@.wf(),
        ensures
            final(self)@ == execute_csi_spec(old(self)@),
            final(self)@.wf(),
            same_geometry(old(self)@, final(self)@),
    {
        let len = self.parse_buffer.len();
        if len == 0 {
            return;
        }
        let fin = self.parse_buffer[len - 1];
        let ghost body = self@.parse_buffer.drop_last();
        proof {
            assert(self@.parse_buffer.take(len - 1 as int) =~= body);
        }
        if fin == 0x6D {
            let params = Self::sgr_params(self.parse_buffer.as_slice(), len - 1);
            self.process_sgr(&params);
            return;
        }
        let params = Self::parse_params(self.parse_buffer.as_slice(), len - 1);
        let p0 = if params.len() > 0 { params[0] } else { 1 };
        let n: u16 = if p0 >= 1 { p0 } else { 1 };
        if fin == 0x41 {
            self.cursor_y = if self.cursor_y >= n { self.cursor_y - n } else { 0 };
        } else if fin == 0x42 {
            if self.cursor_y as u32 + n as u32 <= self.height as u32 - 1 {
                self.cursor_y = self.cursor_y + n;
            } else {
                self.cursor_y = self.height - 1;
            }
        } else if fin == 0x43 {
            if self.cursor_x as u32 + n as u32 <= self.width as u32 - 1 {
                self.cursor_x = self.cursor_x + n;
            } else {
                self.cursor_x = self.width - 1;
            }
        } else if fin == 0x44 {
            self.cursor_x = if self.cursor_x >= n { self.cursor_x - n } else { 0 };
        } else if fin == 0x48 || fin == 0x66 {
            let rp = if params.len() > 0 { params[0] } else { 1 };
            let cp = if params.len() > 1 { params[1] } else { 1 };
            let row = if rp >= 1 { rp } else { 1 } - 1;
            let col = if cp >= 1 { cp } else { 1 } - 1;
            self.cursor_y = if row < self.height { row } else { self.height - 1 };
            self.cursor_x = if col < self.width { col } else { self.width - 1 };
        } else if fin == 0x4A {
            let m = if params.len() > 0 { params[0] } else { 0 };
            if m == 0 {
                self.erase_below();
            } else if m == 1 {
                self.erase_above();
            } else if m == 2 || m == 3 {
                self.erase_all();
            }
        } else if fin == 0x4B {
            let m = if params.len() > 0 { params[0] } else { 0 };
            if m == 0 {
                self.erase_line_right();
            } else if m == 1 {
                self.erase_line_left();
            } else if m == 2 {
                self.erase_line();
            }
        } else if fin == 0x4C {
            self.insert_lines(n);
        } else if fin == 0x4D {
            self.delete_lines(n);
        } else if fin == 0x72 {
            let tp = if params.len() > 0 { params[0] } else { 1 };
            let bp = if params.len() > 1 { params[1] } else { self.height };
            let top = if tp >= 1 { tp } else { 1 } - 1;
            let bot = if bp >= 1 { bp } else { 1 } - 1;
            if top < bot && bot < self.height {
                self.scroll_top = top;
                self.scroll_bottom = bot;
                self.cursor_x = 0;
                self.cursor_y = 0;
            }
        } else if fin == 0x47 {
            let cp = if params.len() > 0 { params[0] } else { 1 };
            let col = if cp >= 1 { cp } else { 1 } - 1;
            self.cursor_x = if col < self.width { col } else { self.width - 1 };
        } else if fin == 0x64 {
            let rp = if params.len() > 0 { params[0] } else { 1 };
            let row = if rp >= 1 { rp } else { 1 } - 1;
            self.cursor_y = if row < self.height { row } else { self.height - 1 };
        } else if fin == 0x73 {
            self.save_cursor();
        } else if fin == 0x75 {
            self.restore_cursor();
        } else if fin == 0x68 || fin == 0x6C {
            if len >= 2 && self.parse_buffer[0] == 0x3F {
                proof {
                    assert(self@.parse_buffer.subrange(1int, len - 1 as int) =~= body.skip(1));
                }
                match Self::parse_segment(self.parse_buffer.as_slice(), 1, len - 1) {
                    Some(mode) => {
                        self.handle_private_mode(mode, fin == 0x68);
                    }
                    None => {}
                }
            }
        } else if fin == 0x58 {
            self.erase_chars(n);
        } else if fin == 0x50 {
            self.delete_chars(n);
        } else if fin == 0x40 {
            self.insert_chars(n);
        } else if fin == 0x53 {
            let mut k: u16 = 0;
            while k < n
                invariant
                    k <= n,
                    self@ == scroll_up_n_spec(old(self)@, k as int),
                    self@.wf(),
                    same_geometry(old(self)@, self@),
                decreases n - k,
            {
                self.scroll_up();
                k = k + 1;
            }
        } else if fin == 0x54 {
            let mut k: u16 = 0;
            while k < n
                invariant
                    k <= n,
                    self@ == scroll_down_n_spec(old(self)@, k as int),
                    self@.wf(),
                    same_geometry(old(self)@, self@),
                decreases n - k,
            {
                self.scroll_down();
                k = k + 1;
            }
        }
    }

    /// Handle a byte in `Csi` mode.
    fn process_csi(&mut self, b: u8)
        requires
            old(self)@.wf(),
            old(self)@.state == ParseState::Csi,
        ensures
            final(self)@ == step_csi_spec(old(self)@, b),
            final(self)@.wf(),
            same_geometry(old(self)@, final(self)@),
    {
        if b >= 0x40 && b <= 0x7E {
            self.parse_buffer.push(b);
            self.execute_csi();
            self.parse_state = ParseState::Normal;
        } else {
            self.parse_buffer.push(b);
            if self.parse_buffer.len() > 64 {
                self.parse_state = ParseState::Normal;
            }
        }
    }

    /// Execute the accumulated OSC string.
    fn execute_osc(&mut self)
        requires
            old(self)@.wf(),
        ensures
            final(self)@ == execute_osc_spec(old(self)@),
            final(self)@.wf(),
            same_geometry(old(self)@, final(self)@),
    {
        proof {
            assert(self@.parse_buffer.skip(0) =~= self@.parse_buffer);
        }
        let len = self.parse_buffer.len();
        let k = Self::find_byte(self.parse_buffer.as_slice(), 0, 59);
        if k < len && k == 1
            && (self.parse_buffer[0] == 48 || self.parse_buffer[0] == 49
                || self.parse_buffer[0] == 50) {
            proof {
                assert(self@.parse_buffer.subrange(0, 1)
                    =~= seq![self@.parse_buffer[0]]);
            }
            match Self::decode_seq(self.parse_buffer.as_slice(), k + 1) {
                Some(cs) => {
                    let s = chars_to_string(cs.as_slice());
                    self.title = Some(s);
                }
                None => {}
            }
        } else {
            proof {
                if k < self@.parse_buffer.len() && k != 1 {
                    let pre = self@.parse_buffer.subrange(0, k as int);
                    assert(pre.len() != 1);
                }
            }
        }
        self.parse_buffer.clear();
        proof {
            assert(self@.parse_buffer =~= Seq::<u8>::empty());
        }
    }

    /// Handle a byte in `Osc` mode.
    fn process_osc(&mut self, b: u8)
        requires
            old(self)@.wf(),
            old(self)@.state == ParseState::Osc,
        ensures
            final(self)@ == step_osc_spec(old(self)@, b),
            final(self)@.wf(),
            same_geometry(old(self)@, final(self)@),
    {
        let len = self.parse_buffer.len();
        if b == 0x07 {
            self.execute_osc();
            self.parse_state = ParseState::Normal;
        } else if b == 0x1B {
            self.parse_buffer.push(b);
        } else if len > 0 && self.parse_buffer[len - 1] == 0x1B && b == 0x5C {
            self.parse_buffer.pop();
            proof {
                assert(self@.parse_buffer =~= old(self)@.parse_buffer.drop_last());
            }
            self.execute_osc();
            self.parse_state = ParseState::Normal;
        } else {
            self.parse_buffer.push(b);
            if self.parse_buffer.len() > 256 {
                self.parse_state = ParseState::Normal;
            }
        }
    }

    /// Handle a byte in `Dcs` mode.
    fn process_dcs(&mut self, b: u8)
        requires
            old(self)@.wf(),
            old(self)@.state == ParseState::Dcs,
        ensures
            final(self)@ == step_dcs_spec(old(self)@, b),
            final(self)@.wf(),
            same_geometry(old(self)@, final(self)@),
    {
        let len = self.parse_buffer.len();
        if b == 0x07 {
            self.parse_state = ParseState::Normal;
        } else if b == 0x1B {
            self.parse_buffer.push(b);
        } else if len > 0 && self.parse_buffer[len - 1] == 0x1B && b == 0x5C {
            self.parse_state = ParseState::Normal;
        } else if b == 0x9C {
            self.parse_state = ParseState::Normal;
        } else {
            if len > 0 && self.parse_buffer[len - 1] == 0x1B {
                self.parse_buffer.clear();
                proof {
                    assert(self@.parse_buffer =~= Seq::<u8>::empty());
                }
            }
            if self.parse_buffer.len() > 4096 {
                self.parse_state = ParseState::Normal;
            }
        }
    }

    /// Apply one input byte in whatever decoder mode the screen is in.
    fn process_byte(&mut self, b: u8)
        requires
            old(self)@.wf(),
        ensures
            final(self)@ == step_spec(old(self)@, b),
            final(self)@.wf(),
            same_geometry(old(self)@, final(self)@),
            final(self)@.width == old(self)@.width,
            final(self)@.height == old(self)@.height,
            final(self)@.scrollback_limit == old(self)@.scrollback_limit,
    {
        match self.parse_state {
            ParseState::Normal => self.process_normal(b),
            ParseState::Escape => self.process_escape(b),
            ParseState::Csi => self.process_csi(b),
            ParseState::Osc => self.process_osc(b),
            ParseState::Dcs => self.process_dcs(b),
            ParseState::CharsetSelect => {
                self.parse_state = ParseState::Normal;
            }
        }
    }

    /// Consume a chunk of raw bytes from the pane's process and apply
    /// every resulting state transition. Never fails: malformed input is
    /// absorbed, and the grid keeps its exact dimensions. Chunks may be
    /// cut anywhere: the effect is exactly the byte-by-byte fold
    /// [`feed_spec`].
    pub fn process(&mut self, data: &[u8])
        requires
            old(self)@.wf(),
        ensures
            final(self)@ == feed_spec(old(self)@, data@),
            final(self).wf(),
            final(self)@.width == old(self)@.width,
            final(self)@.height == old(self)@.height,
            final(self)@.scrollback_limit == old(self)@.scrollback_limit,
    {
        let mut i: usize = 0;
        proof {
            assert(data@.take(0) =~= Seq::<u8>::empty());
        }
        while i < data.len()
            invariant
                i <= data@.len(),
                self@ == feed_spec(old(self)@, data@.take(i as int)),
                self@.wf(),
                self@.width == old(self)@.width,
                self@.height == old(self)@.height,
                self@.scrollback_limit == old(self)@.scrollback_limit,
            decreases data@.len() - i,
        {
            let b = data[i];
            self.process_byte(b);
            proof {
                assert(data@.take(i + 1 as int) =~= data@.take(i as int).push(b));
                lemma_feed_snoc(old(self)@, data@.take(i as int), b);
            }
            i = i + 1;
        }
        proof {
            assert(data@.take(data@.len() as int) =~= data@);
        }
    }
}

} // verus!

verus! {

// ---------------------------------------------------------------------------
// Scrollback-blended reads
// ---------------------------------------------------------------------------

/// The cell shown at (`x`, `y`) when the viewport is scrolled up by
/// `offset` lines: the topmost `offset` visible rows come from the
/// scrollback, the rest from the live grid; positions outside either
/// are blank.
pub open spec fn get_scrolled_spec(v: ScreenView, x: u16, y: u16, offset: usize) -> Cell {
    if offset == 0 {
        get_spec(v, x, y)
    } else if (y as int) < offset && offset <= v.scrollback.len() {
        let line = v.scrollback[v.scrollback.len() - offset + y];
        if (x as int) < line.len() {
            line[x as int]
        } else {
            Cell::default_spec()
        }
    } else if y as int >= offset {
        if y as int - offset < v.height {
            get_spec(v, x, (y - offset as u16) as u16)
        } else {
            Cell::default_spec()
        }
    } else {
        Cell::default_spec()
    }
}

impl ScreenBuffer {
    /// The cell at (`x`, `y`) of the viewport scrolled `offset` lines
    /// into history (`offset == 0` reads the live grid).
    pub fn get_scrolled(&self, x: u16, y: u16, offset: usize) -> (r: Cell)
        requires
            self.wf(),
        ensures
            r == get_scrolled_spec(self@, x, y, offset),
    {
        if offset == 0 {
            return self.get(x, y);
        }
        let sb_len = self.scrollback.len();
        if (y as usize) < offset && offset <= sb_len {
            let idx: usize = sb_len - offset + y as usize;
            let line = &self.scrollback[idx];
            proof {
                assert(self@.scrollback[idx as int] == self.scrollback@[idx as int]@);
            }
            if (x as usize) < line.len() {
                line[x as usize]
            } else {
                Cell::default()
            }
        } else if (y as usize) >= offset {
            let sy: usize = y as usize - offset;
            if sy < self.height as usize {
                self.get(x, sy as u16)
            } else {
                Cell::default()
            }
        } else {
            Cell::default()
        }
    }
}

// ---------------------------------------------------------------------------
// Laws of the engine
// ---------------------------------------------------------------------------

/// Feeding a byte stream in two chunks, cut at any position, leaves the
/// screen exactly as feeding it in one piece: decoding is resumable
/// across chunk boundaries, split UTF-8 sequences and split escape
/// sequences included.
#[verifier::rlimit(60)]
#[verifier::spinoff_prover]
pub proof fn lemma_feed_split(v: ScreenView, a: Seq<u8>, b: Seq<u8>)
    ensures
        feed_spec(v, a + b) == feed_spec(feed_spec(v, a), b),
    decreases a.len(),
{
    if a.len() == 0 {
        assert(a + b =~= b);
    } else {
        assert((a + b)[0] == a[0]);
        assert((a + b).skip(1) =~= a.skip(1) + b);
        assert(feed_spec(v, a + b) == feed_spec(step_spec(v, a[0]), (a + b).skip(1)));
        lemma_feed_split(step_spec(v, a[0]), a.skip(1), b);
        assert(feed_spec(v, a) == feed_spec(step_spec(v, a[0]), a.skip(1)));
    }
}

/// An SGR reset parameter alone yields the default style, whatever the
/// prior style was; applying it again changes nothing.
pub proof fn lemma_sgr_reset(st: Style)
    ensures
        apply_sgr_spec(st, seq![0u16]) == Style::default_spec(),
        apply_sgr_spec(apply_sgr_spec(st, seq![0u16]), seq![0u16])
            == apply_sgr_spec(st, seq![0u16]),
{
    assert(apply_sgr_from(Style::default_spec(), seq![0u16], 1) == Style::default_spec());
}

/// Entering the alternate screen and leaving it again without any write
/// in between restores the exact prior grid and cursor (on a screen not
/// already in alternate mode, where entering saves the grid).
pub proof fn lemma_alternate_round_trip(v: ScreenView)
    requires
        v.wf(),
        !v.in_alternate,
    ensures
        leave_alternate_spec(enter_alternate_spec(v)).cells == v.cells,
        leave_alternate_spec(enter_alternate_spec(v)).cursor_x == v.cursor_x,
        leave_alternate_spec(enter_alternate_spec(v)).cursor_y == v.cursor_y,
        !leave_alternate_spec(enter_alternate_spec(v)).in_alternate,
        leave_alternate_spec(enter_alternate_spec(v)).scrollback == v.scrollback,
        leave_alternate_spec(enter_alternate_spec(v)).style == v.style,
{
}

/// Scrolling a region whose top is row 0, outside alternate mode, adds
/// exactly the evicted top row to the scrollback; at the cap the oldest
/// line is dropped first; the newest line is the evicted top row. In
/// alternate mode the scrollback is untouched.
pub proof fn lemma_scrollback_growth(v: ScreenView)
    requires
        v.wf(),
        v.scroll_top == 0,
    ensures
        !v.in_alternate && v.scrollback_limit > 0 ==>
            scroll_up_spec(v).scrollback.last() == row_of(v.cells, v.width, 0),
        !v.in_alternate && v.scrollback.len() < v.scrollback_limit ==>
            scroll_up_spec(v).scrollback
                == v.scrollback.push(row_of(v.cells, v.width, 0)),
        !v.in_alternate && v.scrollback.len() == v.scrollback_limit
            && v.scrollback_limit > 0 ==>
            scroll_up_spec(v).scrollback
                == v.scrollback.push(row_of(v.cells, v.width, 0))
                    .subrange(1, v.scrollback.len() as int + 1),
        !v.in_alternate ==> scroll_up_spec(v).scrollback.len()
            == if v.scrollback.len() < v.scrollback_limit {
                v.scrollback.len() as int + 1
            } else {
                v.scrollback_limit as int
            },
        v.in_alternate ==> scroll_up_spec(v).scrollback == v.scrollback,
{
}

/// Scrolling touches only the scroll region: the region's rows each
/// take the row below, its bottom row becomes blank, and every cell
/// above or below the region keeps its contents. A region whose top is
/// not row 0, or a screen in alternate mode, leaves the scrollback
/// untouched.
pub proof fn lemma_scroll_up_region(v: ScreenView)
    requires
        v.wf(),
    ensures
        forall|j: int| v.scroll_top as int * v.width as int <= j
            < (v.scroll_bottom as int * v.width as int)
            ==> #[trigger] scroll_up_spec(v).cells[j] == v.cells[j + v.width as int],
        forall|j: int| v.scroll_bottom as int * v.width as int <= j
            < ((v.scroll_bottom as int + 1) * v.width as int)
            ==> #[trigger] scroll_up_spec(v).cells[j] == v.blank(),
        forall|j: int| 0 <= j < v.cells.len()
            && !(v.scroll_top as int * v.width as int <= j
                < ((v.scroll_bottom as int + 1) * v.width as int))
            ==> #[trigger] scroll_up_spec(v).cells[j] == v.cells[j],
        scroll_up_spec(v).cells.len() == v.cells.len(),
        v.scroll_top != 0 || v.in_alternate ==> scroll_up_spec(v).scrollback == v.scrollback,
        scroll_up_spec(v).cursor_x == v.cursor_x,
        scroll_up_spec(v).cursor_y == v.cursor_y,
{
    lemma_row_bounds(v.scroll_top, v.width, v.height);
    lemma_row_bounds(v.scroll_bottom, v.width, v.height);
    lemma_mul_mono(v.scroll_top as int, v.scroll_bottom as int, v.width as int);
}

/// What one printed character does when the cursor is not at the last
/// column: the styled character lands at the cursor, every other cell
/// keeps its contents, and the cursor moves one column right.
pub proof fn lemma_put_char_no_wrap(v: ScreenView, c: char)
    requires
        v.wf(),
        v.cursor_x + 1 < v.width,
    ensures
        put_char_spec(v, c) == (ScreenView {
            cursor_x: (v.cursor_x + 1) as u16,
            cells: v.cells.update(v.index_of(v.cursor_x, v.cursor_y),
                Cell { ch: c, fg: v.style.fg, bg: v.style.bg, attrs: v.style.attrs }),
            ..v
        }),
        put_char_spec(v, c).cells.len() == v.cells.len(),
        put_char_spec(v, c).cells[v.index_of(v.cursor_x, v.cursor_y)]
            == (Cell { ch: c, fg: v.style.fg, bg: v.style.bg, attrs: v.style.attrs }),
        forall|j: int| 0 <= j < v.cells.len() && j != v.index_of(v.cursor_x, v.cursor_y)
            ==> #[trigger] put_char_spec(v, c).cells[j] == v.cells[j],
{
    lemma_index_in_grid(v.cursor_x, v.cursor_y, v.width, v.height);
}

/// What one printed character does at the last column, above the scroll
/// region's bottom row: the styled character lands at the cursor, every
/// other cell keeps its contents, and the cursor wraps to column 0 of
/// the next row.
pub proof fn lemma_put_char_wrap(v: ScreenView, c: char)
    requires
        v.wf(),
        v.cursor_x + 1 == v.width,
        v.cursor_y < v.scroll_bottom,
    ensures
        put_char_spec(v, c) == (ScreenView {
            cursor_x: 0,
            cursor_y: (v.cursor_y + 1) as u16,
            cells: v.cells.update(v.index_of(v.cursor_x, v.cursor_y),
                Cell { ch: c, fg: v.style.fg, bg: v.style.bg, attrs: v.style.attrs }),
            ..v
        }),
        put_char_spec(v, c).cells.len() == v.cells.len(),
        put_char_spec(v, c).cells[v.index_of(v.cursor_x, v.cursor_y)]
            == (Cell { ch: c, fg: v.style.fg, bg: v.style.bg, attrs: v.style.attrs }),
        forall|j: int| 0 <= j < v.cells.len() && j != v.index_of(v.cursor_x, v.cursor_y)
            ==> #[trigger] put_char_spec(v, c).cells[j] == v.cells[j],
{
    lemma_index_in_grid(v.cursor_x, v.cursor_y, v.width, v.height);
}

/// The character at position `i`, a space when `i` lies out of range:
/// keeps every character drawn from a sequence well typed wherever it
/// feeds a cell.
pub open spec fn char_at(cs: Seq<char>, i: int) -> char {
    if 0 <= i < cs.len() {
        cs[i]
    } else {
        ' '
    }
}

/// Printing a sequence of characters one at a time.
pub open spec fn put_chars_spec(v: ScreenView, cs: Seq<char>) -> ScreenView
    decreases cs.len(),
{
    if cs.len() == 0 {
        v
    } else {
        put_chars_spec(put_char_spec(v, char_at(cs, 0)), cs.skip(1))
    }
}

/// The characters of `cs` as cells carrying style `st`.
pub open spec fn styled_row(cs: Seq<char>, st: Style) -> Seq<Cell>
    decreases cs.len(),
{
    if cs.len() == 0 {
        Seq::empty()
    } else {
        seq![Cell { ch: char_at(cs, 0), fg: st.fg, bg: st.bg, attrs: st.attrs }]
            + styled_row(cs.skip(1), st)
    }
}

/// A styled row has one cell per character.
pub proof fn lemma_styled_row_len(cs: Seq<char>, st: Style)
    ensures
        styled_row(cs, st).len() == cs.len(),
    decreases cs.len(),
{
    if cs.len() > 0 {
        lemma_styled_row_len(cs.skip(1), st);
    }
}

/// Each cell of a styled row carries that position's character and the
/// style.
pub proof fn lemma_styled_row_index(cs: Seq<char>, st: Style, i: int)
    requires
        0 <= i < cs.len(),
    ensures
        styled_row(cs, st)[i] == (Cell {
            ch: char_at(cs, i),
            fg: st.fg,
            bg: st.bg,
            attrs: st.attrs,
        }),
    decreases i,
{
    lemma_styled_row_len(cs.skip(1), st);
    if i > 0 {
        lemma_styled_row_index(cs.skip(1), st, i - 1);
        assert(char_at(cs.skip(1), i - 1) == char_at(cs, i));
        assert(styled_row(cs, st)[i] == styled_row(cs.skip(1), st)[i - 1]);
    }
}

/// Printing characters one after another from the cursor to the right
/// edge fills the rest of the row with them, in order and in the current
/// style, wraps the cursor to column 0 of the next row, and touches no
/// other cell.
pub proof fn lemma_print_row_from(v: ScreenView, cs: Seq<char>)
    requires
        v.wf(),
        cs.len() == v.width - v.cursor_x,
        v.cursor_y < v.scroll_bottom,
        forall|i: int| 0 <= i < cs.len() ==> #[trigger] cs[i] != '\0',
    ensures
        ({
            let r = put_chars_spec(v, cs);
            let row = v.cursor_y as int * v.width as int;
            &&& r.cursor_x == 0
            &&& r.cursor_y == v.cursor_y + 1
            &&& r.width == v.width
            &&& r.height == v.height
            &&& r.style == v.style
            &&& r.cells.len() == v.cells.len()
            &&& r.cells.subrange(row + v.cursor_x, row + v.width as int)
                == styled_row(cs, v.style)
            &&& r.cells.subrange(0, row + v.cursor_x)
                == v.cells.subrange(0, row + v.cursor_x)
            &&& r.cells.subrange(row + v.width as int, v.cells.len() as int)
                == v.cells.subrange(row + v.width as int, v.cells.len() as int)
        }),
    decreases cs.len(),
{
    lemma_index_in_grid(v.cursor_x, v.cursor_y, v.width, v.height);
    lemma_row_bounds(v.cursor_y, v.width, v.height);
    let row = v.cursor_y as int * v.width as int;
    let idx = row + v.cursor_x;
    let cell0 = Cell {
        ch: char_at(cs, 0),
        fg: v.style.fg,
        bg: v.style.bg,
        attrs: v.style.attrs,
    };
    if v.cursor_x + 1 < v.width {
        lemma_put_char_no_wrap(v, char_at(cs, 0));
        let v2 = put_char_spec(v, char_at(cs, 0));
        assert(no_nul(v2.cells)) by {
            assert forall|j: int| 0 <= j < v2.cells.len() implies
                (#[trigger] v2.cells[j]).ch != '\0' by {
                if j != idx {
                    assert(v2.cells[j] == v.cells[j]);
                }
            }
        }
        assert forall|i: int| 0 <= i < cs.skip(1).len() implies
            #[trigger] cs.skip(1)[i] != '\0' by {
            assert(cs.skip(1)[i] == cs[i + 1]);
        }
        lemma_print_row_from(v2, cs.skip(1));
        let r = put_chars_spec(v2, cs.skip(1));
        assert(put_chars_spec(v, cs) == r);
        assert(v2.cursor_y as int * v2.width as int == row);
        assert(v2.style == v.style);
        assert(r.cells.subrange(row + v.cursor_x, row + v.width as int)
            =~= styled_row(cs, v.style)) by {
            assert forall|k: int| 0 <= k < v.width - v.cursor_x implies
                #[trigger] r.cells.subrange(row + v.cursor_x, row + v.width as int)[k]
                    == styled_row(cs, v.style)[k] by {
                assert(r.cells.subrange(row + v.cursor_x, row + v.width as int)[k]
                    == r.cells[row + v.cursor_x + k]);
                lemma_styled_row_index(cs, v.style, k);
                if k == 0 {
                    assert(r.cells.subrange(0, row + v2.cursor_x as int)[idx]
                        == v2.cells.subrange(0, row + v2.cursor_x as int)[idx]);
                    assert(r.cells[idx] == v2.cells[idx]);
                    assert(v2.cells[idx] == cell0);
                } else {
                    lemma_styled_row_index(cs.skip(1), v.style, k - 1);
                    assert(r.cells.subrange(row + v2.cursor_x as int, row + v.width as int)[k - 1]
                        == styled_row(cs.skip(1), v.style)[k - 1]);
                    assert(r.cells.subrange(row + v2.cursor_x as int, row + v.width as int)[k - 1]
                        == r.cells[row + v.cursor_x + k]);
                    assert(char_at(cs.skip(1), k - 1) == char_at(cs, k));
                }
            }
        }
        assert(r.cells.subrange(0, row + v.cursor_x)
            =~= v.cells.subrange(0, row + v.cursor_x)) by {
            assert forall|k: int| 0 <= k < row + v.cursor_x implies
                #[trigger] r.cells.subrange(0, row + v.cursor_x)[k]
                    == v.cells.subrange(0, row + v.cursor_x)[k] by {
                assert(r.cells.subrange(0, row + v2.cursor_x)[k]
                    == v2.cells.subrange(0, row + v2.cursor_x)[k]);
                assert(r.cells[k] == v2.cells[k]);
                assert(v2.cells[k] == v.cells[k]);
            }
        }
        assert(r.cells.subrange(row + v.width as int, v.cells.len() as int)
            =~= v.cells.subrange(row + v.width as int, v.cells.len() as int)) by {
            assert forall|k: int| 0 <= k < v.cells.len() - row - v.width implies
                #[trigger] r.cells.subrange(row + v.width as int, v.cells.len() as int)[k]
                    == v.cells.subrange(row + v.width as int, v.cells.len() as int)[k] by {
                assert(r.cells.subrange(row + v.width as int, v2.cells.len() as int)[k]
                    == v2.cells.subrange(row + v.width as int, v2.cells.len() as int)[k]);
                assert(r.cells[row + v.width as int + k] == v2.cells[row + v.width as int + k]);
                assert(v2.cells[row + v.width as int + k] == v.cells[row + v.width as int + k]);
            }
        }
    } else {
        lemma_put_char_wrap(v, char_at(cs, 0));
        let v2 = put_char_spec(v, char_at(cs, 0));
        assert(cs.skip(1).len() == 0);
        assert(put_chars_spec(v2, cs.skip(1)) == v2);
        assert(put_chars_spec(v, cs) == v2);
        assert(v2.cells.subrange(row + v.cursor_x, row + v.width as int)
            =~= styled_row(cs, v.style)) by {
            lemma_styled_row_index(cs, v.style, 0);
            assert(v2.cells.subrange(row + v.cursor_x, row + v.width as int)[0]
                == v2.cells[idx]);
        }
        assert(v2.cells.subrange(0, row + v.cursor_x)
            =~= v.cells.subrange(0, row + v.cursor_x));
        assert(v2.cells.subrange(row + v.width as int, v.cells.len() as int)
            =~= v.cells.subrange(row + v.width as int, v.cells.len() as int));
    }
}

/// Printing `width` consecutive characters with the cursor at column 0
/// (above the scroll region's bottom row) populates that entire row
/// left to right, in order and in the current style, leaves every other
/// cell untouched, and puts the cursor at column 0 of the next row.
pub proof fn lemma_print_full_row(v: ScreenView, cs: Seq<char>)
    requires
        v.wf(),
        v.cursor_x == 0,
        cs.len() == v.width,
        v.cursor_y < v.scroll_bottom,
        forall|i: int| 0 <= i < cs.len() ==> #[trigger] cs[i] != '\0',
    ensures
        put_chars_spec(v, cs).cursor_x == 0,
        put_chars_spec(v, cs).cursor_y == v.cursor_y + 1,
        put_chars_spec(v, cs).cells.subrange(v.cursor_y as int * v.width as int,
            (v.cursor_y as int + 1) * v.width as int) == styled_row(cs, v.style),
        put_chars_spec(v, cs).cells.subrange(0, v.cursor_y as int * v.width as int)
            == v.cells.subrange(0, v.cursor_y as int * v.width as int),
        put_chars_spec(v, cs).cells.subrange((v.cursor_y as int + 1) * v.width as int,
            v.cells.len() as int)
            == v.cells.subrange((v.cursor_y as int + 1) * v.width as int,
                v.cells.len() as int),
{
    lemma_row_bounds(v.cursor_y, v.width, v.height);
    lemma_print_row_from(v, cs);
}

} // verus!

