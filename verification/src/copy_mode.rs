//! Vim-style copy mode: cursor motions, visual selection, search and
//! text objects over a pane's buffer and its scrollback.

use vstd::prelude::*;

verus! {

/// Search input mode.
#[derive(Debug, Clone, Copy, PartialEq, Eq, Structural)]
pub enum SearchMode {
    /// No search in progress.
    Off,
    /// Forward search input.
    Forward,
    /// Backward search input.
    Backward,
}

/// A remembered single-character find motion.
#[derive(Debug, Clone, Copy, PartialEq, Eq, Structural)]
pub struct FindChar {
    /// The character searched for.
    pub target: char,
    /// Whether the motion runs toward the end of the line.
    pub forward: bool,
    /// Whether the cursor lands on the character itself (or just beside it).
    pub inclusive: bool,
}

/// Text object modifier: inner (`i`) or around (`a`).
#[derive(Debug, Clone, Copy, PartialEq, Eq, Structural)]
pub enum TextObjectModifier {
    /// Select the object's contents only.
    Inner,
    /// Select the object and its delimiters (or surrounding blanks).
    Around,
}

/// Character classification for word motions.
#[derive(Debug, Clone, Copy, PartialEq, Eq, Structural)]
pub enum CharClass {
    /// Spaces and other whitespace.
    Whitespace,
    /// Alphanumeric characters and underscore.
    Word,
    /// Everything else.
    Punct,
}

/// Relies on String::push of std: it appends exactly the one character.
pub assume_specification[ String::push ](s: &mut String, c: char)
    ensures
        final(s)@ == old(s)@.push(c),
;

/// Relies on String::pop of std: it removes and returns the last
/// character, or leaves an empty string as it is.
pub assume_specification[ String::pop ](s: &mut String) -> (r: Option<char>)
    ensures
        match r {
            Some(c) => old(s)@.len() > 0 && c == old(s)@.last()
                && final(s)@ == old(s)@.drop_last(),
            None => old(s)@.len() == 0 && final(s)@ == old(s)@,
        },
;

/// Relies on String::clear of std: it empties the string.
pub assume_specification[ String::clear ](s: &mut String)
    ensures
        final(s)@ == Seq::<char>::empty(),
;

/// Relies on String::is_empty of std: true exactly for a string with no
/// bytes, hence no characters.
pub assume_specification[ String::is_empty ](s: &String) -> (r: bool)
    ensures
        r == (s@.len() == 0),
;

/// Whether std's char::is_whitespace holds of `c`: a function of the
/// character alone, named here because its full definition is the
/// Unicode White_Space table.
pub uninterp spec fn char_whitespace(c: char) -> bool;

/// Whether std's char::is_alphanumeric holds of `c`: a function of the
/// character alone, named here because its full definition is the
/// Unicode Alphabetic and Number tables.
pub uninterp spec fn char_alphanumeric(c: char) -> bool;

/// Relies on char::is_whitespace of std: the result depends on the
/// character alone.
#[verifier::external_body]
fn is_whitespace_exec(c: char) -> (r: bool)
    ensures
        r == char_whitespace(c),
{
    c.is_whitespace()
}

/// Relies on char::is_alphanumeric of std: the result depends on the
/// character alone.
#[verifier::external_body]
fn is_alphanumeric_exec(c: char) -> (r: bool)
    ensures
        r == char_alphanumeric(c),
{
    c.is_alphanumeric()
}

/// What `CharClass::of` returns, over the named std classifications.
pub open spec fn class_of_spec(c: char) -> CharClass {
    if char_whitespace(c) {
        CharClass::Whitespace
    } else if char_alphanumeric(c) || c == '_' {
        CharClass::Word
    } else {
        CharClass::Punct
    }
}

/// What `CharClass::of_word` returns: whitespace against everything else.
pub open spec fn class_of_word_spec(c: char) -> CharClass {
    if char_whitespace(c) {
        CharClass::Whitespace
    } else {
        CharClass::Word
    }
}

/// The classifier a motion uses: the full three-way split for small
/// words, whitespace-only for WORD motions.
pub open spec fn classify_spec(c: char, big_word: bool) -> CharClass {
    if big_word {
        class_of_word_spec(c)
    } else {
        class_of_spec(c)
    }
}

impl CharClass {
    /// Classify for word motions: whitespace, word constituent
    /// (alphanumeric or underscore), or punctuation.
    pub fn of(c: char) -> (r: CharClass)
        ensures
            r == class_of_spec(c),
    {
        if is_whitespace_exec(c) {
            CharClass::Whitespace
        } else if is_alphanumeric_exec(c) || c == '_' {
            CharClass::Word
        } else {
            CharClass::Punct
        }
    }

    /// Classify for WORD motions: only whitespace against non-whitespace.
    pub fn of_word(c: char) -> (r: CharClass)
        ensures
            r == class_of_word_spec(c),
    {
        if is_whitespace_exec(c) {
            CharClass::Whitespace
        } else {
            CharClass::Word
        }
    }
}

/// A position in the buffer: `x` is the column; `y` counts rows, with
/// negative values reaching into the scrollback.
#[derive(Debug, Clone, Copy, PartialEq, Eq, Structural)]
pub struct BufferPos {
    /// Column.
    pub x: u16,
    /// Row; negative rows lie in the scrollback.
    pub y: i32,
}

impl BufferPos {
    /// A position from its coordinates.
    pub fn new(x: u16, y: i32) -> (r: Self)
        ensures
            r.x == x,
            r.y == y,
    {
        Self { x, y }
    }
}

/// Visual selection mode.
#[derive(Debug, Clone, Copy, PartialEq, Eq, Structural)]
pub enum VisualMode {
    /// No selection.
    Off,
    /// Character-wise selection.
    Char,
    /// Line-wise selection.
    Line,
}

/// A selection: the anchor where it started and the moving cursor end.
#[derive(Debug, Clone, Copy, PartialEq, Eq, Structural)]
pub struct Selection {
    /// The fixed end of the selection.
    pub anchor: BufferPos,
    /// The moving end of the selection.
    pub cursor: BufferPos,
}

/// Whether `a` lies at or before `b` in reading order.
pub open spec fn pos_le(a: BufferPos, b: BufferPos) -> bool {
    a.y < b.y || (a.y == b.y && a.x <= b.x)
}

impl Selection {
    /// A fresh selection anchored at `pos`.
    pub fn new(pos: BufferPos) -> (r: Self)
        ensures
            r.anchor == pos,
            r.cursor == pos,
    {
        Self { anchor: pos, cursor: pos }
    }

    /// The selection's ends in reading order: the earlier position
    /// first.
    pub fn bounds(&self) -> (r: (BufferPos, BufferPos))
        ensures
            r == (if pos_le(self.anchor, self.cursor) {
                (self.anchor, self.cursor)
            } else {
                (self.cursor, self.anchor)
            }),
    {
        if self.anchor.y < self.cursor.y
            || (self.anchor.y == self.cursor.y && self.anchor.x <= self.cursor.x) {
            (self.anchor, self.cursor)
        } else {
            (self.cursor, self.anchor)
        }
    }
}

/// The state of copy mode for one pane.
pub struct CopyModeState {
    /// Cursor position in buffer coordinates.
    pub cursor: BufferPos,
    /// How many lines the viewport is scrolled into history.
    pub scroll_offset: usize,
    /// Current visual mode.
    pub visual_mode: VisualMode,
    /// Current selection, if any.
    pub selection: Option<Selection>,
    /// Visible buffer height in rows.
    pub buffer_height: u16,
    /// Buffer width in columns.
    pub buffer_width: u16,
    /// Number of scrollback lines available.
    pub scrollback_len: usize,
    /// Numeric count prefix for motions.
    pub count: Option<u32>,
    /// Search input mode.
    pub search_mode: SearchMode,
    /// The search pattern being typed.
    pub search_input: String,
    /// The last executed search: pattern and direction.
    pub last_search: Option<(String, bool)>,
    /// The last single-character find motion.
    pub last_find: Option<FindChar>,
    /// A pending find motion waiting for its character: (forward,
    /// inclusive).
    pub pending_find: Option<(bool, bool)>,
    /// A pending text object waiting for its object type.
    pub pending_text_object: Option<TextObjectModifier>,
}

impl CopyModeState {
    /// Well-formedness: the dimensions are nonzero, the scrollback size
    /// fits in an `i32`, and the cursor and scroll offset lie in range.
    pub open spec fn wf(&self) -> bool {
        &&& 1 <= self.buffer_width
        &&& 1 <= self.buffer_height
        &&& self.scrollback_len <= 0x4000_0000
        &&& self.cursor.x < self.buffer_width
        &&& -(self.scrollback_len as int) <= self.cursor.y as int
        &&& self.cursor.y < self.buffer_height
        &&& self.scroll_offset <= self.scrollback_len
    }

    /// The cursor clamped into the buffer: the column below the width,
    /// the row between the oldest scrollback line and the bottom row.
    pub open spec fn clamp_pos(&self, p: BufferPos) -> BufferPos {
        BufferPos {
            x: if p.x < self.buffer_width { p.x } else { (self.buffer_width - 1) as u16 },
            y: if p.y < -(self.scrollback_len as int) {
                (-(self.scrollback_len as int)) as i32
            } else if p.y > self.buffer_height - 1 {
                (self.buffer_height - 1) as i32
            } else {
                p.y
            },
        }
    }

    /// The scroll offset that keeps row `y` visible: scrolled just far
    /// enough up or down, then capped by the scrollback length.
    pub open spec fn visible_offset(&self, y: i32) -> usize {
        let adjusted: int = if y < -(self.scroll_offset as int) {
            -(y as int)
        } else if y > self.buffer_height - 1 - self.scroll_offset {
            if self.buffer_height - 1 - y >= 0 {
                self.buffer_height - 1 - y
            } else {
                0
            }
        } else {
            self.scroll_offset as int
        };
        if adjusted <= self.scrollback_len {
            adjusted as usize
        } else {
            self.scrollback_len
        }
    }

    /// The state after the cursor moves to (the clamp of) `p`: in
    /// visual mode the selection's moving end follows, and the viewport
    /// scrolls as needed to keep the cursor visible.
    pub open spec fn moved_to(self, p: BufferPos) -> CopyModeState {
        let c = self.clamp_pos(p);
        CopyModeState {
            cursor: c,
            selection: if self.visual_mode != VisualMode::Off {
                match self.selection {
                    Some(sel) => Some(Selection { cursor: c, ..sel }),
                    None => None,
                }
            } else {
                self.selection
            },
            scroll_offset: self.visible_offset(c.y),
            ..self
        }
    }

    /// A fresh copy-mode state: cursor at the bottom-left of the
    /// visible area, nothing selected, nothing pending.
    pub fn new(buffer_width: u16, buffer_height: u16, scrollback_len: usize) -> (r: Self)
        requires
            buffer_width >= 1,
            buffer_height >= 1,
            scrollback_len <= 0x4000_0000,
        ensures
            r.wf(),
            r.cursor == (BufferPos { x: 0, y: (buffer_height - 1) as i32 }),
            r.scroll_offset == 0,
            r.visual_mode == VisualMode::Off,
            r.selection is None,
            r.buffer_height == buffer_height,
            r.buffer_width == buffer_width,
            r.scrollback_len == scrollback_len,
            r.count is None,
            r.search_mode == SearchMode::Off,
            r.search_input@.len() == 0,
            r.last_search is None,
            r.last_find is None,
            r.pending_find is None,
            r.pending_text_object is None,
    {
        Self {
            cursor: BufferPos::new(0, (buffer_height - 1) as i32),
            scroll_offset: 0,
            visual_mode: VisualMode::Off,
            selection: None,
            buffer_height,
            buffer_width,
            scrollback_len,
            count: None,
            search_mode: SearchMode::Off,
            search_input: String::new(),
            last_search: None,
            last_find: None,
            pending_find: None,
            pending_text_object: None,
        }
    }

    /// The pending count, defaulting to 1.
    pub fn get_count(&self) -> (r: u32)
        ensures
            r == (match self.count {
                Some(c) => c,
                None => 1u32,
            }),
    {
        match self.count {
            Some(c) => c,
            None => 1,
        }
    }

    /// Append a digit to the count, capped at 99999.
    pub fn push_count_digit(&mut self, digit: u32)
        ensures
            *final(self) == (CopyModeState {
                count: Some(({
                    let base: int = match old(self).count {
                        Some(c) => c as int,
                        None => 0,
                    };
                    if base * 10 + digit <= 99999 {
                        (base * 10 + digit) as u32
                    } else {
                        99999u32
                    }
                }) as u32),
                ..*old(self)
            }),
    {
        let current: u32 = match self.count {
            Some(c) => c,
            None => 0,
        };
        let mut next: u64 = current as u64 * 10 + digit as u64;
        if next > 99999 {
            next = 99999;
        }
        self.count = Some(next as u32);
    }

    /// Clear the count after a motion.
    pub fn reset_count(&mut self)
        ensures
            *final(self) == (CopyModeState { count: None, ..*old(self) }),
    {
        self.count = None;
    }

    /// Clamp the cursor into the buffer.
    fn clamp_cursor(&mut self)
        requires
            old(self).buffer_width >= 1,
            old(self).buffer_height >= 1,
            old(self).scrollback_len <= 0x4000_0000,
        ensures
            *final(self) == (CopyModeState {
                cursor: old(self).clamp_pos(old(self).cursor),
                ..*old(self)
            }),
    {
        let min_y: i32 = -(self.scrollback_len as i32);
        let max_y: i32 = self.buffer_height as i32 - 1;
        if self.cursor.y < min_y {
            self.cursor.y = min_y;
        } else if self.cursor.y > max_y {
            self.cursor.y = max_y;
        }
        if self.cursor.x >= self.buffer_width {
            self.cursor.x = self.buffer_width - 1;
        }
    }

    /// Track new buffer dimensions, clamping the cursor into the new
    /// bounds.
    pub fn update_dimensions(&mut self, width: u16, height: u16, scrollback_len: usize)
        requires
            width >= 1,
            height >= 1,
            scrollback_len <= 0x4000_0000,
        ensures
            *final(self) == (CopyModeState {
                cursor: (CopyModeState {
                    buffer_width: width,
                    buffer_height: height,
                    scrollback_len: scrollback_len,
                    ..*old(self)
                }).clamp_pos(old(self).cursor),
                buffer_width: width,
                buffer_height: height,
                scrollback_len: scrollback_len,
                ..*old(self)
            }),
            old(self).scroll_offset <= scrollback_len ==> final(self).wf(),
    {
        self.buffer_width = width;
        self.buffer_height = height;
        self.scrollback_len = scrollback_len;
        self.clamp_cursor();
    }

    /// Scroll the viewport just far enough to keep the cursor visible.
    fn ensure_cursor_visible(&mut self)
        requires
            old(self).buffer_height >= 1,
            old(self).scrollback_len <= 0x4000_0000,
            old(self).scroll_offset <= old(self).scrollback_len,
            -(old(self).scrollback_len as int) <= old(self).cursor.y as int,
            old(self).cursor.y < old(self).buffer_height,
        ensures
            *final(self) == (CopyModeState {
                scroll_offset: old(self).visible_offset(old(self).cursor.y),
                ..*old(self)
            }),
    {
        let visible_top: i64 = -(self.scroll_offset as i64);
        let visible_bottom: i64 = self.buffer_height as i64 - 1 - self.scroll_offset as i64;
        if (self.cursor.y as i64) < visible_top {
            self.scroll_offset = (-(self.cursor.y as i64)) as usize;
        } else if self.cursor.y as i64 > visible_bottom {
            let needed: i64 = self.buffer_height as i64 - 1 - self.cursor.y as i64;
            self.scroll_offset = if needed >= 0 { needed as usize } else { 0 };
        }
        if self.scroll_offset > self.scrollback_len {
            self.scroll_offset = self.scrollback_len;
        }
    }

    /// Move the cursor to (the clamp of) `new_pos`, dragging the
    /// selection's moving end in visual mode and keeping the cursor in
    /// view.
    fn move_cursor(&mut self, new_pos: BufferPos)
        requires
            old(self).wf(),
        ensures
            *final(self) == old(self).moved_to(new_pos),
            final(self).wf(),
    {
        self.cursor = new_pos;
        self.clamp_cursor();
        if self.visual_mode != VisualMode::Off {
            match self.selection {
                Some(sel) => {
                    self.selection = Some(Selection { anchor: sel.anchor, cursor: self.cursor });
                }
                None => {}
            }
        }
        self.ensure_cursor_visible();
    }

    /// Move left one column (`h`).
    pub fn move_left(&mut self)
        requires
            old(self).wf(),
        ensures
            *final(self) == old(self).moved_to(BufferPos {
                x: if old(self).cursor.x >= 1 { (old(self).cursor.x - 1) as u16 } else { 0 },
                y: old(self).cursor.y,
            }),
            final(self).wf(),
    {
        let new_x = if self.cursor.x >= 1 { self.cursor.x - 1 } else { 0 };
        self.move_cursor(BufferPos::new(new_x, self.cursor.y));
    }

    /// Move right one column (`l`).
    pub fn move_right(&mut self)
        requires
            old(self).wf(),
        ensures
            *final(self) == old(self).moved_to(BufferPos {
                x: if old(self).cursor.x as int + 1 <= old(self).buffer_width - 1 {
                    (old(self).cursor.x + 1) as u16
                } else {
                    (old(self).buffer_width - 1) as u16
                },
                y: old(self).cursor.y,
            }),
            final(self).wf(),
    {
        let new_x = if self.cursor.x + 1 <= self.buffer_width - 1 {
            self.cursor.x + 1
        } else {
            self.buffer_width - 1
        };
        self.move_cursor(BufferPos::new(new_x, self.cursor.y));
    }

    /// Move up one row (`k`), reaching into the scrollback.
    pub fn move_up(&mut self)
        requires
            old(self).wf(),
        ensures
            *final(self) == old(self).moved_to(BufferPos {
                x: old(self).cursor.x,
                y: if old(self).cursor.y as int - 1 >= -(old(self).scrollback_len as int) {
                    (old(self).cursor.y - 1) as i32
                } else {
                    (-(old(self).scrollback_len as int)) as i32
                },
            }),
            final(self).wf(),
    {
        let min_y: i32 = -(self.scrollback_len as i32);
        let new_y = if self.cursor.y - 1 >= min_y { self.cursor.y - 1 } else { min_y };
        self.move_cursor(BufferPos::new(self.cursor.x, new_y));
    }

    /// Move down one row (`j`).
    pub fn move_down(&mut self)
        requires
            old(self).wf(),
        ensures
            *final(self) == old(self).moved_to(BufferPos {
                x: old(self).cursor.x,
                y: if old(self).cursor.y as int + 1 <= old(self).buffer_height - 1 {
                    (old(self).cursor.y + 1) as i32
                } else {
                    (old(self).buffer_height - 1) as i32
                },
            }),
            final(self).wf(),
    {
        let max_y: i32 = self.buffer_height as i32 - 1;
        let new_y = if self.cursor.y + 1 <= max_y { self.cursor.y + 1 } else { max_y };
        self.move_cursor(BufferPos::new(self.cursor.x, new_y));
    }

    /// Move to the start of the line (`0`).
    pub fn move_to_line_start(&mut self)
        requires
            old(self).wf(),
        ensures
            *final(self) == old(self).moved_to(BufferPos { x: 0, y: old(self).cursor.y }),
            final(self).wf(),
    {
        self.move_cursor(BufferPos::new(0, self.cursor.y));
    }

    /// Move to the top of the buffer (`gg`), into the oldest scrollback
    /// line.
    pub fn move_to_top(&mut self)
        requires
            old(self).wf(),
        ensures
            *final(self) == old(self).moved_to(BufferPos {
                x: 0,
                y: (-(old(self).scrollback_len as int)) as i32,
            }),
            final(self).wf(),
    {
        let min_y: i32 = -(self.scrollback_len as i32);
        self.move_cursor(BufferPos::new(0, min_y));
    }

    /// Move to the bottom row of the buffer (`G`).
    pub fn move_to_bottom(&mut self)
        requires
            old(self).wf(),
        ensures
            *final(self) == old(self).moved_to(BufferPos {
                x: 0,
                y: (old(self).buffer_height - 1) as i32,
            }),
            final(self).wf(),
    {
        let max_y: i32 = self.buffer_height as i32 - 1;
        self.move_cursor(BufferPos::new(0, max_y));
    }

    /// Move to the top row of the visible screen (`H`).
    pub fn move_to_screen_top(&mut self)
        requires
            old(self).wf(),
        ensures
            *final(self) == old(self).moved_to(BufferPos {
                x: old(self).cursor.x,
                y: (-(old(self).scroll_offset as int)) as i32,
            }),
            final(self).wf(),
    {
        let visible_top: i32 = -(self.scroll_offset as i32);
        self.move_cursor(BufferPos::new(self.cursor.x, visible_top));
    }

    /// Move to the middle row of the visible screen (`M`).
    pub fn move_to_screen_middle(&mut self)
        requires
            old(self).wf(),
        ensures
            *final(self) == old(self).moved_to(BufferPos {
                x: old(self).cursor.x,
                y: (-(old(self).scroll_offset as int)
                    + old(self).buffer_height as int / 2) as i32,
            }),
            final(self).wf(),
    {
        let visible_top: i32 = -(self.scroll_offset as i32);
        let middle: i32 = visible_top + self.buffer_height as i32 / 2;
        self.move_cursor(BufferPos::new(self.cursor.x, middle));
    }

    /// Move to the bottom row of the visible screen (`L`).
    pub fn move_to_screen_bottom(&mut self)
        requires
            old(self).wf(),
        ensures
            *final(self) == old(self).moved_to(BufferPos {
                x: old(self).cursor.x,
                y: (old(self).buffer_height - 1 - old(self).scroll_offset as int) as i32,
            }),
            final(self).wf(),
    {
        let visible_bottom: i32 =
            self.buffer_height as i32 - 1 - self.scroll_offset as i32;
        self.move_cursor(BufferPos::new(self.cursor.x, visible_bottom));
    }

    /// Half a page, at least one row.
    pub open spec fn half_page(&self) -> int {
        if self.buffer_height as int / 2 >= 1 {
            self.buffer_height as int / 2
        } else {
            1
        }
    }

    /// Move half a page up (page-up).
    pub fn page_up(&mut self)
        requires
            old(self).wf(),
        ensures
            *final(self) == old(self).moved_to(BufferPos {
                x: old(self).cursor.x,
                y: (if old(self).cursor.y - old(self).half_page()
                        >= -(old(self).scrollback_len as int) {
                    old(self).cursor.y - old(self).half_page()
                } else {
                    -(old(self).scrollback_len as int)
                }) as i32,
            }),
            final(self).wf(),
    {
        let hp: i32 = if self.buffer_height / 2 >= 1 { (self.buffer_height / 2) as i32 } else { 1 };
        let min_y: i32 = -(self.scrollback_len as i32);
        let new_y = if self.cursor.y - hp >= min_y { self.cursor.y - hp } else { min_y };
        self.move_cursor(BufferPos::new(self.cursor.x, new_y));
    }

    /// Move half a page down (page-down).
    pub fn page_down(&mut self)
        requires
            old(self).wf(),
        ensures
            *final(self) == old(self).moved_to(BufferPos {
                x: old(self).cursor.x,
                y: (if old(self).cursor.y + old(self).half_page()
                        <= old(self).buffer_height - 1 {
                    old(self).cursor.y + old(self).half_page()
                } else {
                    old(self).buffer_height - 1
                }) as i32,
            }),
            final(self).wf(),
    {
        let hp: i32 = if self.buffer_height / 2 >= 1 { (self.buffer_height / 2) as i32 } else { 1 };
        let max_y: i32 = self.buffer_height as i32 - 1;
        let new_y = if self.cursor.y + hp <= max_y { self.cursor.y + hp } else { max_y };
        self.move_cursor(BufferPos::new(self.cursor.x, new_y));
    }

    /// Toggle character-wise visual mode (`v`): entering anchors a
    /// selection at the cursor; re-toggling (from `Char`) clears it.
    pub fn toggle_visual_char(&mut self)
        ensures
            *final(self) == (if old(self).visual_mode == VisualMode::Char {
                CopyModeState { visual_mode: VisualMode::Off, selection: None, ..*old(self) }
            } else {
                CopyModeState {
                    visual_mode: VisualMode::Char,
                    selection: Some(Selection {
                        anchor: old(self).cursor,
                        cursor: old(self).cursor,
                    }),
                    ..*old(self)
                }
            }),
    {
        if self.visual_mode == VisualMode::Char {
            self.visual_mode = VisualMode::Off;
            self.selection = None;
        } else {
            self.visual_mode = VisualMode::Char;
            self.selection = Some(Selection::new(self.cursor));
        }
    }

    /// Toggle line-wise visual mode (`V`).
    pub fn toggle_visual_line(&mut self)
        ensures
            *final(self) == (if old(self).visual_mode == VisualMode::Line {
                CopyModeState { visual_mode: VisualMode::Off, selection: None, ..*old(self) }
            } else {
                CopyModeState {
                    visual_mode: VisualMode::Line,
                    selection: Some(Selection {
                        anchor: old(self).cursor,
                        cursor: old(self).cursor,
                    }),
                    ..*old(self)
                }
            }),
    {
        if self.visual_mode == VisualMode::Line {
            self.visual_mode = VisualMode::Off;
            self.selection = None;
        } else {
            self.visual_mode = VisualMode::Line;
            self.selection = Some(Selection::new(self.cursor));
        }
    }

    /// The selection bounds a renderer should highlight, as
    /// (start column, start row, end column, end row) in reading order.
    pub open spec fn selection_bounds_spec(&self) -> Option<(u16, i32, u16, i32)> {
        match self.selection {
            None => None,
            Some(sel) => {
                let s = if pos_le(sel.anchor, sel.cursor) { sel.anchor } else { sel.cursor };
                let e = if pos_le(sel.anchor, sel.cursor) { sel.cursor } else { sel.anchor };
                match self.visual_mode {
                    VisualMode::Off => None,
                    VisualMode::Char => Some((s.x, s.y, e.x, e.y)),
                    VisualMode::Line => Some((0u16,
                        s.y,
                        (if self.buffer_width >= 1 { self.buffer_width - 1 } else { 0 }) as u16,
                        e.y)),
                }
            }
        }
    }

    /// The selection to highlight: character-wise between its two ends,
    /// line-wise over whole rows; `None` outside visual mode.
    pub fn get_selection_bounds(&self) -> (r: Option<(u16, i32, u16, i32)>)
        ensures
            r == self.selection_bounds_spec(),
    {
        let sel = match self.selection {
            Some(s) => s,
            None => {
                return None;
            }
        };
        let (start, end) = sel.bounds();
        match self.visual_mode {
            VisualMode::Off => None,
            VisualMode::Char => Some((start.x, start.y, end.x, end.y)),
            VisualMode::Line => {
                let right = if self.buffer_width >= 1 { self.buffer_width - 1 } else { 0 };
                Some((0, start.y, right, end.y))
            }
        }
    }

    /// Whether a cell lies in the highlighted selection.
    pub open spec fn is_selected_spec(&self, x: u16, y: i32) -> bool {
        match self.selection_bounds_spec() {
            None => false,
            Some(b) => {
                let (sx, sy, ex, ey) = b;
                &&& sy <= y <= ey
                &&& (y != sy || y == ey || x >= sx)
                &&& (y != ey || y == sy || x <= ex)
                &&& (y != sy || y != ey || (sx <= x <= ex))
            }
        }
    }

    /// Whether the cell at (`x`, `y`) is selected.
    pub fn is_selected(&self, x: u16, y: i32) -> (r: bool)
        ensures
            r == self.is_selected_spec(x, y),
    {
        match self.get_selection_bounds() {
            None => false,
            Some((start_x, start_y, end_x, end_y)) => {
                if y < start_y || y > end_y {
                    false
                } else if y == start_y && y == end_y {
                    x >= start_x && x <= end_x
                } else if y == start_y {
                    x >= start_x
                } else if y == end_y {
                    x <= end_x
                } else {
                    true
                }
            }
        }
    }

    /// Convert a screen row to a buffer row under the current scroll.
    pub fn screen_y_to_buffer_y(&self, screen_y: u16) -> (r: i32)
        requires
            self.wf(),
        ensures
            r == screen_y as int - self.scroll_offset as int,
    {
        screen_y as i32 - self.scroll_offset as i32
    }

    /// Convert a buffer row to a screen row; `None` when not visible.
    pub fn buffer_y_to_screen_y(&self, buffer_y: i32) -> (r: Option<u16>)
        requires
            self.wf(),
            -0x4000_0000 <= buffer_y as int,
            buffer_y as int <= 0x4000_0000,
        ensures
            r == (if 0 <= buffer_y + self.scroll_offset
                    && buffer_y + self.scroll_offset < self.buffer_height as int {
                Some((buffer_y + self.scroll_offset) as u16)
            } else {
                None::<u16>
            }),
    {
        let screen_y: i64 = buffer_y as i64 + self.scroll_offset as i64;
        if screen_y >= 0 && screen_y < self.buffer_height as i64 {
            Some(screen_y as u16)
        } else {
            None
        }
    }

    /// The cursor in screen coordinates; `None` when scrolled out of
    /// view.
    pub fn cursor_screen_pos(&self) -> (r: Option<(u16, u16)>)
        requires
            self.wf(),
        ensures
            r == (if 0 <= self.cursor.y + self.scroll_offset
                    && self.cursor.y + self.scroll_offset < self.buffer_height as int {
                Some((self.cursor.x, (self.cursor.y + self.scroll_offset) as u16))
            } else {
                None::<(u16, u16)>
            }),
    {
        match self.buffer_y_to_screen_y(self.cursor.y) {
            Some(y) => Some((self.cursor.x, y)),
            None => None,
        }
    }
}

} // verus!

verus! {

// ---------------------------------------------------------------------------
// Line scans
// ---------------------------------------------------------------------------

/// Index of the last non-space character of the line, or 0 when the
/// line is all spaces or empty.
pub open spec fn last_non_space(line: Seq<char>) -> int
    decreases line.len(),
{
    if line.len() == 0 {
        0
    } else if line.last() != ' ' {
        line.len() - 1
    } else {
        last_non_space(line.drop_last())
    }
}

/// Index of the first non-whitespace character at or after `i`, or the
/// line length when there is none.
pub open spec fn first_non_ws(line: Seq<char>, i: int) -> int
    decreases line.len() - i,
    when 0 <= i <= line.len()
{
    if i >= line.len() {
        line.len() as int
    } else if !char_whitespace(line[i]) {
        i
    } else {
        first_non_ws(line, i + 1)
    }
}

/// First index at or after `i` whose class differs from `cls`, or the
/// line length.
pub open spec fn skip_class(line: Seq<char>, i: int, cls: CharClass, big: bool) -> int
    decreases line.len() - i,
    when 0 <= i <= line.len()
{
    if i >= line.len() {
        line.len() as int
    } else if classify_spec(line[i], big) == cls {
        skip_class(line, i + 1, cls, big)
    } else {
        i
    }
}

/// Walking back from `i` over whitespace: the first index at or before
/// `i` that is not whitespace, stopping at 0.
pub open spec fn skip_ws_back(line: Seq<char>, i: int, big: bool) -> int
    decreases i,
    when 0 <= i < line.len()
{
    if i <= 0 {
        0
    } else if classify_spec(line[i], big) == CharClass::Whitespace {
        skip_ws_back(line, i - 1, big)
    } else {
        i
    }
}

/// Walking back from `i` to the start of the run of class `cls` that
/// contains it.
pub open spec fn back_to_class_start(line: Seq<char>, i: int, cls: CharClass, big: bool) -> int
    decreases i,
    when 0 <= i < line.len()
{
    if i <= 0 {
        0
    } else if classify_spec(line[i - 1], big) == cls {
        back_to_class_start(line, i - 1, cls, big)
    } else {
        i
    }
}

/// Walking forward from `i` to the end of the run of class `cls` that
/// contains it.
pub open spec fn extend_class_end(line: Seq<char>, i: int, cls: CharClass, big: bool) -> int
    decreases line.len() - i,
    when 0 <= i < line.len()
{
    if i + 1 >= line.len() {
        i
    } else if classify_spec(line[i + 1], big) == cls {
        extend_class_end(line, i + 1, cls, big)
    } else {
        i
    }
}

/// Walking forward from `i` over trailing whitespace (by
/// `char_whitespace`, as the around-word object uses).
pub open spec fn extend_ws_end(line: Seq<char>, i: int) -> int
    decreases line.len() - i,
    when 0 <= i < line.len()
{
    if i + 1 >= line.len() {
        i
    } else if char_whitespace(line[i + 1]) {
        extend_ws_end(line, i + 1)
    } else {
        i
    }
}

/// Walking back from `i` over leading whitespace.
pub open spec fn back_over_ws(line: Seq<char>, i: int) -> int
    decreases i,
    when 0 <= i < line.len()
{
    if i <= 0 {
        0
    } else if char_whitespace(line[i - 1]) {
        back_over_ws(line, i - 1)
    } else {
        i
    }
}

/// First index at or after `i` holding exactly `c`, or `None`.
pub open spec fn find_fwd(line: Seq<char>, i: int, c: char) -> Option<int>
    decreases line.len() - i,
{
    if i >= line.len() {
        None
    } else if line[i] == c {
        Some(i)
    } else {
        find_fwd(line, i + 1, c)
    }
}

/// Last index at or before `i` holding exactly `c`, or `None`.
pub open spec fn find_back(line: Seq<char>, i: int, c: char) -> Option<int>
    decreases i + 1,
    when -1 <= i < line.len()
{
    if i < 0 {
        None
    } else if line[i] == c {
        Some(i)
    } else {
        find_back(line, i - 1, c)
    }
}

/// Classify with the motion's chosen classifier.
fn classify_exec(c: char, big_word: bool) -> (r: CharClass)
    ensures
        r == classify_spec(c, big_word),
{
    if big_word {
        CharClass::of_word(c)
    } else {
        CharClass::of(c)
    }
}

impl CopyModeState {
    /// Move to the last non-space character of the line (`$`).
    pub fn move_to_line_end(&mut self, line_content: &[char])
        requires
            old(self).wf(),
        ensures
            *final(self) == old(self).moved_to(BufferPos {
                x: last_non_space(line_content@) as u16,
                y: old(self).cursor.y,
            }),
            final(self).wf(),
    {
        let n = line_content.len();
        let mut i: usize = n;
        proof {
            assert(line_content@.take(n as int) =~= line_content@);
        }
        loop
            invariant
                i <= n,
                n == line_content@.len(),
                last_non_space(line_content@) == last_non_space(line_content@.take(i as int)),
            ensures
                i <= n,
                last_non_space(line_content@) == last_non_space(line_content@.take(i as int)),
                i == 0 || line_content@[i - 1] != ' ',
            decreases i,
        {
            if i == 0 {
                break;
            }
            if line_content[i - 1] != ' ' {
                break;
            }
            proof {
                assert(line_content@.take(i as int).last() == line_content@[i - 1]);
                assert(line_content@.take(i as int).drop_last()
                    =~= line_content@.take(i as int - 1));
            }
            i = i - 1;
        }
        let end_x: usize = if i == 0 { 0 } else { i - 1 };
        proof {
            if i > 0 {
                assert(line_content@.take(i as int).last() == line_content@[i - 1]);
                assert(last_non_space(line_content@.take(i as int)) == i - 1);
            }
        }
        let x16: u16 = #[verifier::truncate] (end_x as u16);
        self.move_cursor(BufferPos::new(x16, self.cursor.y));
    }

    /// Move to the first non-blank character of the line (`^`); column
    /// 0 when the line is all blank.
    pub fn move_to_first_non_blank(&mut self, line_content: &[char])
        requires
            old(self).wf(),
        ensures
            *final(self) == old(self).moved_to(BufferPos {
                x: (if first_non_ws(line_content@, 0) == line_content@.len() {
                    0
                } else {
                    first_non_ws(line_content@, 0)
                }) as u16,
                y: old(self).cursor.y,
            }),
            final(self).wf(),
    {
        let n = line_content.len();
        let mut i: usize = 0;
        loop
            invariant
                i <= n,
                n == line_content@.len(),
                first_non_ws(line_content@, 0) == first_non_ws(line_content@, i as int),
            ensures
                i <= n,
                first_non_ws(line_content@, 0) == i as int,
            decreases n - i,
        {
            if i >= n {
                break;
            }
            if !is_whitespace_exec(line_content[i]) {
                break;
            }
            i = i + 1;
        }
        let target: usize = if i == n { 0 } else { i };
        let x16: u16 = #[verifier::truncate] (target as u16);
        self.move_cursor(BufferPos::new(x16, self.cursor.y));
    }

    /// Where the next-word motion lands, or `None` when the cursor is
    /// already past the line's end (no move at all).
    pub open spec fn word_forward_target(line: Seq<char>, x: int, big: bool) -> Option<int> {
        if x >= line.len() {
            None
        } else {
            let after_word = skip_class(line, x, classify_spec(line[x], big), big);
            let next = skip_class(line, after_word, CharClass::Whitespace, big);
            if next < line.len() {
                Some(next)
            } else {
                Some(line.len() - 1)
            }
        }
    }

    /// Move to the start of the next word (`w` / `W`).
    pub fn move_word_forward(&mut self, line_content: &[char], big_word: bool)
        requires
            old(self).wf(),
        ensures
            *final(self) == (match Self::word_forward_target(line_content@,
                    old(self).cursor.x as int, big_word) {
                Some(t) => old(self).moved_to(BufferPos {
                    x: t as u16,
                    y: old(self).cursor.y,
                }),
                None => *old(self),
            }),
            final(self).wf(),
    {
        let x = self.cursor.x as usize;
        let len = line_content.len();
        if x >= len {
            return;
        }
        let current_class = classify_exec(line_content[x], big_word);
        let mut pos: usize = x;
        loop
            invariant
                x <= pos <= len,
                len == line_content@.len(),
                current_class == classify_spec(line_content@[x as int], big_word),
                skip_class(line_content@, x as int, current_class, big_word)
                    == skip_class(line_content@, pos as int, current_class, big_word),
            ensures
                x <= pos <= len,
                skip_class(line_content@, x as int, current_class, big_word) == pos as int,
            decreases len - pos,
        {
            if pos >= len {
                break;
            }
            if classify_exec(line_content[pos], big_word) != current_class {
                break;
            }
            pos = pos + 1;
        }
        let ghost after_word = pos as int;
        loop
            invariant
                len == line_content@.len(),
                after_word <= pos <= len,
                skip_class(line_content@, after_word, CharClass::Whitespace, big_word)
                    == skip_class(line_content@, pos as int, CharClass::Whitespace, big_word),
            ensures
                after_word <= pos <= len,
                skip_class(line_content@, after_word, CharClass::Whitespace, big_word)
                    == pos as int,
            decreases len - pos,
        {
            if pos >= len {
                break;
            }
            if classify_exec(line_content[pos], big_word) != CharClass::Whitespace {
                break;
            }
            pos = pos + 1;
        }
        if pos < len {
            let x16: u16 = #[verifier::truncate] (pos as u16);
            self.move_cursor(BufferPos::new(x16, self.cursor.y));
        } else {
            let target: usize = if len >= 1 { len - 1 } else { 0 };
            let x16: u16 = #[verifier::truncate] (target as u16);
            self.move_cursor(BufferPos::new(x16, self.cursor.y));
        }
    }

    /// Where the previous-word motion lands, or `None` for no move.
    pub open spec fn word_backward_target(line: Seq<char>, x: int, big: bool) -> Option<int> {
        if x == 0 || line.len() == 0 {
            None
        } else {
            let from = if x - 1 < line.len() { x - 1 } else { line.len() - 1 };
            let pos = skip_ws_back(line, from, big);
            if pos == 0 {
                Some(0)
            } else {
                Some(back_to_class_start(line, pos, classify_spec(line[pos], big), big))
            }
        }
    }

    /// Move to the start of the previous word (`b` / `B`).
    pub fn move_word_backward(&mut self, line_content: &[char], big_word: bool)
        requires
            old(self).wf(),
        ensures
            *final(self) == (match Self::word_backward_target(line_content@,
                    old(self).cursor.x as int, big_word) {
                Some(t) => old(self).moved_to(BufferPos {
                    x: t as u16,
                    y: old(self).cursor.y,
                }),
                None => *old(self),
            }),
            final(self).wf(),
    {
        let x = self.cursor.x as usize;
        let len = line_content.len();
        if x == 0 || len == 0 {
            return;
        }
        let mut pos: usize = if x - 1 < len { x - 1 } else { len - 1 };
        loop
            invariant
                pos < len,
                len == line_content@.len(),
                skip_ws_back(line_content@, (if x - 1 < len { x - 1 } else { len - 1 }) as int,
                        big_word)
                    == skip_ws_back(line_content@, pos as int, big_word),
            ensures
                pos < len,
                skip_ws_back(line_content@,
                    (if x - 1 < len { x - 1 } else { len - 1 }) as int, big_word) == pos as int,
            decreases pos,
        {
            if pos == 0 {
                break;
            }
            if classify_exec(line_content[pos], big_word) != CharClass::Whitespace {
                break;
            }
            pos = pos - 1;
        }
        if pos == 0 {
            self.move_cursor(BufferPos::new(0, self.cursor.y));
            return;
        }
        let target_class = classify_exec(line_content[pos], big_word);
        let ghost run_end = pos as int;
        loop
            invariant
                0 < pos < len || pos == 0,
                pos < len,
                len == line_content@.len(),
                target_class == classify_spec(line_content@[run_end], big_word),
                0 <= run_end < len,
                back_to_class_start(line_content@, run_end, target_class, big_word)
                    == back_to_class_start(line_content@, pos as int, target_class, big_word),
            ensures
                pos < len,
                back_to_class_start(line_content@, run_end, target_class, big_word)
                    == pos as int,
            decreases pos,
        {
            if pos == 0 {
                break;
            }
            if classify_exec(line_content[pos - 1], big_word) != target_class {
                break;
            }
            pos = pos - 1;
        }
        let x16: u16 = #[verifier::truncate] (pos as u16);
        self.move_cursor(BufferPos::new(x16, self.cursor.y));
    }

    /// Where the end-of-word motion lands, or `None` for no move.
    pub open spec fn word_end_target(line: Seq<char>, x: int, big: bool) -> Option<int> {
        if line.len() == 0 || x >= line.len() - 1 {
            None
        } else {
            let pos = skip_class(line, x + 1, CharClass::Whitespace, big);
            if pos >= line.len() {
                None
            } else {
                Some(extend_class_end(line, pos, classify_spec(line[pos], big), big))
            }
        }
    }

    /// Move to the end of the word (`e` / `E`).
    pub fn move_word_end(&mut self, line_content: &[char], big_word: bool)
        requires
            old(self).wf(),
        ensures
            *final(self) == (match Self::word_end_target(line_content@,
                    old(self).cursor.x as int, big_word) {
                Some(t) => old(self).moved_to(BufferPos {
                    x: t as u16,
                    y: old(self).cursor.y,
                }),
                None => *old(self),
            }),
            final(self).wf(),
    {
        let x = self.cursor.x as usize;
        let len = line_content.len();
        if len == 0 || x >= len - 1 {
            return;
        }
        let mut pos: usize = x + 1;
        loop
            invariant
                x + 1 <= pos <= len,
                len == line_content@.len(),
                skip_class(line_content@, x + 1 as int, CharClass::Whitespace, big_word)
                    == skip_class(line_content@, pos as int, CharClass::Whitespace, big_word),
            ensures
                x + 1 <= pos <= len,
                skip_class(line_content@, x + 1 as int, CharClass::Whitespace, big_word)
                    == pos as int,
            decreases len - pos,
        {
            if pos >= len {
                break;
            }
            if classify_exec(line_content[pos], big_word) != CharClass::Whitespace {
                break;
            }
            pos = pos + 1;
        }
        if pos >= len {
            return;
        }
        let target_class = classify_exec(line_content[pos], big_word);
        let ghost run_start = pos as int;
        loop
            invariant
                run_start <= pos < len,
                len == line_content@.len(),
                target_class == classify_spec(line_content@[run_start], big_word),
                extend_class_end(line_content@, run_start, target_class, big_word)
                    == extend_class_end(line_content@, pos as int, target_class, big_word),
            ensures
                run_start <= pos < len,
                extend_class_end(line_content@, run_start, target_class, big_word) == pos as int,
            decreases len - pos,
        {
            if pos + 1 >= len {
                break;
            }
            if classify_exec(line_content[pos + 1], big_word) != target_class {
                break;
            }
            pos = pos + 1;
        }
        let x16: u16 = #[verifier::truncate] (pos as u16);
        self.move_cursor(BufferPos::new(x16, self.cursor.y));
    }
}

} // verus!

verus! {

// ---------------------------------------------------------------------------
// Search (regular expressions) and find-char motions
// ---------------------------------------------------------------------------

/// Whether a pattern text compiles as a regular expression: a function
/// of the pattern alone, named here because regex syntax takes pages to
/// state.
pub uninterp spec fn regex_accepts(pattern: Seq<char>) -> bool;

/// The byte offset of the first regex match of `pattern` in `text`, or
/// `None`: a function of the two texts alone.
pub uninterp spec fn regex_find_start(pattern: Seq<char>, text: Seq<char>) -> Option<usize>;

/// The byte offset of the last non-overlapping regex match of `pattern`
/// in `text`, or `None`: a function of the two texts alone.
pub uninterp spec fn regex_find_last_start(pattern: Seq<char>, text: Seq<char>) -> Option<usize>;

#[verifier::external_type_specification]
#[verifier::external_body]
pub struct ExRegex(regex::Regex);

/// A column saturated into `u16` range.
pub open spec fn cap_col(n: int) -> u16 {
    if n <= 0xFFFF {
        n as u16
    } else {
        0xFFFFu16
    }
}

/// A regex hit that a scan landed on: some scanned line text has a
/// match whose byte-offset start gives the new column (saturated into
/// column range before the usual cursor clamp). On the cursor's own row
/// of a forward scan the text is the part after the cursor, so the
/// offset counts from the old column plus one; backward scans take the
/// last match.
pub open spec fn search_hit(pat: Seq<char>, line: Seq<char>, pre: CopyModeState, y: i32,
    x: u16) -> bool {
    ||| (match regex_find_start(pat, line) {
        Some(i) => y == pre.cursor.y && x == cap_col(
            pre.cursor.x as int + 1 + (if i <= 0xFFFF { i as int } else { 0xFFFF })),
        None => false,
    })
    ||| (match regex_find_start(pat, line) {
        Some(i) => x == cap_col(i as int),
        None => false,
    })
    ||| (match regex_find_last_start(pat, line) {
        Some(i) => x == cap_col(i as int),
        None => false,
    })
}

/// A compiled search pattern: the regular expression together with the
/// pattern text it was compiled from.
pub struct SearchPattern {
    re: regex::Regex,
    pattern: String,
}

impl View for SearchPattern {
    type V = Seq<char>;

    closed spec fn view(&self) -> Seq<char> {
        self.pattern@
    }
}

impl SearchPattern {
    /// Relies on regex::Regex::new: whether compiling succeeds depends
    /// on the pattern text alone.
    #[verifier::external_body]
    pub fn compile(pattern: &str) -> (r: Option<SearchPattern>)
        ensures
            r is Some <==> regex_accepts(pattern@),
            match r {
                Some(p) => p@ == pattern@,
                None => true,
            },
    {
        match regex::Regex::new(pattern) {
            Ok(re) => Some(SearchPattern { re, pattern: pattern.to_string() }),
            Err(_) => None,
        }
    }

    /// Relies on regex::Regex::find: the first match's start offset is
    /// a function of pattern and haystack alone, and lies within the
    /// haystack, whose UTF-8 form has at most four bytes per character.
    #[verifier::external_body]
    pub fn find_first(&self, text: &[char]) -> (r: Option<usize>)
        ensures
            r == regex_find_start(self@, text@),
            match r {
                Some(i) => i <= text@.len() * 4,
                None => true,
            },
    {
        let hay: String = text.iter().collect();
        self.re.find(&hay).map(|m| m.start())
    }

    /// Relies on regex::Regex::find_iter: the last non-overlapping
    /// match's start offset is a function of pattern and haystack alone,
    /// and lies within the haystack.
    #[verifier::external_body]
    pub fn find_last(&self, text: &[char]) -> (r: Option<usize>)
        ensures
            r == regex_find_last_start(self@, text@),
            match r {
                Some(i) => i <= text@.len() * 4,
                None => true,
            },
    {
        let hay: String = text.iter().collect();
        self.re.find_iter(&hay).last().map(|m| m.start())
    }
}

impl CopyModeState {
    /// Enter search input mode (`/` or `?`).
    pub fn start_search(&mut self, forward: bool)
        ensures
            *final(self) == (CopyModeState {
                search_mode: if forward { SearchMode::Forward } else { SearchMode::Backward },
                search_input: final(self).search_input,
                ..*old(self)
            }),
            final(self).search_input@.len() == 0,
    {
        self.search_mode = if forward { SearchMode::Forward } else { SearchMode::Backward };
        self.search_input.clear();
    }

    /// Leave search input mode without searching.
    pub fn cancel_search(&mut self)
        ensures
            *final(self) == (CopyModeState {
                search_mode: SearchMode::Off,
                search_input: final(self).search_input,
                ..*old(self)
            }),
            final(self).search_input@.len() == 0,
    {
        self.search_mode = SearchMode::Off;
        self.search_input.clear();
    }

    /// Append a character to the search input.
    pub fn search_push_char(&mut self, c: char)
        ensures
            *final(self) == (CopyModeState {
                search_input: final(self).search_input,
                ..*old(self)
            }),
            final(self).search_input@ == old(self).search_input@.push(c),
    {
        self.search_input.push(c);
    }

    /// Drop the last character of the search input.
    pub fn search_pop_char(&mut self)
        ensures
            *final(self) == (CopyModeState {
                search_input: final(self).search_input,
                ..*old(self)
            }),
            final(self).search_input@ == (if old(self).search_input@.len() > 0 {
                old(self).search_input@.drop_last()
            } else {
                old(self).search_input@
            }),
    {
        self.search_input.pop();
    }

    /// Scan lines for a regex match and move to the first hit. Lines
    /// come from `get_line` (buffer row to characters); the scan order
    /// is the current line from the cursor, then the remaining lines in
    /// search direction, wrapping around. Cursor and viewport stay well
    /// formed whatever the lines hold.
    fn search_next_impl<F: Fn(i32) -> Vec<char>>(
        &mut self,
        pattern: &str,
        forward: bool,
        get_line: &F,
    ) -> (r: bool)
        requires
            old(self).wf(),
            forall|y: i32| #[trigger] get_line.requires((y,)),
        ensures
            final(self).wf(),
            !regex_accepts(pattern@) ==> r == false && *final(self) == *old(self),
            final(self).search_mode == old(self).search_mode,
            final(self).last_search == old(self).last_search,
            final(self).buffer_width == old(self).buffer_width,
            final(self).buffer_height == old(self).buffer_height,
            final(self).scrollback_len == old(self).scrollback_len,
            r == false ==> *final(self) == *old(self),
            r == true ==> regex_accepts(pattern@),
            r == true ==> exists|line: Seq<char>, y: i32, x: u16|
                #[trigger] search_hit(pattern@, line, *old(self), y, x)
                    && *final(self) == old(self).moved_to(BufferPos { x, y }),
    {
        let re = match SearchPattern::compile(pattern) {
            Some(re) => re,
            None => {
                return false;
            }
        };
        let min_y: i64 = -(self.scrollback_len as i64);
        let max_y: i64 = self.buffer_height as i64 - 1;
        let start_x: usize = self.cursor.x as usize;
        let start_y: i32 = self.cursor.y;
        if forward {
            let line = get_line(start_y);
            let from: usize = if start_x + 1 <= line.len() { start_x + 1 } else { line.len() };
            let ghost tail = line@.skip(from as int);
            let rest: Vec<char> = slice_from(line.as_slice(), from);
            match re.find_first(rest.as_slice()) {
                Some(m) => {
                    let capped: usize = if m <= 0xFFFF { m } else { 0xFFFF };
                    let nx: usize = start_x + 1 + capped;
                    let x16: u16 = if nx <= 0xFFFF { nx as u16 } else { 0xFFFF };
                    proof {
                        assert(search_hit(pattern@, tail, *old(self), start_y, x16));
                    }
                    self.move_cursor(BufferPos::new(x16, start_y));
                    return true;
                }
                None => {}
            }
            let mut y: i64 = start_y as i64 + 1;
            while y <= max_y
                invariant
                    self.wf(),
                    *self == *old(self),
                    forall|yy: i32| #[trigger] get_line.requires((yy,)),
                    start_y as i64 + 1 <= y,
                    -0x8000_0000 <= y <= 0x8000_0000,
                    max_y == self.buffer_height as i64 - 1,
                    regex_accepts(pattern@),
                    re@ == pattern@,
                decreases max_y + 1 - y,
            {
                let line = get_line(y as i32);
                match re.find_first(line.as_slice()) {
                    Some(m) => {
                        let x16: u16 = if m <= 0xFFFF { #[verifier::truncate] (m as u16) } else { 0xFFFF };
                        proof {
                            assert(search_hit(pattern@, line@, *old(self), y as i32, x16));
                        }
                        self.move_cursor(BufferPos::new(x16, y as i32));
                        return true;
                    }
                    None => {}
                }
                y = y + 1;
            }
            let mut y2: i64 = min_y;
            while y2 < start_y as i64
                invariant
                    self.wf(),
                    *self == *old(self),
                    forall|yy: i32| #[trigger] get_line.requires((yy,)),
                    min_y <= y2,
                    -0x8000_0000 <= y2 <= 0x8000_0000,
                    start_y as i64 <= 0x8000_0000,
                    regex_accepts(pattern@),
                    re@ == pattern@,
                decreases start_y as i64 - y2,
            {
                let line = get_line(y2 as i32);
                match re.find_first(line.as_slice()) {
                    Some(m) => {
                        let x16: u16 = if m <= 0xFFFF { #[verifier::truncate] (m as u16) } else { 0xFFFF };
                        proof {
                            assert(search_hit(pattern@, line@, *old(self), y2 as i32, x16));
                        }
                        self.move_cursor(BufferPos::new(x16, y2 as i32));
                        return true;
                    }
                    None => {}
                }
                y2 = y2 + 1;
            }
        } else {
            let line = get_line(start_y);
            let upto: usize = if start_x <= line.len() { start_x } else { line.len() };
            let before: Vec<char> = slice_upto(line.as_slice(), upto);
            match re.find_last(before.as_slice()) {
                Some(m) => {
                    let x16: u16 = if m <= 0xFFFF { #[verifier::truncate] (m as u16) } else { 0xFFFF };
                    proof {
                        assert(search_hit(pattern@, before@, *old(self), start_y, x16));
                    }
                    self.move_cursor(BufferPos::new(x16, start_y));
                    return true;
                }
                None => {}
            }
            let mut y: i64 = start_y as i64 - 1;
            while y >= min_y
                invariant
                    self.wf(),
                    *self == *old(self),
                    forall|yy: i32| #[trigger] get_line.requires((yy,)),
                    y <= start_y as i64 - 1,
                    -0x8000_0000 <= y <= 0x8000_0000,
                    min_y >= -0x4000_0000,
                    regex_accepts(pattern@),
                    re@ == pattern@,
                decreases y - min_y + 0x4000_0001,
            {
                let line = get_line(y as i32);
                match re.find_last(line.as_slice()) {
                    Some(m) => {
                        let x16: u16 = if m <= 0xFFFF { #[verifier::truncate] (m as u16) } else { 0xFFFF };
                        proof {
                            assert(search_hit(pattern@, line@, *old(self), y as i32, x16));
                        }
                        self.move_cursor(BufferPos::new(x16, y as i32));
                        return true;
                    }
                    None => {}
                }
                y = y - 1;
            }
            let mut y2: i64 = max_y;
            while y2 >= start_y as i64 + 1
                invariant
                    self.wf(),
                    *self == *old(self),
                    forall|yy: i32| #[trigger] get_line.requires((yy,)),
                    y2 <= max_y,
                    -0x8000_0000 <= y2 <= 0x8000_0000,
                    start_y as i64 >= -0x4000_0000,
                    regex_accepts(pattern@),
                    re@ == pattern@,
                decreases y2 - start_y as i64 + 0x4000_0001,
            {
                let line = get_line(y2 as i32);
                match re.find_last(line.as_slice()) {
                    Some(m) => {
                        let x16: u16 = if m <= 0xFFFF { #[verifier::truncate] (m as u16) } else { 0xFFFF };
                        proof {
                            assert(search_hit(pattern@, line@, *old(self), y2 as i32, x16));
                        }
                        self.move_cursor(BufferPos::new(x16, y2 as i32));
                        return true;
                    }
                    None => {}
                }
                y2 = y2 - 1;
            }
        }
        false
    }

    /// Execute the typed search (`Enter` after `/` or `?`): remember it
    /// as the last search, leave input mode, and move to the first
    /// match. False when the input is empty, no match exists on any
    /// scanned line, or the pattern does not compile; on success the
    /// cursor lands on a regex hit of a scanned line.
    pub fn execute_search<F: Fn(i32) -> Vec<char>>(&mut self, get_line: F) -> (r: bool)
        requires
            old(self).wf(),
            forall|y: i32| #[trigger] get_line.requires((y,)),
        ensures
            final(self).wf(),
            final(self).search_mode == SearchMode::Off,
            old(self).search_input@.len() == 0 ==> r == false
                && final(self).last_search == old(self).last_search,
            old(self).search_input@.len() > 0 ==> (match final(self).last_search {
                Some(ls) => ls.0@ == old(self).search_input@ && ls.1 == (old(self).search_mode
                    == SearchMode::Forward),
                None => false,
            }),
            old(self).search_input@.len() > 0 ==> ({
                let mid = CopyModeState {
                    search_mode: SearchMode::Off,
                    last_search: final(self).last_search,
                    ..*old(self)
                };
                &&& (r == false ==> *final(self) == mid)
                &&& (!regex_accepts(old(self).search_input@) ==> r == false)
                &&& (r == true ==> regex_accepts(old(self).search_input@)
                    && exists|line: Seq<char>, y: i32, x: u16|
                        #[trigger] search_hit(old(self).search_input@, line, mid, y, x)
                            && *final(self) == mid.moved_to(BufferPos { x, y }))
            }),
    {
        if self.search_input.is_empty() {
            self.search_mode = SearchMode::Off;
            return false;
        }
        let forward = match self.search_mode {
            SearchMode::Forward => true,
            _ => false,
        };
        let pattern = self.search_input.clone();
        self.last_search = Some((pattern.clone(), forward));
        self.search_mode = SearchMode::Off;
        self.search_next_impl(pattern.as_str(), forward, &get_line)
    }

    /// Repeat the last search in its own direction (`n`). False (and the
    /// state unchanged) when no search was executed yet or nothing
    /// matches; on success the cursor lands on a regex hit of a scanned
    /// line.
    pub fn search_next<F: Fn(i32) -> Vec<char>>(&mut self, get_line: F) -> (r: bool)
        requires
            old(self).wf(),
            forall|y: i32| #[trigger] get_line.requires((y,)),
        ensures
            final(self).wf(),
            old(self).last_search is None ==> r == false && *final(self) == *old(self),
            final(self).last_search == old(self).last_search,
            r == false ==> *final(self) == *old(self),
            match old(self).last_search {
                Some(ls) => r == true ==> regex_accepts(ls.0@)
                    && exists|line: Seq<char>, y: i32, x: u16|
                        #[trigger] search_hit(ls.0@, line, *old(self), y, x)
                            && *final(self) == old(self).moved_to(BufferPos { x, y }),
                None => true,
            },
    {
        let (pattern, forward) = match &self.last_search {
            Some((p, f)) => (p.clone(), *f),
            None => {
                return false;
            }
        };
        self.search_next_impl(pattern.as_str(), forward, &get_line)
    }

    /// Repeat the last search in the opposite direction (`N`). False
    /// (and the state unchanged) when no search was executed yet or
    /// nothing matches; on success the cursor lands on a regex hit.
    pub fn search_prev<F: Fn(i32) -> Vec<char>>(&mut self, get_line: F) -> (r: bool)
        requires
            old(self).wf(),
            forall|y: i32| #[trigger] get_line.requires((y,)),
        ensures
            final(self).wf(),
            old(self).last_search is None ==> r == false && *final(self) == *old(self),
            final(self).last_search == old(self).last_search,
            r == false ==> *final(self) == *old(self),
            match old(self).last_search {
                Some(ls) => r == true ==> regex_accepts(ls.0@)
                    && exists|line: Seq<char>, y: i32, x: u16|
                        #[trigger] search_hit(ls.0@, line, *old(self), y, x)
                            && *final(self) == old(self).moved_to(BufferPos { x, y }),
                None => true,
            },
    {
        let (pattern, forward) = match &self.last_search {
            Some((p, f)) => (p.clone(), *f),
            None => {
                return false;
            }
        };
        self.search_next_impl(pattern.as_str(), !forward, &get_line)
    }

    /// Arm a find-char motion (`f`/`F`/`t`/`T`), waiting for its
    /// character.
    pub fn start_find_char(&mut self, forward: bool, inclusive: bool)
        ensures
            *final(self) == (CopyModeState {
                pending_find: Some((forward, inclusive)),
                ..*old(self)
            }),
    {
        self.pending_find = Some((forward, inclusive));
    }

    /// Where a find-char motion lands, or `None` when the character
    /// does not occur on the searched side.
    pub open spec fn find_char_target(line: Seq<char>, x: int, c: char, forward: bool,
        inclusive: bool) -> Option<int> {
        if forward {
            match find_fwd(line, x + 1, c) {
                Some(i) => Some(if inclusive {
                    i
                } else {
                    if i >= 1 { i - 1 } else { 0 }
                }),
                None => None,
            }
        } else {
            if x == 0 {
                None
            } else {
                let from = if x - 1 < line.len() { x - 1 } else { line.len() - 1 };
                match find_back(line, from, c) {
                    Some(i) => Some(if inclusive { i } else { i + 1 }),
                    None => None,
                }
            }
        }
    }

    /// The find-char motion itself.
    fn find_char_impl(&mut self, c: char, forward: bool, inclusive: bool,
        line_content: &[char]) -> (r: bool)
        requires
            old(self).wf(),
        ensures
            final(self).wf(),
            *final(self) == (match Self::find_char_target(line_content@,
                    old(self).cursor.x as int, c, forward, inclusive) {
                Some(t) => old(self).moved_to(BufferPos {
                    x: t as u16,
                    y: old(self).cursor.y,
                }),
                None => *old(self),
            }),
            r == Self::find_char_target(line_content@, old(self).cursor.x as int, c,
                forward, inclusive) is Some,
    {
        let x = self.cursor.x as usize;
        let len = line_content.len();
        if forward {
            if x + 1 > len {
                proof {
                    assert(find_fwd(line_content@, x + 1 as int, c) is None);
                }
                return false;
            }
            let mut i: usize = x + 1;
            loop
                invariant
                    x + 1 <= i <= len,
                    len == line_content@.len(),
                    find_fwd(line_content@, x + 1 as int, c)
                        == find_fwd(line_content@, i as int, c),
                ensures
                    x + 1 <= i <= len,
                    i < len ==> find_fwd(line_content@, x + 1 as int, c) == Some(i as int),
                    i >= len ==> find_fwd(line_content@, x + 1 as int, c) is None,
                decreases len - i,
            {
                if i >= len {
                    break;
                }
                if line_content[i] == c {
                    break;
                }
                i = i + 1;
            }
            if i < len {
                let t: usize = if inclusive {
                    i
                } else {
                    if i >= 1 { i - 1 } else { 0 }
                };
                let x16: u16 = #[verifier::truncate] (t as u16);
                self.move_cursor(BufferPos::new(x16, self.cursor.y));
                true
            } else {
                false
            }
        } else {
            if x == 0 || len == 0 {
                return false;
            }
            let from: usize = if x - 1 < len { x - 1 } else { len - 1 };
            let mut i: usize = from;
            let mut found: bool = false;
            loop
                invariant_except_break
                    !found,
                    find_back(line_content@, from as int, c)
                        == find_back(line_content@, i as int, c),
                invariant
                    i <= from < len,
                    len == line_content@.len(),
                ensures
                    i <= from < len,
                    found ==> find_back(line_content@, from as int, c) == Some(i as int),
                    !found ==> find_back(line_content@, from as int, c) is None,
                decreases i + 1,
            {
                if line_content[i] == c {
                    proof {
                        assert(find_back(line_content@, i as int, c) == Some(i as int));
                    }
                    found = true;
                    break;
                }
                if i == 0 {
                    proof {
                        assert(find_back(line_content@, -1, c) is None);
                    }
                    break;
                }
                proof {
                    assert(find_back(line_content@, i as int, c)
                        == find_back(line_content@, i as int - 1, c));
                }
                i = i - 1;
            }
            if found {
                let t: usize = if inclusive { i } else { i + 1 };
                let x16: u16 = #[verifier::truncate] (t as u16);
                self.move_cursor(BufferPos::new(x16, self.cursor.y));
                true
            } else {
                false
            }
        }
    }

    /// Complete an armed find-char motion with its character, and
    /// remember it for repeats: on success the cursor lands on the
    /// occurrence (inclusive) or one column short of it.
    pub fn do_find_char(&mut self, c: char, line_content: &[char]) -> (r: bool)
        requires
            old(self).wf(),
        ensures
            final(self).wf(),
            old(self).pending_find is None ==> r == false && *final(self) == *old(self),
            final(self).pending_find is None,
            match old(self).pending_find {
                Some(fi) => ({
                    let mid = CopyModeState {
                        pending_find: None,
                        last_find: Some(FindChar { target: c, forward: fi.0, inclusive: fi.1 }),
                        ..*old(self)
                    };
                    let found = Self::find_char_target(line_content@,
                        old(self).cursor.x as int, c, fi.0, fi.1);
                    &&& r == found is Some
                    &&& *final(self) == (match found {
                        Some(t) => mid.moved_to(BufferPos {
                            x: t as u16,
                            y: old(self).cursor.y,
                        }),
                        None => mid,
                    })
                }),
                None => true,
            },
    {
        let (forward, inclusive) = match self.pending_find {
            Some(f) => f,
            None => {
                return false;
            }
        };
        self.pending_find = None;
        self.last_find = Some(FindChar { target: c, forward, inclusive });
        self.find_char_impl(c, forward, inclusive, line_content)
    }

    /// Repeat the last find-char motion (`;`): the cursor lands as the
    /// remembered motion dictates.
    pub fn repeat_find(&mut self, line_content: &[char]) -> (r: bool)
        requires
            old(self).wf(),
        ensures
            final(self).wf(),
            old(self).last_find is None ==> r == false && *final(self) == *old(self),
            match old(self).last_find {
                Some(f) => ({
                    let found = Self::find_char_target(line_content@,
                        old(self).cursor.x as int, f.target, f.forward, f.inclusive);
                    &&& r == found is Some
                    &&& *final(self) == (match found {
                        Some(t) => old(self).moved_to(BufferPos {
                            x: t as u16,
                            y: old(self).cursor.y,
                        }),
                        None => *old(self),
                    })
                }),
                None => true,
            },
    {
        match self.last_find {
            Some(f) => self.find_char_impl(f.target, f.forward, f.inclusive, line_content),
            None => false,
        }
    }

    /// Repeat the last find-char motion in the opposite direction (`,`).
    pub fn repeat_find_reverse(&mut self, line_content: &[char]) -> (r: bool)
        requires
            old(self).wf(),
        ensures
            final(self).wf(),
            old(self).last_find is None ==> r == false && *final(self) == *old(self),
            match old(self).last_find {
                Some(f) => ({
                    let found = Self::find_char_target(line_content@,
                        old(self).cursor.x as int, f.target, !f.forward, f.inclusive);
                    &&& r == found is Some
                    &&& *final(self) == (match found {
                        Some(t) => old(self).moved_to(BufferPos {
                            x: t as u16,
                            y: old(self).cursor.y,
                        }),
                        None => *old(self),
                    })
                }),
                None => true,
            },
    {
        match self.last_find {
            Some(f) => self.find_char_impl(f.target, !f.forward, f.inclusive, line_content),
            None => false,
        }
    }
}

/// The elements of `s` from `from` on, as a fresh vector.
fn slice_from(s: &[char], from: usize) -> (r: Vec<char>)
    requires
        from <= s@.len(),
    ensures
        r@ == s@.skip(from as int),
{
    let mut out: Vec<char> = Vec::new();
    let mut i: usize = from;
    while i < s.len()
        invariant
            from <= i <= s@.len(),
            out@ =~= s@.subrange(from as int, i as int),
        decreases s@.len() - i,
    {
        out.push(s[i]);
        i = i + 1;
    }
    proof {
        assert(out@ =~= s@.skip(from as int));
    }
    out
}

/// The first `upto` elements of `s`, as a fresh vector.
fn slice_upto(s: &[char], upto: usize) -> (r: Vec<char>)
    requires
        upto <= s@.len(),
    ensures
        r@ == s@.take(upto as int),
{
    let mut out: Vec<char> = Vec::new();
    let mut i: usize = 0;
    while i < upto
        invariant
            i <= upto <= s@.len(),
            out@ =~= s@.subrange(0, i as int),
        decreases upto - i,
    {
        out.push(s[i]);
        i = i + 1;
    }
    out
}

} // verus!

verus! {

/// Backward scan for an unmatched opening bracket at or before `i`,
/// counting nested `close` brackets (a `close` at the scan's starting
/// cursor column `x0` is not counted).
pub open spec fn scan_open_bracket(line: Seq<char>, i: int, x0: int, o: char, cl: char,
    depth: int) -> Option<int>
    decreases i + 1,
    when -1 <= i < line.len()
{
    if i < 0 {
        None
    } else if line[i] == cl && i != x0 {
        scan_open_bracket(line, i - 1, x0, o, cl, depth + 1)
    } else if line[i] == o {
        if depth == 0 {
            Some(i)
        } else {
            scan_open_bracket(line, i - 1, x0, o, cl, depth - 1)
        }
    } else {
        scan_open_bracket(line, i - 1, x0, o, cl, depth)
    }
}

/// Forward scan for the matching closing bracket at or after `i`,
/// counting nested `open` brackets.
pub open spec fn scan_close_bracket(line: Seq<char>, i: int, o: char, cl: char,
    depth: int) -> Option<int>
    decreases line.len() - i,
    when 0 <= i <= line.len()
{
    if i >= line.len() {
        None
    } else if line[i] == o {
        scan_close_bracket(line, i + 1, o, cl, depth + 1)
    } else if line[i] == cl {
        if depth == 0 {
            Some(i)
        } else {
            scan_close_bracket(line, i + 1, o, cl, depth - 1)
        }
    } else {
        scan_close_bracket(line, i + 1, o, cl, depth)
    }
}

impl CopyModeState {
    /// Arm a text object selection (`i` or `a`), waiting for the object
    /// type.
    pub fn start_text_object(&mut self, modifier: TextObjectModifier)
        ensures
            *final(self) == (CopyModeState {
                pending_text_object: Some(modifier),
                ..*old(self)
            }),
    {
        self.pending_text_object = Some(modifier);
    }

    /// The state after a successful object selection from `start` to
    /// `end` on the cursor's row: character-wise visual mode with the
    /// selection spanning the object and the cursor at its end.
    pub open spec fn object_selected(self, start: int, end: int) -> CopyModeState {
        CopyModeState {
            visual_mode: VisualMode::Char,
            cursor: BufferPos { x: end as u16, y: self.cursor.y },
            selection: Some(Selection {
                anchor: BufferPos { x: start as u16, y: self.cursor.y },
                cursor: BufferPos { x: end as u16, y: self.cursor.y },
            }),
            ..self
        }
    }

    /// Enter visual mode over the selected range.
    fn select_range(&mut self, start: usize, end: usize)
        ensures
            *final(self) == old(self).object_selected(start as int, end as int),
    {
        let sx: u16 = #[verifier::truncate] (start as u16);
        let ex: u16 = #[verifier::truncate] (end as u16);
        self.visual_mode = VisualMode::Char;
        self.selection = Some(Selection {
            anchor: BufferPos::new(sx, self.cursor.y),
            cursor: BufferPos::new(ex, self.cursor.y),
        });
        self.cursor = BufferPos::new(ex, self.cursor.y);
    }

    /// The word object under the cursor, or `None` when the cursor lies
    /// past the line's end: the run of the cursor's class, extended for
    /// an around-object over trailing (else leading) whitespace.
    pub open spec fn word_object_range(line: Seq<char>, x: int, inner: bool, big: bool)
        -> Option<(int, int)> {
        if x >= line.len() {
            None
        } else {
            let cls = classify_spec(line[x], big);
            let start = back_to_class_start(line, x, cls, big);
            let end = extend_class_end(line, x, cls, big);
            if inner {
                Some((start, end))
            } else {
                let tend = extend_ws_end(line, end);
                if tend > end {
                    Some((start, tend))
                } else {
                    Some((back_over_ws(line, start), end))
                }
            }
        }
    }

    /// Select the word under the cursor (`iw` / `aw`, `iW` / `aW`).
    fn select_word_object(&mut self, line_content: &[char], inner: bool, big_word: bool)
        -> (r: bool)
        ensures
            *final(self) == (match Self::word_object_range(line_content@,
                    old(self).cursor.x as int, inner, big_word) {
                Some(range) => old(self).object_selected(range.0, range.1),
                None => *old(self),
            }),
            r == Self::word_object_range(line_content@, old(self).cursor.x as int, inner,
                big_word) is Some,
    {
        let x = self.cursor.x as usize;
        let len = line_content.len();
        if x >= len {
            return false;
        }
        let cls = classify_exec(line_content[x], big_word);
        let mut start: usize = x;
        loop
            invariant
                start <= x < len,
                len == line_content@.len(),
                cls == classify_spec(line_content@[x as int], big_word),
                back_to_class_start(line_content@, x as int, cls, big_word)
                    == back_to_class_start(line_content@, start as int, cls, big_word),
            ensures
                start <= x < len,
                back_to_class_start(line_content@, x as int, cls, big_word) == start as int,
            decreases start,
        {
            if start == 0 {
                break;
            }
            if classify_exec(line_content[start - 1], big_word) != cls {
                break;
            }
            start = start - 1;
        }
        let mut end: usize = x;
        loop
            invariant
                x <= end < len,
                len == line_content@.len(),
                cls == classify_spec(line_content@[x as int], big_word),
                extend_class_end(line_content@, x as int, cls, big_word)
                    == extend_class_end(line_content@, end as int, cls, big_word),
            ensures
                x <= end < len,
                extend_class_end(line_content@, x as int, cls, big_word) == end as int,
            decreases len - end,
        {
            if end + 1 >= len {
                break;
            }
            if classify_exec(line_content[end + 1], big_word) != cls {
                break;
            }
            end = end + 1;
        }
        if !inner {
            let mut tend: usize = end;
            loop
                invariant
                    end <= tend < len,
                    len == line_content@.len(),
                    extend_ws_end(line_content@, end as int)
                        == extend_ws_end(line_content@, tend as int),
                ensures
                    end <= tend < len,
                    extend_ws_end(line_content@, end as int) == tend as int,
                decreases len - tend,
            {
                if tend + 1 >= len {
                    break;
                }
                if !is_whitespace_exec(line_content[tend + 1]) {
                    break;
                }
                tend = tend + 1;
            }
            if tend > end {
                end = tend;
            } else {
                loop
                    invariant
                        start < len,
                        len == line_content@.len(),
                        back_over_ws(line_content@,
                            back_to_class_start(line_content@, x as int, cls, big_word))
                            == back_over_ws(line_content@, start as int),
                    ensures
                        start < len,
                        back_over_ws(line_content@,
                            back_to_class_start(line_content@, x as int, cls, big_word))
                            == start as int,
                    decreases start,
                {
                    if start == 0 {
                        break;
                    }
                    if !is_whitespace_exec(line_content[start - 1]) {
                        break;
                    }
                    start = start - 1;
                }
            }
        }
        self.select_range(start, end);
        true
    }

    /// The quoted object around the cursor: the nearest `quote` at or
    /// before the cursor, paired with the next one after it.
    pub open spec fn quote_object_range(line: Seq<char>, x: int, inner: bool, quote: char)
        -> Option<(int, int)> {
        if line.len() == 0 {
            None
        } else {
            let from = if x < line.len() { x } else { line.len() - 1 };
            match find_back(line, from, quote) {
                None => None,
                Some(open) => match find_fwd(line, open + 1, quote) {
                    None => None,
                    Some(close) => {
                        let range = if inner {
                            (open + 1, if close >= 1 { close - 1 } else { 0 })
                        } else {
                            (open, close)
                        };
                        if range.0 > range.1 {
                            None
                        } else {
                            Some(range)
                        }
                    }
                },
            }
        }
    }

    /// Select a quoted string around the cursor.
    fn select_quote_object(&mut self, line_content: &[char], inner: bool, quote: char)
        -> (r: bool)
        ensures
            *final(self) == (match Self::quote_object_range(line_content@,
                    old(self).cursor.x as int, inner, quote) {
                Some(range) => old(self).object_selected(range.0, range.1),
                None => *old(self),
            }),
            r == Self::quote_object_range(line_content@, old(self).cursor.x as int, inner,
                quote) is Some,
    {
        let x = self.cursor.x as usize;
        let len = line_content.len();
        if len == 0 {
            return false;
        }
        let from: usize = if x < len { x } else { len - 1 };
        let mut i: usize = from;
        let mut found_open: bool = false;
        loop
            invariant_except_break
                !found_open,
                find_back(line_content@, from as int, quote)
                    == find_back(line_content@, i as int, quote),
            invariant
                i <= from < len,
                len == line_content@.len(),
            ensures
                i <= from < len,
                found_open ==> find_back(line_content@, from as int, quote) == Some(i as int),
                !found_open ==> find_back(line_content@, from as int, quote) is None,
            decreases i + 1,
        {
            if line_content[i] == quote {
                proof {
                    assert(find_back(line_content@, i as int, quote) == Some(i as int));
                }
                found_open = true;
                break;
            }
            if i == 0 {
                proof {
                    assert(find_back(line_content@, -1, quote) is None);
                }
                break;
            }
            proof {
                assert(find_back(line_content@, i as int, quote)
                    == find_back(line_content@, i as int - 1, quote));
            }
            i = i - 1;
        }
        if !found_open {
            return false;
        }
        let open = i;
        let mut j: usize = open + 1;
        loop
            invariant
                open + 1 <= j <= len,
                len == line_content@.len(),
                find_fwd(line_content@, open + 1 as int, quote)
                    == find_fwd(line_content@, j as int, quote),
            ensures
                open + 1 <= j <= len,
                j < len ==> find_fwd(line_content@, open + 1 as int, quote) == Some(j as int),
                j >= len ==> find_fwd(line_content@, open + 1 as int, quote) is None,
            decreases len - j,
        {
            if j >= len {
                break;
            }
            if line_content[j] == quote {
                break;
            }
            j = j + 1;
        }
        if j >= len {
            return false;
        }
        let close = j;
        let (start, end): (usize, usize) = if inner {
            (open + 1, if close >= 1 { close - 1 } else { 0 })
        } else {
            (open, close)
        };
        if start > end {
            return false;
        }
        self.select_range(start, end);
        true
    }

    /// The bracketed object around the cursor, nesting respected.
    pub open spec fn bracket_object_range(line: Seq<char>, x: int, inner: bool, o: char,
        cl: char) -> Option<(int, int)> {
        if line.len() == 0 {
            None
        } else {
            let from = if x < line.len() { x } else { line.len() - 1 };
            match scan_open_bracket(line, from, x, o, cl, 0) {
                None => None,
                Some(open) => match scan_close_bracket(line, open + 1, o, cl, 0) {
                    None => None,
                    Some(close) => {
                        let range = if inner {
                            (open + 1, if close >= 1 { close - 1 } else { 0 })
                        } else {
                            (open, close)
                        };
                        if range.0 > range.1 {
                            None
                        } else {
                            Some(range)
                        }
                    }
                },
            }
        }
    }

    /// Select a bracketed group around the cursor.
    fn select_bracket_object(&mut self, line_content: &[char], inner: bool, open_ch: char,
        close_ch: char) -> (r: bool)
        ensures
            *final(self) == (match Self::bracket_object_range(line_content@,
                    old(self).cursor.x as int, inner, open_ch, close_ch) {
                Some(range) => old(self).object_selected(range.0, range.1),
                None => *old(self),
            }),
            r == Self::bracket_object_range(line_content@, old(self).cursor.x as int, inner,
                open_ch, close_ch) is Some,
    {
        let x = self.cursor.x as usize;
        let len = line_content.len();
        if len == 0 {
            return false;
        }
        let from: usize = if x < len { x } else { len - 1 };
        let ghost x0 = self.cursor.x as int;
        let mut i: usize = from;
        let mut depth: usize = 0;
        let mut found_open: bool = false;
        loop
            invariant_except_break
                !found_open,
                scan_open_bracket(line_content@, from as int, x0, open_ch, close_ch, 0)
                    == scan_open_bracket(line_content@, i as int, x0, open_ch, close_ch,
                        depth as int),
            invariant
                i <= from < len,
                len == line_content@.len(),
                x0 == x,
                depth <= from - i,
            ensures
                i <= from < len,
                found_open ==> scan_open_bracket(line_content@, from as int, x0, open_ch,
                    close_ch, 0) == Some(i as int),
                !found_open ==> scan_open_bracket(line_content@, from as int, x0, open_ch,
                    close_ch, 0) is None,
            decreases i + 1,
        {
            if line_content[i] == close_ch && i != x {
                if i == 0 {
                    proof {
                        assert(scan_open_bracket(line_content@, -1, x0, open_ch, close_ch,
                            depth as int + 1) is None);
                    }
                    break;
                }
                depth = depth + 1;
                i = i - 1;
            } else if line_content[i] == open_ch {
                if depth == 0 {
                    found_open = true;
                    break;
                }
                if i == 0 {
                    proof {
                        assert(scan_open_bracket(line_content@, -1, x0, open_ch, close_ch,
                            depth as int - 1) is None);
                    }
                    break;
                }
                depth = depth - 1;
                i = i - 1;
            } else {
                if i == 0 {
                    proof {
                        assert(scan_open_bracket(line_content@, -1, x0, open_ch, close_ch,
                            depth as int) is None);
                    }
                    break;
                }
                i = i - 1;
            }
        }
        if !found_open {
            return false;
        }
        let open = i;
        let mut j: usize = open + 1;
        let mut depth2: usize = 0;
        let mut found_close: bool = false;
        loop
            invariant_except_break
                !found_close,
                scan_close_bracket(line_content@, open + 1 as int, open_ch, close_ch, 0)
                    == scan_close_bracket(line_content@, j as int, open_ch, close_ch,
                        depth2 as int),
            invariant
                open + 1 <= j <= len,
                len == line_content@.len(),
                depth2 <= j - open - 1,
            ensures
                open + 1 <= j <= len,
                found_close ==> j < len && scan_close_bracket(line_content@, open + 1 as int,
                    open_ch, close_ch, 0) == Some(j as int),
                !found_close ==> scan_close_bracket(line_content@, open + 1 as int, open_ch,
                    close_ch, 0) is None,
            decreases len - j,
        {
            if j >= len {
                break;
            }
            if line_content[j] == open_ch {
                depth2 = depth2 + 1;
                j = j + 1;
            } else if line_content[j] == close_ch {
                if depth2 == 0 {
                    found_close = true;
                    break;
                }
                depth2 = depth2 - 1;
                j = j + 1;
            } else {
                j = j + 1;
            }
        }
        if !found_close {
            return false;
        }
        let close = j;
        let (start, end): (usize, usize) = if inner {
            (open + 1, if close >= 1 { close - 1 } else { 0 })
        } else {
            (open, close)
        };
        if start > end {
            return false;
        }
        self.select_range(start, end);
        true
    }

    /// The range a text object type selects: `w`/`W` words, quote
    /// characters, and the bracket pairs (with their vim aliases);
    /// `None` for unknown types or when no such object surrounds the
    /// cursor.
    pub open spec fn text_object_range(obj_type: char, line: Seq<char>, x: int, inner: bool)
        -> Option<(int, int)> {
        if obj_type == 'w' {
            Self::word_object_range(line, x, inner, false)
        } else if obj_type == 'W' {
            Self::word_object_range(line, x, inner, true)
        } else if obj_type == '"' {
            Self::quote_object_range(line, x, inner, '"')
        } else if obj_type == '\'' {
            Self::quote_object_range(line, x, inner, '\'')
        } else if obj_type == '`' {
            Self::quote_object_range(line, x, inner, '`')
        } else if obj_type == '(' || obj_type == ')' || obj_type == 'b' {
            Self::bracket_object_range(line, x, inner, '(', ')')
        } else if obj_type == '[' || obj_type == ']' {
            Self::bracket_object_range(line, x, inner, '[', ']')
        } else if obj_type == '{' || obj_type == '}' || obj_type == 'B' {
            Self::bracket_object_range(line, x, inner, '{', '}')
        } else if obj_type == '<' || obj_type == '>' {
            Self::bracket_object_range(line, x, inner, '<', '>')
        } else {
            None
        }
    }

    /// Select a text object after an armed modifier. On success the
    /// selection spans exactly the object's range on the cursor's row,
    /// in character-wise visual mode, with the cursor at its end. False
    /// (and only the pending marker cleared) when nothing is armed, the
    /// object type is unknown, or no object surrounds the cursor.
    pub fn select_text_object(&mut self, obj_type: char, line_content: &[char]) -> (r: bool)
        ensures
            old(self).pending_text_object is None ==> r == false
                && *final(self) == *old(self),
            final(self).pending_text_object is None,
            match old(self).pending_text_object {
                Some(m) => ({
                    let mid = CopyModeState { pending_text_object: None, ..*old(self) };
                    let range = Self::text_object_range(obj_type, line_content@,
                        old(self).cursor.x as int, m == TextObjectModifier::Inner);
                    &&& r == range is Some
                    &&& *final(self) == (match range {
                        Some(rg) => mid.object_selected(rg.0, rg.1),
                        None => mid,
                    })
                }),
                None => true,
            },
    {
        let modifier = match self.pending_text_object {
            Some(m) => m,
            None => {
                return false;
            }
        };
        self.pending_text_object = None;
        let inner = match modifier {
            TextObjectModifier::Inner => true,
            TextObjectModifier::Around => false,
        };
        if obj_type == 'w' {
            self.select_word_object(line_content, inner, false)
        } else if obj_type == 'W' {
            self.select_word_object(line_content, inner, true)
        } else if obj_type == '"' {
            self.select_quote_object(line_content, inner, '"')
        } else if obj_type == '\'' {
            self.select_quote_object(line_content, inner, '\'')
        } else if obj_type == '`' {
            self.select_quote_object(line_content, inner, '`')
        } else if obj_type == '(' || obj_type == ')' || obj_type == 'b' {
            self.select_bracket_object(line_content, inner, '(', ')')
        } else if obj_type == '[' || obj_type == ']' {
            self.select_bracket_object(line_content, inner, '[', ']')
        } else if obj_type == '{' || obj_type == '}' || obj_type == 'B' {
            self.select_bracket_object(line_content, inner, '{', '}')
        } else if obj_type == '<' || obj_type == '>' {
            self.select_bracket_object(line_content, inner, '<', '>')
        } else {
            false
        }
    }
}

} // verus!
