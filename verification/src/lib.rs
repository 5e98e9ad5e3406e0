use vstd::prelude::*;

mod cell;
mod compositor;
mod copy_mode;
mod layout;
mod screen;
mod pane;
mod tag;

pub use cell::{Attrs, Cell, Color, Style, ATTR_BOLD, ATTR_DIM, ATTR_ITALIC, ATTR_UNDERLINE, ATTR_REVERSE, ATTR_STRIKETHROUGH};
pub use compositor::{Compositor, CompositorView, RenderOp, RenderedCell};
pub use copy_mode::{BufferPos, CharClass, CopyModeState, FindChar, SearchMode, Selection, TextObjectModifier, VisualMode};
pub use screen::{ParseState, ScreenBuffer, ScreenView, DEFAULT_SCROLLBACK};
pub use layout::{LayoutConfig, LayoutKind, LayoutManager, Monocle, VerticalStack};
pub use pane::{PaneId, PaneInfo, PaneManager, PtyMessage, Rect};
pub use tag::TagSet;

verus! {

} // verus!
