//! Pane bookkeeping: identifiers, layout rectangles, the plain pane
//! record the manager tracks, and the messages reader threads send.

use vstd::prelude::*;

use crate::tag::TagSet;

verus! {

/// Unique identifier for a pane.
#[derive(Debug, Clone, Copy, PartialEq, Eq, Hash, Structural)]
pub struct PaneId(pub u32);

/// Rectangle defining a pane's position and size in the terminal.
#[derive(Debug, Clone, Copy, PartialEq, Eq, Structural)]
pub struct Rect {
    /// Left column.
    pub x: u16,
    /// Top row.
    pub y: u16,
    /// Width in columns.
    pub width: u16,
    /// Height in rows.
    pub height: u16,
}

impl Rect {
    /// A rectangle from its coordinates.
    pub fn new(x: u16, y: u16, width: u16, height: u16) -> (r: Self)
        ensures
            r == (Rect { x, y, width, height }),
    {
        Self { x, y, width, height }
    }
}

impl Default for Rect {
    /// The empty rectangle at the origin.
    fn default() -> (r: Self)
        ensures
            r == (Rect { x: 0, y: 0, width: 0, height: 0 }),
    {
        Rect { x: 0, y: 0, width: 0, height: 0 }
    }
}

/// Messages from PTY reader threads to the consuming loop.
pub enum PtyMessage {
    /// A chunk of process output for one pane.
    Data {
        /// The pane the bytes belong to.
        pane_id: PaneId,
        /// The raw bytes read.
        data: Vec<u8>,
    },
    /// The pane's process reached end of stream.
    Exit {
        /// The pane whose stream ended.
        pane_id: PaneId,
    },
}

/// The plain record of a pane that the manager's logic reads: identity,
/// layout rectangle, tags and exit state. The process handles behind a
/// pane live with the I/O layer, keyed by `PaneId`.
#[derive(Debug, Clone, Copy, PartialEq, Eq, Structural)]
pub struct PaneInfo {
    /// The pane's identifier.
    pub id: PaneId,
    /// The pane's layout rectangle.
    pub rect: Rect,
    /// The pane's tags.
    pub tags: TagSet,
    /// Whether the pane's process has exited.
    pub exited: bool,
}

} // verus!

verus! {

/// Index of the first pane with identifier `id` at or after `i`.
pub open spec fn find_pane(s: Seq<PaneInfo>, id: PaneId, i: int) -> Option<int>
    decreases s.len() - i,
{
    if i < 0 || i >= s.len() {
        None
    } else if s[i].id == id {
        Some(i)
    } else {
        find_pane(s, id, i + 1)
    }
}

/// Index of the first pane at or after `i` visible in `view` (sharing a
/// tag with it).
pub open spec fn first_visible(s: Seq<PaneInfo>, view: crate::tag::TagSet, i: int)
    -> Option<int>
    decreases s.len() - i,
{
    if i < 0 || i >= s.len() {
        None
    } else if s[i].tags.0 & view.0 != 0 {
        Some(i)
    } else {
        first_visible(s, view, i + 1)
    }
}

/// The identifiers of the panes visible in `view`, in pane order.
pub open spec fn visible_ids(s: Seq<PaneInfo>, view: crate::tag::TagSet) -> Seq<PaneId>
    decreases s.len(),
{
    if s.len() == 0 {
        Seq::empty()
    } else {
        (if s[0].tags.0 & view.0 != 0 { seq![s[0].id] } else { Seq::empty() })
            + visible_ids(s.skip(1), view)
    }
}

/// The panes that have not exited, in order.
pub open spec fn surviving(s: Seq<PaneInfo>) -> Seq<PaneInfo>
    decreases s.len(),
{
    if s.len() == 0 {
        Seq::empty()
    } else {
        (if !s[0].exited { seq![s[0]] } else { Seq::empty() }) + surviving(s.skip(1))
    }
}

/// The column of a pane's center.
pub open spec fn pane_center_x(p: PaneInfo) -> int {
    p.rect.x + p.rect.width as int / 2
}

/// The row of a pane's center.
pub open spec fn pane_center_y(p: PaneInfo) -> int {
    p.rect.y + p.rect.height as int / 2
}

/// Whether a pane's center lies in the direction (`dx`, `dy`) (one of
/// the four axis units) of the point (`fcx`, `fcy`).
pub open spec fn dir_ok(p: PaneInfo, fcx: int, fcy: int, dx: i32, dy: i32) -> bool {
    if dx == -1 && dy == 0 {
        pane_center_x(p) < fcx
    } else if dx == 1 && dy == 0 {
        pane_center_x(p) > fcx
    } else if dx == 0 && dy == -1 {
        pane_center_y(p) < fcy
    } else if dx == 0 && dy == 1 {
        pane_center_y(p) > fcy
    } else {
        false
    }
}

/// Manhattan distance between a pane's center and (`fcx`, `fcy`).
pub open spec fn dir_dist(p: PaneInfo, fcx: int, fcy: int) -> int {
    (if pane_center_x(p) >= fcx {
        pane_center_x(p) - fcx
    } else {
        fcx - pane_center_x(p)
    }) + (if pane_center_y(p) >= fcy {
        pane_center_y(p) - fcy
    } else {
        fcy - pane_center_y(p)
    })
}

/// Whether pane `i` competes for a directional focus move: not the
/// focused pane itself, visible in the view, not hidden (zero-sized),
/// and in the requested direction.
pub open spec fn dir_eligible(s: Seq<PaneInfo>, view: crate::tag::TagSet, fidx: int, fcx: int,
    fcy: int, dx: i32, dy: i32, i: int) -> bool {
    &&& i != fidx
    &&& s[i].tags.0 & view.0 != 0
    &&& s[i].rect.width != 0
    &&& s[i].rect.height != 0
    &&& dir_ok(s[i], fcx, fcy, dx, dy)
}

/// The nearest eligible pane in the given direction, scanning from `i`
/// with `best` the nearest so far: the first pane of minimal Manhattan
/// distance wins.
pub open spec fn best_in_direction(s: Seq<PaneInfo>, view: crate::tag::TagSet, fidx: int,
    fcx: int, fcy: int, dx: i32, dy: i32, i: int, best: Option<int>) -> Option<int>
    decreases s.len() - i,
{
    if i < 0 || i >= s.len() {
        best
    } else {
        let take = dir_eligible(s, view, fidx, fcx, fcy, dx, dy, i) && (match best {
            Some(b) => dir_dist(s[i], fcx, fcy) < dir_dist(s[b], fcx, fcy),
            None => true,
        });
        best_in_direction(s, view, fidx, fcx, fcy, dx, dy, i + 1,
            if take { Some(i) } else { best })
    }
}

/// Manages the ordered collection of panes: the first visible pane is
/// the master. Holds only the panes' plain records; the process handles
/// live with the I/O layer, keyed by `PaneId`.
pub struct PaneManager {
    panes: Vec<PaneInfo>,
    focus: Option<usize>,
    next_id: u32,
}

impl PaneManager {
    /// The managed records, in order.
    pub closed spec fn panes(&self) -> Seq<PaneInfo> {
        self.panes@
    }

    /// The focused index, if any.
    pub closed spec fn focus(&self) -> Option<usize> {
        self.focus
    }

    /// The focus, when set, addresses a pane.
    pub open spec fn wf(&self) -> bool {
        match self.focus() {
            Some(f) => f < self.panes().len(),
            None => true,
        }
    }

    /// An empty manager.
    pub fn new() -> (r: PaneManager)
        ensures
            r.panes().len() == 0,
            r.focus() is None,
            r.wf(),
    {
        PaneManager { panes: Vec::new(), focus: None, next_id: 0 }
    }

    /// The next fresh pane identifier (wrapping after the full `u32`
    /// range).
    pub fn next_id(&mut self) -> (r: PaneId)
        ensures
            r == PaneId(old(self).next_id_counter()),
            final(self).panes() == old(self).panes(),
            final(self).focus() == old(self).focus(),
            old(self).wf() ==> final(self).wf(),
    {
        let id = PaneId(self.next_id);
        self.next_id = self.next_id.wrapping_add(1);
        id
    }

    /// The identifier counter.
    pub closed spec fn next_id_counter(&self) -> u32 {
        self.next_id
    }

    /// Add a pane at the front (it becomes the master) and focus it.
    pub fn add(&mut self, pane: PaneInfo) -> (r: PaneId)
        ensures
            r == pane.id,
            final(self).panes() == seq![pane] + old(self).panes(),
            final(self).focus() == Some(0usize),
            final(self).wf(),
    {
        let id = pane.id;
        self.panes.insert(0, pane);
        self.focus = Some(0);
        proof {
            assert(self.panes() =~= seq![pane] + old(self).panes());
        }
        id
    }

    /// The focused pane.
    pub fn focused(&self) -> (r: Option<&PaneInfo>)
        requires
            self.wf(),
        ensures
            r == (match self.focus() {
                Some(f) => Some(&self.panes()[f as int]),
                None => None::<&PaneInfo>,
            }),
    {
        match self.focus {
            Some(f) => Some(&self.panes[f]),
            None => None,
        }
    }

    /// The pane with identifier `id`.
    pub fn get(&self, id: PaneId) -> (r: Option<&PaneInfo>)
        ensures
            r == (match find_pane(self.panes(), id, 0) {
                Some(p) => Some(&self.panes()[p]),
                None => None::<&PaneInfo>,
            }),
    {
        let n = self.panes.len();
        let mut i: usize = 0;
        loop
            invariant
                i <= n,
                n == self.panes@.len(),
                find_pane(self.panes(), id, 0) == find_pane(self.panes(), id, i as int),
            ensures
                i <= n,
                i < n ==> find_pane(self.panes(), id, 0) == Some(i as int),
                i >= n ==> find_pane(self.panes(), id, 0) is None,
            decreases n - i,
        {
            if i >= n {
                break;
            }
            if self.panes[i].id == id {
                break;
            }
            i = i + 1;
        }
        if i < n {
            Some(&self.panes[i])
        } else {
            None
        }
    }

    /// All panes, in order.
    pub fn all(&self) -> (r: &Vec<PaneInfo>)
        ensures
            r@ == self.panes(),
    {
        &self.panes
    }

    /// Whether no pane is managed.
    pub fn is_empty(&self) -> (r: bool)
        ensures
            r == (self.panes().len() == 0),
    {
        self.panes.is_empty()
    }

    /// Remove the pane with identifier `id`, returning its record. The
    /// focus follows the pane it was on where possible.
    pub fn remove(&mut self, id: PaneId) -> (r: Option<PaneInfo>)
        requires
            old(self).wf(),
        ensures
            final(self).wf(),
            match find_pane(old(self).panes(), id, 0) {
                Some(p) => r == Some(old(self).panes()[p])
                    && final(self).panes() == old(self).panes().remove(p),
                None => r is None && *final(self) == *old(self),
            },
    {
        let n = self.panes.len();
        let mut i: usize = 0;
        loop
            invariant
                i <= n,
                n == self.panes@.len(),
                *self == *old(self),
                find_pane(self.panes(), id, 0) == find_pane(self.panes(), id, i as int),
            ensures
                i <= n,
                *self == *old(self),
                i < n ==> find_pane(self.panes(), id, 0) == Some(i as int),
                i >= n ==> find_pane(self.panes(), id, 0) is None,
            decreases n - i,
        {
            if i >= n {
                break;
            }
            if self.panes[i].id == id {
                break;
            }
            i = i + 1;
        }
        if i >= n {
            return None;
        }
        let pane = self.panes.remove(i);
        let new_len = self.panes.len();
        if new_len == 0 {
            self.focus = None;
        } else {
            match self.focus {
                Some(f) => {
                    if f >= new_len {
                        self.focus = Some(new_len - 1);
                    } else if f > i {
                        self.focus = Some(f - 1);
                    }
                }
                None => {}
            }
        }
        Some(pane)
    }

    /// Mark the pane with identifier `id` as exited.
    pub fn mark_exited(&mut self, id: PaneId)
        requires
            old(self).wf(),
        ensures
            final(self).wf(),
            final(self).focus() == old(self).focus(),
            match find_pane(old(self).panes(), id, 0) {
                Some(p) => final(self).panes() == old(self).panes().update(p,
                    PaneInfo { exited: true, ..old(self).panes()[p] }),
                None => final(self).panes() == old(self).panes(),
            },
    {
        let n = self.panes.len();
        let mut i: usize = 0;
        loop
            invariant
                i <= n,
                n == self.panes@.len(),
                *self == *old(self),
                find_pane(self.panes(), id, 0) == find_pane(self.panes(), id, i as int),
            ensures
                i <= n,
                *self == *old(self),
                i < n ==> find_pane(self.panes(), id, 0) == Some(i as int),
                i >= n ==> find_pane(self.panes(), id, 0) is None,
            decreases n - i,
        {
            if i >= n {
                break;
            }
            if self.panes[i].id == id {
                break;
            }
            i = i + 1;
        }
        if i < n {
            let prev = self.panes[i];
            self.panes.set(i, PaneInfo { exited: true, ..prev });
        }
    }

    /// Drop every exited pane, keeping the order of the rest. Afterwards
    /// the focus points at the front pane when any remain.
    pub fn remove_exited(&mut self)
        requires
            old(self).wf(),
        ensures
            final(self).wf(),
            final(self).panes() == surviving(old(self).panes()),
            final(self).focus() == (if surviving(old(self).panes()).len() > 0 {
                Some(0usize)
            } else {
                None::<usize>
            }),
    {
        let mut kept: Vec<PaneInfo> = Vec::new();
        let n = self.panes.len();
        let mut i: usize = 0;
        proof {
            assert(self.panes().skip(0) =~= self.panes());
            assert(kept@ + surviving(self.panes()) =~= surviving(self.panes()));
        }
        while i < n
            invariant
                i <= n,
                n == self.panes@.len(),
                *self == *old(self),
                surviving(self.panes()) == kept@ + surviving(self.panes().skip(i as int)),
            decreases n - i,
        {
            proof {
                assert(self.panes().skip(i as int)[0] == self.panes()[i as int]);
                assert(self.panes().skip(i as int).skip(1) =~= self.panes().skip(i as int + 1));
            }
            let p = self.panes[i];
            if !p.exited {
                kept.push(p);
            }
            i = i + 1;
        }
        proof {
            assert(surviving(self.panes().skip(n as int)) =~= Seq::<PaneInfo>::empty());
            assert(kept@ + surviving(self.panes().skip(n as int)) =~= kept@);
        }
        let has_any = kept.len() > 0;
        self.panes = kept;
        self.focus = if has_any { Some(0) } else { None };
    }

    /// The identifiers of the panes visible in `view`, in layout order
    /// (first is the master).
    pub fn visible_in_view(&self, view: crate::tag::TagSet) -> (r: Vec<PaneId>)
        ensures
            r@ == visible_ids(self.panes(), view),
    {
        let mut out: Vec<PaneId> = Vec::new();
        let n = self.panes.len();
        let mut i: usize = 0;
        proof {
            assert(self.panes().skip(0) =~= self.panes());
            assert(out@ + visible_ids(self.panes(), view) =~= visible_ids(self.panes(), view));
        }
        while i < n
            invariant
                i <= n,
                n == self.panes@.len(),
                visible_ids(self.panes(), view) == out@
                    + visible_ids(self.panes().skip(i as int), view),
            decreases n - i,
        {
            proof {
                assert(self.panes().skip(i as int)[0] == self.panes()[i as int]);
                assert(self.panes().skip(i as int).skip(1) =~= self.panes().skip(i as int + 1));
            }
            let p = &self.panes[i];
            if p.tags.intersects(view) {
                out.push(p.id);
            }
            i = i + 1;
        }
        proof {
            assert(visible_ids(self.panes().skip(n as int), view) =~= Seq::<PaneId>::empty());
        }
        out
    }

    /// Whether any pane carries `tag`.
    pub fn any_with_tag(&self, tag: u8) -> (r: bool)
        ensures
            r == exists|i: int| 0 <= i < self.panes().len()
                && (#[trigger] self.panes()[i]).tags.0 & (1u64 << tag) != 0 && tag < 64,
    {
        let n = self.panes.len();
        let mut i: usize = 0;
        while i < n
            invariant
                i <= n,
                n == self.panes@.len(),
                forall|j: int| 0 <= j < i ==> !((#[trigger] self.panes()[j]).tags.0
                    & (1u64 << tag) != 0 && tag < 64),
            decreases n - i,
        {
            if self.panes[i].tags.contains(tag) {
                proof {
                    assert((self.panes()[i as int]).tags.0 & (1u64 << tag) != 0 && tag < 64);
                }
                return true;
            }
            i = i + 1;
        }
        false
    }

    /// Focus the pane with identifier `id`, if it exists.
    pub fn focus_by_id(&mut self, id: PaneId)
        requires
            old(self).wf(),
        ensures
            final(self).wf(),
            final(self).panes() == old(self).panes(),
            final(self).focus() == (match find_pane(old(self).panes(), id, 0) {
                Some(p) => Some(p as usize),
                None => old(self).focus(),
            }),
    {
        let n = self.panes.len();
        let mut i: usize = 0;
        loop
            invariant
                i <= n,
                n == self.panes@.len(),
                *self == *old(self),
                find_pane(self.panes(), id, 0) == find_pane(self.panes(), id, i as int),
            ensures
                i <= n,
                *self == *old(self),
                i < n ==> find_pane(self.panes(), id, 0) == Some(i as int),
                i >= n ==> find_pane(self.panes(), id, 0) is None,
            decreases n - i,
        {
            if i >= n {
                break;
            }
            if self.panes[i].id == id {
                break;
            }
            i = i + 1;
        }
        if i < n {
            self.focus = Some(i);
        }
    }

    /// Keep the focus on a pane visible in `view`: keep it when it
    /// already is, else take the first visible pane, else none.
    pub fn ensure_focus_in_view(&mut self, view: crate::tag::TagSet)
        requires
            old(self).wf(),
        ensures
            final(self).wf(),
            final(self).panes() == old(self).panes(),
            match final(self).focus() {
                Some(f) => f < final(self).panes().len()
                    && final(self).panes()[f as int].tags.0 & view.0 != 0,
                None => first_visible(old(self).panes(), view, 0) is None,
            },
    {
        match self.focus {
            Some(f) => {
                if self.panes[f].tags.intersects(view) {
                    return;
                }
            }
            None => {}
        }
        let n = self.panes.len();
        let mut i: usize = 0;
        loop
            invariant
                i <= n,
                n == self.panes@.len(),
                *self == *old(self),
                first_visible(self.panes(), view, 0) == first_visible(self.panes(), view,
                    i as int),
            ensures
                i <= n,
                *self == *old(self),
                i < n ==> first_visible(self.panes(), view, 0) == Some(i as int)
                    && self.panes()[i as int].tags.0 & view.0 != 0,
                i >= n ==> first_visible(self.panes(), view, 0) is None,
            decreases n - i,
        {
            if i >= n {
                break;
            }
            if self.panes[i].tags.intersects(view) {
                break;
            }
            i = i + 1;
        }
        if i < n {
            self.focus = Some(i);
        } else {
            self.focus = None;
        }
    }

    /// Swap the focused pane with the master (the first pane visible in
    /// `view`); focused on the master already, swap it with the second
    /// visible pane. The focus lands on the master position. A no-op
    /// with fewer than two visible panes or when the focus is not on a
    /// visible pane.
    pub fn swap_with_master(&mut self, view: crate::tag::TagSet)
        requires
            old(self).wf(),
        ensures
            final(self).wf(),
            ({
                let s = old(self).panes();
                match (first_visible(s, view, 0), old(self).focus()) {
                    (Some(m), Some(f)) => match first_visible(s, view, m + 1) {
                        Some(snd) => {
                            if f == m {
                                final(self).panes() == s.update(m, s[snd]).update(snd, s[m])
                                    && final(self).focus() == Some(m as usize)
                            } else if s[f as int].tags.0 & view.0 != 0 {
                                final(self).panes()
                                    == s.update(m, s[f as int]).update(f as int, s[m])
                                    && final(self).focus() == Some(m as usize)
                            } else {
                                *final(self) == *old(self)
                            }
                        },
                        None => *final(self) == *old(self),
                    },
                    _ => *final(self) == *old(self),
                }
            }),
    {
        let n = self.panes.len();
        let mut m: usize = 0;
        loop
            invariant
                m <= n,
                n == self.panes@.len(),
                *self == *old(self),
                first_visible(self.panes(), view, 0) == first_visible(self.panes(), view,
                    m as int),
            ensures
                m <= n,
                *self == *old(self),
                m < n ==> first_visible(self.panes(), view, 0) == Some(m as int),
                m >= n ==> first_visible(self.panes(), view, 0) is None,
            decreases n - m,
        {
            if m >= n {
                break;
            }
            if self.panes[m].tags.intersects(view) {
                break;
            }
            m = m + 1;
        }
        if m >= n {
            return;
        }
        let mut snd: usize = m + 1;
        loop
            invariant
                m + 1 <= snd <= n,
                m < n,
                n == self.panes@.len(),
                *self == *old(self),
                first_visible(self.panes(), view, m as int + 1)
                    == first_visible(self.panes(), view, snd as int),
            ensures
                m + 1 <= snd <= n,
                m < n,
                *self == *old(self),
                snd < n ==> first_visible(self.panes(), view, m as int + 1)
                    == Some(snd as int),
                snd >= n ==> first_visible(self.panes(), view, m as int + 1) is None,
            decreases n - snd,
        {
            if snd >= n {
                break;
            }
            if self.panes[snd].tags.intersects(view) {
                break;
            }
            snd = snd + 1;
        }
        if snd >= n {
            return;
        }
        let focused_idx = match self.focus {
            Some(f) => f,
            None => {
                return;
            }
        };
        if focused_idx == m {
            let a = self.panes[m];
            let b = self.panes[snd];
            self.panes.set(m, b);
            self.panes.set(snd, a);
            self.focus = Some(m);
        } else if self.panes[focused_idx].tags.intersects(view) {
            let a = self.panes[m];
            let b = self.panes[focused_idx];
            self.panes.set(m, b);
            self.panes.set(focused_idx, a);
            self.focus = Some(m);
        }
    }

    /// Move the focus to the nearest pane (by Manhattan distance of
    /// pane centers, the earliest of equals) in the given direction
    /// (`dx`, `dy` one of the four axis units), among the panes visible
    /// in `view`; unchanged when none competes or the focus is not on a
    /// visible pane. The panes themselves are untouched.
    pub fn focus_direction(&mut self, view: crate::tag::TagSet, dx: i32, dy: i32)
        requires
            old(self).wf(),
        ensures
            final(self).wf(),
            final(self).panes() == old(self).panes(),
            final(self).focus() == (match old(self).focus() {
                Some(f) => ({
                    let s = old(self).panes();
                    if s[f as int].tags.0 & view.0 != 0 {
                        match best_in_direction(s, view, f as int, pane_center_x(s[f as int]),
                            pane_center_y(s[f as int]), dx, dy, 0, None) {
                            Some(b) => Some(b as usize),
                            None => old(self).focus(),
                        }
                    } else {
                        old(self).focus()
                    }
                }),
                None => None::<usize>,
            }),
    {
        let focused_idx = match self.focus {
            Some(f) => f,
            None => {
                return;
            }
        };
        let focused = self.panes[focused_idx];
        if !focused.tags.intersects(view) {
            return;
        }
        let fcx: i64 = focused.rect.x as i64 + focused.rect.width as i64 / 2;
        let fcy: i64 = focused.rect.y as i64 + focused.rect.height as i64 / 2;
        let n = self.panes.len();
        let mut best_idx: usize = n;
        let mut best_dist: i64 = i64::MAX;
        let mut i: usize = 0;
        while i < n
            invariant
                i <= n,
                n == self.panes@.len(),
                *self == *old(self),
                focused_idx < n,
                focused == self.panes()[focused_idx as int],
                fcx == pane_center_x(focused),
                fcy == pane_center_y(focused),
                -0x40000 <= fcx <= 0x40000,
                -0x40000 <= fcy <= 0x40000,
                best_idx <= n,
                best_idx < n ==> best_dist
                    == dir_dist(self.panes()[best_idx as int], fcx as int, fcy as int),
                best_idx >= n ==> best_dist == i64::MAX,
                best_in_direction(self.panes(), view, focused_idx as int, fcx as int,
                    fcy as int, dx, dy, 0, None)
                    == best_in_direction(self.panes(), view, focused_idx as int, fcx as int,
                        fcy as int, dx, dy, i as int,
                        if best_idx < n { Some(best_idx as int) } else { None }),
            decreases n - i,
        {
            let pane = &self.panes[i];
            let skip_it = i == focused_idx || !pane.tags.intersects(view)
                || pane.rect.width == 0 || pane.rect.height == 0;
            if !skip_it {
                let cx: i64 = pane.rect.x as i64 + pane.rect.width as i64 / 2;
                let cy: i64 = pane.rect.y as i64 + pane.rect.height as i64 / 2;
                let in_direction = if dx == -1 && dy == 0 {
                    cx < fcx
                } else if dx == 1 && dy == 0 {
                    cx > fcx
                } else if dx == 0 && dy == -1 {
                    cy < fcy
                } else if dx == 0 && dy == 1 {
                    cy > fcy
                } else {
                    false
                };
                if in_direction {
                    let ddx: i64 = if cx >= fcx { cx - fcx } else { fcx - cx };
                    let ddy: i64 = if cy >= fcy { cy - fcy } else { fcy - cy };
                    let dist: i64 = ddx + ddy;
                    if dist < best_dist {
                        best_dist = dist;
                        best_idx = i;
                    }
                }
            }
            i = i + 1;
        }
        if best_idx < n {
            self.focus = Some(best_idx);
        }
    }
}

impl Default for PaneManager {
    /// An empty manager.
    fn default() -> (r: Self)
        ensures
            r.panes().len() == 0,
            r.focus() is None,
            r.wf(),
    {
        PaneManager::new()
    }
}

} // verus!
