//! Layout arrangement: how visible panes tile the content area. The
//! master ratio is a permille value (the I/O layer converts any
//! fractional configuration to permille before it reaches the library).

use vstd::prelude::*;

use crate::pane::{PaneId, Rect};

verus! {

/// Configuration for layouts.
#[derive(Debug, Clone, Copy, PartialEq, Eq, Structural)]
pub struct LayoutConfig {
    /// Width share of the master pane, in permille (100 ..= 900).
    pub master_permille: u16,
}

impl LayoutConfig {
    /// Whether the ratio lies in its working band.
    pub open spec fn wf(&self) -> bool {
        100 <= self.master_permille <= 900
    }
}

impl Default for LayoutConfig {
    /// The default master share: a little over half.
    fn default() -> (r: Self)
        ensures
            r.master_permille == 550,
            r.wf(),
    {
        LayoutConfig { master_permille: 550 }
    }
}

/// The available layout algorithms.
#[derive(Debug, Clone, Copy, PartialEq, Eq, Structural)]
pub enum LayoutKind {
    /// Master pane on the left, the rest stacked on the right.
    VerticalStack,
    /// Only the first pane, over the full area.
    Monocle,
}

/// The master pane's width in a vertical stack: its share of the usable
/// width (one column is reserved for the separator), at least 1.
pub open spec fn master_width_spec(area: Rect, config: LayoutConfig) -> int {
    let usable = if area.width >= 1 { area.width - 1 } else { 0 };
    let w = usable * config.master_permille as int / 1000;
    if w >= 1 {
        w
    } else {
        1
    }
}

/// Vertical stack layout: master on the left, stack on the right.
pub struct VerticalStack;

impl VerticalStack {
    /// Arrange panes: the first takes the master column over the full
    /// height; the rest split the remaining width evenly by rows, the
    /// remainder rows going to the topmost stack panes. Every pane keeps
    /// its position in the result.
    pub fn arrange(&self, pane_ids: &Vec<PaneId>, area: Rect, config: &LayoutConfig)
        -> (r: Vec<(PaneId, Rect)>)
        requires
            config.wf(),
        ensures
            r@.len() == pane_ids@.len(),
            forall|i: int| 0 <= i < r@.len() ==> (#[trigger] r@[i]).0 == pane_ids@[i],
            pane_ids@.len() == 1 ==> r@[0].1 == area,
            pane_ids@.len() >= 2 ==> r@[0].1 == (Rect {
                x: area.x,
                y: area.y,
                width: master_width_spec(area, *config) as u16,
                height: area.height,
            }),
    {
        let mut result: Vec<(PaneId, Rect)> = Vec::new();
        if pane_ids.len() == 0 {
            return result;
        }
        if pane_ids.len() == 1 {
            result.push((pane_ids[0], area));
            return result;
        }
        let usable: u16 = if area.width >= 1 { area.width - 1 } else { 0 };
        proof {
            assert((usable as int) * (config.master_permille as int) <= 0x0383_FC7C)
                by (nonlinear_arith)
                requires
                    usable <= 0xFFFF,
                    config.master_permille <= 900,
            ;
        }
        let mw: u32 = (usable as u32) * (config.master_permille as u32) / 1000;
        let master_width: u16 = if mw >= 1 { mw as u16 } else { 1 };
        result.push((pane_ids[0], Rect::new(area.x, area.y, master_width, area.height)));
        let stack_x: u32 = area.x as u32 + master_width as u32 + 1;
        let stack_x: u16 = if stack_x <= 0xFFFF { stack_x as u16 } else { 0xFFFF };
        let stack_width: u16 = if usable > master_width { usable - master_width } else { 1 };
        let count: usize = pane_ids.len() - 1;
        let count16: u16 = if count <= 0xFFFF { #[verifier::truncate] (count as u16) } else { 0xFFFF };
        let count16: u16 = if count16 >= 1 { count16 } else { 1 };
        let pane_height: u16 = area.height / count16;
        let remainder: u16 = area.height % count16;
        let mut y: u32 = area.y as u32;
        let mut i: usize = 1;
        while i < pane_ids.len()
            invariant
                1 <= i <= pane_ids@.len(),
                result@.len() == i,
                pane_height <= 0xFFFF,
                y <= 0xFFFF_0000,
                forall|j: int| 0 <= j < i ==> (#[trigger] result@[j]).0 == pane_ids@[j],
                result@[0].1 == (Rect {
                    x: area.x,
                    y: area.y,
                    width: master_width as u16,
                    height: area.height,
                }),
                master_width as int == master_width_spec(area, *config),
            decreases pane_ids@.len() - i,
        {
            let extra: u32 = if ((i - 1) as u64) < (remainder as u64) { 1 } else { 0 };
            let height: u32 = pane_height as u32 + extra;
            let ry: u16 = if y <= 0xFFFF { y as u16 } else { 0xFFFF };
            let rh: u16 = if height >= 1 && height <= 0xFFFF {
                height as u16
            } else if height > 0xFFFF {
                0xFFFF
            } else {
                1
            };
            result.push((pane_ids[i], Rect::new(stack_x, ry, stack_width, rh)));
            y = if y <= 0xFFFE_0000 { y + height } else { y };
            i = i + 1;
        }
        result
    }
}

/// Monocle layout: only the first pane is shown, fullscreen.
pub struct Monocle;

impl Monocle {
    /// Arrange panes: the first takes the whole area, the rest are not
    /// placed at all.
    pub fn arrange(&self, pane_ids: &Vec<PaneId>, area: Rect) -> (r: Vec<(PaneId, Rect)>)
        ensures
            r@ == (if pane_ids@.len() == 0 {
                Seq::<(PaneId, Rect)>::empty()
            } else {
                seq![(pane_ids@[0], area)]
            }),
    {
        let mut result: Vec<(PaneId, Rect)> = Vec::new();
        if pane_ids.len() > 0 {
            result.push((pane_ids[0], area));
            proof {
                assert(result@ =~= seq![(pane_ids@[0], area)]);
            }
        }
        result
    }
}

/// Cycles through the available layouts and holds the shared
/// configuration.
pub struct LayoutManager {
    /// The active layout.
    pub current_kind: LayoutKind,
    /// The configuration the layouts share.
    pub config: LayoutConfig,
}

impl LayoutManager {
    /// A manager starting on the vertical stack with the default
    /// configuration.
    pub fn new() -> (r: LayoutManager)
        ensures
            r.current() == LayoutKind::VerticalStack,
            r.config.wf(),
    {
        LayoutManager { current_kind: LayoutKind::VerticalStack, config: LayoutConfig::default() }
    }

    /// The active layout.
    pub open spec fn current(&self) -> LayoutKind {
        self.current_kind
    }

    /// The active layout's name.
    pub fn current_name(&self) -> (r: &'static str)
        ensures
            self.current() == LayoutKind::VerticalStack ==> r@ == "vertical"@,
            self.current() == LayoutKind::Monocle ==> r@ == "monocle"@,
    {
        match self.current_kind {
            LayoutKind::VerticalStack => "vertical",
            LayoutKind::Monocle => "monocle",
        }
    }

    /// Switch to the next layout, cycling.
    pub fn next(&mut self)
        ensures
            final(self).config == old(self).config,
            final(self).current() == (match old(self).current() {
                LayoutKind::VerticalStack => LayoutKind::Monocle,
                LayoutKind::Monocle => LayoutKind::VerticalStack,
            }),
    {
        self.current_kind = match self.current_kind {
            LayoutKind::VerticalStack => LayoutKind::Monocle,
            LayoutKind::Monocle => LayoutKind::VerticalStack,
        };
    }

    /// Arrange panes with the active layout.
    pub fn arrange(&self, pane_ids: &Vec<PaneId>, area: Rect) -> (r: Vec<(PaneId, Rect)>)
        requires
            self.config.wf(),
        ensures
            self.current() == LayoutKind::Monocle ==> r@ == (if pane_ids@.len() == 0 {
                Seq::<(PaneId, Rect)>::empty()
            } else {
                seq![(pane_ids@[0], area)]
            }),
            self.current() == LayoutKind::VerticalStack ==> r@.len() == pane_ids@.len()
                && (forall|i: int| 0 <= i < r@.len() ==> (#[trigger] r@[i]).0 == pane_ids@[i]),
    {
        match self.current_kind {
            LayoutKind::VerticalStack => VerticalStack.arrange(pane_ids, area, &self.config),
            LayoutKind::Monocle => Monocle.arrange(pane_ids, area),
        }
    }

    /// Nudge the master share by `delta` permille, clamped into its
    /// working band.
    pub fn adjust_master(&mut self, delta: i32)
        requires
            -1000 <= delta <= 1000,
        ensures
            final(self).current() == old(self).current(),
            final(self).config.wf(),
            final(self).config.master_permille as int == ({
                let t = old(self).config.master_permille + delta;
                if t < 100 {
                    100int
                } else if t > 900 {
                    900int
                } else {
                    t
                }
            }),
    {
        let t: i32 = self.config.master_permille as i32 + delta;
        let clamped: i32 = if t < 100 {
            100
        } else if t > 900 {
            900
        } else {
            t
        };
        self.config.master_permille = clamped as u16;
    }
}

impl Default for LayoutManager {
    /// A manager starting on the vertical stack.
    fn default() -> (r: Self)
        ensures
            r.current() == LayoutKind::VerticalStack,
            r.config.wf(),
    {
        LayoutManager::new()
    }
}

} // verus!
