use dvtr::{LayoutManager, Monocle, PaneId, PaneInfo, PaneManager, Rect, TagSet, VerticalStack};

fn info(id: u32, tag: u8) -> PaneInfo {
    PaneInfo { id: PaneId(id), rect: Rect::new(0, 0, 10, 10), tags: TagSet::single(tag), exited: false }
}

#[test]
fn manager_add_focus_remove() {
    let mut m = PaneManager::new();
    assert!(m.is_empty());
    let a = m.next_id();
    m.add(info(a.0, 0));
    let b = m.next_id();
    m.add(info(b.0, 0));
    // The newest pane is the master and holds the focus.
    assert_eq!(m.focused().unwrap().id, b);
    assert_eq!(m.all()[0].id, b);
    assert_eq!(m.all()[1].id, a);
    // Removal by identifier.
    let gone = m.remove(a).unwrap();
    assert_eq!(gone.id, a);
    assert!(m.get(a).is_none());
    assert_eq!(m.focused().unwrap().id, b);
}

#[test]
fn manager_views_and_exits() {
    let mut m = PaneManager::new();
    m.add(info(0, 2));
    m.add(info(1, 1));
    m.add(info(2, 1));
    let view = TagSet::single(1);
    assert_eq!(m.visible_in_view(view), vec![PaneId(2), PaneId(1)]);
    assert!(m.any_with_tag(2));
    assert!(!m.any_with_tag(5));
    m.mark_exited(PaneId(1));
    m.remove_exited();
    assert_eq!(m.all().len(), 2);
    m.ensure_focus_in_view(TagSet::single(2));
    assert_eq!(m.focused().unwrap().id, PaneId(0));
}

#[test]
fn vertical_stack_arranges() {
    let ids = vec![PaneId(0), PaneId(1), PaneId(2)];
    let area = Rect::new(0, 0, 100, 40);
    let mut lm = LayoutManager::new();
    assert_eq!(lm.current_name(), "vertical");
    let placed = VerticalStack.arrange(&ids, area, &lm.config);
    assert_eq!(placed.len(), 3);
    // Master takes 550 permille of the usable 99 columns.
    assert_eq!(placed[0].1, Rect::new(0, 0, 54, 40));
    assert_eq!(placed[1].1, Rect::new(55, 0, 45, 20));
    assert_eq!(placed[2].1, Rect::new(55, 20, 45, 20));
    // Monocle shows only the first pane.
    lm.next();
    assert_eq!(lm.current_name(), "monocle");
    let placed = Monocle.arrange(&ids, area);
    assert_eq!(placed.len(), 1);
    assert_eq!(placed[0], (PaneId(0), area));
    // Ratio adjustment clamps into its band.
    lm.adjust_master(-1000);
    assert_eq!(lm.config.master_permille, 100);
}
