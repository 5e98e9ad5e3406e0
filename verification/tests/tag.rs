use dvtr::TagSet;

#[test]
fn test_single() {
    let t = TagSet::single(0);
    assert!(t.contains(0));
    assert!(!t.contains(1));

    let t = TagSet::single(5);
    assert!(!t.contains(0));
    assert!(t.contains(5));
}

#[test]
fn test_operations() {
    let mut t = TagSet::none();
    assert!(t.is_empty());

    t.add(1);
    t.add(3);
    assert!(t.contains(1));
    assert!(t.contains(3));
    assert!(!t.contains(2));

    t.toggle(3);
    assert!(!t.contains(3));

    t.toggle(3);
    assert!(t.contains(3));
}

#[test]
fn test_intersects() {
    let a = TagSet::single(1);
    let b = TagSet::single(2);
    let c = TagSet::single(1);

    assert!(!a.intersects(b));
    assert!(a.intersects(c));

    let mut multi = TagSet::none();
    multi.add(1);
    multi.add(2);
    assert!(multi.intersects(a));
    assert!(multi.intersects(b));
}

#[test]
fn tag_iter_and_count() {
    let mut t = TagSet::none();
    t.add(0);
    t.add(7);
    t.add(63);
    assert_eq!(t.count(), 3);
    assert_eq!(t.iter(), vec![0, 7, 63]);
    assert_eq!(TagSet::all().count(), 64);
    t.remove(7);
    assert_eq!(t.iter(), vec![0, 63]);
}
