use rouge_tutorial::rect::Rect;

#[test]
fn new_sets_corners_from_origin_and_size() {
    let r = Rect::new(3, 4, 6, 7);
    assert_eq!((r.x1, r.y1, r.x2, r.y2), (3, 4, 9, 11));
}

#[test]
fn center_truncates_the_midpoint() {
    assert_eq!(Rect::new(3, 4, 6, 7).center(), (6, 7));
    assert_eq!(Rect::new(0, 0, 5, 5).center(), (2, 2));
    assert_eq!(Rect::new(0, 0, 6, 6).center(), (3, 3));
}

#[test]
fn overlap_is_symmetric_and_reflexive() {
    let a = Rect::new(0, 0, 10, 10);
    let b = Rect::new(5, 5, 10, 10);
    let c = Rect::new(20, 20, 5, 5);
    assert!(a.overlaps(&a));
    assert!(a.overlaps(&b) && b.overlaps(&a));
    assert!(!a.overlaps(&c) && !c.overlaps(&a));
}

#[test]
fn touching_edges_count_as_overlap() {
    let a = Rect::new(0, 0, 5, 5);
    let b = Rect::new(5, 0, 5, 5);
    assert!(a.overlaps(&b));
    let apart = Rect::new(6, 0, 5, 5);
    assert!(!a.overlaps(&apart));
}
