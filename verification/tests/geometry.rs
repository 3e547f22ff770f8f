use ryowm::geometry::Rect;

#[test]
fn rect_union_of_disjoint_rects_covers_both() {
    let a = Rect::new(0, 0, 10, 10);
    let b = Rect::new(20, 20, 10, 10);
    assert_eq!(a.union(&b), Rect::new(0, 0, 30, 30));
}

#[test]
fn rect_union_with_empty_returns_other() {
    let a = Rect::default();
    let b = Rect::new(5, 5, 5, 5);
    assert_eq!(a.union(&b), b);
}

#[test]
fn rect_union_with_empty_right_operand_returns_self() {
    let a = Rect::new(5, 5, 5, 5);
    let empty = Rect::new(100, 100, 0, 7);
    assert_eq!(a.union(&empty), a);
}

#[test]
fn rect_union_of_two_empty_rects_returns_other() {
    let a = Rect::new(1, 1, -3, 4);
    let b = Rect::new(9, 9, 0, 0);
    assert_eq!(a.union(&b), b);
}

#[test]
fn rect_union_is_commutative_for_overlapping_rects() {
    let a = Rect::new(-10, 5, 20, 8);
    let b = Rect::new(0, -4, 3, 30);
    assert_eq!(a.union(&b), Rect::new(-10, -4, 20, 30));
    assert_eq!(b.union(&a), a.union(&b));
}

#[test]
fn rect_union_with_itself_is_unchanged() {
    let a = Rect::new(3, 4, 5, 6);
    assert_eq!(a.union(&a), a);
}

#[test]
fn rect_union_of_nested_rect_is_outer() {
    let outer = Rect::new(0, 0, 100, 100);
    let inner = Rect::new(10, 10, 5, 5);
    assert_eq!(outer.union(&inner), outer);
    assert_eq!(inner.union(&outer), outer);
}

#[test]
fn rect_is_empty_checks_both_extents() {
    assert!(Rect::new(0, 0, 0, 10).is_empty());
    assert!(Rect::new(0, 0, 10, -1).is_empty());
    assert!(!Rect::new(0, 0, 1, 1).is_empty());
}
