use red::geometry::{Axis, Rect};
use red::{Label, Widget};

#[test]
fn rect_edges_and_extents() {
    let r = Rect::new(-3, 4, 10, 2);
    assert_eq!(r, Rect { x: -3, y: 4, width: 10, height: 2 });
    assert_eq!(r.right(), 7);
    assert_eq!(r.bottom(), 6);
    assert_eq!(r.extent(Axis::Horizontal), 10);
    assert_eq!(r.extent(Axis::Vertical), 2);
    assert_eq!(Rect::from_size(80, 24), Rect::new(0, 0, 80, 24));
    let far = Rect::new(i32::MAX, i32::MIN, u32::MAX, u32::MAX);
    assert_eq!(far.right(), i32::MAX as i64 + u32::MAX as i64);
    assert_eq!(far.bottom(), i32::MIN as i64 + u32::MAX as i64);
}

#[test]
fn rect_contains_its_cells_and_no_others() {
    let r = Rect::new(2, 3, 4, 1);
    assert!(r.contains(2, 3));
    assert!(r.contains(5, 3));
    assert!(!r.contains(6, 3));
    assert!(!r.contains(1, 3));
    assert!(!r.contains(2, 2));
    assert!(!r.contains(2, 4));
    assert!(!Rect::new(0, 0, 0, 5).contains(0, 0));
}

#[test]
fn zero_area_rect_is_empty() {
    assert!(Rect::new(1, 1, 0, 3).is_empty());
    assert!(Rect::new(1, 1, 3, 0).is_empty());
    assert!(!Rect::new(1, 1, 1, 1).is_empty());
}

#[test]
fn rect_fits_while_its_far_edges_are_coordinates() {
    assert!(Rect::new(0, 0, i32::MAX as u32, i32::MAX as u32).fits());
    assert!(!Rect::new(1, 0, i32::MAX as u32, 1).fits());
    assert!(!Rect::new(0, 1, 1, i32::MAX as u32).fits());
    assert!(Rect::new(i32::MAX, i32::MAX, 0, 0).fits());
    assert!(Rect::new(i32::MIN, i32::MIN, u32::MAX, u32::MAX).fits());
}

#[test]
fn intersect_clips_to_the_common_cells() {
    let a = Rect::new(0, 0, 10, 10);
    assert_eq!(a.intersect(Rect::new(5, -5, 10, 10)), Rect::new(5, 0, 5, 5));
    assert_eq!(a.intersect(Rect::new(2, 3, 4, 5)), Rect::new(2, 3, 4, 5));
    assert_eq!(Rect::new(2, 3, 4, 5).intersect(a), Rect::new(2, 3, 4, 5));
    assert_eq!(a.intersect(Rect::new(10, 0, 5, 5)), Rect::new(10, 0, 0, 5));
    assert_eq!(a.intersect(Rect::new(20, 30, 5, 5)), Rect::new(20, 30, 0, 0));
    assert!(a.intersect(Rect::new(-9, -9, 9, 9)).is_empty());
}

#[test]
fn items_are_reachable_from_the_crate_root() {
    let w = Widget::Label(Label::new("x"));
    assert_eq!(w.size_hint(), None);
}
