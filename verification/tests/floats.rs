use red::float::{cycle_index, Float, FloatError, FloatStack};
use red::geometry::Rect;
use red::layout::{LayoutError, SizeHint};
use red::surface::Surface;
use red::widget::{Border, BorderVariant, Label, Layout, Widget};

fn lines(surface: &Surface) -> Vec<String> {
    (0..surface.height())
        .map(|y| surface.row(y).unwrap().iter().collect::<String>())
        .collect()
}

fn text(s: &str, rect: Rect, z_index: i32) -> Float {
    Float { contents: Widget::Label(Label::new(s)), rect, z_index }
}

#[test]
fn handles_count_up_and_are_not_reused() {
    let mut stack = FloatStack::new();
    assert_eq!(stack.len(), 0);
    let a = stack.add(text("a", Rect::new(0, 0, 1, 1), 0));
    let b = stack.add(text("b", Rect::new(0, 0, 1, 1), 0));
    assert_eq!(a.id(), 0);
    assert_eq!(b.id(), 1);
    assert_ne!(a, b);
    assert!(stack.remove(b).is_ok());
    let c = stack.add(text("c", Rect::new(0, 0, 1, 1), 0));
    assert_eq!(c.id(), 2);
    assert!(!stack.contains(b));
    assert!(stack.contains(a));
    assert!(stack.contains(c));
    assert_eq!(stack.len(), 2);
}

#[test]
fn add_update_get_round_trip() {
    let mut stack = FloatStack::new();
    let h = stack.add(text("a", Rect::new(1, 2, 3, 4), 5));
    assert_eq!(stack.get(h).unwrap().rect, Rect::new(1, 2, 3, 4));
    assert_eq!(stack.update(h, Rect::new(9, 8, 7, 6)), Ok(()));
    let float = stack.get(h).unwrap();
    assert_eq!(float.rect, Rect::new(9, 8, 7, 6));
    assert_eq!(float.z_index, 5);
    assert_eq!(stack.len(), 1);
}

#[test]
fn update_leaves_the_other_floats_alone() {
    let mut stack = FloatStack::new();
    let a = stack.add(text("a", Rect::new(0, 0, 1, 1), 1));
    let b = stack.add(text("b", Rect::new(2, 2, 2, 2), 0));
    assert_eq!(stack.update(b, Rect::new(5, 5, 5, 5)), Ok(()));
    assert_eq!(stack.get(a).unwrap().rect, Rect::new(0, 0, 1, 1));
    assert_eq!(stack.get(b).unwrap().rect, Rect::new(5, 5, 5, 5));
    assert_eq!(stack.find(b), Some(0));
    assert_eq!(stack.find(a), Some(1));
}

#[test]
fn unknown_handle_is_not_found() {
    let mut other = FloatStack::new();
    other.add(text("x", Rect::new(0, 0, 1, 1), 0));
    let stranger = other.add(text("y", Rect::new(0, 0, 1, 1), 0));

    let mut stack = FloatStack::new();
    let own = stack.add(text("a", Rect::new(1, 1, 1, 1), 0));
    assert_eq!(stack.update(stranger, Rect::new(0, 0, 2, 2)), Err(FloatError::NotFound));
    assert!(stack.get(stranger).is_none());
    assert_eq!(stack.find(stranger), None);
    assert_eq!(stack.remove(stranger).err(), Some(FloatError::NotFound));
    assert_eq!(stack.get(own).unwrap().rect, Rect::new(1, 1, 1, 1));
    assert_eq!(stack.len(), 1);
}

#[test]
fn removed_handle_is_stale() {
    let mut stack = FloatStack::new();
    let h = stack.add(text("a", Rect::new(3, 3, 2, 2), 7));
    let float = stack.remove(h).unwrap();
    assert_eq!(float.rect, Rect::new(3, 3, 2, 2));
    assert_eq!(float.z_index, 7);
    assert_eq!(stack.len(), 0);
    assert_eq!(stack.update(h, Rect::new(0, 0, 1, 1)), Err(FloatError::NotFound));
    assert_eq!(stack.remove(h).err(), Some(FloatError::NotFound));
    assert!(stack.get(h).is_none());
}

#[test]
fn higher_z_wins_whatever_the_insertion_order() {
    let screen = Rect::new(0, 0, 4, 1);
    let a = || text("AA", Rect::new(0, 0, 2, 1), 0);
    let b = || text("BB", Rect::new(1, 0, 2, 1), 1);

    let mut first = FloatStack::new();
    first.add(a());
    first.add(b());
    let mut one = Surface::new(4, 1);
    assert_eq!(first.render(screen, &mut one), Ok(()));

    let mut second = FloatStack::new();
    second.add(b());
    second.add(a());
    let mut two = Surface::new(4, 1);
    assert_eq!(second.render(screen, &mut two), Ok(()));

    assert_eq!(lines(&one), vec!["ABB "]);
    assert_eq!(lines(&two), vec!["ABB "]);
    assert_eq!(one.get(1, 0), Some('B'));
}

#[test]
fn equal_z_is_broken_by_insertion_order() {
    let screen = Rect::new(0, 0, 3, 1);
    let mut stack = FloatStack::new();
    let first = stack.add(text("1", Rect::new(1, 0, 1, 1), 3));
    let second = stack.add(text("2", Rect::new(1, 0, 1, 1), 3));
    let mut surface = Surface::new(3, 1);
    assert_eq!(stack.render(screen, &mut surface), Ok(()));
    assert_eq!(lines(&surface), vec![" 2 "]);
    assert_eq!(stack.find(first), Some(0));
    assert_eq!(stack.find(second), Some(1));
    assert_eq!(stack.hit(screen, 1, 0), Some(second));
}

#[test]
fn a_float_hides_what_lies_under_its_rectangle() {
    let screen = Rect::new(0, 0, 5, 3);
    let mut surface = Surface::new(5, 3);
    surface.fill(screen, '.');
    let mut stack = FloatStack::new();
    stack.add(text("x", Rect::new(1, 1, 3, 2), 0));
    assert_eq!(stack.render(screen, &mut surface), Ok(()));
    assert_eq!(lines(&surface), vec![".....", ".x  .", ".   ."]);
}

#[test]
fn floats_off_screen_are_clipped() {
    let screen = Rect::new(0, 0, 4, 2);
    let mut surface = Surface::new(4, 2);
    let mut stack = FloatStack::new();
    stack.add(Float {
        contents: Widget::Border(Border::new(
            BorderVariant::Square,
            Widget::Label(Label::new("ab")),
            None,
        )),
        rect: Rect::new(2, -1, 4, 3),
        z_index: 0,
    });
    stack.add(text("gone", Rect::new(10, 10, 4, 1), 1));
    stack.add(text("left", Rect::new(-3, 1, 4, 1), 2));
    assert_eq!(stack.render(screen, &mut surface), Ok(()));
    assert_eq!(lines(&surface), vec!["  \u{2502}a", "t \u{2514}\u{2500}"]);
}

#[test]
fn floats_are_clipped_to_the_screen_rectangle() {
    let mut surface = Surface::new(6, 1);
    let mut stack = FloatStack::new();
    stack.add(text("abcdef", Rect::new(0, 0, 6, 1), 0));
    assert_eq!(stack.render(Rect::new(2, 0, 3, 1), &mut surface), Ok(()));
    assert_eq!(lines(&surface), vec!["  cde "]);
}

#[test]
fn faulty_float_is_reported_and_the_others_still_render() {
    let screen = Rect::new(0, 0, 4, 1);
    let broken = Widget::Layout(Layout::h(
        vec![Widget::Border(Border::new(
            BorderVariant::Square,
            Widget::Label(Label::new("")),
            Some(SizeHint::Fixed(5)),
        ))],
        None,
    ));
    let mut stack = FloatStack::new();
    stack.add(Float { contents: broken, rect: Rect::new(0, 0, 2, 1), z_index: 0 });
    stack.add(text("ok", Rect::new(2, 0, 2, 1), 0));
    let mut surface = Surface::new(4, 1);
    surface.fill(screen, '.');
    assert_eq!(stack.render(screen, &mut surface), Err(LayoutError::OverAllocated));
    assert_eq!(lines(&surface), vec!["  ok"]);
}

#[test]
fn hit_test_finds_the_topmost_float() {
    let screen = Rect::new(0, 0, 10, 10);
    let mut stack = FloatStack::new();
    let low = stack.add(text("", Rect::new(0, 0, 5, 5), 0));
    let high = stack.add(text("", Rect::new(3, 3, 5, 5), 1));
    assert_eq!(stack.hit(screen, 1, 1), Some(low));
    assert_eq!(stack.hit(screen, 4, 4), Some(high));
    assert_eq!(stack.hit(screen, 7, 7), Some(high));
    assert_eq!(stack.hit(screen, 8, 8), None);
    assert_eq!(stack.hit(screen, 9, 0), None);
    assert_eq!(stack.hit(Rect::new(0, 0, 4, 4), 4, 4), None);
    assert_eq!(stack.hit(screen, -1, 0), None);
}

#[test]
fn cycle_index_wraps_to_zero() {
    assert_eq!(cycle_index(0, 2), 1);
    assert_eq!(cycle_index(1, 2), 0);
    assert_eq!(cycle_index(0, 1), 0);
    assert_eq!(cycle_index(4, 7), 5);
    assert_eq!(cycle_index(6, 7), 0);
    assert_eq!(cycle_index(0, 0), 0);
    assert_eq!(cycle_index(usize::MAX, 3), 0);
}

#[test]
fn next_after_walks_the_floats_in_painting_order() {
    let mut stack = FloatStack::new();
    assert_eq!(stack.next_after(None), None);
    let a = stack.add(text("a", Rect::new(0, 0, 1, 1), 1));
    let b = stack.add(text("b", Rect::new(0, 0, 1, 1), 0));
    let c = stack.add(text("c", Rect::new(0, 0, 1, 1), 2));
    assert_eq!(stack.next_after(None), Some(b));
    assert_eq!(stack.next_after(Some(b)), Some(a));
    assert_eq!(stack.next_after(Some(a)), Some(c));
    assert_eq!(stack.next_after(Some(c)), Some(b));
    assert!(stack.remove(a).is_ok());
    assert_eq!(stack.next_after(Some(a)), Some(b));
    assert_eq!(stack.next_after(Some(b)), Some(c));
}

#[test]
fn try_add_refuses_a_rectangle_that_does_not_fit() {
    let mut stack = FloatStack::new();
    assert_eq!(stack.try_add(text("a", Rect::new(i32::MAX, 0, 1, 1), 0)), None);
    assert_eq!(stack.try_add(text("a", Rect::new(0, 1, 1, i32::MAX as u32), 0)), None);
    assert_eq!(stack.len(), 0);
    assert!(stack.has_room());
    let h = stack.try_add(text("a", Rect::new(i32::MAX - 1, 0, 1, 1), 3)).unwrap();
    assert_eq!(h.id(), 0);
    assert_eq!(stack.update(h, Rect::new(4, 5, 6, 7)), Ok(()));
    assert_eq!(stack.get(h).unwrap().rect, Rect::new(4, 5, 6, 7));
    assert_eq!(stack.get(h).unwrap().z_index, 3);
    assert_eq!(stack.len(), 1);
}
