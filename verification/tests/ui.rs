use red::event::{Command, Event, KeyCode, Modifiers, MouseButtons};
use red::float::{Float, FloatError};
use red::geometry::Rect;
use red::layout::{LayoutError, SizeHint};
use red::surface::Surface;
use red::ui::{FocusError, Frame, Outcome, Target, TerminalError, Ui, UiState};
use red::widget::{Border, BorderVariant, Label, Layout, Widget};

fn lines(surface: &Surface) -> Vec<String> {
    (0..surface.height())
        .map(|y| surface.row(y).unwrap().iter().collect::<String>())
        .collect()
}

fn label(text: &str) -> Widget {
    Widget::Label(Label::new(text))
}

fn bordered_centered(text: &str, hint: Option<SizeHint>) -> Widget {
    Widget::Border(Border::new(
        BorderVariant::Rounded,
        Widget::Label(Label::new(text).center()),
        hint,
    ))
}

fn key(code: KeyCode) -> Event {
    Event::Key { code, modifiers: Modifiers::none() }
}

fn chord(code: KeyCode, shift: bool, ctrl: bool, alt: bool) -> Event {
    Event::Key { code, modifiers: Modifiers { shift, ctrl, alt } }
}

fn click(x: u16, y: u16) -> Event {
    Event::Mouse {
        x,
        y,
        buttons: MouseButtons { left: true, right: false, middle: false },
        modifiers: Modifiers::none(),
    }
}

fn running(root: Widget, rows: u16, cols: u16) -> Ui {
    let mut ui = Ui::new(root);
    assert!(ui.init(Some((rows, cols))).is_ok());
    ui
}

fn float(text: &str, rect: Rect, z_index: i32) -> Float {
    Float { contents: label(text), rect, z_index }
}

#[test]
fn commands_of_events() {
    assert_eq!(chord(KeyCode::Char('q'), false, true, false).command(), Command::Quit);
    assert_eq!(chord(KeyCode::Char('q'), true, true, false).command(), Command::Offer);
    assert_eq!(key(KeyCode::Char('q')).command(), Command::Offer);
    assert_eq!(chord(KeyCode::Char('Q'), false, true, false).command(), Command::Offer);
    assert_eq!(key(KeyCode::Tab).command(), Command::NextLayout);
    assert_eq!(chord(KeyCode::Tab, true, false, false).command(), Command::NextFloat);
    assert_eq!(chord(KeyCode::Tab, true, true, false).command(), Command::Offer);
    assert_eq!(chord(KeyCode::Tab, false, false, true).command(), Command::Offer);
    assert_eq!(key(KeyCode::Enter).command(), Command::Offer);
    assert_eq!(Event::Paste(String::from("text")).command(), Command::Offer);
    assert_eq!(click(3, 4).command(), Command::Point { x: 3, y: 4 });
    assert_eq!(
        Event::Resized { rows: 24, cols: 80 }.command(),
        Command::Resize { rows: 24, cols: 80 }
    );
}

#[test]
fn new_ui_is_uninitialized_and_paints_a_blank_screen() {
    let mut ui = Ui::new(label("hello"));
    assert_eq!(ui.state(), UiState::Uninitialized);
    assert_eq!(ui.size(), (0, 0));
    assert_eq!(ui.focus(), None);
    assert_eq!(ui.floats().len(), 0);
    let frame = ui.render();
    assert_eq!(frame.surface.width(), 0);
    assert_eq!(frame.surface.height(), 0);
    assert!(frame.full_repaint);
    assert!(!frame.pending);
    assert_eq!(frame.error, None);
}

#[test]
fn init_without_a_terminal_fails() {
    let mut ui = Ui::new(label("hello"));
    assert_eq!(ui.init(None).err(), Some(TerminalError::Unavailable));
    assert_eq!(ui.state(), UiState::Uninitialized);
    assert_eq!(ui.size(), (0, 0));
}

#[test]
fn init_starts_running_with_a_full_first_frame() {
    let mut ui = Ui::new(label("hello"));
    let frame = ui.init(Some((2, 7))).ok().unwrap();
    assert_eq!(ui.state(), UiState::Running);
    assert_eq!(ui.size(), (2, 7));
    assert!(frame.full_repaint);
    assert!(!frame.pending);
    assert_eq!(frame.error, None);
    assert_eq!(lines(&frame.surface), vec!["hello  ", "       "]);
    let next = ui.render();
    assert!(!next.full_repaint);
    assert_eq!(lines(&next.surface), vec!["hello  ", "       "]);
}

#[test]
fn events_are_ignored_until_the_ui_runs() {
    let mut ui = Ui::new(label("x"));
    assert_eq!(ui.process_event(&Event::Resized { rows: 5, cols: 5 }), Outcome::Ignored);
    assert_eq!(ui.size(), (0, 0));
    assert_eq!(ui.process_event(&chord(KeyCode::Char('q'), false, true, false)), Outcome::Ignored);
    assert_eq!(ui.state(), UiState::Uninitialized);
}

#[test]
fn resize_updates_the_size_and_forces_a_full_repaint() {
    let mut ui = running(label("abcdef"), 1, 4);
    assert_eq!(lines(&ui.render().surface), vec!["abcd"]);
    assert_eq!(ui.process_event(&Event::Resized { rows: 2, cols: 6 }), Outcome::Resized);
    assert_eq!(ui.size(), (2, 6));
    let frame = ui.render();
    assert!(frame.full_repaint);
    assert_eq!(lines(&frame.surface), vec!["abcdef", "      "]);
    assert!(!ui.render().full_repaint);
}

#[test]
fn resizing_twice_to_the_same_size_paints_the_same_screen() {
    let root = Widget::Layout(Layout::h(
        vec![bordered_centered("one", None), bordered_centered("two", None)],
        None,
    ));
    let mut ui = running(root, 4, 9);
    ui.add_float(float("f", Rect::new(3, 1, 2, 2), 0));
    let resize = Event::Resized { rows: 5, cols: 13 };
    assert_eq!(ui.process_event(&resize), Outcome::Resized);
    let first = ui.render();
    assert_eq!(ui.process_event(&resize), Outcome::Resized);
    let second = ui.render();
    assert!(first.full_repaint);
    assert!(second.full_repaint);
    assert_eq!(lines(&first.surface), lines(&second.surface));
    assert_eq!(
        lines(&first.surface),
        vec![
            "\u{256d}\u{2500}\u{2500}\u{2500}\u{2500}\u{2500}\u{256e}\u{256d}\u{2500}\u{2500}\u{2500}\u{2500}\u{256e}",
            "\u{2502}  f  \u{2502}\u{2502}    \u{2502}",
            "\u{2502} o   \u{2502}\u{2502}two \u{2502}",
            "\u{2502}     \u{2502}\u{2502}    \u{2502}",
            "\u{2570}\u{2500}\u{2500}\u{2500}\u{2500}\u{2500}\u{256f}\u{2570}\u{2500}\u{2500}\u{2500}\u{2500}\u{256f}",
        ]
    );
}

#[test]
fn two_bordered_labels_side_by_side() {
    let root = Widget::Layout(Layout::h(
        vec![
            bordered_centered("A", Some(SizeHint::Percentage(50))),
            bordered_centered("B", Some(SizeHint::Percentage(50))),
        ],
        None,
    ));
    let mut ui = Ui::new(root);
    let frame: Frame = ui.init(Some((24, 80))).ok().unwrap();
    let s = &frame.surface;
    assert_eq!(frame.error, None);
    assert_eq!((s.width(), s.height()), (80, 24));

    for (left, right, letter) in [(0u32, 39u32, 'A'), (40, 79, 'B')] {
        assert_eq!(s.get(left, 0), Some('\u{256d}'));
        assert_eq!(s.get(right, 0), Some('\u{256e}'));
        assert_eq!(s.get(left, 23), Some('\u{2570}'));
        assert_eq!(s.get(right, 23), Some('\u{256f}'));
        for x in left + 1..right {
            assert_eq!(s.get(x, 0), Some('\u{2500}'));
            assert_eq!(s.get(x, 23), Some('\u{2500}'));
        }
        for y in 1..23 {
            assert_eq!(s.get(left, y), Some('\u{2502}'));
            assert_eq!(s.get(right, y), Some('\u{2502}'));
            for x in left + 1..right {
                let expected = if (x, y) == (left + 19, 11) { letter } else { ' ' };
                assert_eq!(s.get(x, y), Some(expected));
            }
        }
    }
}

#[test]
fn two_windows_split_thirty_to_seventy() {
    let root = Widget::Layout(Layout::h(
        vec![
            bordered_centered("Window 1!", Some(SizeHint::Percentage(30))),
            bordered_centered("Window 2!", Some(SizeHint::Percentage(70))),
        ],
        None,
    ));
    let mut ui = running(root, 3, 40);
    let frame = ui.render();
    assert_eq!(
        lines(&frame.surface),
        vec![
            format!(
                "\u{256d}{}\u{256e}\u{256d}{}\u{256e}",
                "\u{2500}".repeat(10),
                "\u{2500}".repeat(26)
            ),
            format!("\u{2502}Window 1! \u{2502}\u{2502}        Window 2!         \u{2502}"),
            format!(
                "\u{2570}{}\u{256f}\u{2570}{}\u{256f}",
                "\u{2500}".repeat(10),
                "\u{2500}".repeat(26)
            ),
        ]
    );
}

#[test]
fn floats_are_painted_over_the_base_layout() {
    let mut ui = running(label("base line"), 2, 9);
    let low = ui.add_float(float("LOW", Rect::new(2, 0, 3, 1), 0));
    let high = ui.add_float(float("HI", Rect::new(4, 0, 2, 2), 1));
    assert_eq!(low.id(), 0);
    assert_eq!(high.id(), 1);
    assert_eq!(lines(&ui.render().surface), vec!["baLOHIine", "         "]);
    assert_eq!(ui.update_float(low, Rect::new(0, 1, 3, 1)), Ok(()));
    assert_eq!(lines(&ui.render().surface), vec!["baseHIine", "LOW      "]);
    assert_eq!(ui.floats().get(low).unwrap().rect, Rect::new(0, 1, 3, 1));
    assert!(ui.remove_float(high).is_ok());
    assert_eq!(lines(&ui.render().surface), vec!["base line", "LOW      "]);
    assert_eq!(ui.update_float(high, Rect::new(0, 0, 1, 1)), Err(FloatError::NotFound));
    assert_eq!(ui.remove_float(high).err(), Some(FloatError::NotFound));
}

#[test]
fn over_allocation_is_reported_in_the_frame() {
    let root = Widget::Layout(Layout::v(
        vec![
            Widget::Layout(Layout::h(
                vec![bordered_centered("", Some(SizeHint::Percentage(101)))],
                None,
            )),
            label("still here"),
        ],
        None,
    ));
    let mut ui = running(root, 2, 10);
    let frame = ui.render();
    assert_eq!(frame.error, Some(LayoutError::OverAllocated));
    assert_eq!(lines(&frame.surface), vec!["          ", "still here"]);
}

#[test]
fn quit_chord_shuts_down_and_clears_the_screen() {
    let mut ui = running(label("text"), 1, 4);
    assert!(!ui.render().full_repaint);
    assert_eq!(ui.process_event(&chord(KeyCode::Char('q'), false, true, false)), Outcome::Quit);
    assert_eq!(ui.state(), UiState::ShuttingDown);
    let frame = ui.render();
    assert!(frame.full_repaint);
    assert_eq!(lines(&frame.surface), vec!["    "]);
    assert_eq!(ui.process_event(&key(KeyCode::Tab)), Outcome::Ignored);
    assert_eq!(ui.process_event(&Event::Resized { rows: 9, cols: 9 }), Outcome::Ignored);
    assert_eq!(ui.size(), (1, 4));
    assert!(ui.init(Some((1, 4))).is_ok());
    assert_eq!(ui.state(), UiState::ShuttingDown);
}

#[test]
fn tab_cycles_the_base_layouts() {
    let mut ui = running(label("one"), 1, 5);
    assert_eq!(ui.process_event(&key(KeyCode::Tab)), Outcome::LayoutCycled);
    assert_eq!(lines(&ui.render().surface), vec!["one  "]);
    ui.add_layout(label("two"));
    ui.add_layout(label("three"));
    let mut seen = Vec::new();
    for _ in 0..4 {
        assert_eq!(ui.process_event(&key(KeyCode::Tab)), Outcome::LayoutCycled);
        seen.push(lines(&ui.render().surface)[0].clone());
    }
    assert_eq!(seen, vec!["two  ", "three", "one  ", "two  "]);
}

#[test]
fn shift_tab_cycles_the_floats_and_leaves_the_layout() {
    let mut ui = running(label("base"), 1, 4);
    ui.add_layout(label("alt"));
    let shift_tab = chord(KeyCode::Tab, true, false, false);
    assert_eq!(ui.process_event(&shift_tab), Outcome::FocusCycled);
    assert_eq!(ui.focus(), None);
    let a = ui.add_float(float("", Rect::new(9, 9, 1, 1), 1));
    let b = ui.add_float(float("", Rect::new(9, 9, 1, 1), 0));
    let mut seen = Vec::new();
    for _ in 0..3 {
        assert_eq!(ui.process_event(&shift_tab), Outcome::FocusCycled);
        seen.push(ui.focus());
    }
    assert_eq!(
        seen,
        vec![Some(Target::Float(b)), Some(Target::Float(a)), Some(Target::Float(b))]
    );
    assert_eq!(lines(&ui.render().surface), vec!["base"]);
    assert_eq!(ui.process_event(&key(KeyCode::Tab)), Outcome::LayoutCycled);
    assert_eq!(ui.focus(), Some(Target::Float(b)));
    assert_eq!(lines(&ui.render().surface), vec!["alt "]);
}

#[test]
fn focus_can_only_go_to_what_exists() {
    let mut ui = running(label("base"), 1, 4);
    let h = ui.add_float(float("", Rect::new(0, 0, 1, 1), 0));
    assert_eq!(ui.set_focus(Target::Float(h)), Ok(()));
    assert_eq!(ui.focus(), Some(Target::Float(h)));
    assert!(ui.remove_float(h).is_ok());
    assert_eq!(ui.set_focus(Target::Base), Ok(()));
    assert_eq!(ui.set_focus(Target::Float(h)), Err(FocusError::Untracked));
    assert_eq!(ui.focus(), Some(Target::Base));
    ui.clear_focus();
    assert_eq!(ui.focus(), None);
}

#[test]
fn keys_go_to_the_focus_and_nowhere_else() {
    let mut ui = running(label("base"), 1, 4);
    let enter = key(KeyCode::Enter);
    let paste = Event::Paste(String::from("clip"));
    assert_eq!(ui.process_event(&enter), Outcome::Unhandled);
    assert_eq!(ui.set_focus(Target::Base), Ok(()));
    assert_eq!(ui.process_event(&enter), Outcome::Offered(Target::Base));
    assert_eq!(ui.process_event(&paste), Outcome::Offered(Target::Base));
    let h = ui.add_float(float("", Rect::new(0, 0, 1, 1), 0));
    assert_eq!(ui.set_focus(Target::Float(h)), Ok(()));
    assert_eq!(ui.process_event(&enter), Outcome::Offered(Target::Float(h)));
    assert!(ui.remove_float(h).is_ok());
    assert_eq!(ui.process_event(&enter), Outcome::Unhandled);
    assert_eq!(ui.process_event(&paste), Outcome::Unhandled);
}

#[test]
fn mouse_goes_to_the_topmost_float_under_the_pointer() {
    let mut ui = running(label("base"), 10, 10);
    let low = ui.add_float(float("", Rect::new(0, 0, 5, 5), 0));
    let high = ui.add_float(float("", Rect::new(3, 3, 5, 5), 1));
    assert_eq!(ui.process_event(&click(1, 1)), Outcome::Offered(Target::Float(low)));
    assert_eq!(ui.process_event(&click(4, 4)), Outcome::Offered(Target::Float(high)));
    assert_eq!(ui.process_event(&click(9, 9)), Outcome::Offered(Target::Base));
    assert_eq!(ui.focus(), None);
}

#[test]
fn queued_events_are_drained_in_order() {
    let mut ui = running(label("x"), 1, 1);
    ui.queue_event(key(KeyCode::Enter));
    ui.queue_event(Event::Resized { rows: 2, cols: 3 });
    ui.queue_event(chord(KeyCode::Char('q'), false, true, false));
    ui.queue_event(key(KeyCode::Tab));
    let waiting = ui.render();
    assert!(waiting.pending);
    assert_eq!(ui.size(), (1, 1));
    assert_eq!(
        ui.process_event_queue(),
        vec![Outcome::Unhandled, Outcome::Resized, Outcome::Quit, Outcome::Ignored]
    );
    assert_eq!(ui.size(), (2, 3));
    assert_eq!(ui.state(), UiState::ShuttingDown);
    let frame = ui.render();
    assert!(!frame.pending);
    assert!(frame.full_repaint);
    assert_eq!(ui.process_event_queue(), Vec::new());
}

#[test]
fn try_add_float_gives_a_handle_where_the_float_fits() {
    let mut ui = running(label("base"), 1, 4);
    assert_eq!(ui.try_add_float(float("x", Rect::new(0, i32::MAX, 1, 1), 0)), None);
    assert_eq!(ui.floats().len(), 0);
    let h = ui.try_add_float(float("x", Rect::new(1, 0, 1, 1), 0)).unwrap();
    assert_eq!(h.id(), 0);
    assert_eq!(lines(&ui.render().surface), vec!["bxse"]);
}
