//! Input events, as plain values.

use vstd::prelude::*;

verus! {

/// The key of a key press.
#[derive(Clone, Copy, Debug, PartialEq, Eq, Structural)]
pub enum KeyCode {
    Char(char),
    Tab,
    Enter,
    Escape,
    Backspace,
    Delete,
    Left,
    Right,
    Up,
    Down,
    Home,
    End,
    PageUp,
    PageDown,
    Function(u8),
    /// A key that the interface has no use for.
    Other,
}

/// The modifier keys held down during an event.
#[derive(Clone, Copy, Debug, PartialEq, Eq, Structural)]
pub struct Modifiers {
    pub shift: bool,
    pub ctrl: bool,
    pub alt: bool,
}

/// The mouse buttons held down during an event.
#[derive(Clone, Copy, Debug, PartialEq, Eq, Structural)]
pub struct MouseButtons {
    pub left: bool,
    pub right: bool,
    pub middle: bool,
}

/// What the terminal reports.
#[derive(Debug)]
pub enum Event {
    Key { code: KeyCode, modifiers: Modifiers },
    /// A mouse event at column `x` and row `y` of the screen.
    Mouse { x: u16, y: u16, buttons: MouseButtons, modifiers: Modifiers },
    Paste(String),
    Resized { rows: u16, cols: u16 },
}

/// What the interface itself does with an event, before any widget sees it.
#[derive(Clone, Copy, Debug, PartialEq, Eq, Structural)]
pub enum Command {
    /// Leave: Ctrl+Q.
    Quit,
    /// Show the next base layout: Tab.
    NextLayout,
    /// Select the next float: Shift+Tab.
    NextFloat,
    /// Take on a new screen size.
    Resize { rows: u16, cols: u16 },
    /// Hand the event to the widget under the pointer.
    Point { x: u16, y: u16 },
    /// Hand the event to the focused widget.
    Offer,
}

impl Modifiers {
    /// No modifier key is held down.
    pub open spec fn spec_none() -> Modifiers {
        Modifiers { shift: false, ctrl: false, alt: false }
    }

    #[verifier::when_used_as_spec(spec_none)]
    pub fn none() -> (m: Modifiers)
        ensures
            m == Modifiers::spec_none(),
    {
        Modifiers { shift: false, ctrl: false, alt: false }
    }
}

impl Clone for Event {
    fn clone(&self) -> (copy: Event)
        ensures
            copy == *self,
    {
        match self {
            Event::Key { code, modifiers } => Event::Key { code: *code, modifiers: *modifiers },
            Event::Mouse { x, y, buttons, modifiers } => Event::Mouse {
                x: *x,
                y: *y,
                buttons: *buttons,
                modifiers: *modifiers,
            },
            Event::Paste(text) => Event::Paste(text.clone()),
            Event::Resized { rows, cols } => Event::Resized { rows: *rows, cols: *cols },
        }
    }
}

impl Event {
    /// The command that the event stands for.
    ///
    /// The reserved chords are exact: Ctrl+Q with no other modifier leaves,
    /// Tab alone moves to the next layout, Shift+Tab alone to the next float.
    /// Every other key, and pasted text, goes to the focused widget.
    pub open spec fn spec_command(self) -> Command {
        match self {
            Event::Resized { rows, cols } => Command::Resize { rows, cols },
            Event::Mouse { x, y, buttons, modifiers } => Command::Point { x, y },
            Event::Paste(_) => Command::Offer,
            Event::Key { code, modifiers } => if code == KeyCode::Char('q') && modifiers == (
            Modifiers { shift: false, ctrl: true, alt: false }) {
                Command::Quit
            } else if code == KeyCode::Tab && modifiers == Modifiers::spec_none() {
                Command::NextLayout
            } else if code == KeyCode::Tab && modifiers == (Modifiers {
                shift: true,
                ctrl: false,
                alt: false,
            }) {
                Command::NextFloat
            } else {
                Command::Offer
            },
        }
    }

    pub fn command(&self) -> (c: Command)
        ensures
            c == self.spec_command(),
    {
        match self {
            Event::Resized { rows, cols } => Command::Resize { rows: *rows, cols: *cols },
            Event::Mouse { x, y, buttons: _, modifiers: _ } => Command::Point { x: *x, y: *y },
            Event::Paste(_) => Command::Offer,
            Event::Key { code, modifiers } => {
                let plain = !modifiers.shift && !modifiers.ctrl && !modifiers.alt;
                let shift_only = modifiers.shift && !modifiers.ctrl && !modifiers.alt;
                let ctrl_only = !modifiers.shift && modifiers.ctrl && !modifiers.alt;
                match code {
                    KeyCode::Char(c) => if *c == 'q' && ctrl_only {
                        Command::Quit
                    } else {
                        Command::Offer
                    },
                    KeyCode::Tab => if plain {
                        Command::NextLayout
                    } else if shift_only {
                        Command::NextFloat
                    } else {
                        Command::Offer
                    },
                    _ => Command::Offer,
                }
            },
        }
    }
}

} // verus!
