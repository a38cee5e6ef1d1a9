//! The top of the interface: the base layouts, the floats, the focus, and
//! the state machine that takes events and hands out frames.
//!
//! The interface touches no terminal. Its owner acquires the terminal and
//! tells `init` how that went, queues what the terminal reports, and sends
//! every frame it gets to the screen.

use vstd::prelude::*;
use crate::event::{Command, Event};
use crate::float::{
    composed, floats_faulty, position, successor, top_index, with_added, with_rect, Float,
    FloatEntry, FloatError, FloatHandle, FloatStack,
};
use crate::geometry::Rect;
use crate::layout::LayoutError;
use crate::surface::{Grid, Surface};
use crate::widget::Widget;

verus! {

/// Where the interface stands in its life.
#[derive(Clone, Copy, Debug, PartialEq, Eq, Structural)]
pub enum UiState {
    /// Built, but not yet on a terminal.
    Uninitialized,
    /// Painting and taking input.
    Running,
    /// Asked to leave; the screen is cleared once more and nothing else
    /// happens.
    ShuttingDown,
}

/// What can hold the focus.
#[derive(Clone, Copy, Debug, PartialEq, Eq, Structural)]
pub enum Target {
    /// The base layout.
    Base,
    /// One float.
    Float(FloatHandle),
}

/// Why the focus could not be moved.
#[derive(Clone, Copy, Debug, PartialEq, Eq, Structural)]
pub enum FocusError {
    /// The target names a float that the interface does not hold.
    Untracked,
}

/// Why the interface could not start.
#[derive(Clone, Copy, Debug, PartialEq, Eq, Structural)]
pub enum TerminalError {
    /// No terminal could be acquired.
    Unavailable,
}

/// What became of an event.
#[derive(Clone, Copy, Debug, PartialEq, Eq, Structural)]
pub enum Outcome {
    /// The interface is not running; the event was dropped.
    Ignored,
    /// The screen size was taken on.
    Resized,
    /// The interface is shutting down.
    Quit,
    /// The next base layout is shown.
    LayoutCycled,
    /// The next float is selected.
    FocusCycled,
    /// The event belongs to this target and to nobody else.
    Offered(Target),
    /// Nothing holds the focus; the event was dropped.
    Unhandled,
}

/// One painted screen, ready to be sent to the terminal.
#[derive(Debug)]
pub struct Frame {
    pub surface: Surface,
    /// The terminal must be repainted as a whole, not patched.
    pub full_repaint: bool,
    /// Events are waiting: process them and render again before waiting for
    /// input.
    pub pending: bool,
    /// A container on the screen has hints that cannot be met; it was left
    /// out, everything else was painted.
    pub error: Option<LayoutError>,
}

/// The state of an interface, as a mathematical value.
pub struct UiView {
    /// The base layout on show.
    pub root: Widget,
    /// The other base layouts, the next one first.
    pub alternates: Seq<Widget>,
    /// The floats in painting order.
    pub floats: Seq<FloatEntry>,
    /// The number that the next float handle will carry.
    pub next_id: u64,
    pub focus: Option<Target>,
    pub rows: u16,
    pub cols: u16,
    pub state: UiState,
    /// The events not yet processed, the oldest first.
    pub queue: Seq<Event>,
    /// The next frame must repaint the terminal as a whole.
    pub repaint: bool,
}

impl UiView {
    /// The whole screen.
    pub open spec fn screen_rect(self) -> Rect {
        Rect { x: 0, y: 0, width: self.cols as u32, height: self.rows as u32 }
    }

    /// The target exists: the base layout always does, a float while the
    /// interface holds it.
    pub open spec fn live(self, target: Target) -> bool {
        match target {
            Target::Base => true,
            Target::Float(handle) => position(self.floats, handle) is Some,
        }
    }

    /// The float that holds the focus, if one does.
    pub open spec fn focused_float(self) -> Option<FloatHandle> {
        match self.focus {
            Some(Target::Float(handle)) => Some(handle),
            _ => None,
        }
    }

    /// What the screen shows: while running, the base layout painted over a
    /// blank screen and the floats over that; otherwise a blank screen.
    pub open spec fn screen(self) -> Grid {
        let blank = Grid::blank(self.cols as nat, self.rows as nat);
        if self.state == UiState::Running {
            composed(
                self.floats,
                self.screen_rect(),
                self.root.painted_onto(self.screen_rect(), self.screen_rect(), blank),
            )
        } else {
            blank
        }
    }

    /// Some container on the screen has hints that cannot be met.
    pub open spec fn faulty(self) -> bool {
        self.state == UiState::Running && (self.root.faulty(self.screen_rect()) || floats_faulty(
            self.floats,
            self.floats.len() as int,
        ))
    }

    /// The state after a frame was rendered.
    pub open spec fn rendered(self) -> UiView {
        UiView { repaint: false, ..self }
    }

    /// The state after the next base layout came on show: the first of the
    /// alternates, with the layout shown so far behind the last of them.
    pub open spec fn next_layout(self) -> UiView {
        if self.alternates.len() == 0 {
            self
        } else {
            UiView {
                root: self.alternates[0],
                alternates: self.alternates.remove(0).push(self.root),
                ..self
            }
        }
    }

    /// The state after the next float was selected; where there is no float
    /// the focus stays.
    pub open spec fn next_float(self) -> UiView {
        match successor(self.floats, self.focused_float()) {
            Some(handle) => UiView { focus: Some(Target::Float(handle)), ..self },
            None => self,
        }
    }

    /// The state after one event was processed.
    pub open spec fn after_event(self, event: Event) -> UiView {
        if self.state != UiState::Running {
            self
        } else {
            match event.spec_command() {
                Command::Resize { rows, cols } => UiView { rows, cols, repaint: true, ..self },
                Command::Quit => UiView { state: UiState::ShuttingDown, repaint: true, ..self },
                Command::NextLayout => self.next_layout(),
                Command::NextFloat => self.next_float(),
                Command::Point { x, y } => self,
                Command::Offer => self,
            }
        }
    }

    /// What becomes of one event.
    ///
    /// A mouse event belongs to the topmost float under the pointer and,
    /// where no float is there, to the base layout. Keys and pasted text
    /// belong to the target that holds the focus, and are dropped where
    /// nothing holds it or the float that held it is gone.
    pub open spec fn outcome_of(self, event: Event) -> Outcome {
        if self.state != UiState::Running {
            Outcome::Ignored
        } else {
            match event.spec_command() {
                Command::Resize { rows, cols } => Outcome::Resized,
                Command::Quit => Outcome::Quit,
                Command::NextLayout => Outcome::LayoutCycled,
                Command::NextFloat => Outcome::FocusCycled,
                Command::Point { x, y } => match top_index(
                    self.floats,
                    self.screen_rect(),
                    self.floats.len() as int,
                    x as int,
                    y as int,
                ) {
                    Some(i) => Outcome::Offered(Target::Float(self.floats[i].handle)),
                    None => Outcome::Offered(Target::Base),
                },
                Command::Offer => match self.focus {
                    Some(target) => if self.live(target) {
                        Outcome::Offered(target)
                    } else {
                        Outcome::Unhandled
                    },
                    None => Outcome::Unhandled,
                },
            }
        }
    }

    /// The state after the first `n` of `events` were processed in order.
    pub open spec fn after_events(self, events: Seq<Event>, n: int) -> UiView
        decreases n,
    {
        if n <= 0 || n > events.len() {
            self
        } else {
            self.after_events(events, n - 1).after_event(events[n - 1])
        }
    }

    /// What becomes of each of `events` when they are processed in order.
    pub open spec fn outcomes_of(self, events: Seq<Event>) -> Seq<Outcome> {
        Seq::new(events.len(), |i: int| self.after_events(events, i).outcome_of(events[i]))
    }
}

/// The interface.
#[derive(Debug)]
pub struct Ui {
    root: Widget,
    alternates: Vec<Widget>,
    floats: FloatStack,
    focus: Option<Target>,
    rows: u16,
    cols: u16,
    state: UiState,
    queue: Vec<Event>,
    repaint: bool,
}

impl View for Ui {
    type V = UiView;

    closed spec fn view(&self) -> UiView {
        UiView {
            root: self.root,
            alternates: self.alternates@,
            floats: self.floats@,
            next_id: self.floats.next_id(),
            focus: self.focus,
            rows: self.rows,
            cols: self.cols,
            state: self.state,
            queue: self.queue@,
            repaint: self.repaint,
        }
    }
}

impl Ui {
    /// An interface that shows `root`, not yet on a terminal: no floats, no
    /// focus, no screen.
    pub fn new(root: Widget) -> (ui: Ui)
        ensures
            ui@ == (UiView {
                root,
                alternates: Seq::empty(),
                floats: Seq::empty(),
                next_id: 0,
                focus: None,
                rows: 0,
                cols: 0,
                state: UiState::Uninitialized,
                queue: Seq::empty(),
                repaint: true,
            }),
    {
        let ui = Ui {
            root,
            alternates: Vec::new(),
            floats: FloatStack::new(),
            focus: None,
            rows: 0,
            cols: 0,
            state: UiState::Uninitialized,
            queue: Vec::new(),
            repaint: true,
        };
        assert(ui@.floats =~= Seq::empty());
        ui
    }

    pub fn state(&self) -> (state: UiState)
        ensures
            state == self@.state,
    {
        self.state
    }

    /// The size of the screen as `(rows, cols)`.
    pub fn size(&self) -> (size: (u16, u16))
        ensures
            size == (self@.rows, self@.cols),
    {
        (self.rows, self.cols)
    }

    pub fn focus(&self) -> (focus: Option<Target>)
        ensures
            focus == self@.focus,
    {
        self.focus
    }

    /// The floats of the interface.
    pub fn floats(&self) -> (floats: &FloatStack)
        ensures
            floats@ == self@.floats,
            floats.next_id() == self@.next_id,
    {
        &self.floats
    }

    /// Adds a base layout behind the ones that wait to be shown.
    pub fn add_layout(&mut self, layout: Widget)
        ensures
            final(self)@ == (UiView { alternates: old(self)@.alternates.push(layout), ..old(self)@ }),
    {
        self.alternates.push(layout);
    }

    /// Adds a float on top of the base layout and returns its handle.
    pub fn add_float(&mut self, float: Float) -> (handle: FloatHandle)
        requires
            float.rect.wf(),
            old(self)@.next_id < u64::MAX,
        ensures
            handle@ == old(self)@.next_id,
            final(self)@ == (UiView {
                floats: with_added(old(self)@.floats, handle, float),
                next_id: (old(self)@.next_id + 1) as u64,
                ..old(self)@
            }),
    {
        self.floats.add(float)
    }

    /// Adds a float where that can be done: where its rectangle fits on the
    /// coordinate grid and a handle is left. Otherwise the interface stays
    /// as it was and no handle is given.
    pub fn try_add_float(&mut self, float: Float) -> (handle: Option<FloatHandle>)
        ensures
            handle is Some <==> float.rect.wf() && old(self)@.next_id < u64::MAX,
            handle matches Some(h) ==> h@ == old(self)@.next_id && final(self)@ == (UiView {
                floats: with_added(old(self)@.floats, h, float),
                next_id: (old(self)@.next_id + 1) as u64,
                ..old(self)@
            }),
            handle is None ==> final(self)@ == old(self)@,
    {
        self.floats.try_add(float)
    }

    /// Moves the float under `handle` to `rect`.
    ///
    /// Fails with `NotFound`, and changes nothing, where the interface holds
    /// no float under that handle.
    pub fn update_float(&mut self, handle: FloatHandle, rect: Rect) -> (r: Result<(), FloatError>)
        requires
            rect.wf(),
        ensures
            match position(old(self)@.floats, handle) {
                Some(i) => r is Ok && final(self)@ == (UiView {
                    floats: with_rect(old(self)@.floats, i, rect),
                    ..old(self)@
                }),
                None => r == Err::<(), FloatError>(FloatError::NotFound) && final(self)@ == old(
                    self,
                )@,
            },
    {
        self.floats.update(handle, rect)
    }

    /// Takes the float under `handle` off the screen and returns it. A focus
    /// that it held is left dangling: keys are dropped until the focus moves.
    ///
    /// Fails with `NotFound`, and changes nothing, where the interface holds
    /// no float under that handle.
    pub fn remove_float(&mut self, handle: FloatHandle) -> (r: Result<Float, FloatError>)
        ensures
            match position(old(self)@.floats, handle) {
                Some(i) => r == Ok::<Float, FloatError>(old(self)@.floats[i].float)
                    && final(self)@ == (UiView {
                    floats: old(self)@.floats.remove(i),
                    ..old(self)@
                }),
                None => r == Err::<Float, FloatError>(FloatError::NotFound) && final(self)@ == old(
                    self,
                )@,
            },
    {
        self.floats.remove(handle)
    }

    /// Gives the focus to `target`.
    ///
    /// Fails with `Untracked`, and leaves the focus where it was, where
    /// `target` names a float that the interface does not hold.
    pub fn set_focus(&mut self, target: Target) -> (r: Result<(), FocusError>)
        ensures
            old(self)@.live(target) ==> r is Ok && final(self)@ == (UiView {
                focus: Some(target),
                ..old(self)@
            }),
            !old(self)@.live(target) ==> r == Err::<(), FocusError>(FocusError::Untracked)
                && final(self)@ == old(self)@,
    {
        let live = match target {
            Target::Base => true,
            Target::Float(handle) => self.floats.contains(handle),
        };
        if live {
            self.focus = Some(target);
            Ok(())
        } else {
            Err(FocusError::Untracked)
        }
    }

    /// Takes the focus away from whatever holds it.
    pub fn clear_focus(&mut self)
        ensures
            final(self)@ == (UiView { focus: None, ..old(self)@ }),
    {
        self.focus = None;
    }

    /// Puts `event` behind the events that wait to be processed.
    pub fn queue_event(&mut self, event: Event)
        ensures
            final(self)@ == (UiView { queue: old(self)@.queue.push(event), ..old(self)@ }),
    {
        self.queue.push(event);
    }

    /// Processes one event at once, ahead of the queue.
    pub fn process_event(&mut self, event: &Event) -> (outcome: Outcome)
        ensures
            final(self)@ == old(self)@.after_event(*event),
            outcome == old(self)@.outcome_of(*event),
    {
        match self.state {
            UiState::Running => {},
            _ => {
                return Outcome::Ignored;
            },
        }
        match event.command() {
            Command::Resize { rows, cols } => {
                self.rows = rows;
                self.cols = cols;
                self.repaint = true;
                Outcome::Resized
            },
            Command::Quit => {
                self.state = UiState::ShuttingDown;
                self.repaint = true;
                Outcome::Quit
            },
            Command::NextLayout => {
                if self.alternates.len() > 0 {
                    let mut next = self.alternates.remove(0);
                    std::mem::swap(&mut self.root, &mut next);
                    self.alternates.push(next);
                }
                Outcome::LayoutCycled
            },
            Command::NextFloat => {
                let current = match self.focus {
                    Some(Target::Float(handle)) => Some(handle),
                    _ => None,
                };
                match self.floats.next_after(current) {
                    Some(handle) => {
                        self.focus = Some(Target::Float(handle));
                    },
                    None => {},
                }
                Outcome::FocusCycled
            },
            Command::Point { x, y } => {
                let screen = Rect { x: 0, y: 0, width: self.cols as u32, height: self.rows as u32 };
                match self.floats.hit(screen, x as i64, y as i64) {
                    Some(handle) => Outcome::Offered(Target::Float(handle)),
                    None => Outcome::Offered(Target::Base),
                }
            },
            Command::Offer => {
                match self.focus {
                    Some(Target::Base) => Outcome::Offered(Target::Base),
                    Some(Target::Float(handle)) => if self.floats.contains(handle) {
                        Outcome::Offered(Target::Float(handle))
                    } else {
                        Outcome::Unhandled
                    },
                    None => Outcome::Unhandled,
                }
            },
        }
    }

    /// Processes the waiting events, the oldest first, and returns what
    /// became of each. The queue is empty afterwards.
    pub fn process_event_queue(&mut self) -> (outcomes: Vec<Outcome>)
        ensures
            final(self)@ == (UiView { queue: Seq::empty(), ..old(self)@ }).after_events(
                old(self)@.queue,
                old(self)@.queue.len() as int,
            ),
            outcomes@ == (UiView { queue: Seq::empty(), ..old(self)@ }).outcomes_of(
                old(self)@.queue,
            ),
    {
        let mut events: Vec<Event> = Vec::new();
        std::mem::swap(&mut self.queue, &mut events);
        let ghost start = self@;
        assert(start == (UiView { queue: Seq::empty(), ..old(self)@ }));
        let mut outcomes: Vec<Outcome> = Vec::new();
        let mut i: usize = 0;
        while i < events.len()
            invariant
                i <= events@.len(),
                self@ == start.after_events(events@, i as int),
                outcomes@.len() == i,
                forall|j: int|
                    0 <= j < i ==> outcomes@[j] == start.after_events(events@, j).outcome_of(
                        events@[j],
                    ),
            decreases events@.len() - i,
        {
            let outcome = self.process_event(&events[i]);
            outcomes.push(outcome);
            i = i + 1;
        }
        assert(outcomes@ =~= start.outcomes_of(events@));
        outcomes
    }

    /// Paints the screen as it stands and hands it out.
    ///
    /// The frame says whether the terminal must be repainted as a whole,
    /// which is so after `init`, after a change of size and after the request
    /// to leave, and whether events are waiting.
    pub fn render(&mut self) -> (frame: Frame)
        ensures
            final(self)@ == old(self)@.rendered(),
            frame.surface@ == old(self)@.screen(),
            frame.full_repaint == old(self)@.repaint,
            frame.pending == (old(self)@.queue.len() > 0),
            frame.error == if old(self)@.faulty() {
                Some(LayoutError::OverAllocated)
            } else {
                None
            },
    {
        let screen = Rect { x: 0, y: 0, width: self.cols as u32, height: self.rows as u32 };
        let mut surface = Surface::new(self.cols as u32, self.rows as u32);
        let mut error: Option<LayoutError> = None;
        match self.state {
            UiState::Running => {
                let base = self.root.render(screen, &mut surface);
                let over = self.floats.render(screen, &mut surface);
                if base.is_err() || over.is_err() {
                    error = Some(LayoutError::OverAllocated);
                }
            },
            _ => {},
        }
        let frame = Frame {
            surface,
            full_repaint: self.repaint,
            pending: self.queue.len() > 0,
            error,
        };
        self.repaint = false;
        frame
    }

    /// Starts the interface on a terminal.
    ///
    /// `size` tells how acquiring the terminal went: its size as
    /// `(rows, cols)`, or `None` where no terminal could be had. With a
    /// terminal the interface takes on its size, starts running if it has
    /// not run before, and hands out its first frame, a full repaint.
    /// Without one it fails with `Unavailable` and stays as it was.
    pub fn init(&mut self, size: Option<(u16, u16)>) -> (r: Result<Frame, TerminalError>)
        ensures
            size is None ==> r is Err && r->Err_0 == TerminalError::Unavailable && final(self)@
                == old(self)@,
            size matches Some((rows, cols)) ==> r is Ok && final(self)@ == old(self)@.started(
                rows,
                cols,
            ).rendered() && r->Ok_0.surface@ == old(self)@.started(rows, cols).screen()
                && r->Ok_0.full_repaint && r->Ok_0.pending == (old(self)@.queue.len() > 0)
                && r->Ok_0.error == if old(self)@.started(rows, cols).faulty() {
                Some(LayoutError::OverAllocated)
            } else {
                None
            },
    {
        match size {
            None => Err(TerminalError::Unavailable),
            Some((rows, cols)) => {
                self.rows = rows;
                self.cols = cols;
                self.repaint = true;
                match self.state {
                    UiState::Uninitialized => {
                        self.state = UiState::Running;
                    },
                    _ => {},
                }
                Ok(self.render())
            },
        }
    }
}

impl UiView {
    /// The state after the interface was started on a terminal of the given
    /// size.
    pub open spec fn started(self, rows: u16, cols: u16) -> UiView {
        UiView {
            rows,
            cols,
            repaint: true,
            state: if self.state == UiState::Uninitialized {
                UiState::Running
            } else {
                self.state
            },
            ..self
        }
    }
}

/// Resizing to the same size twice shows the same screen twice: after a
/// change of size to `rows` by `cols`, a frame, and the same change of size
/// again, the second frame equals the first, and both repaint the terminal
/// as a whole.
pub proof fn lemma_resize_twice(ui: UiView, rows: u16, cols: u16)
    ensures
        ({
            let resize = Event::Resized { rows, cols };
            let first = ui.after_event(resize);
            let second = first.rendered().after_event(resize);
            &&& second.screen() == first.screen()
            &&& second.faulty() == first.faulty()
            &&& ui.state == UiState::Running ==> first.repaint && second.repaint
        }),
{
}

/// The two selections do not touch each other: moving to the next layout
/// leaves the focus and the floats alone, and moving to the next float
/// leaves the layouts alone.
pub proof fn lemma_rings_independent(ui: UiView)
    ensures
        ui.next_layout().focus == ui.focus,
        ui.next_layout().floats == ui.floats,
        ui.next_float().root == ui.root,
        ui.next_float().alternates == ui.alternates,
        ui.next_float().floats == ui.floats,
{
}

} // verus!
