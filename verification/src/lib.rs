//! A terminal user interface engine: rectangles split among widgets, widgets
//! painted onto a grid of cells, floats laid over them, and the state machine
//! that routes input.

pub mod confine;
pub mod event;
pub mod float;
pub mod geometry;
pub mod layout;
pub mod lines;
pub mod render;
pub mod render_data;
pub mod stack;
pub mod surface;
pub mod ui;
pub mod widget;

pub use crate::event::{Event, KeyCode, Modifiers, MouseButtons};
pub use crate::float::{Float, FloatError, FloatHandle, FloatStack};
pub use crate::geometry::{Axis, Rect};
pub use crate::layout::{LayoutError, SizeHint};
pub use crate::render_data::RenderData;
pub use crate::surface::Surface;
pub use crate::ui::{FocusError, Frame, Outcome, Target, TerminalError, Ui, UiState};
pub use crate::widget::{Border, BorderVariant, Label, Layer, Layout, Stack, Widget};
