//! No widget paints outside the rectangle it is given.

use vstd::prelude::*;
use crate::geometry::{Axis, Rect};
use crate::layout::{lemma_slot_wf, over_allocated, rect_at};
use crate::widget::{children_glyph, hints_of, inset, layers_glyph, Layer, Widget};

verus! {

/// A widget placed in `rect` leaves every cell outside `rect` alone,
/// whatever it holds: text longer than the rectangle is cut off, and the
/// children of a container stay in their slots.
pub proof fn lemma_paints_inside(widget: Widget, rect: Rect, x: int, y: int)
    requires
        rect.wf(),
    ensures
        widget.glyph_at(rect, x, y) is Some ==> rect.spec_contains(x, y),
    decreases widget, 0int,
{
    match widget {
        Widget::Label(_) => {},
        Widget::Border(b) => {
            if let Some(inner) = inset(rect) {
                lemma_paints_inside(*b.inner, inner, x, y);
            }
        },
        Widget::Layout(l) => {
            if !over_allocated(hints_of(l.children@), rect.spec_extent(l.axis)) {
                lemma_children_paint_inside(
                    l.children@,
                    l.axis,
                    rect,
                    l.children@.len() as int,
                    x,
                    y,
                );
            }
        },
        Widget::Stack(s) => {
            widget.lemma_layers_are_part();
            lemma_layers_paint_inside(s@, rect, s@.len() as int, x, y);
        },
    }
}

/// The children of a container in `rect` leave every cell outside `rect`
/// alone.
pub proof fn lemma_children_paint_inside(
    children: Seq<Widget>,
    axis: Axis,
    rect: Rect,
    n: int,
    x: int,
    y: int,
)
    requires
        rect.wf(),
        0 <= n <= children.len(),
        !over_allocated(hints_of(children), rect.spec_extent(axis)),
    ensures
        children_glyph(children, axis, rect, n, x, y) is Some ==> rect.spec_contains(x, y),
    decreases children, n,
{
    if n > 0 {
        let slot = rect_at(rect, axis, hints_of(children), n - 1);
        lemma_slot_wf(rect, axis, hints_of(children), n - 1);
        lemma_paints_inside(children[n - 1], slot, x, y);
        lemma_children_paint_inside(children, axis, rect, n - 1, x, y);
    }
}

/// Layers placed in `rect` leave every cell outside `rect` alone.
pub proof fn lemma_layers_paint_inside(layers: Seq<Layer>, rect: Rect, n: int, x: int, y: int)
    requires
        rect.wf(),
        0 <= n <= layers.len(),
    ensures
        layers_glyph(layers, rect, n, x, y) is Some ==> rect.spec_contains(x, y),
    decreases layers, n,
{
    if n > 0 {
        lemma_paints_inside(layers[n - 1].root, rect, x, y);
        lemma_layers_paint_inside(layers, rect, n - 1, x, y);
    }
}

} // verus!
