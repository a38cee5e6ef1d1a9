//! Building widget trees and painting them onto a surface.

use vstd::prelude::*;
use crate::geometry::{Axis, Rect};
use crate::layout::{
    lemma_slot_wf, over_allocated, rect_at, rects, resolve, LayoutError, SizeHint,
};
use crate::surface::{lemma_grid_ext, Grid, Surface};
use crate::widget::{
    children_faulty, children_glyph, frame_glyph, hints_of, inset_rect, layers_faulty,
    layers_glyph, Border, BorderVariant, Layout, Widget,
};

verus! {

impl Border {
    /// A frame of the given variant around `inner`.
    pub fn new(variant: BorderVariant, inner: Widget, hint: Option<SizeHint>) -> (b: Border)
        ensures
            b.variant == variant,
            *b.inner == inner,
            b.hint == hint,
    {
        Border { variant, inner: Box::new(inner), hint }
    }
}

impl Layout {
    /// A container whose children stand side by side.
    pub fn h(children: Vec<Widget>, hint: Option<SizeHint>) -> (l: Layout)
        ensures
            l.axis == Axis::Horizontal,
            l.children == children,
            l.hint == hint,
    {
        Layout { axis: Axis::Horizontal, children, hint }
    }

    /// A container whose children stand one above the other.
    pub fn v(children: Vec<Widget>, hint: Option<SizeHint>) -> (l: Layout)
        ensures
            l.axis == Axis::Vertical,
            l.children == children,
            l.hint == hint,
    {
        Layout { axis: Axis::Vertical, children, hint }
    }

    /// The hints of the children, in declaration order.
    pub fn hints(&self) -> (hints: Vec<Option<SizeHint>>)
        ensures
            hints@ == hints_of(self.children@),
    {
        let mut hints: Vec<Option<SizeHint>> = Vec::new();
        let mut i: usize = 0;
        while i < self.children.len()
            invariant
                i <= self.children@.len(),
                hints@.len() == i,
                forall|j: int| 0 <= j < i ==> hints@[j] == self.children@[j].spec_size_hint(),
            decreases self.children@.len() - i,
        {
            hints.push(self.children[i].size_hint());
            i = i + 1;
        }
        assert(hints@ =~= hints_of(self.children@));
        hints
    }

    /// The rectangle of every child when the container occupies `rect`.
    ///
    /// Fails exactly when the hints of the children cannot be met.
    pub fn resolve(&self, rect: Rect) -> (r: Result<Vec<Rect>, LayoutError>)
        requires
            rect.wf(),
        ensures
            r is Err <==> over_allocated(hints_of(self.children@), rect.spec_extent(self.axis)),
            r is Err ==> r == Err::<Vec<Rect>, LayoutError>(LayoutError::OverAllocated),
            r matches Ok(slots) ==> slots@ == rects(rect, self.axis, hints_of(self.children@)),
    {
        let hints = self.hints();
        resolve(rect, self.axis, &hints)
    }
}

impl Widget {
    /// What `painted_onto` says of each cell.
    pub proof fn lemma_painted_onto(self, rect: Rect, clip: Rect, before: Grid)
        ensures
            self.painted_onto(rect, clip, before).wf(),
            self.painted_onto(rect, clip, before).width == before.width,
            self.painted_onto(rect, clip, before).height == before.height,
            forall|x: int, y: int|
                before.in_bounds(x, y) ==> #[trigger] self.painted_onto(rect, clip, before).at(
                    x,
                    y,
                ) == self.cell_after(rect, clip, before, x, y),
    {
    }

    /// Paints the widget into `rect` on `surface`.
    ///
    /// Cells of `rect` that the surface does not have are dropped. A
    /// container whose hints cannot be met paints nothing and makes the call
    /// fail; everything else is still painted.
    pub fn render(&self, rect: Rect, surface: &mut Surface) -> (r: Result<(), LayoutError>)
        requires
            rect.wf(),
        ensures
            final(surface)@ == self.painted_onto(rect, old(surface)@.bounds(), old(surface)@),
            r is Err <==> self.faulty(rect),
            r is Err ==> r == Err::<(), LayoutError>(LayoutError::OverAllocated),
    {
        let clip = surface.bounds();
        self.render_clipped(rect, clip, surface)
    }

    /// Paints the widget into `rect` on `surface`, writing only cells inside
    /// `clip`.
    pub fn render_clipped(&self, rect: Rect, clip: Rect, surface: &mut Surface) -> (r: Result<
        (),
        LayoutError,
    >)
        requires
            rect.wf(),
        ensures
            final(surface)@ == self.painted_onto(rect, clip, old(surface)@),
            r is Err <==> self.faulty(rect),
            r is Err ==> r == Err::<(), LayoutError>(LayoutError::OverAllocated),
        decreases *self,
    {
        let ghost before = surface@;
        // Calling `bounds` tells the verifier that the surface is a well-formed grid.
        let _ = surface.bounds();
        let mut failed = false;
        match self {
            Widget::Label(_) => {
                self.paint_own(rect, clip, surface);
            },
            Widget::Border(b) => {
                self.paint_own(rect, clip, surface);
                let ghost framed = surface@;
                if let Some(inner) = inset_rect(rect) {
                    let r = b.inner.render_clipped(inner, clip, surface);
                    proof {
                        b.inner.lemma_painted_onto(inner, clip, framed);
                    }
                    failed = r.is_err();
                }
                assert forall|x: int, y: int| before.in_bounds(x, y) implies #[trigger] surface@.at(
                    x,
                    y,
                ) == self.cell_after(rect, clip, before, x, y) by {
                    assert(self.own_glyph_at(rect, x, y) == frame_glyph(b.variant, rect, x, y));
                }
            },
            Widget::Layout(l) => {
                match l.resolve(rect) {
                    Err(_) => {
                        failed = true;
                    },
                    Ok(slots) => {
                        let n = l.children.len();
                        let mut i: usize = 0;
                        while i < n
                            invariant
                                i <= n,
                                n == l.children@.len(),
                                rect.wf(),
                                *self == Widget::Layout(*l),
                                !over_allocated(hints_of(l.children@), rect.spec_extent(l.axis)),
                                slots@ == rects(rect, l.axis, hints_of(l.children@)),
                                before.wf(),
                                surface@.wf(),
                                surface@.width == before.width,
                                surface@.height == before.height,
                                failed == children_faulty(l.children@, l.axis, rect, i as int),
                                forall|x: int, y: int|
                                    before.in_bounds(x, y) ==> #[trigger] surface@.at(x, y) == {
                                        let glyph = children_glyph(
                                            l.children@,
                                            l.axis,
                                            rect,
                                            i as int,
                                            x,
                                            y,
                                        );
                                        if clip.spec_contains(x, y) && glyph is Some {
                                            glyph->0
                                        } else {
                                            before.at(x, y)
                                        }
                                    },
                            decreases n - i,
                        {
                            let ghost painted = surface@;
                            proof {
                                lemma_slot_wf(rect, l.axis, hints_of(l.children@), i as int);
                                assert(slots@[i as int] == rect_at(
                                    rect,
                                    l.axis,
                                    hints_of(l.children@),
                                    i as int,
                                ));
                                assert(decreases_to!(*self => (*self)->Layout_0.children@[i as int]));
                            }
                            let r = l.children[i].render_clipped(slots[i], clip, surface);
                            proof {
                                l.children@[i as int].lemma_painted_onto(
                                    slots@[i as int],
                                    clip,
                                    painted,
                                );
                            }
                            if r.is_err() {
                                failed = true;
                            }
                            i = i + 1;
                        }
                    },
                }
            },
            Widget::Stack(s) => {
                let layers = s.layers();
                let n = layers.len();
                let mut i: usize = 0;
                while i < n
                    invariant
                        i <= n,
                        n == s@.len(),
                        layers@ == s@,
                        rect.wf(),
                        *self == Widget::Stack(*s),
                        before.wf(),
                        surface@.wf(),
                        surface@.width == before.width,
                        surface@.height == before.height,
                        failed == layers_faulty(s@, rect, i as int),
                        forall|x: int, y: int|
                            before.in_bounds(x, y) ==> #[trigger] surface@.at(x, y) == {
                                let glyph = layers_glyph(s@, rect, i as int, x, y);
                                if clip.spec_contains(x, y) && glyph is Some {
                                    glyph->0
                                } else {
                                    before.at(x, y)
                                }
                            },
                    decreases n - i,
                {
                    let ghost painted = surface@;
                    proof {
                        self.lemma_layer_is_part(i as int);
                    }
                    let r = layers[i].root.render_clipped(rect, clip, surface);
                    proof {
                        s@[i as int].root.lemma_painted_onto(rect, clip, painted);
                    }
                    if r.is_err() {
                        failed = true;
                    }
                    i = i + 1;
                }
            },
        }
        proof {
            self.lemma_painted_onto(rect, clip, before);
            assert forall|x: int, y: int| before.in_bounds(x, y) implies #[trigger] surface@.at(
                x,
                y,
            ) == self.cell_after(rect, clip, before, x, y) by {}
            lemma_grid_ext(surface@, self.painted_onto(rect, clip, before));
        }
        if failed {
            Err(LayoutError::OverAllocated)
        } else {
            Ok(())
        }
    }
}

} // verus!
