//! A buffer of its own for what one widget paints.

use vstd::prelude::*;
use crate::geometry::Rect;
use crate::layout::LayoutError;
use crate::surface::{Grid, Surface, BLANK};
use crate::widget::Widget;

verus! {

/// The cells of one widget, held apart from the screen.
///
/// `data` has one row for each row of `rect` and in each row one cell for
/// each column of `rect`.
#[derive(Debug)]
pub struct RenderData {
    /// Where the widget stands on the screen.
    pub rect: Rect,
    /// The cells of the widget, row by row, starting at its own top left
    /// corner.
    pub data: Vec<Vec<char>>,
}

impl RenderData {
    /// The rows of the buffer.
    pub open spec fn rows(self) -> Seq<Seq<char>> {
        Seq::new(self.data@.len(), |i: int| self.data@[i]@)
    }

    /// The rectangle of the widget moved to the origin: the area of the
    /// buffer.
    pub open spec fn local(self) -> Rect {
        Rect { x: 0, y: 0, width: self.rect.width, height: self.rect.height }
    }

    /// A blank surface as wide and as high as `rect`.
    pub open spec fn blank(self) -> Grid {
        Grid::blank(self.rect.width as nat, self.rect.height as nat)
    }

    /// A blank buffer for a widget that stands in `rect`.
    pub fn new(rect: Rect) -> (buffer: RenderData)
        ensures
            buffer.rect == rect,
            buffer.rows() == Grid::blank(rect.width as nat, rect.height as nat).cells,
    {
        let mut data: Vec<Vec<char>> = Vec::new();
        let mut y: u32 = 0;
        while y < rect.height
            invariant
                y <= rect.height,
                data@.len() == y,
                forall|j: int|
                    0 <= j < y ==> (#[trigger] data@[j])@ == Seq::new(
                        rect.width as nat,
                        |x: int| BLANK,
                    ),
            decreases rect.height - y,
        {
            let mut row: Vec<char> = Vec::new();
            let mut x: u32 = 0;
            while x < rect.width
                invariant
                    x <= rect.width,
                    row@.len() == x,
                    forall|i: int| 0 <= i < x ==> row@[i] == BLANK,
                decreases rect.width - x,
            {
                row.push(BLANK);
                x = x + 1;
            }
            assert(row@ =~= Seq::new(rect.width as nat, |x: int| BLANK));
            data.push(row);
            y = y + 1;
        }
        let buffer = RenderData { rect, data };
        assert(buffer.rows() =~~= Grid::blank(rect.width as nat, rect.height as nat).cells);
        buffer
    }

    /// Has `widget` paint itself, placed in `rect`, on a fresh blank surface
    /// as wide and as high as `rect`, and hands out that surface. The cell in
    /// the top left corner of the surface is cell `(0, 0)`: what the widget
    /// paints beyond the surface is dropped. The buffer stays as it was.
    ///
    /// The second part of the result fails where the widget holds a
    /// container whose hints cannot be met; everything else is still
    /// painted.
    pub fn render(&mut self, widget: &Widget) -> (painted: (Surface, Result<(), LayoutError>))
        requires
            old(self).rect.wf(),
        ensures
            final(self).rect == old(self).rect,
            final(self).data == old(self).data,
            final(self).rows() == old(self).rows(),
            painted.0@ == widget.painted_onto(
                old(self).rect,
                old(self).blank().bounds(),
                old(self).blank(),
            ),
            painted.1 is Err <==> widget.faulty(old(self).rect),
            painted.1 is Err ==> painted.1 == Err::<(), LayoutError>(LayoutError::OverAllocated),
    {
        let mut term = Surface::new(self.rect.width, self.rect.height);
        let r = widget.render(self.rect, &mut term);
        (term, r)
    }

    /// Takes into the buffer what `widget` paints when it stands in the top
    /// left corner of the buffer and is as large as it. What the buffer held
    /// before is gone.
    ///
    /// Fails where the widget holds a container whose hints cannot be met;
    /// everything else is still painted.
    pub fn paint(&mut self, widget: &Widget) -> (r: Result<(), LayoutError>)
        requires
            old(self).local().wf(),
        ensures
            final(self).rect == old(self).rect,
            final(self).rows() == widget.painted_onto(
                old(self).local(),
                old(self).local(),
                old(self).blank(),
            ).cells,
            r is Err <==> widget.faulty(old(self).local()),
            r is Err ==> r == Err::<(), LayoutError>(LayoutError::OverAllocated),
    {
        let local = Rect { x: 0, y: 0, width: self.rect.width, height: self.rect.height };
        let mut surface = Surface::new(self.rect.width, self.rect.height);
        let r = widget.render(local, &mut surface);
        proof {
            widget.lemma_painted_onto(local, local, self.blank());
        }
        let mut data: Vec<Vec<char>> = Vec::new();
        let mut y: u32 = 0;
        while y < self.rect.height
            invariant
                y <= self.rect.height,
                surface@.wf(),
                surface@.height == self.rect.height,
                data@.len() == y,
                forall|j: int| 0 <= j < y ==> (#[trigger] data@[j])@ == surface@.cells[j],
            decreases self.rect.height - y,
        {
            match surface.row(y) {
                Some(row) => {
                    data.push(row);
                },
                None => {},
            }
            y = y + 1;
        }
        self.data = data;
        assert(self.rows() =~= surface@.cells);
        r
    }
}

} // verus!
