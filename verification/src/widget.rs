//! The widget tree and what each widget paints.
//!
//! A widget is given a rectangle and paints cells inside it. What it paints
//! is described cell by cell: `Widget::glyph_at` gives, for a widget placed
//! in a rectangle, the character that it writes into a cell, or `None` where
//! it leaves the cell alone.

use vstd::prelude::*;
use crate::geometry::{lemma_intersect, Axis, Rect};
use crate::layout::{over_allocated, rect_at, Hints, SizeHint};
use crate::stack::{layer_slot, lemma_layer_slot};
use crate::surface::{lemma_grid_with, Grid, Surface};

verus! {

/// The glyph set of a frame.
#[derive(Clone, Copy, Debug, PartialEq, Eq, Structural)]
pub enum BorderVariant {
    Rounded,
    Square,
    Double,
}

/// Literal text, one row per line, cut off at the edges of its rectangle.
#[derive(Debug)]
pub struct Label {
    /// The lines of the text, without their line breaks.
    pub lines: Vec<Vec<char>>,
    /// Whether each line is centered in its row and the block in its column.
    pub centered: bool,
}

/// A frame around one inner widget.
#[derive(Debug)]
pub struct Border {
    pub variant: BorderVariant,
    pub inner: Box<Widget>,
    pub hint: Option<SizeHint>,
}

/// A container that splits its rectangle among its children along one axis.
#[derive(Debug)]
pub struct Layout {
    pub axis: Axis,
    pub children: Vec<Widget>,
    pub hint: Option<SizeHint>,
}

/// One layer of a stack.
#[derive(Debug)]
pub struct Layer {
    pub index: u32,
    pub root: Widget,
}

/// Layers painted one over the other into the same rectangle, in ascending
/// order of their index; layers with equal index in the order they were
/// added.
#[derive(Debug)]
pub struct Stack {
    layers: Vec<Layer>,
}

/// A node of the widget tree.
#[derive(Debug)]
pub enum Widget {
    Label(Label),
    Border(Border),
    Layout(Layout),
    Stack(Stack),
}

/// The lines of a text: the stretches between its line breaks. A text with
/// `n` line breaks has `n + 1` lines, some of them possibly empty.
pub open spec fn split_lines(text: Seq<char>) -> Seq<Seq<char>>
    decreases text.len(),
{
    if text.len() == 0 {
        seq![Seq::<char>::empty()]
    } else {
        let before = split_lines(text.drop_last());
        if text.last() == '\n' {
            before.push(Seq::<char>::empty())
        } else {
            before.drop_last().push(before.last().push(text.last()))
        }
    }
}

/// How far content of size `content` is moved into a space of size `extent`:
/// half of the spare room, rounded down, when centered; nothing otherwise, or
/// when the content does not fit.
pub open spec fn lead(extent: int, content: int, centered: bool) -> int {
    if centered && content < extent {
        (extent - content) / 2
    } else {
        0
    }
}

/// What a label with the given lines writes into cell `(x, y)`.
pub open spec fn label_glyph(
    lines: Seq<Seq<char>>,
    centered: bool,
    rect: Rect,
    x: int,
    y: int,
) -> Option<char> {
    let row = y - rect.y - lead(rect.height as int, lines.len() as int, centered);
    if rect.spec_contains(x, y) && 0 <= row < lines.len() {
        let col = x - rect.x - lead(rect.width as int, lines[row].len() as int, centered);
        if 0 <= col < lines[row].len() {
            Some(lines[row][col])
        } else {
            None
        }
    } else {
        None
    }
}

/// The characters that a frame is drawn with.
#[derive(Clone, Copy, Debug, PartialEq, Eq, Structural)]
pub struct FrameGlyphs {
    pub top_left: char,
    pub top_right: char,
    pub bottom_left: char,
    pub bottom_right: char,
    pub horizontal: char,
    pub vertical: char,
}

impl BorderVariant {
    /// The box-drawing characters of the variant.
    pub open spec fn spec_glyphs(self) -> FrameGlyphs {
        match self {
            BorderVariant::Rounded => FrameGlyphs {
                top_left: '\u{256d}',
                top_right: '\u{256e}',
                bottom_left: '\u{2570}',
                bottom_right: '\u{256f}',
                horizontal: '\u{2500}',
                vertical: '\u{2502}',
            },
            BorderVariant::Square => FrameGlyphs {
                top_left: '\u{250c}',
                top_right: '\u{2510}',
                bottom_left: '\u{2514}',
                bottom_right: '\u{2518}',
                horizontal: '\u{2500}',
                vertical: '\u{2502}',
            },
            BorderVariant::Double => FrameGlyphs {
                top_left: '\u{2554}',
                top_right: '\u{2557}',
                bottom_left: '\u{255a}',
                bottom_right: '\u{255d}',
                horizontal: '\u{2550}',
                vertical: '\u{2551}',
            },
        }
    }

    #[verifier::when_used_as_spec(spec_glyphs)]
    pub fn glyphs(self) -> (g: FrameGlyphs)
        ensures
            g == self.spec_glyphs(),
    {
        match self {
            BorderVariant::Rounded => FrameGlyphs {
                top_left: '\u{256d}',
                top_right: '\u{256e}',
                bottom_left: '\u{2570}',
                bottom_right: '\u{256f}',
                horizontal: '\u{2500}',
                vertical: '\u{2502}',
            },
            BorderVariant::Square => FrameGlyphs {
                top_left: '\u{250c}',
                top_right: '\u{2510}',
                bottom_left: '\u{2514}',
                bottom_right: '\u{2518}',
                horizontal: '\u{2500}',
                vertical: '\u{2502}',
            },
            BorderVariant::Double => FrameGlyphs {
                top_left: '\u{2554}',
                top_right: '\u{2557}',
                bottom_left: '\u{255a}',
                bottom_right: '\u{255d}',
                horizontal: '\u{2550}',
                vertical: '\u{2551}',
            },
        }
    }
}

/// What a frame around `rect` writes into cell `(x, y)`: a corner glyph in
/// the corners, an edge glyph along the edges, nothing inside. Where corners
/// coincide the upper and then the left one wins; where edges coincide, the
/// horizontal one.
pub open spec fn frame_glyph(variant: BorderVariant, rect: Rect, x: int, y: int) -> Option<char> {
    let left = x == rect.x;
    let right = x == rect.spec_right() - 1;
    let top = y == rect.y;
    let bottom = y == rect.spec_bottom() - 1;
    if !rect.spec_contains(x, y) {
        None
    } else if top && left {
        Some(variant.glyphs().top_left)
    } else if top && right {
        Some(variant.glyphs().top_right)
    } else if bottom && left {
        Some(variant.glyphs().bottom_left)
    } else if bottom && right {
        Some(variant.glyphs().bottom_right)
    } else if top || bottom {
        Some(variant.glyphs().horizontal)
    } else if left || right {
        Some(variant.glyphs().vertical)
    } else {
        None
    }
}

/// The rectangle left for the content of a frame around `rect`: `rect` shrunk
/// by one cell on every side, or `None` where that leaves no cell.
pub open spec fn inset(rect: Rect) -> Option<Rect> {
    if rect.width > 2 && rect.height > 2 {
        Some(
            Rect {
                x: (rect.x + 1) as i32,
                y: (rect.y + 1) as i32,
                width: (rect.width - 2) as u32,
                height: (rect.height - 2) as u32,
            },
        )
    } else {
        None
    }
}

impl Label {
    /// The lines of the text.
    pub open spec fn text_lines(self) -> Seq<Seq<char>> {
        Seq::new(self.lines@.len(), |i: int| self.lines@[i]@)
    }
}

impl Stack {
    /// The layers in the order in which they are painted.
    pub closed spec fn view(&self) -> Seq<Layer> {
        self.layers@
    }

    /// The layers stand in ascending order of their index.
    pub open spec fn sorted(&self) -> bool {
        forall|i: int, j: int| 0 <= i <= j < self@.len() ==> self@[i].index <= self@[j].index
    }

    #[verifier::type_invariant]
    spec fn inv(self) -> bool {
        self.sorted()
    }

    /// A stack without layers.
    pub fn new() -> (stack: Stack)
        ensures
            stack@.len() == 0,
            stack.sorted(),
    {
        Stack { layers: Vec::new() }
    }

    /// How many layers the stack holds.
    pub fn len(&self) -> (n: usize)
        ensures
            n == self@.len(),
    {
        self.layers.len()
    }

    /// The layers in the order in which they are painted: ascending by
    /// index.
    pub fn layers(&self) -> (layers: &Vec<Layer>)
        ensures
            layers@ == self@,
            self.sorted(),
    {
        proof {
            use_type_invariant(self);
        }
        &self.layers
    }

    /// Adds a layer. It is painted after every layer with a lower or the
    /// same index, and before every layer with a higher one.
    pub fn push(&mut self, index: u32, root: Widget)
        ensures
            old(self).sorted(),
            final(self).sorted(),
            final(self)@ == old(self)@.insert(
                layer_slot(old(self)@, index as int),
                Layer { index, root },
            ),
    {
        proof {
            use_type_invariant(&*self);
            lemma_layer_slot(self@, index as int);
        }
        let mut slot: usize = self.layers.len();
        assert(self.layers@.take(slot as int) =~= self.layers@);
        while slot > 0 && self.layers[slot - 1].index > index
            invariant
                slot <= self.layers@.len(),
                layer_slot(self.layers@, index as int) == layer_slot(
                    self.layers@.take(slot as int),
                    index as int,
                ),
            decreases slot,
        {
            proof {
                assert(self.layers@.take(slot as int).drop_last() =~= self.layers@.take(
                    slot as int - 1,
                ));
            }
            slot = slot - 1;
        }
        let ghost before = self.layers@;
        // The layers change outside the stack, which holds none meanwhile:
        // so the stack is in order at every step.
        let mut layers: Vec<Layer> = Vec::new();
        std::mem::swap(&mut self.layers, &mut layers);
        layers.insert(slot, Layer { index, root });
        proof {
            assert forall|i: int, j: int| 0 <= i <= j < layers@.len() implies layers@[i].index
                <= layers@[j].index by {
                let i0 = if i < slot { i } else { i - 1 };
                let j0 = if j < slot { j } else { j - 1 };
                if i != slot && j != slot {
                    assert(before[i0].index <= before[j0].index);
                } else if i == slot && j != slot {
                    assert(before[j0].index > index);
                } else if j == slot && i != slot {
                    assert(before[i0].index <= before[slot - 1].index);
                }
            }
        }
        std::mem::swap(&mut self.layers, &mut layers);
    }
}

impl Widget {
    /// The layers of a stack are a part of it.
    pub proof fn lemma_layers_are_part(self)
        requires
            self is Stack,
        ensures
            decreases_to!(self => self->Stack_0@),
    {
    }

    /// The widget of each layer of a stack is a part of the stack.
    pub proof fn lemma_layer_is_part(self, i: int)
        requires
            self is Stack,
            0 <= i < self->Stack_0@.len(),
        ensures
            decreases_to!(self => self->Stack_0@[i].root),
    {
    }
}

impl Widget {
    /// The size hint that the widget hands to the container it stands in.
    pub open spec fn spec_size_hint(self) -> Option<SizeHint> {
        match self {
            Widget::Border(b) => b.hint,
            Widget::Layout(l) => l.hint,
            _ => None,
        }
    }

    /// What the widget, placed in `rect`, writes into cell `(x, y)`; `None`
    /// where it leaves the cell as it was.
    ///
    /// A frame paints its edges, and inside them what its inner widget
    /// paints. A container paints what its children paint; where two of them
    /// paint the same cell, the later one wins. A container whose hints
    /// cannot be met paints nothing.
    pub open spec fn glyph_at(self, rect: Rect, x: int, y: int) -> Option<char>
        decreases self, 0int,
    {
        match self {
            Widget::Label(l) => label_glyph(l.text_lines(), l.centered, rect, x, y),
            Widget::Border(b) => match inset(rect) {
                Some(inner) => match b.inner.glyph_at(inner, x, y) {
                    Some(c) => Some(c),
                    None => frame_glyph(b.variant, rect, x, y),
                },
                None => frame_glyph(b.variant, rect, x, y),
            },
            Widget::Layout(l) => if over_allocated(hints_of(l.children@), rect.spec_extent(l.axis)) {
                None
            } else {
                children_glyph(l.children@, l.axis, rect, l.children@.len() as int, x, y)
            },
            Widget::Stack(s) => layers_glyph(s@, rect, s@.len() as int, x, y),
        }
    }

    /// The content of cell `(x, y)` after the widget, placed in `rect`, has
    /// painted over a grid that held `before`, writing only inside `clip`.
    pub open spec fn cell_after(self, rect: Rect, clip: Rect, before: Grid, x: int, y: int) -> char {
        if clip.spec_contains(x, y) {
            match self.glyph_at(rect, x, y) {
                Some(c) => c,
                None => before.at(x, y),
            }
        } else {
            before.at(x, y)
        }
    }

    /// The grid `before` after the widget, placed in `rect`, has painted over
    /// it, writing only inside `clip`.
    pub open spec fn painted_onto(self, rect: Rect, clip: Rect, before: Grid) -> Grid {
        Grid::build(
            before.width,
            before.height,
            |x: int, y: int| self.cell_after(rect, clip, before, x, y),
        )
    }

    /// Some container that gets painted when the widget is placed in `rect`
    /// has hints that cannot be met.
    pub open spec fn faulty(self, rect: Rect) -> bool
        decreases self, 0int,
    {
        match self {
            Widget::Label(l) => false,
            Widget::Border(b) => match inset(rect) {
                Some(inner) => b.inner.faulty(inner),
                None => false,
            },
            Widget::Layout(l) => over_allocated(hints_of(l.children@), rect.spec_extent(l.axis))
                || children_faulty(l.children@, l.axis, rect, l.children@.len() as int),
            Widget::Stack(s) => layers_faulty(s@, rect, s@.len() as int),
        }
    }
}

/// The hints of the children of a container.
pub open spec fn hints_of(children: Seq<Widget>) -> Hints {
    Seq::new(children.len(), |i: int| children[i].spec_size_hint())
}

/// What the first `n` children of a container in `rect` write into cell
/// `(x, y)`, each in its own slot.
pub open spec fn children_glyph(
    children: Seq<Widget>,
    axis: Axis,
    rect: Rect,
    n: int,
    x: int,
    y: int,
) -> Option<char>
    decreases children, n,
{
    if n <= 0 || n > children.len() {
        None
    } else {
        match children[n - 1].glyph_at(rect_at(rect, axis, hints_of(children), n - 1), x, y) {
            Some(c) => Some(c),
            None => children_glyph(children, axis, rect, n - 1, x, y),
        }
    }
}

/// One of the first `n` children of a container in `rect` is faulty in its
/// slot.
pub open spec fn children_faulty(children: Seq<Widget>, axis: Axis, rect: Rect, n: int) -> bool
    decreases children, n,
{
    if n <= 0 || n > children.len() {
        false
    } else {
        children[n - 1].faulty(rect_at(rect, axis, hints_of(children), n - 1)) || children_faulty(
            children,
            axis,
            rect,
            n - 1,
        )
    }
}

/// What the first `n` layers write into cell `(x, y)`, all placed in `rect`.
pub open spec fn layers_glyph(layers: Seq<Layer>, rect: Rect, n: int, x: int, y: int) -> Option<
    char,
>
    decreases layers, n,
{
    if n <= 0 || n > layers.len() {
        None
    } else {
        match layers[n - 1].root.glyph_at(rect, x, y) {
            Some(c) => Some(c),
            None => layers_glyph(layers, rect, n - 1, x, y),
        }
    }
}

/// One of the first `n` layers is faulty in `rect`.
pub open spec fn layers_faulty(layers: Seq<Layer>, rect: Rect, n: int) -> bool
    decreases layers, n,
{
    if n <= 0 || n > layers.len() {
        false
    } else {
        layers[n - 1].root.faulty(rect) || layers_faulty(layers, rect, n - 1)
    }
}

} // verus!

verus! {

impl Label {
    /// A label that shows `text`, starting in the top left corner of its
    /// rectangle.
    pub fn new(text: &str) -> (label: Label)
        ensures
            label.text_lines() == split_lines(text@),
            !label.centered,
    {
        let mut lines: Vec<Vec<char>> = Vec::new();
        let mut current: Vec<char> = Vec::new();
        for c in chars: text.chars()
            invariant
                chars.seq() == text@,
                Seq::new(lines@.len(), |j: int| lines@[j]@).push(current@) == split_lines(
                    text@.take(chars.index() as int),
                ),
        {
            let ghost i = chars.index() as int;
            let ghost done = Seq::new(lines@.len(), |j: int| lines@[j]@);
            let ghost before = split_lines(text@.take(i));
            proof {
                assert(text@.take(i + 1).drop_last() =~= text@.take(i));
                assert(text@.take(i + 1).last() == c);
                assert(before.drop_last() =~= done);
                assert(before.last() == current@);
            }
            if c == '\n' {
                lines.push(current);
                current = Vec::new();
                assert(Seq::new(lines@.len(), |j: int| lines@[j]@) =~= before);
            } else {
                current.push(c);
                assert(Seq::new(lines@.len(), |j: int| lines@[j]@) =~= done);
            }
        }
        proof {
            assert(text@.take(text@.len() as int) =~= text@);
        }
        let ghost done = Seq::new(lines@.len(), |j: int| lines@[j]@);
        lines.push(current);
        let label = Label { lines, centered: false };
        assert(label.text_lines() =~= done.push(current@));
        label
    }

    /// The same label, centered: each line in the middle of its row, the
    /// block of lines in the middle of the rectangle.
    pub fn center(self) -> (label: Label)
        ensures
            label.lines == self.lines,
            label.centered,
    {
        Label { lines: self.lines, centered: true }
    }

    /// What the label, placed in `rect`, writes into cell `(x, y)`.
    pub fn glyph(&self, rect: Rect, x: i64, y: i64) -> (g: Option<char>)
        ensures
            g == label_glyph(self.text_lines(), self.centered, rect, x as int, y as int),
    {
        if !rect.contains(x, y) {
            return None;
        }
        let count = self.lines.len();
        let top: i64 = if self.centered && count < rect.height as usize {
            (rect.height as i64 - count as i64) / 2
        } else {
            0
        };
        let row: i64 = y - rect.y as i64 - top;
        if row < 0 || row as usize >= count {
            return None;
        }
        let line = &self.lines[row as usize];
        let length = line.len();
        let left: i64 = if self.centered && length < rect.width as usize {
            (rect.width as i64 - length as i64) / 2
        } else {
            0
        };
        let col: i64 = x - rect.x as i64 - left;
        if col < 0 || col as usize >= length {
            return None;
        }
        Some(line[col as usize])
    }
}

/// What a frame around `rect` writes into cell `(x, y)`.
pub fn frame_glyph_at(variant: BorderVariant, rect: Rect, x: i64, y: i64) -> (g: Option<char>)
    ensures
        g == frame_glyph(variant, rect, x as int, y as int),
{
    if !rect.contains(x, y) {
        return None;
    }
    let glyphs = variant.glyphs();
    let left = x == rect.x as i64;
    let right = x == rect.right() - 1;
    let top = y == rect.y as i64;
    let bottom = y == rect.bottom() - 1;
    if top && left {
        Some(glyphs.top_left)
    } else if top && right {
        Some(glyphs.top_right)
    } else if bottom && left {
        Some(glyphs.bottom_left)
    } else if bottom && right {
        Some(glyphs.bottom_right)
    } else if top || bottom {
        Some(glyphs.horizontal)
    } else if left || right {
        Some(glyphs.vertical)
    } else {
        None
    }
}

/// The rectangle left for the content of a frame around `rect`.
pub fn inset_rect(rect: Rect) -> (inner: Option<Rect>)
    requires
        rect.wf(),
    ensures
        inner == inset(rect),
        inner matches Some(r) ==> r.wf(),
{
    if rect.width > 2 && rect.height > 2 {
        Some(Rect { x: rect.x + 1, y: rect.y + 1, width: rect.width - 2, height: rect.height - 2 })
    } else {
        None
    }
}

} // verus!

verus! {

impl Widget {
    /// What the widget itself, apart from its children, writes into cell
    /// `(x, y)` when placed in `rect`: a label its text, a border its frame.
    pub open spec fn own_glyph_at(self, rect: Rect, x: int, y: int) -> Option<char> {
        match self {
            Widget::Label(l) => label_glyph(l.text_lines(), l.centered, rect, x, y),
            Widget::Border(b) => frame_glyph(b.variant, rect, x, y),
            _ => None,
        }
    }

    /// The size hint that the widget hands to the container it stands in.
    pub fn size_hint(&self) -> (hint: Option<SizeHint>)
        ensures
            hint == self.spec_size_hint(),
    {
        match self {
            Widget::Border(b) => b.hint,
            Widget::Layout(l) => l.hint,
            _ => None,
        }
    }

    fn own_glyph(&self, rect: Rect, x: i64, y: i64) -> (g: Option<char>)
        ensures
            g == self.own_glyph_at(rect, x as int, y as int),
    {
        match self {
            Widget::Label(l) => l.glyph(rect, x, y),
            Widget::Border(b) => frame_glyph_at(b.variant, rect, x, y),
            _ => None,
        }
    }

    /// Paints what the widget itself writes, cell by cell, over the part of
    /// `rect` that lies inside `clip` and on the surface.
    pub(crate) fn paint_own(&self, rect: Rect, clip: Rect, surface: &mut Surface)
        ensures
            final(surface)@.wf(),
            final(surface)@.width == old(surface)@.width,
            final(surface)@.height == old(surface)@.height,
            forall|x: int, y: int|
                old(surface)@.in_bounds(x, y) ==> #[trigger] final(surface)@.at(x, y)
                    == if clip.spec_contains(x, y) && self.own_glyph_at(rect, x, y) is Some {
                    self.own_glyph_at(rect, x, y)->0
                } else {
                    old(surface)@.at(x, y)
                },
    {
        let ghost before = surface@;
        let visible = rect.intersect(clip).intersect(surface.bounds());
        let bottom = visible.bottom();
        let right = visible.right();
        let mut y: i64 = visible.y as i64;
        while y < bottom
            invariant
                before.wf(),
                before.width <= u32::MAX,
                before.height <= u32::MAX,
                surface@.wf(),
                surface@.width == before.width,
                surface@.height == before.height,
                visible == rect.spec_intersect(clip).spec_intersect(before.bounds()),
                bottom == visible.spec_bottom(),
                right == visible.spec_right(),
                visible.y <= y,
                forall|x2: int, y2: int|
                    before.in_bounds(x2, y2) ==> surface@.at(x2, y2) == if visible.spec_contains(
                        x2,
                        y2,
                    ) && y2 < y && self.own_glyph_at(rect, x2, y2) is Some {
                        self.own_glyph_at(rect, x2, y2)->0
                    } else {
                        before.at(x2, y2)
                    },
            decreases bottom - y,
        {
            let mut x: i64 = visible.x as i64;
            while x < right
                invariant
                    before.wf(),
                    before.width <= u32::MAX,
                    before.height <= u32::MAX,
                    surface@.wf(),
                    surface@.width == before.width,
                    surface@.height == before.height,
                    visible == rect.spec_intersect(clip).spec_intersect(before.bounds()),
                    bottom == visible.spec_bottom(),
                    right == visible.spec_right(),
                    visible.y <= y < bottom,
                    visible.x <= x,
                        forall|x2: int, y2: int|
                        before.in_bounds(x2, y2) ==> surface@.at(x2, y2) == if visible.spec_contains(
                            x2,
                            y2,
                        ) && (y2 < y || (y2 == y && x2 < x)) && self.own_glyph_at(rect, x2, y2) is Some {
                            self.own_glyph_at(rect, x2, y2)->0
                        } else {
                            before.at(x2, y2)
                        },
                decreases right - x,
            {
                if let Some(c) = self.own_glyph(rect, x, y) {
                    proof {
                        lemma_grid_with(surface@, x as int, y as int, c);
                    }
                    surface.put(x as u32, y as u32, c);
                }
                x = x + 1;
            }
            y = y + 1;
        }
        proof {
            lemma_intersect(rect, clip);
            lemma_intersect(rect.spec_intersect(clip), before.bounds());
        }
    }
}

} // verus!
