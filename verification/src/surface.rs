//! The logical drawing surface: a grid of character cells.

use vstd::prelude::*;
use crate::geometry::Rect;

verus! {

/// The content of a blank cell.
pub const BLANK: char = ' ';

/// The mathematical content of a surface: `height` rows of `width` cells.
pub struct Grid {
    pub width: nat,
    pub height: nat,
    pub cells: Seq<Seq<char>>,
}

impl Grid {
    /// Every row is there and has the full width.
    pub open spec fn wf(self) -> bool {
        &&& self.cells.len() == self.height
        &&& forall|y: int| 0 <= y < self.height ==> (#[trigger] self.cells[y]).len() == self.width
    }

    /// The cell `(x, y)` exists.
    pub open spec fn in_bounds(self, x: int, y: int) -> bool {
        0 <= x < self.width && 0 <= y < self.height
    }

    /// The content of cell `(x, y)`.
    pub open spec fn at(self, x: int, y: int) -> char
        recommends
            self.in_bounds(x, y),
    {
        self.cells[y][x]
    }

    /// The same grid with `c` in cell `(x, y)`.
    pub open spec fn with(self, x: int, y: int, c: char) -> Grid
        recommends
            self.in_bounds(x, y),
    {
        Grid { cells: self.cells.update(y, self.cells[y].update(x, c)), ..self }
    }

    /// A grid of the given size whose cell `(x, y)` holds `f(x, y)`.
    pub open spec fn build(width: nat, height: nat, f: spec_fn(int, int) -> char) -> Grid {
        Grid {
            width,
            height,
            cells: Seq::new(height, |y: int| Seq::new(width, |x: int| f(x, y))),
        }
    }

    /// A grid of the given size with every cell blank.
    pub open spec fn blank(width: nat, height: nat) -> Grid {
        Grid::build(width, height, |x: int, y: int| BLANK)
    }

    /// The same grid with `c` in every cell that lies in `area`.
    pub open spec fn filled(self, area: Rect, c: char) -> Grid {
        Grid::build(
            self.width,
            self.height,
            |x: int, y: int| if area.spec_contains(x, y) { c } else { self.at(x, y) },
        )
    }

    /// The area of the grid as a rectangle at the origin.
    pub open spec fn bounds(self) -> Rect {
        Rect { x: 0, y: 0, width: self.width as u32, height: self.height as u32 }
    }
}

/// Two well-formed grids of one size with equal cells are the same grid.
pub proof fn lemma_grid_ext(a: Grid, b: Grid)
    requires
        a.wf(),
        b.wf(),
        a.width == b.width,
        a.height == b.height,
        forall|x: int, y: int| a.in_bounds(x, y) ==> a.at(x, y) == b.at(x, y),
    ensures
        a == b,
{
    assert forall|y: int| 0 <= y < a.height implies a.cells[y] == b.cells[y] by {
        assert forall|x: int| 0 <= x < a.width implies a.cells[y][x] == b.cells[y][x] by {
            assert(a.in_bounds(x, y));
        }
        assert(a.cells[y] =~= b.cells[y]);
    }
    assert(a.cells =~= b.cells);
}

/// Writing one cell of a well-formed grid changes that cell and no other.
pub proof fn lemma_grid_with(g: Grid, x: int, y: int, c: char)
    requires
        g.wf(),
        g.in_bounds(x, y),
    ensures
        g.with(x, y, c).wf(),
        g.with(x, y, c).width == g.width,
        g.with(x, y, c).height == g.height,
        g.with(x, y, c).at(x, y) == c,
        forall|x2: int, y2: int|
            g.in_bounds(x2, y2) && (x2 != x || y2 != y) ==> g.with(x, y, c).at(x2, y2) == g.at(
                x2,
                y2,
            ),
{
    let h = g.with(x, y, c);
    assert forall|y2: int| 0 <= y2 < h.height implies (#[trigger] h.cells[y2]).len()
        == h.width by {
        assert(g.cells[y2].len() == g.width);
    }
}

/// A built grid is well-formed and holds in each cell what it was built from.
pub proof fn lemma_grid_build(width: nat, height: nat, f: spec_fn(int, int) -> char)
    ensures
        Grid::build(width, height, f).wf(),
        Grid::build(width, height, f).width == width,
        Grid::build(width, height, f).height == height,
        forall|x: int, y: int|
            0 <= x < width && 0 <= y < height ==> Grid::build(width, height, f).at(x, y) == f(x, y),
{
}

/// What `filled` says of each cell.
pub proof fn lemma_grid_filled(g: Grid, area: Rect, c: char)
    ensures
        g.filled(area, c).wf(),
        g.filled(area, c).width == g.width,
        g.filled(area, c).height == g.height,
        forall|x: int, y: int|
            g.in_bounds(x, y) ==> #[trigger] g.filled(area, c).at(x, y) == if area.spec_contains(
                x,
                y,
            ) {
                c
            } else {
                g.at(x, y)
            },
{
}

/// Where cell `(x, y)` of a grid `width` cells wide stands when the rows are
/// laid end to end.
pub open spec fn cell_index(width: int, x: int, y: int) -> int {
    y * width + x
}

/// Cells of one grid stand at different places, all before `width * height`.
proof fn lemma_cell_index(width: int, height: int, x: int, y: int)
    requires
        0 <= x < width,
        0 <= y < height,
    ensures
        0 <= y * width,
        0 <= cell_index(width, x, y) < width * height,
        forall|x2: int, y2: int|
            0 <= x2 < width && 0 <= y2 && (x2 != x || y2 != y) ==> cell_index(width, x2, y2)
                != cell_index(width, x, y),
{
    assert(0 <= y * width && y * width + width <= width * height) by (nonlinear_arith)
        requires
            0 <= y < height,
            0 < width,
    ;
    assert forall|x2: int, y2: int|
        0 <= x2 < width && 0 <= y2 && (x2 != x || y2 != y) implies cell_index(width, x2, y2)
        != cell_index(width, x, y) by {
        if y2 < y {
            assert(y2 * width + width <= y * width) by (nonlinear_arith)
                requires
                    y2 + 1 <= y,
                    0 < width,
            ;
        } else if y2 > y {
            assert(y * width + width <= y2 * width) by (nonlinear_arith)
                requires
                    y + 1 <= y2,
                    0 < width,
            ;
        }
    }
}

/// A grid of character cells that widgets paint into.
///
/// Cell `(0, 0)` is the top left corner; `x` grows to the right and `y`
/// downwards.
#[derive(Debug)]
pub struct Surface {
    width: u32,
    height: u32,
    /// The rows, laid end to end.
    cells: Vec<char>,
}

impl View for Surface {
    type V = Grid;

    closed spec fn view(&self) -> Grid {
        Grid::build(
            self.width as nat,
            self.height as nat,
            |x: int, y: int| self.cells@[cell_index(self.width as int, x, y)],
        )
    }
}

impl Surface {
    #[verifier::type_invariant]
    spec fn inv(self) -> bool {
        self.cells@.len() == self.width * self.height
    }

    /// Where cell `(x, y)` stands in `cells`.
    fn index_of(&self, x: u32, y: u32) -> (i: usize)
        requires
            x < self.width,
            y < self.height,
        ensures
            i == cell_index(self.width as int, x as int, y as int),
            i < self.cells@.len(),
            self.cells@.len() == self.width * self.height,
    {
        proof {
            use_type_invariant(self);
            lemma_cell_index(self.width as int, self.height as int, x as int, y as int);
            assert(self.cells@.len() == self.cells.len());
        }
        let row_start: usize = y as usize * self.width as usize;
        row_start + x as usize
    }

    /// A blank surface of the given size.
    pub fn new(width: u32, height: u32) -> (s: Surface)
        ensures
            s@ == Grid::blank(width as nat, height as nat),
            s@.wf(),
    {
        let mut cells: Vec<char> = Vec::new();
        let mut y: u32 = 0;
        while y < height
            invariant
                y <= height,
                cells@.len() == width * y,
                forall|i: int| 0 <= i < cells@.len() ==> cells@[i] == BLANK,
            decreases height - y,
        {
            let mut x: u32 = 0;
            while x < width
                invariant
                    x <= width,
                    y < height,
                    cells@.len() == width * y + x,
                    forall|i: int| 0 <= i < cells@.len() ==> cells@[i] == BLANK,
                decreases width - x,
            {
                cells.push(BLANK);
                x = x + 1;
            }
            assert(width * (y + 1) == width * y + width) by (nonlinear_arith);
            y = y + 1;
        }
        let s = Surface { width, height, cells };
        proof {
            assert forall|x: int, y: int| 0 <= x < width && 0 <= y < height implies s.cells@[cell_index(
                width as int,
                x,
                y,
            )] == BLANK by {
                lemma_cell_index(width as int, height as int, x, y);
            }
            lemma_grid_ext(s@, Grid::blank(width as nat, height as nat));
        }
        s
    }

    pub fn width(&self) -> (w: u32)
        ensures
            w == self@.width,
    {
        self.width
    }

    pub fn height(&self) -> (h: u32)
        ensures
            h == self@.height,
    {
        self.height
    }

    /// The area of the surface as a rectangle at the origin.
    pub fn bounds(&self) -> (r: Rect)
        ensures
            r == self@.bounds(),
            self@.wf(),
            self@.width <= u32::MAX,
            self@.height <= u32::MAX,
    {
        Rect { x: 0, y: 0, width: self.width, height: self.height }
    }

    /// The content of cell `(x, y)`, or `None` where the surface has no such
    /// cell.
    pub fn get(&self, x: u32, y: u32) -> (c: Option<char>)
        ensures
            self@.wf(),
            c == if self@.in_bounds(x as int, y as int) {
                Some(self@.at(x as int, y as int))
            } else {
                None
            },
    {
        if x < self.width && y < self.height {
            let i = self.index_of(x, y);
            Some(self.cells[i])
        } else {
            None
        }
    }

    /// Writes `c` into cell `(x, y)`. A cell that the surface does not have
    /// is dropped: nothing changes.
    pub fn put(&mut self, x: u32, y: u32, c: char)
        ensures
            old(self)@.wf(),
            final(self)@.wf(),
            final(self)@ == if old(self)@.in_bounds(x as int, y as int) {
                old(self)@.with(x as int, y as int, c)
            } else {
                old(self)@
            },
    {
        if x < self.width && y < self.height {
            let i = self.index_of(x, y);
            self.cells[i] = c;
            proof {
                lemma_cell_index(self.width as int, self.height as int, x as int, y as int);
                let after = old(self)@.with(x as int, y as int, c);
                assert forall|x2: int, y2: int| self@.in_bounds(x2, y2) implies self@.at(x2, y2)
                    == after.at(x2, y2) by {
                    let w = self.width as int;
                    lemma_cell_index(w, self.height as int, x2, y2);
                    assert(self@.at(x2, y2) == self.cells@[cell_index(w, x2, y2)]);
                    assert(old(self)@.at(x2, y2) == old(self).cells@[cell_index(w, x2, y2)]);
                    if x2 != x || y2 != y {
                        assert(cell_index(w, x2, y2) != cell_index(w, x as int, y as int));
                    }
                }
                lemma_grid_ext(self@, after);
            }
        }
    }

    /// Copies row `y`, or returns `None` where the surface has no such row.
    pub fn row(&self, y: u32) -> (r: Option<Vec<char>>)
        ensures
            self@.wf(),
            y < self@.height ==> r is Some && r->0@ == self@.cells[y as int],
            y >= self@.height ==> r is None,
    {
        if y >= self.height {
            return None;
        }
        let mut row: Vec<char> = Vec::new();
        let mut x: u32 = 0;
        while x < self.width
            invariant
                x <= self.width,
                y < self.height,
                row@.len() == x,
                forall|i: int| 0 <= i < x ==> row@[i] == self@.at(i, y as int),
            decreases self.width - x,
        {
            let i = self.index_of(x, y);
            row.push(self.cells[i]);
            x = x + 1;
        }
        assert(row@ =~= self@.cells[y as int]);
        Some(row)
    }

    /// Writes `c` into every cell of `area` that the surface has.
    pub fn fill(&mut self, area: Rect, c: char)
        ensures
            final(self)@ == old(self)@.filled(area, c),
            final(self)@.wf(),
    {
        let ghost before = self@;
        let visible = area.intersect(self.bounds());
        let bottom = visible.bottom();
        let right = visible.right();
        let mut y: i64 = visible.y as i64;
        while y < bottom
            invariant
                before.wf(),
                before.width <= u32::MAX,
                before.height <= u32::MAX,
                self@.wf(),
                self@.width == before.width,
                self@.height == before.height,
                visible == area.spec_intersect(before.bounds()),
                bottom == visible.spec_bottom(),
                right == visible.spec_right(),
                visible.y <= y,
                forall|x2: int, y2: int|
                    before.in_bounds(x2, y2) ==> #[trigger] self@.at(x2, y2) == if visible.spec_contains(
                        x2,
                        y2,
                    ) && y2 < y {
                        c
                    } else {
                        before.at(x2, y2)
                    },
            decreases bottom - y,
        {
            let mut x: i64 = visible.x as i64;
            while x < right
                invariant
                    before.wf(),
                    before.width <= u32::MAX,
                    before.height <= u32::MAX,
                    self@.wf(),
                    self@.width == before.width,
                    self@.height == before.height,
                    visible == area.spec_intersect(before.bounds()),
                    bottom == visible.spec_bottom(),
                    right == visible.spec_right(),
                    visible.y <= y < bottom,
                    visible.x <= x,
                    forall|x2: int, y2: int|
                        before.in_bounds(x2, y2) ==> #[trigger] self@.at(x2, y2)
                            == if visible.spec_contains(x2, y2) && (y2 < y || (y2 == y && x2
                            < x)) {
                            c
                        } else {
                            before.at(x2, y2)
                        },
                decreases right - x,
            {
                let ghost prior = self@;
                self.put(x as u32, y as u32, c);
                proof {
                    lemma_grid_with(prior, x as int, y as int, c);
                    assert forall|x2: int, y2: int| before.in_bounds(x2, y2) implies #[trigger] self@.at(
                        x2,
                        y2,
                    ) == if visible.spec_contains(x2, y2) && (y2 < y || (y2 == y && x2 < x + 1)) {
                        c
                    } else {
                        before.at(x2, y2)
                    } by {
                        if x2 != x || y2 != y {
                            assert(self@.at(x2, y2) == prior.at(x2, y2));
                        }
                    }
                }
                x = x + 1;
            }
            y = y + 1;
        }
        proof {
            lemma_grid_build(
                before.width,
                before.height,
                |x: int, y: int| if area.spec_contains(x, y) { c } else { before.at(x, y) },
            );
            lemma_grid_ext(self@, before.filled(area, c));
        }
    }

    /// Blanks every cell.
    pub fn clear(&mut self)
        ensures
            final(self)@ == Grid::blank(old(self)@.width, old(self)@.height),
            final(self)@.wf(),
    {
        let ghost before = self@;
        let area = self.bounds();
        self.fill(area, BLANK);
        proof {
            lemma_grid_build(
                before.width,
                before.height,
                |x: int, y: int| if area.spec_contains(x, y) { BLANK } else { before.at(x, y) },
            );
            lemma_grid_build(before.width, before.height, |x: int, y: int| BLANK);
            lemma_grid_ext(self@, Grid::blank(before.width, before.height));
        }
    }
}

} // verus!
