//! Floats: detached widgets at explicit screen positions, painted over the
//! base tree in order of their z-index.

use vstd::prelude::*;
use crate::geometry::{lemma_intersect, Rect};
use crate::layout::LayoutError;
use crate::surface::{lemma_grid_ext, lemma_grid_filled, Grid, Surface, BLANK};
use crate::widget::Widget;

verus! {

/// A widget with a place and a rank of its own.
#[derive(Debug)]
pub struct Float {
    pub contents: Widget,
    /// Where the float stands, in absolute screen coordinates.
    pub rect: Rect,
    /// Floats with a higher z-index are painted over those with a lower one.
    pub z_index: i32,
}

/// Names one float of one stack. Handles are given out in ascending order
/// and never again after the float is gone.
#[derive(Clone, Copy, Debug, PartialEq, Eq, Structural)]
pub struct FloatHandle {
    id: u64,
}

impl View for FloatHandle {
    type V = u64;

    closed spec fn view(&self) -> u64 {
        self.id
    }
}

impl FloatHandle {
    /// The number of the handle: how many floats its stack was given before.
    pub fn id(&self) -> (id: u64)
        ensures
            id == self@,
    {
        self.id
    }
}

/// Why a float could not be reached.
#[derive(Clone, Copy, Debug, PartialEq, Eq, Structural)]
pub enum FloatError {
    /// The stack holds no float under that handle.
    NotFound,
}

/// A float together with its handle.
#[derive(Debug)]
pub struct FloatEntry {
    pub handle: FloatHandle,
    pub float: Float,
}

/// `a` is painted before `b`: it has the lower z-index, or the same and was
/// added earlier.
pub open spec fn paints_before(a: FloatEntry, b: FloatEntry) -> bool {
    a.float.z_index < b.float.z_index || (a.float.z_index == b.float.z_index && a.handle@
        < b.handle@)
}

/// Each entry is painted before all that follow it.
pub open spec fn ordered(entries: Seq<FloatEntry>) -> bool {
    forall|i: int, j: int| 0 <= i < j < entries.len() ==> paints_before(entries[i], entries[j])
}

/// Where the entry with the given handle stands, if there is one.
pub open spec fn position(entries: Seq<FloatEntry>, handle: FloatHandle) -> Option<int>
    decreases entries.len(),
{
    if entries.len() == 0 {
        None
    } else if entries.last().handle == handle {
        Some(entries.len() - 1)
    } else {
        position(entries.drop_last(), handle)
    }
}

/// The float under the given handle, if there is one.
pub open spec fn lookup(entries: Seq<FloatEntry>, handle: FloatHandle) -> Option<Float> {
    match position(entries, handle) {
        Some(i) => Some(entries[i].float),
        None => None,
    }
}

/// Where a new float with z-index `z` goes: behind the last entry whose
/// z-index is not above `z`.
pub open spec fn slot_for(entries: Seq<FloatEntry>, z: int) -> int
    decreases entries.len(),
{
    if entries.len() == 0 {
        0
    } else if entries.last().float.z_index <= z {
        entries.len() as int
    } else {
        slot_for(entries.drop_last(), z)
    }
}

/// The entries after `float` was added under `handle`.
pub open spec fn with_added(entries: Seq<FloatEntry>, handle: FloatHandle, float: Float) -> Seq<
    FloatEntry,
> {
    entries.insert(slot_for(entries, float.z_index as int), FloatEntry { handle, float })
}

/// The entries after the float at `i` was moved to `rect`.
pub open spec fn with_rect(entries: Seq<FloatEntry>, i: int, rect: Rect) -> Seq<FloatEntry> {
    entries.update(
        i,
        FloatEntry {
            handle: entries[i].handle,
            float: Float { rect, ..entries[i].float },
        },
    )
}

/// The float covers cell `(x, y)` of the screen.
pub open spec fn covers(float: Float, screen: Rect, x: int, y: int) -> bool {
    float.rect.spec_contains(x, y) && screen.spec_contains(x, y)
}

/// What a float shows in a cell that it covers: what its contents paint
/// there, and a blank where they paint nothing.
pub open spec fn shown(float: Float, x: int, y: int) -> char {
    match float.contents.glyph_at(float.rect, x, y) {
        Some(c) => c,
        None => BLANK,
    }
}

/// The last of the first `n` entries that covers cell `(x, y)`.
pub open spec fn top_index(entries: Seq<FloatEntry>, screen: Rect, n: int, x: int, y: int) -> Option<
    int,
>
    decreases n,
{
    if n <= 0 || n > entries.len() {
        None
    } else if covers(entries[n - 1].float, screen, x, y) {
        Some(n - 1)
    } else {
        top_index(entries, screen, n - 1, x, y)
    }
}

/// What the first `n` entries, painted in order, leave in cell `(x, y)`;
/// `None` where none of them covers it.
pub open spec fn floats_glyph(entries: Seq<FloatEntry>, screen: Rect, n: int, x: int, y: int) -> Option<
    char,
> {
    match top_index(entries, screen, n, x, y) {
        Some(i) => Some(shown(entries[i].float, x, y)),
        None => None,
    }
}

/// The contents of one of the first `n` floats are faulty.
pub open spec fn floats_faulty(entries: Seq<FloatEntry>, n: int) -> bool
    decreases n,
{
    if n <= 0 || n > entries.len() {
        false
    } else {
        entries[n - 1].float.contents.faulty(entries[n - 1].float.rect) || floats_faulty(
            entries,
            n - 1,
        )
    }
}

/// The grid `before` with the floats painted over it, each clipped to
/// `screen`.
pub open spec fn composed(entries: Seq<FloatEntry>, screen: Rect, before: Grid) -> Grid {
    Grid::build(
        before.width,
        before.height,
        |x: int, y: int|
            match floats_glyph(entries, screen, entries.len() as int, x, y) {
                Some(c) => c,
                None => before.at(x, y),
            },
    )
}

/// What `composed` says of each cell.
pub proof fn lemma_composed(entries: Seq<FloatEntry>, screen: Rect, before: Grid)
    ensures
        composed(entries, screen, before).wf(),
        composed(entries, screen, before).width == before.width,
        composed(entries, screen, before).height == before.height,
        forall|x: int, y: int|
            before.in_bounds(x, y) ==> #[trigger] composed(entries, screen, before).at(x, y)
                == match floats_glyph(entries, screen, entries.len() as int, x, y) {
                Some(c) => c,
                None => before.at(x, y),
            },
{
}

/// Describes `slot_for`: every entry from the slot on has a z-index above
/// `z`, and the one just before it has not.
pub proof fn lemma_slot_for(entries: Seq<FloatEntry>, z: int)
    ensures
        0 <= slot_for(entries, z) <= entries.len(),
        forall|j: int|
            slot_for(entries, z) <= j < entries.len() ==> (#[trigger] entries[j]).float.z_index
                > z,
        slot_for(entries, z) > 0 ==> entries[slot_for(entries, z) - 1].float.z_index <= z,
    decreases entries.len(),
{
    if entries.len() > 0 && entries.last().float.z_index > z {
        let rest = entries.drop_last();
        lemma_slot_for(rest, z);
        assert forall|j: int| slot_for(entries, z) <= j < entries.len() implies (
        #[trigger] entries[j]).float.z_index > z by {
            if j < rest.len() {
                assert(rest[j] == entries[j]);
            }
        }
    }
}

/// Describes `position`: the entry found carries the handle; where none is
/// found, no entry carries it.
pub proof fn lemma_position(entries: Seq<FloatEntry>, handle: FloatHandle)
    ensures
        position(entries, handle) matches Some(i) ==> 0 <= i < entries.len() && entries[i].handle
            == handle,
        position(entries, handle) is None ==> forall|j: int|
            0 <= j < entries.len() ==> (#[trigger] entries[j]).handle != handle,
    decreases entries.len(),
{
    if entries.len() > 0 && entries.last().handle != handle {
        let rest = entries.drop_last();
        lemma_position(rest, handle);
        if position(entries, handle) is None {
            assert forall|j: int| 0 <= j < entries.len() implies (#[trigger] entries[j]).handle
                != handle by {
                if j < rest.len() {
                    assert(rest[j] == entries[j]);
                }
            }
        }
    }
}

/// No handle occurs twice.
pub open spec fn distinct(entries: Seq<FloatEntry>) -> bool {
    forall|i: int, j: int|
        0 <= i < j < entries.len() ==> (#[trigger] entries[i]).handle != (
        #[trigger] entries[j]).handle
}

/// Where no handle occurs twice, the entry at `i` is the one found under its
/// handle.
pub proof fn lemma_position_unique(entries: Seq<FloatEntry>, i: int)
    requires
        distinct(entries),
        0 <= i < entries.len(),
    ensures
        position(entries, entries[i].handle) == Some(i),
    decreases entries.len(),
{
    if i < entries.len() - 1 {
        lemma_position_unique(entries.drop_last(), i);
    }
}

/// The floats of a screen.
///
/// The stack keeps its floats in the order in which they are painted:
/// ascending by z-index, and floats with the same z-index in the order they
/// were added.
#[derive(Debug)]
pub struct FloatStack {
    entries: Vec<FloatEntry>,
    next: u64,
}

impl View for FloatStack {
    type V = Seq<FloatEntry>;

    closed spec fn view(&self) -> Seq<FloatEntry> {
        self.entries@
    }
}

impl FloatStack {
    /// The number that the next handle will carry.
    pub closed spec fn next_id(&self) -> u64 {
        self.next
    }

    /// The entries stand in painting order, every handle was given out by
    /// this stack, and every float fits on the coordinate grid.
    pub open spec fn wf(&self) -> bool {
        &&& ordered(self@)
        &&& distinct(self@)
        &&& forall|i: int|
            0 <= i < self@.len() ==> (#[trigger] self@[i]).handle@ < self.next_id()
                && self@[i].float.rect.wf()
    }

    #[verifier::type_invariant]
    spec fn inv(self) -> bool {
        self.wf()
    }

    /// A stack without floats.
    pub fn new() -> (stack: FloatStack)
        ensures
            stack@.len() == 0,
            stack.next_id() == 0,
            stack.wf(),
    {
        FloatStack { entries: Vec::new(), next: 0 }
    }

    /// How many floats the stack holds.
    pub fn len(&self) -> (n: usize)
        ensures
            n == self@.len(),
            self.wf(),
    {
        proof {
            use_type_invariant(self);
        }
        self.entries.len()
    }

    /// Whether a handle is left for one more float.
    pub fn has_room(&self) -> (room: bool)
        ensures
            room == (self.next_id() < u64::MAX),
    {
        self.next < u64::MAX
    }

    /// Adds a float and returns its handle, which no float of this stack had
    /// before.
    pub fn add(&mut self, float: Float) -> (handle: FloatHandle)
        requires
            float.rect.wf(),
            old(self).next_id() < u64::MAX,
        ensures
            old(self).wf(),
            final(self).wf(),
            handle@ == old(self).next_id(),
            position(old(self)@, handle) is None,
            final(self).next_id() == old(self).next_id() + 1,
            final(self)@ == with_added(old(self)@, handle, float),
    {
        proof {
            use_type_invariant(&*self);
            lemma_slot_for(self@, float.z_index as int);
            lemma_position(self@, FloatHandle { id: self.next });
        }
        let handle = FloatHandle { id: self.next };
        let mut slot: usize = self.entries.len();
        assert(self.entries@.take(slot as int) =~= self.entries@);
        while slot > 0 && self.entries[slot - 1].float.z_index > float.z_index
            invariant
                slot <= self.entries@.len(),
                slot_for(self.entries@, float.z_index as int) == slot_for(
                    self.entries@.take(slot as int),
                    float.z_index as int,
                ),
            decreases slot,
        {
            proof {
                assert(self.entries@.take(slot as int).drop_last() =~= self.entries@.take(
                    slot as int - 1,
                ));
            }
            slot = slot - 1;
        }
        // The entries change outside the stack, which holds none meanwhile:
        // so the stack is well-formed at every step.
        let mut entries: Vec<FloatEntry> = Vec::new();
        let ghost before = self.entries@;
        std::mem::swap(&mut self.entries, &mut entries);
        entries.insert(slot, FloatEntry { handle, float });
        self.next = self.next + 1;
        proof {
            assert forall|i: int, j: int| 0 <= i < j < entries@.len() implies paints_before(
                entries@[i],
                entries@[j],
            ) by {
                if j == slot && i < slot - 1 {
                    assert(paints_before(before[i], before[slot - 1]));
                }
            }
        }
        std::mem::swap(&mut self.entries, &mut entries);
        handle
    }

    /// Adds a float where that can be done: where its rectangle fits on the
    /// coordinate grid and a handle is left. Otherwise the stack stays as it
    /// was and no handle is given.
    pub fn try_add(&mut self, float: Float) -> (handle: Option<FloatHandle>)
        ensures
            old(self).wf(),
            final(self).wf(),
            handle is Some <==> float.rect.wf() && old(self).next_id() < u64::MAX,
            handle matches Some(h) ==> {
                &&& h@ == old(self).next_id()
                &&& position(old(self)@, h) is None
                &&& final(self).next_id() == old(self).next_id() + 1
                &&& final(self)@ == with_added(old(self)@, h, float)
            },
            handle is None ==> final(self)@ == old(self)@ && final(self).next_id() == old(
                self,
            ).next_id(),
    {
        proof {
            use_type_invariant(&*self);
        }
        if float.rect.fits() && self.has_room() {
            Some(self.add(float))
        } else {
            None
        }
    }

    /// Where the entry with the given handle stands in painting order.
    pub fn find(&self, handle: FloatHandle) -> (found: Option<usize>)
        ensures
            self.wf(),
            found matches Some(i) ==> position(self@, handle) == Some(i as int),
            found is None ==> position(self@, handle) is None,
    {
        proof {
            use_type_invariant(self);
        }
        let mut i: usize = self.entries.len();
        assert(self.entries@.take(i as int) =~= self.entries@);
        while i > 0
            invariant
                self.wf(),
                i <= self.entries@.len(),
                position(self.entries@, handle) == position(self.entries@.take(i as int), handle),
            decreases i,
        {
            if self.entries[i - 1].handle.id == handle.id {
                return Some(i - 1);
            }
            proof {
                assert(self.entries@.take(i as int).drop_last() =~= self.entries@.take(
                    i as int - 1,
                ));
            }
            i = i - 1;
        }
        None
    }

    /// The float under the given handle, or `None` where the stack holds
    /// none under it.
    pub fn get(&self, handle: FloatHandle) -> (float: Option<&Float>)
        ensures
            self.wf(),
            match float {
                Some(f) => lookup(self@, handle) == Some(*f),
                None => lookup(self@, handle) is None,
            },
    {
        match self.find(handle) {
            Some(i) => {
                proof {
                    lemma_position(self@, handle);
                }
                Some(&self.entries[i].float)
            },
            None => None,
        }
    }

    /// Moves the float under `handle` to `rect`, leaving all else as it was.
    ///
    /// Fails with `NotFound`, and changes nothing, where the stack holds no
    /// float under that handle.
    pub fn update(&mut self, handle: FloatHandle, rect: Rect) -> (r: Result<(), FloatError>)
        requires
            rect.wf(),
        ensures
            old(self).wf(),
            final(self).wf(),
            final(self).next_id() == old(self).next_id(),
            match position(old(self)@, handle) {
                Some(i) => r is Ok && final(self)@ == with_rect(old(self)@, i, rect),
                None => r == Err::<(), FloatError>(FloatError::NotFound) && final(self)@ == old(
                    self,
                )@,
            },
    {
        proof {
            use_type_invariant(&*self);
            lemma_position(self@, handle);
        }
        match self.find(handle) {
            Some(i) => {
                let ghost before = self.entries@;
                // As in `add`, the entries change outside the stack.
                let mut entries: Vec<FloatEntry> = Vec::new();
                std::mem::swap(&mut self.entries, &mut entries);
                entries[i].float.rect = rect;
                proof {
                    assert forall|a: int, b: int| 0 <= a < b < entries@.len() implies paints_before(
                        entries@[a],
                        entries@[b],
                    ) by {
                        assert(paints_before(before[a], before[b]));
                    }
                }
                std::mem::swap(&mut self.entries, &mut entries);
                Ok(())
            },
            None => Err(FloatError::NotFound),
        }
    }

    /// Takes the float under `handle` out of the stack and returns it.
    ///
    /// Fails with `NotFound`, and changes nothing, where the stack holds no
    /// float under that handle. The handle is not given out again.
    pub fn remove(&mut self, handle: FloatHandle) -> (r: Result<Float, FloatError>)
        ensures
            old(self).wf(),
            final(self).wf(),
            final(self).next_id() == old(self).next_id(),
            match position(old(self)@, handle) {
                Some(i) => r == Ok::<Float, FloatError>(old(self)@[i].float) && final(self)@ == old(
                    self,
                )@.remove(i),
                None => r == Err::<Float, FloatError>(FloatError::NotFound) && final(self)@ == old(
                    self,
                )@,
            },
    {
        proof {
            use_type_invariant(&*self);
            lemma_position(self@, handle);
        }
        match self.find(handle) {
            Some(i) => {
                // As in `add`, the entries change outside the stack.
                let mut entries: Vec<FloatEntry> = Vec::new();
                std::mem::swap(&mut self.entries, &mut entries);
                let entry = entries.remove(i);
                std::mem::swap(&mut self.entries, &mut entries);
                Ok(entry.float)
            },
            None => Err(FloatError::NotFound),
        }
    }

    /// The topmost float that covers cell `(x, y)` of the screen, if any
    /// does.
    pub fn hit(&self, screen: Rect, x: i64, y: i64) -> (handle: Option<FloatHandle>)
        ensures
            self.wf(),
            match top_index(self@, screen, self@.len() as int, x as int, y as int) {
                Some(i) => handle == Some(self@[i].handle),
                None => handle is None,
            },
    {
        proof {
            use_type_invariant(self);
        }
        if !screen.contains(x, y) {
            proof {
                lemma_top_index(self@, screen, self@.len() as int, x as int, y as int);
            }
            return None;
        }
        let mut i: usize = self.entries.len();
        while i > 0
            invariant
                self.wf(),
                i <= self.entries@.len(),
                screen.spec_contains(x as int, y as int),
                top_index(self@, screen, self@.len() as int, x as int, y as int) == top_index(
                    self@,
                    screen,
                    i as int,
                    x as int,
                    y as int,
                ),
            decreases i,
        {
            if self.entries[i - 1].float.rect.contains(x, y) {
                return Some(self.entries[i - 1].handle);
            }
            i = i - 1;
        }
        None
    }

    /// Paints the floats over `surface`, lowest first, each into its own
    /// rectangle clipped to `screen`. A float hides whatever lay under its
    /// rectangle.
    ///
    /// Fails where the contents of some float hold a container whose hints
    /// cannot be met; everything else is still painted.
    pub fn render(&self, screen: Rect, surface: &mut Surface) -> (r: Result<(), LayoutError>)
        ensures
            self.wf(),
            final(surface)@ == composed(self@, screen, old(surface)@),
            r is Err <==> floats_faulty(self@, self@.len() as int),
            r is Err ==> r == Err::<(), LayoutError>(LayoutError::OverAllocated),
    {
        proof {
            use_type_invariant(self);
        }
        let ghost before = surface@;
        let bounds = surface.bounds();
        let n = self.entries.len();
        let mut failed = false;
        let mut i: usize = 0;
        while i < n
            invariant
                self.wf(),
                i <= n,
                n == self@.len(),
                before.wf(),
                surface@.wf(),
                surface@.width == before.width,
                surface@.height == before.height,
                failed == floats_faulty(self@, i as int),
                forall|x: int, y: int|
                    before.in_bounds(x, y) ==> #[trigger] surface@.at(x, y) == match floats_glyph(
                        self@,
                        screen,
                        i as int,
                        x,
                        y,
                    ) {
                        Some(c) => c,
                        None => before.at(x, y),
                    },
            decreases n - i,
        {
            let float = &self.entries[i].float;
            let area = float.rect.intersect(screen);
            let ghost under = surface@;
            surface.fill(area, BLANK);
            let ghost cleared = surface@;
            let r = float.contents.render_clipped(float.rect, area, surface);
            proof {
                lemma_grid_filled(under, area, BLANK);
                float.contents.lemma_painted_onto(float.rect, area, cleared);
                lemma_intersect(float.rect, screen);
                assert forall|x: int, y: int| before.in_bounds(x, y) implies #[trigger] surface@.at(
                    x,
                    y,
                ) == match floats_glyph(self@, screen, i as int + 1, x, y) {
                    Some(c) => c,
                    None => before.at(x, y),
                } by {
                    assert(surface@.at(x, y) == float.contents.cell_after(
                        float.rect,
                        area,
                        cleared,
                        x,
                        y,
                    ));
                    assert(cleared.at(x, y) == if area.spec_contains(x, y) {
                        BLANK
                    } else {
                        under.at(x, y)
                    });
                }
            }
            if r.is_err() {
                failed = true;
            }
            i = i + 1;
        }
        proof {
            lemma_composed(self@, screen, before);
            lemma_grid_ext(surface@, composed(self@, screen, before));
        }
        if failed {
            Err(LayoutError::OverAllocated)
        } else {
            Ok(())
        }
    }
}

/// The place after `index` in a ring of `count` places: the next one, and
/// the first after the last.
pub open spec fn ring_next(index: int, count: int) -> int {
    if index + 1 < count {
        index + 1
    } else {
        0
    }
}

/// Inside the ring, the next place is one further, modulo the size of the
/// ring.
pub proof fn lemma_ring_next(index: int, count: int)
    requires
        0 <= index < count,
    ensures
        ring_next(index, count) == (index + 1) % count,
        0 <= ring_next(index, count) < count,
{
    if index + 1 < count {
        assert((index + 1) % count == index + 1) by (nonlinear_arith)
            requires
                0 <= index + 1 < count,
        ;
    } else {
        assert(count % count == 0) by (nonlinear_arith)
            requires
                count > 0,
        ;
    }
}

/// The place after `current` in a ring of `count` places.
pub fn cycle_index(current: usize, count: usize) -> (next: usize)
    ensures
        next == ring_next(current as int, count as int),
{
    if current < count && current + 1 < count {
        current + 1
    } else {
        0
    }
}

/// The float selected after `current` when the selection moves on by one:
/// the one painted next, the first one after the last, and the first one
/// where `current` names no float of the stack. `None` where there is no
/// float.
pub open spec fn successor(entries: Seq<FloatEntry>, current: Option<FloatHandle>) -> Option<
    FloatHandle,
> {
    if entries.len() == 0 {
        None
    } else {
        let start = match current {
            Some(handle) => match position(entries, handle) {
                Some(i) => ring_next(i, entries.len() as int),
                None => 0,
            },
            None => 0,
        };
        Some(entries[start].handle)
    }
}

impl FloatStack {
    /// The float to select after `current`.
    pub fn next_after(&self, current: Option<FloatHandle>) -> (next: Option<FloatHandle>)
        ensures
            self.wf(),
            next == successor(self@, current),
    {
        let count = self.len();
        if count == 0 {
            return None;
        }
        let found = match current {
            Some(handle) => self.find(handle),
            None => None,
        };
        let start = match found {
            Some(i) => {
                proof {
                    lemma_position(self@, current->0);
                }
                cycle_index(i, count)
            },
            None => 0,
        };
        Some(self.entries[start].handle)
    }

    /// Whether the stack holds a float under `handle`.
    pub fn contains(&self, handle: FloatHandle) -> (found: bool)
        ensures
            self.wf(),
            found == position(self@, handle).is_some(),
    {
        self.find(handle).is_some()
    }
}

/// Describes `top_index`: the entry found covers the cell and none of the
/// first `n` behind it does; where none is found, none of the first `n`
/// covers the cell.
pub proof fn lemma_top_index(entries: Seq<FloatEntry>, screen: Rect, n: int, x: int, y: int)
    requires
        0 <= n <= entries.len(),
    ensures
        match top_index(entries, screen, n, x, y) {
            Some(i) => 0 <= i < n && covers(entries[i].float, screen, x, y) && forall|j: int|
                i < j < n ==> !covers((#[trigger] entries[j]).float, screen, x, y),
            None => forall|j: int|
                0 <= j < n ==> !covers((#[trigger] entries[j]).float, screen, x, y),
        },
    decreases n,
{
    if n > 0 && !covers(entries[n - 1].float, screen, x, y) {
        lemma_top_index(entries, screen, n - 1, x, y);
    }
}

/// The topmost float wins: a cell that several floats cover shows, after all
/// are painted, what the one shows that comes last in painting order, the
/// one with the highest z-index and, among equals, the one added last. In
/// what order the floats were added plays no other part.
pub proof fn lemma_top_float_wins(entries: Seq<FloatEntry>, screen: Rect, i: int, x: int, y: int)
    requires
        ordered(entries),
        0 <= i < entries.len(),
        covers(entries[i].float, screen, x, y),
        forall|j: int|
            0 <= j < entries.len() && j != i && covers((#[trigger] entries[j]).float, screen, x, y)
                ==> paints_before(entries[j], entries[i]),
    ensures
        floats_glyph(entries, screen, entries.len() as int, x, y) == Some(
            shown(entries[i].float, x, y),
        ),
{
    lemma_top_index(entries, screen, entries.len() as int, x, y);
    let k = top_index(entries, screen, entries.len() as int, x, y)->0;
    if k > i {
        assert(paints_before(entries[i], entries[k]));
    }
}

/// Adding a float and then moving it reads back the new rectangle: after
/// `float` was added under a handle that no entry carried, and the entry
/// under that handle was moved to `rect`, the float found under the handle
/// is `float` at `rect`.
pub proof fn lemma_add_update_get(
    entries: Seq<FloatEntry>,
    handle: FloatHandle,
    float: Float,
    rect: Rect,
)
    requires
        distinct(entries),
        forall|j: int| 0 <= j < entries.len() ==> (#[trigger] entries[j]).handle != handle,
    ensures
        position(with_added(entries, handle, float), handle) is Some,
        lookup(
            with_rect(
                with_added(entries, handle, float),
                position(with_added(entries, handle, float), handle)->0,
                rect,
            ),
            handle,
        ) == Some(Float { rect, ..float }),
{
    let added = with_added(entries, handle, float);
    let slot = slot_for(entries, float.z_index as int);
    lemma_slot_for(entries, float.z_index as int);
    lemma_position_unique(added, slot);
    lemma_position_unique(with_rect(added, slot, rect), slot);
}

/// A handle that no entry carries is not found.
pub proof fn lemma_unknown_handle(entries: Seq<FloatEntry>, handle: FloatHandle)
    requires
        forall|j: int| 0 <= j < entries.len() ==> (#[trigger] entries[j]).handle != handle,
    ensures
        position(entries, handle) is None,
        lookup(entries, handle) is None,
{
    lemma_position(entries, handle);
}

} // verus!
