//! Splitting a rectangle among children along one axis.
//!
//! Every child slot carries an optional [`SizeHint`]. Fixed and percentage
//! hints claim their space first; what is left is shared by the slots that
//! fill. The resolved extents always add up to the parent's extent.

use vstd::prelude::*;
use crate::geometry::{Axis, Rect};

verus! {

/// How much space a child asks for along the axis of its container.
#[derive(Clone, Copy, Debug, PartialEq, Eq, Structural)]
pub enum SizeHint {
    /// Exactly this many cells.
    Fixed(u32),
    /// This many hundredths of the container's whole extent, rounded down.
    Percentage(u32),
    /// An equal share of what the other hints leave; the last child marked
    /// so takes on top what does not divide evenly.
    Fill,
}

/// Why a container could not be laid out.
#[derive(Clone, Copy, Debug, PartialEq, Eq, Structural)]
pub enum LayoutError {
    /// The hints ask for more than the container has.
    OverAllocated,
}

/// The hints of one container, in declaration order.
pub type Hints = Seq<Option<SizeHint>>;

/// A slot without a hint fills, like one marked `Fill`.
pub open spec fn is_fill(hint: Option<SizeHint>) -> bool {
    hint is None || hint == Some(SizeHint::Fill)
}

/// The cells that a hint claims for itself out of `total`.
pub open spec fn claim(hint: Option<SizeHint>, total: int) -> int {
    match hint {
        Some(SizeHint::Fixed(n)) => n as int,
        Some(SizeHint::Percentage(p)) => total * p / 100,
        _ => 0,
    }
}

/// The hundredths that a hint asks for.
pub open spec fn percent(hint: Option<SizeHint>) -> int {
    match hint {
        Some(SizeHint::Percentage(p)) => p as int,
        _ => 0,
    }
}

/// The cells claimed by the first `k` hints.
pub open spec fn claimed_upto(hints: Hints, total: int, k: int) -> int
    decreases k,
{
    if k <= 0 {
        0
    } else {
        claimed_upto(hints, total, k - 1) + claim(hints[k - 1], total)
    }
}

/// The hundredths asked for by the first `k` hints.
pub open spec fn percent_upto(hints: Hints, k: int) -> int
    decreases k,
{
    if k <= 0 {
        0
    } else {
        percent_upto(hints, k - 1) + percent(hints[k - 1])
    }
}

/// How many of the first `k` slots fill.
pub open spec fn fills_upto(hints: Hints, k: int) -> int
    decreases k,
{
    if k <= 0 {
        0
    } else {
        fills_upto(hints, k - 1) + if is_fill(hints[k - 1]) { 1int } else { 0int }
    }
}

/// The cells claimed by all fixed and percentage hints.
pub open spec fn claimed(hints: Hints, total: int) -> int {
    claimed_upto(hints, total, hints.len() as int)
}

/// How many slots fill.
pub open spec fn fill_count(hints: Hints) -> int {
    fills_upto(hints, hints.len() as int)
}

/// The hints cannot be met: the percentages exceed the whole, or the claims
/// exceed the extent.
pub open spec fn over_allocated(hints: Hints, total: int) -> bool {
    percent_upto(hints, hints.len() as int) > 100 || claimed(hints, total) > total
}

/// The slot is marked `Fill`, not merely left without a hint.
pub open spec fn is_marked(hint: Option<SizeHint>) -> bool {
    hint == Some(SizeHint::Fill)
}

/// The last of the first `k` slots that is marked `Fill`, or `-1` where none
/// of them is.
pub open spec fn last_marked(hints: Hints, k: int) -> int
    decreases k,
{
    if k <= 0 {
        -1
    } else if is_marked(hints[k - 1]) {
        k - 1
    } else {
        last_marked(hints, k - 1)
    }
}

/// The cells that filling slot `i` gets on top of its even share, out of
/// those that do not divide evenly: all of them, where it is the last slot
/// marked `Fill`; where no slot is marked, one while the earlier filling
/// slots have not used them up.
pub open spec fn spare_at(hints: Hints, total: int, i: int) -> int {
    let spare = (total - claimed(hints, total)) % fill_count(hints);
    let keeper = last_marked(hints, hints.len() as int);
    if keeper >= 0 {
        if i == keeper {
            spare
        } else {
            0
        }
    } else if fills_upto(hints, i) < spare {
        1
    } else {
        0
    }
}

/// The extent of slot `i`.
///
/// A filling slot gets an equal share of the unclaimed cells. The cells that
/// do not divide evenly go to the last slot marked `Fill`; where no slot is
/// marked, they go, one each, to the earliest slots without a hint. Where no
/// slot fills, the last slot takes the unclaimed cells on top of its claim.
pub open spec fn extent_at(hints: Hints, total: int, i: int) -> int {
    let rest = total - claimed(hints, total);
    let fills = fill_count(hints);
    if is_fill(hints[i]) {
        rest / fills + spare_at(hints, total, i)
    } else if fills == 0 && i == hints.len() - 1 {
        claim(hints[i], total) + rest
    } else {
        claim(hints[i], total)
    }
}

/// The distance of slot `k` from the start of the container: the extents of
/// the slots before it, added up.
pub open spec fn offset_at(hints: Hints, total: int, k: int) -> int
    decreases k,
{
    if k <= 0 {
        0
    } else {
        offset_at(hints, total, k - 1) + extent_at(hints, total, k - 1)
    }
}

/// The rectangle of slot `i` inside `parent`: its own stretch of the split
/// axis, and the parent's whole extent across it.
pub open spec fn rect_at(parent: Rect, axis: Axis, hints: Hints, i: int) -> Rect {
    let total = parent.spec_extent(axis);
    let offset = offset_at(hints, total, i);
    let extent = extent_at(hints, total, i);
    match axis {
        Axis::Horizontal => Rect {
            x: (parent.x + offset) as i32,
            y: parent.y,
            width: extent as u32,
            height: parent.height,
        },
        Axis::Vertical => Rect {
            x: parent.x,
            y: (parent.y + offset) as i32,
            width: parent.width,
            height: extent as u32,
        },
    }
}

/// The rectangles of all slots.
pub open spec fn rects(parent: Rect, axis: Axis, hints: Hints) -> Seq<Rect> {
    Seq::new(hints.len(), |i: int| rect_at(parent, axis, hints, i))
}

} // verus!

verus! {

proof fn lemma_claim_nonnegative(hint: Option<SizeHint>, total: int)
    requires
        total >= 0,
    ensures
        claim(hint, total) >= 0,
{
    if let Some(SizeHint::Percentage(p)) = hint {
        assert(total * p >= 0) by (nonlinear_arith)
            requires
                total >= 0,
                p >= 0,
        ;
    }
}

/// Prefix sums are never negative, and no more slots fill than there are.
proof fn lemma_prefix_nonnegative(hints: Hints, total: int, k: int)
    requires
        total >= 0,
    ensures
        0 <= claimed_upto(hints, total, k),
        0 <= percent_upto(hints, k),
        0 <= fills_upto(hints, k),
        k >= 0 ==> fills_upto(hints, k) <= k,
    decreases k,
{
    if k > 0 {
        lemma_prefix_nonnegative(hints, total, k - 1);
        lemma_claim_nonnegative(hints[k - 1], total);
    }
}

/// Prefix sums only grow, and each filling slot counts once.
proof fn lemma_prefix_monotone(hints: Hints, total: int, j: int, k: int)
    requires
        0 <= j <= k,
        total >= 0,
    ensures
        claimed_upto(hints, total, j) <= claimed_upto(hints, total, k),
        percent_upto(hints, j) <= percent_upto(hints, k),
        fills_upto(hints, j) <= fills_upto(hints, k) <= fills_upto(hints, j) + (k - j),
        0 <= claimed_upto(hints, total, j),
        0 <= percent_upto(hints, j),
        0 <= fills_upto(hints, j) <= j,
    decreases k,
{
    lemma_prefix_nonnegative(hints, total, j);
    if j < k {
        lemma_prefix_monotone(hints, total, j, k - 1);
        lemma_claim_nonnegative(hints[k - 1], total);
    }
}

/// A slot's own claim and percentage are part of the totals.
proof fn lemma_slot_within_totals(hints: Hints, total: int, i: int)
    requires
        0 <= i < hints.len(),
        total >= 0,
    ensures
        0 <= claim(hints[i], total) <= claimed(hints, total),
        0 <= percent(hints[i]) <= percent_upto(hints, hints.len() as int),
        is_fill(hints[i]) ==> 0 <= fills_upto(hints, i) < fill_count(hints),
{
    lemma_prefix_monotone(hints, total, 0, i);
    lemma_prefix_monotone(hints, total, i + 1, hints.len() as int);
    lemma_claim_nonnegative(hints[i], total);
}

/// Describes `last_marked`: the slot found is marked and no later one among
/// the first `k` is; where none is found, none of the first `k` is marked.
proof fn lemma_last_marked(hints: Hints, k: int)
    ensures
        -1 <= last_marked(hints, k),
        k >= 0 ==> last_marked(hints, k) < k,
        last_marked(hints, k) >= 0 ==> is_marked(hints[last_marked(hints, k)]),
        forall|j: int| last_marked(hints, k) < j < k ==> !is_marked(#[trigger] hints[j]),
    decreases k,
{
    if k > 0 && !is_marked(hints[k - 1]) {
        lemma_last_marked(hints, k - 1);
    }
}

/// The spare cells handed out to the first `k` slots.
spec fn spare_upto(hints: Hints, total: int, k: int) -> int {
    let spare = (total - claimed(hints, total)) % fill_count(hints);
    let keeper = last_marked(hints, hints.len() as int);
    if keeper >= 0 {
        if keeper < k {
            spare
        } else {
            0
        }
    } else if fills_upto(hints, k) <= spare {
        fills_upto(hints, k)
    } else {
        spare
    }
}

/// With at least one filling slot, the offset of slot `k` is what the slots
/// before it claimed, plus the even share and the spare cells handed out so far.
proof fn lemma_offset_with_fill(hints: Hints, total: int, k: int)
    requires
        0 <= k <= hints.len(),
        fill_count(hints) > 0,
        total >= 0,
        !over_allocated(hints, total),
    ensures
        ({
            let rest = total - claimed(hints, total);
            offset_at(hints, total, k) == claimed_upto(hints, total, k) + (rest / fill_count(hints))
                * fills_upto(hints, k) + spare_upto(hints, total, k)
        }),
    decreases k,
{
    if k > 0 {
        lemma_offset_with_fill(hints, total, k - 1);
        lemma_last_marked(hints, hints.len() as int);
        lemma_prefix_nonnegative(hints, total, k - 1);
        let rest = total - claimed(hints, total);
        let fills = fill_count(hints);
        let base = rest / fills;
        let seen = fills_upto(hints, k - 1);
        assert(base * (seen + 1) == base * seen + base) by (nonlinear_arith);
        assert(0 <= rest % fills) by (nonlinear_arith)
            requires
                rest >= 0,
                fills > 0,
        ;
    }
}

/// Without a filling slot, every slot but the last gets exactly its claim.
proof fn lemma_offset_without_fill(hints: Hints, total: int, k: int)
    requires
        0 <= k < hints.len(),
        fill_count(hints) == 0,
        total >= 0,
    ensures
        offset_at(hints, total, k) == claimed_upto(hints, total, k),
    decreases k,
{
    if k > 0 {
        lemma_offset_without_fill(hints, total, k - 1);
        lemma_prefix_monotone(hints, total, k - 1, k);
        lemma_prefix_monotone(hints, total, k, hints.len() as int);
    }
}

/// No slot gets a negative extent.
proof fn lemma_extent_nonnegative(hints: Hints, total: int, i: int)
    requires
        0 <= i < hints.len(),
        total >= 0,
        !over_allocated(hints, total),
    ensures
        0 <= extent_at(hints, total, i) <= total,
{
    let rest = total - claimed(hints, total);
    let fills = fill_count(hints);
    lemma_slot_within_totals(hints, total, i);
    if is_fill(hints[i]) {
        assert(0 <= rest / fills && rest == fills * (rest / fills) + rest % fills && 0 <= rest
            % fills < fills) by (nonlinear_arith)
            requires
                rest >= 0,
                fills > 0,
        ;
        assert(rest / fills + rest % fills <= rest) by (nonlinear_arith)
            requires
                rest == fills * (rest / fills) + rest % fills,
                fills >= 1,
                rest / fills >= 0,
        ;
        assert(0 <= spare_at(hints, total, i) <= rest % fills);
    }
}

/// The extents of all slots add up to the extent of the container, and the
/// offsets never leave it.
///
/// Holds for every container with at least one slot whose hints can be met.
pub proof fn lemma_extents_fill_parent(hints: Hints, total: int)
    requires
        hints.len() > 0,
        total >= 0,
        !over_allocated(hints, total),
    ensures
        offset_at(hints, total, hints.len() as int) == total,
        forall|i: int| 0 <= i < hints.len() ==> 0 <= #[trigger] extent_at(hints, total, i),
        forall|k: int|
            0 <= k <= hints.len() ==> 0 <= #[trigger] offset_at(hints, total, k) <= total,
{
    let n = hints.len() as int;
    let rest = total - claimed(hints, total);
    let fills = fill_count(hints);
    lemma_prefix_monotone(hints, total, 0, n);
    if fills > 0 {
        lemma_offset_with_fill(hints, total, n);
        lemma_last_marked(hints, n);
        assert(rest == fills * (rest / fills) + rest % fills && 0 <= rest % fills < fills)
            by (nonlinear_arith)
            requires
                rest >= 0,
                fills > 0,
        ;
        assert((rest / fills) * fills == fills * (rest / fills)) by (nonlinear_arith);
    } else {
        lemma_offset_without_fill(hints, total, n - 1);
        lemma_prefix_monotone(hints, total, n - 1, n);
    }
    assert forall|i: int| 0 <= i < hints.len() implies 0 <= #[trigger] extent_at(
        hints,
        total,
        i,
    ) by {
        lemma_extent_nonnegative(hints, total, i);
    }
    assert forall|k: int| 0 <= k <= hints.len() implies 0 <= #[trigger] offset_at(
        hints,
        total,
        k,
    ) <= total by {
        lemma_offset_monotone(hints, total, 0, k);
        lemma_offset_monotone(hints, total, k, n);
    }
}

/// Offsets grow with the slot index.
proof fn lemma_offset_monotone(hints: Hints, total: int, j: int, k: int)
    requires
        0 <= j <= k <= hints.len(),
        total >= 0,
        !over_allocated(hints, total),
    ensures
        offset_at(hints, total, j) <= offset_at(hints, total, k),
    decreases k,
{
    if j < k {
        lemma_offset_monotone(hints, total, j, k - 1);
        lemma_extent_nonnegative(hints, total, k - 1);
    }
}

/// Slots without a hint get equal extents, up to one cell: an earlier one is
/// never smaller than a later one, and never larger by more than one cell.
pub proof fn lemma_unhinted_share_evenly(hints: Hints, total: int, i: int, j: int)
    requires
        0 <= i <= j < hints.len(),
        hints[i] is None,
        hints[j] is None,
        total >= 0,
    ensures
        extent_at(hints, total, j) <= extent_at(hints, total, i) <= extent_at(hints, total, j) + 1,
{
    lemma_prefix_monotone(hints, total, i, j);
    lemma_last_marked(hints, hints.len() as int);
}

/// Slots marked `Fill` get the same extent, but for the last of them, which
/// takes on top what does not divide evenly: fewer cells than there are
/// filling slots.
pub proof fn lemma_marked_share(hints: Hints, total: int, i: int)
    requires
        0 <= i < hints.len(),
        is_marked(hints[i]),
        total >= 0,
        !over_allocated(hints, total),
    ensures
        ({
            let rest = total - claimed(hints, total);
            let last = last_marked(hints, hints.len() as int);
            &&& 0 <= last < hints.len()
            &&& is_marked(hints[last])
            &&& i <= last
            &&& extent_at(hints, total, last) == rest / fill_count(hints) + rest % fill_count(hints)
            &&& i != last ==> extent_at(hints, total, i) == rest / fill_count(hints)
            &&& 0 <= rest % fill_count(hints) < fill_count(hints)
        }),
{
    let rest = total - claimed(hints, total);
    let fills = fill_count(hints);
    lemma_last_marked(hints, hints.len() as int);
    lemma_slot_within_totals(hints, total, i);
    assert(0 <= rest % fills < fills) by (nonlinear_arith)
        requires
            rest >= 0,
            fills > 0,
    ;
}

} // verus!

verus! {

/// Resolves the extent of every slot of a container that is `total` cells
/// long.
///
/// Fails exactly when the hints cannot be met; otherwise slot `i` gets
/// `extent_at(hints, total, i)` cells.
pub fn resolve_extents(hints: &Vec<Option<SizeHint>>, total: u32) -> (r: Result<
    Vec<u32>,
    LayoutError,
>)
    ensures
        r is Err <==> over_allocated(hints@, total as int),
        r is Err ==> r == Err::<Vec<u32>, LayoutError>(LayoutError::OverAllocated),
        r matches Ok(extents) ==> {
            &&& extents@.len() == hints@.len()
            &&& forall|i: int|
                0 <= i < extents@.len() ==> extents@[i] as int == extent_at(
                    hints@,
                    total as int,
                    i,
                )
        },
{
    let n = hints.len();
    let mut extents: Vec<u32> = Vec::new();
    let mut asked: u64 = 0;
    let mut used: u64 = 0;
    let mut fills: u64 = 0;
    let mut keeper: Option<usize> = None;
    let mut i: usize = 0;
    // First pass: what the fixed and percentage hints claim.
    while i < n
        invariant
            i <= n,
            n == hints@.len(),
            asked == percent_upto(hints@, i as int),
            asked <= 100,
            used == claimed_upto(hints@, total as int, i as int),
            used <= total,
            fills == fills_upto(hints@, i as int),
            fills <= i,
            keeper is None <==> last_marked(hints@, i as int) == -1,
            keeper matches Some(m) ==> m == last_marked(hints@, i as int),
            extents@.len() == i,
            forall|j: int| 0 <= j < i ==> extents@[j] as int == claim(hints@[j], total as int),
        decreases n - i,
    {
        let mut own: u64 = 0;
        match hints[i] {
            Some(SizeHint::Fixed(cells)) => {
                own = cells as u64;
            },
            Some(SizeHint::Percentage(hundredths)) => {
                asked = asked + hundredths as u64;
                if asked > 100 {
                    proof {
                        lemma_prefix_monotone(hints@, total as int, i as int + 1, n as int);
                    }
                    return Err(LayoutError::OverAllocated);
                }
                assert(total * hundredths <= 100 * u32::MAX) by (nonlinear_arith)
                    requires
                        total <= u32::MAX,
                        hundredths <= 100,
                ;
                own = (total as u64 * hundredths as u64) / 100;
            },
            Some(SizeHint::Fill) => {
                fills = fills + 1;
                keeper = Some(i);
            },
            None => {
                fills = fills + 1;
            },
        }
        used = used + own;
        if used > total as u64 {
            proof {
                lemma_prefix_monotone(hints@, total as int, i as int + 1, n as int);
            }
            return Err(LayoutError::OverAllocated);
        }
        extents.push(own as u32);
        i = i + 1;
    }
    // Second pass: hand out what is left.
    let rest: u64 = total as u64 - used;
    if fills > 0 {
        let share: u64 = rest / fills;
        let spare: u64 = rest % fills;
        let mut seen: u64 = 0;
        i = 0;
        while i < n
            invariant
                i <= n,
                n == hints@.len(),
                extents@.len() == n,
                fills == fill_count(hints@),
                fills > 0,
                rest == total - claimed(hints@, total as int),
                share == rest / fills,
                spare == rest % fills,
                keeper is None <==> last_marked(hints@, n as int) == -1,
                keeper matches Some(m) ==> m == last_marked(hints@, n as int),
                seen == fills_upto(hints@, i as int),
                seen <= i,
                !over_allocated(hints@, total as int),
                forall|j: int|
                    0 <= j < i ==> extents@[j] as int == extent_at(hints@, total as int, j),
                forall|j: int|
                    i <= j < n ==> extents@[j] as int == claim(hints@[j], total as int),
            decreases n - i,
        {
            match hints[i] {
                Some(SizeHint::Fixed(_)) => {},
                Some(SizeHint::Percentage(_)) => {},
                _ => {
                    proof {
                        lemma_extent_nonnegative(hints@, total as int, i as int);
                        lemma_last_marked(hints@, n as int);
                    }
                    let extra: u64 = match keeper {
                        Some(last) => if i == last {
                            spare
                        } else {
                            0
                        },
                        None => if seen < spare {
                            1
                        } else {
                            0
                        },
                    };
                    let own: u64 = share + extra;
                    extents.set(i, own as u32);
                    seen = seen + 1;
                },
            }
            i = i + 1;
        }
    } else if n > 0 {
        proof {
            lemma_extent_nonnegative(hints@, total as int, n as int - 1);
            assert forall|j: int| 0 <= j < n implies !is_fill(hints@[j]) by {
                lemma_slot_within_totals(hints@, total as int, j);
            }
        }
        let own: u64 = extents[n - 1] as u64 + rest;
        extents.set(n - 1, own as u32);
    }
    Ok(extents)
}

/// Resolves the rectangle of every slot of a container that occupies
/// `parent` and splits it along `axis`.
///
/// Fails exactly when the hints cannot be met; otherwise slot `i` gets
/// `rect_at(parent, axis, hints, i)`.
pub fn resolve(parent: Rect, axis: Axis, hints: &Vec<Option<SizeHint>>) -> (r: Result<
    Vec<Rect>,
    LayoutError,
>)
    requires
        parent.wf(),
    ensures
        r is Err <==> over_allocated(hints@, parent.spec_extent(axis)),
        r is Err ==> r == Err::<Vec<Rect>, LayoutError>(LayoutError::OverAllocated),
        r matches Ok(slots) ==> slots@ == rects(parent, axis, hints@),
{
    let total = parent.extent(axis);
    let extents = match resolve_extents(hints, total) {
        Ok(extents) => extents,
        Err(e) => {
            return Err(e);
        },
    };
    let n = extents.len();
    let mut slots: Vec<Rect> = Vec::new();
    let mut offset: u32 = 0;
    let mut i: usize = 0;
    while i < n
        invariant
            i <= n,
            n == hints@.len(),
            n == extents@.len(),
            parent.wf(),
            total == parent.spec_extent(axis),
            !over_allocated(hints@, total as int),
            forall|j: int| 0 <= j < n ==> extents@[j] as int == extent_at(hints@, total as int, j),
            offset == offset_at(hints@, total as int, i as int),
            slots@.len() == i,
            forall|j: int| 0 <= j < i ==> slots@[j] == rect_at(parent, axis, hints@, j),
        decreases n - i,
    {
        proof {
            lemma_extents_fill_parent(hints@, total as int);
            assert(offset_at(hints@, total as int, i as int + 1) <= total);
        }
        let extent = extents[i];
        let slot = match axis {
            Axis::Horizontal => Rect {
                x: (parent.x as i64 + offset as i64) as i32,
                y: parent.y,
                width: extent,
                height: parent.height,
            },
            Axis::Vertical => Rect {
                x: parent.x,
                y: (parent.y as i64 + offset as i64) as i32,
                width: parent.width,
                height: extent,
            },
        };
        slots.push(slot);
        offset = offset + extent;
        i = i + 1;
    }
    assert(slots@ =~= rects(parent, axis, hints@));
    Ok(slots)
}

} // verus!

verus! {

/// Every slot of a container lies inside the container, and fits on the
/// coordinate grid where the container does.
pub proof fn lemma_slot_wf(parent: Rect, axis: Axis, hints: Hints, i: int)
    requires
        parent.wf(),
        0 <= i < hints.len(),
        !over_allocated(hints, parent.spec_extent(axis)),
    ensures
        rect_at(parent, axis, hints, i).wf(),
        forall|x: int, y: int|
            rect_at(parent, axis, hints, i).spec_contains(x, y) ==> parent.spec_contains(x, y),
{
    let total = parent.spec_extent(axis);
    lemma_extents_fill_parent(hints, total);
    lemma_extent_nonnegative(hints, total, i);
    assert(0 <= offset_at(hints, total, i) <= total);
    assert(0 <= offset_at(hints, total, i + 1) <= total);
}

/// The other axis.
pub open spec fn across(axis: Axis) -> Axis {
    match axis {
        Axis::Horizontal => Axis::Vertical,
        Axis::Vertical => Axis::Horizontal,
    }
}

/// A coordinate inside the first `k` slots lies in one of them.
proof fn lemma_slot_holding(hints: Hints, total: int, k: int, c: int) -> (i: int)
    requires
        0 <= k <= hints.len(),
        total >= 0,
        !over_allocated(hints, total),
        0 <= c < offset_at(hints, total, k),
    ensures
        0 <= i < k,
        offset_at(hints, total, i) <= c < offset_at(hints, total, i) + extent_at(hints, total, i),
    decreases k,
{
    if c >= offset_at(hints, total, k - 1) {
        k - 1
    } else {
        lemma_slot_holding(hints, total, k - 1, c)
    }
}

/// The slots of a container tile it: the first starts where the parent
/// starts, each next one starts where the one before it ends, the last ends
/// where the parent ends, all span the parent across the axis, no cell lies
/// in two slots, and every cell of the parent lies in one.
///
/// Holds for every container with at least one slot whose hints can be met.
pub proof fn lemma_slots_tile_parent(parent: Rect, axis: Axis, hints: Hints)
    requires
        parent.wf(),
        hints.len() > 0,
        !over_allocated(hints, parent.spec_extent(axis)),
    ensures
        rect_at(parent, axis, hints, 0).spec_start(axis) == parent.spec_start(axis),
        forall|i: int|
            0 < i < hints.len() ==> (#[trigger] rect_at(parent, axis, hints, i)).spec_start(axis)
                == rect_at(parent, axis, hints, i - 1).spec_end(axis),
        rect_at(parent, axis, hints, hints.len() - 1).spec_end(axis) == parent.spec_end(axis),
        forall|i: int|
            0 <= i < hints.len() ==> {
                let slot = #[trigger] rect_at(parent, axis, hints, i);
                &&& slot.wf()
                &&& slot.spec_extent(axis) == extent_at(hints, parent.spec_extent(axis), i)
                &&& slot.spec_start(across(axis)) == parent.spec_start(across(axis))
                &&& slot.spec_extent(across(axis)) == parent.spec_extent(across(axis))
            },
        forall|i: int, j: int, x: int, y: int|
            0 <= i < j < hints.len() ==> !(rect_at(parent, axis, hints, i).spec_contains(x, y)
                && rect_at(parent, axis, hints, j).spec_contains(x, y)),
        forall|x: int, y: int|
            parent.spec_contains(x, y) ==> exists|i: int|
                0 <= i < hints.len() && rect_at(parent, axis, hints, i).spec_contains(x, y),
{
    let total = parent.spec_extent(axis);
    let n = hints.len() as int;
    lemma_extents_fill_parent(hints, total);
    assert forall|i: int| 0 <= i < n implies {
        let slot = #[trigger] rect_at(parent, axis, hints, i);
        &&& slot.wf()
        &&& slot.spec_start(axis) == parent.spec_start(axis) + offset_at(hints, total, i)
        &&& slot.spec_extent(axis) == extent_at(hints, total, i)
        &&& slot.spec_end(axis) == parent.spec_start(axis) + offset_at(hints, total, i + 1)
        &&& slot.spec_start(across(axis)) == parent.spec_start(across(axis))
        &&& slot.spec_extent(across(axis)) == parent.spec_extent(across(axis))
    } by {
        lemma_extent_nonnegative(hints, total, i);
        assert(0 <= offset_at(hints, total, i) <= total);
        assert(0 <= offset_at(hints, total, i + 1) <= total);
    }
    assert forall|i: int, j: int, x: int, y: int| 0 <= i < j < n implies !(rect_at(
        parent,
        axis,
        hints,
        i,
    ).spec_contains(x, y) && rect_at(parent, axis, hints, j).spec_contains(x, y)) by {
        lemma_offset_monotone(hints, total, i + 1, j);
        let a = rect_at(parent, axis, hints, i);
        let b = rect_at(parent, axis, hints, j);
        assert(a.spec_end(axis) <= b.spec_start(axis));
    }
    assert forall|x: int, y: int| parent.spec_contains(x, y) implies exists|i: int|
        0 <= i < n && rect_at(parent, axis, hints, i).spec_contains(x, y) by {
        let c = match axis {
            Axis::Horizontal => x - parent.x,
            Axis::Vertical => y - parent.y,
        };
        let i = lemma_slot_holding(hints, total, n, c);
        let slot = rect_at(parent, axis, hints, i);
        assert(slot.spec_start(axis) == parent.spec_start(axis) + offset_at(hints, total, i));
        assert(slot.spec_contains(x, y));
    }
}

} // verus!
