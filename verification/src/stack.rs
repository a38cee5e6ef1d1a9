//! The order in which the layers of a stack paint.

use vstd::prelude::*;
use crate::geometry::Rect;
use crate::widget::{layers_glyph, Layer};

verus! {

/// Where a new layer with the given index goes: behind the last layer whose
/// index is not above it.
pub open spec fn layer_slot(layers: Seq<Layer>, index: int) -> int
    decreases layers.len(),
{
    if layers.len() == 0 {
        0
    } else if layers.last().index <= index {
        layers.len() as int
    } else {
        layer_slot(layers.drop_last(), index)
    }
}

/// Describes `layer_slot`: every layer from the slot on has an index above
/// `index`, and the one just before it has not.
pub proof fn lemma_layer_slot(layers: Seq<Layer>, index: int)
    ensures
        0 <= layer_slot(layers, index) <= layers.len(),
        forall|j: int|
            layer_slot(layers, index) <= j < layers.len() ==> (#[trigger] layers[j]).index > index,
        layer_slot(layers, index) > 0 ==> layers[layer_slot(layers, index) - 1].index <= index,
    decreases layers.len(),
{
    if layers.len() > 0 && layers.last().index > index {
        let rest = layers.drop_last();
        lemma_layer_slot(rest, index);
        assert forall|j: int| layer_slot(layers, index) <= j < layers.len() implies (
        #[trigger] layers[j]).index > index by {
            if j < rest.len() {
                assert(rest[j] == layers[j]);
            }
        }
        if layer_slot(layers, index) > 0 {
            assert(rest[layer_slot(layers, index) - 1] == layers[layer_slot(layers, index) - 1]);
        }
    }
}

/// The last of the first `n` layers that paints cell `(x, y)`.
pub open spec fn top_layer(layers: Seq<Layer>, rect: Rect, n: int, x: int, y: int) -> Option<int>
    decreases n,
{
    if n <= 0 || n > layers.len() {
        None
    } else if layers[n - 1].root.glyph_at(rect, x, y) is Some {
        Some(n - 1)
    } else {
        top_layer(layers, rect, n - 1, x, y)
    }
}

/// Describes `top_layer` and what the layers leave in a cell: the glyph of
/// the last layer that paints it, and nothing where none paints it.
pub proof fn lemma_top_layer(layers: Seq<Layer>, rect: Rect, n: int, x: int, y: int)
    requires
        0 <= n <= layers.len(),
    ensures
        match top_layer(layers, rect, n, x, y) {
            Some(i) => 0 <= i < n && layers[i].root.glyph_at(rect, x, y) is Some && layers_glyph(
                layers,
                rect,
                n,
                x,
                y,
            ) == layers[i].root.glyph_at(rect, x, y) && forall|j: int|
                i < j < n ==> (#[trigger] layers[j]).root.glyph_at(rect, x, y) is None,
            None => layers_glyph(layers, rect, n, x, y) is None && forall|j: int|
                0 <= j < n ==> (#[trigger] layers[j]).root.glyph_at(rect, x, y) is None,
        },
    decreases n,
{
    if n > 0 && layers[n - 1].root.glyph_at(rect, x, y) is None {
        lemma_top_layer(layers, rect, n - 1, x, y);
    }
}

/// Layers paint in ascending order of their index: in a sorted stack, a cell
/// that several layers paint shows what the one with the highest index
/// paints there, and among layers of that index the one added last.
pub proof fn lemma_top_layer_wins(layers: Seq<Layer>, rect: Rect, i: int, x: int, y: int)
    requires
        forall|a: int, b: int| 0 <= a <= b < layers.len() ==> layers[a].index <= layers[b].index,
        0 <= i < layers.len(),
        layers[i].root.glyph_at(rect, x, y) is Some,
        forall|j: int|
            0 <= j < layers.len() && j != i && (#[trigger] layers[j]).root.glyph_at(rect, x, y)
                is Some ==> layers[j].index < layers[i].index || (layers[j].index
                == layers[i].index && j < i),
    ensures
        layers_glyph(layers, rect, layers.len() as int, x, y) == layers[i].root.glyph_at(
            rect,
            x,
            y,
        ),
{
    lemma_top_layer(layers, rect, layers.len() as int, x, y);
    let k = top_layer(layers, rect, layers.len() as int, x, y)->0;
    if k > i {
        assert(layers[i].index <= layers[k].index);
    } else if k < i {
        assert(layers[i].root.glyph_at(rect, x, y) is None);
    }
}

} // verus!
