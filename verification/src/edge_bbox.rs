//! Edge-cut bounding box of the board: the union of the boxes of the board
//! graphics that lie on `Edge.Cuts`, in nanometres.
//!
//! Each graphic arrives already reduced to its own axis-aligned box (where
//! its geometry was usable); segments and rectangles are bounded here by
//! their two defining points.
use vstd::prelude::*;

use crate::board::EdgeBox;
use crate::board_items::Vector2;

verus! {

/// KiCad's wire code for the `Edge.Cuts` layer.
pub const EDGE_CUTS_LAYER: i32 = 47;

/// One board graphic: its layer code and its own bounding box, absent where
/// its geometry was missing.
#[derive(Debug, Clone, Copy, PartialEq, Eq, Structural)]
pub struct ShapeBox {
    pub layer: i32,
    pub bbox: Option<EdgeBox>,
}

pub open spec fn min_i(a: int, b: int) -> int {
    if a <= b { a } else { b }
}

pub open spec fn max_i(a: int, b: int) -> int {
    if a >= b { a } else { b }
}

/// The smallest box holding both boxes.
pub open spec fn union_box(a: EdgeBox, b: EdgeBox) -> EdgeBox {
    EdgeBox {
        x_min_nm: min_i(a.x_min_nm as int, b.x_min_nm as int) as i64,
        y_min_nm: min_i(a.y_min_nm as int, b.y_min_nm as int) as i64,
        x_max_nm: max_i(a.x_max_nm as int, b.x_max_nm as int) as i64,
        y_max_nm: max_i(a.y_max_nm as int, b.y_max_nm as int) as i64,
    }
}

/// Box `inner` lies within box `outer`.
pub open spec fn box_within(inner: EdgeBox, outer: EdgeBox) -> bool {
    &&& outer.x_min_nm <= inner.x_min_nm
    &&& outer.y_min_nm <= inner.y_min_nm
    &&& inner.x_max_nm <= outer.x_max_nm
    &&& inner.y_max_nm <= outer.y_max_nm
}

/// The box a shape adds to the edge-cut box: its own, when it lies on
/// `Edge.Cuts` and has one.
pub open spec fn edge_contribution(s: ShapeBox) -> Option<EdgeBox> {
    if s.layer == EDGE_CUTS_LAYER { s.bbox } else { None }
}

/// Union of the edge-cut boxes of `shapes`, none when no shape contributes.
pub open spec fn edge_union(shapes: Seq<ShapeBox>) -> Option<EdgeBox>
    decreases shapes.len(),
{
    if shapes.len() == 0 {
        None
    } else {
        let prev = edge_union(shapes.drop_last());
        match edge_contribution(shapes.last()) {
            None => prev,
            Some(b) => match prev {
                None => Some(b),
                Some(acc) => Some(union_box(acc, b)),
            },
        }
    }
}

fn union_of(a: EdgeBox, b: EdgeBox) -> (u: EdgeBox)
    ensures
        u == union_box(a, b),
{
    EdgeBox {
        x_min_nm: if a.x_min_nm <= b.x_min_nm { a.x_min_nm } else { b.x_min_nm },
        y_min_nm: if a.y_min_nm <= b.y_min_nm { a.y_min_nm } else { b.y_min_nm },
        x_max_nm: if a.x_max_nm >= b.x_max_nm { a.x_max_nm } else { b.x_max_nm },
        y_max_nm: if a.y_max_nm >= b.y_max_nm { a.y_max_nm } else { b.y_max_nm },
    }
}

/// Bounding box of the two points that define a segment or a rectangle, in
/// either order.
pub fn two_point_bbox(p: Vector2, q: Vector2) -> (b: EdgeBox)
    ensures
        b.x_min_nm == min_i(p.x_nm as int, q.x_nm as int),
        b.y_min_nm == min_i(p.y_nm as int, q.y_nm as int),
        b.x_max_nm == max_i(p.x_nm as int, q.x_nm as int),
        b.y_max_nm == max_i(p.y_nm as int, q.y_nm as int),
{
    union_of(
        EdgeBox { x_min_nm: p.x_nm, y_min_nm: p.y_nm, x_max_nm: p.x_nm, y_max_nm: p.y_nm },
        EdgeBox { x_min_nm: q.x_nm, y_min_nm: q.y_nm, x_max_nm: q.x_nm, y_max_nm: q.y_nm },
    )
}

/// Bounding box of every edge-cut graphic in `shapes`, or none when no
/// shape on `Edge.Cuts` has usable geometry. Shapes on other layers are
/// ignored.
pub fn edge_cut_bbox_nm(shapes: &Vec<ShapeBox>) -> (r: Option<EdgeBox>)
    ensures
        r == edge_union(shapes@),
{
    let mut acc: Option<EdgeBox> = None;
    let n = shapes.len();
    let mut i: usize = 0;
    while i < n
        invariant
            n == shapes.len(),
            0 <= i <= n,
            acc == edge_union(shapes@.subrange(0, i as int)),
        decreases n - i,
    {
        let s = shapes[i];
        proof {
            assert(shapes@.subrange(0, i + 1).drop_last() =~= shapes@.subrange(0, i as int));
        }
        if s.layer == EDGE_CUTS_LAYER {
            if let Some(b) = s.bbox {
                acc = match acc {
                    None => Some(b),
                    Some(a) => Some(union_of(a, b)),
                };
            }
        }
        i = i + 1;
    }
    proof {
        assert(shapes@.subrange(0, n as int) =~= shapes@);
    }
    acc
}

/// The edge-cut box is absent exactly when no shape contributes one, and
/// otherwise holds the box of every shape on `Edge.Cuts`.
pub proof fn lemma_edge_union_bounds_every_edge_shape(shapes: Seq<ShapeBox>)
    ensures
        edge_union(shapes) is None <==> forall|i: int|
            0 <= i < shapes.len() ==> #[trigger] edge_contribution(shapes[i]) is None,
        forall|i: int|
            0 <= i < shapes.len() && #[trigger] edge_contribution(shapes[i]) is Some ==> edge_union(
                shapes,
            ) is Some && box_within(edge_contribution(shapes[i])->0, edge_union(shapes)->0),
    decreases shapes.len(),
{
    if shapes.len() > 0 {
        let init = shapes.drop_last();
        lemma_edge_union_bounds_every_edge_shape(init);
        assert forall|i: int| 0 <= i < init.len() implies #[trigger] init[i] == shapes[i] by {}
        let last = shapes.len() - 1;
        if edge_union(shapes) is None {
            assert forall|i: int| 0 <= i < shapes.len() implies #[trigger] edge_contribution(
                shapes[i],
            ) is None by {
                if i < last {
                    assert(edge_contribution(init[i]) is None);
                }
            }
        }
        if forall|i: int| 0 <= i < shapes.len() ==> #[trigger] edge_contribution(shapes[i]) is None {
            assert(edge_contribution(shapes[last]) is None);
            assert forall|i: int| 0 <= i < init.len() implies #[trigger] edge_contribution(init[i]) is None by {
                assert(edge_contribution(shapes[i]) is None);
            }
        }
        assert forall|i: int|
            0 <= i < shapes.len() && #[trigger] edge_contribution(shapes[i]) is Some implies edge_union(
            shapes,
        ) is Some && box_within(edge_contribution(shapes[i])->0, edge_union(shapes)->0) by {
            if i < last {
                assert(edge_contribution(init[i]) is Some);
            }
        }
    }
}

/// The edge-cut box is itself one of the boxes when a single shape
/// contributes, and every corner of it comes from some contributing shape.
pub proof fn lemma_edge_union_is_tight(shapes: Seq<ShapeBox>)
    requires
        edge_union(shapes) is Some,
    ensures
        exists|i: int|
            0 <= i < shapes.len() && #[trigger] edge_contribution(shapes[i]) is Some
                && edge_contribution(shapes[i])->0.x_min_nm == edge_union(shapes)->0.x_min_nm,
        exists|i: int|
            0 <= i < shapes.len() && #[trigger] edge_contribution(shapes[i]) is Some
                && edge_contribution(shapes[i])->0.y_min_nm == edge_union(shapes)->0.y_min_nm,
        exists|i: int|
            0 <= i < shapes.len() && #[trigger] edge_contribution(shapes[i]) is Some
                && edge_contribution(shapes[i])->0.x_max_nm == edge_union(shapes)->0.x_max_nm,
        exists|i: int|
            0 <= i < shapes.len() && #[trigger] edge_contribution(shapes[i]) is Some
                && edge_contribution(shapes[i])->0.y_max_nm == edge_union(shapes)->0.y_max_nm,
    decreases shapes.len(),
{
    let init = shapes.drop_last();
    let last = shapes.len() - 1;
    assert(shapes[last] == shapes.last());
    if edge_union(init) is Some {
        lemma_edge_union_is_tight(init);
        let i0 = choose|i: int|
            0 <= i < init.len() && #[trigger] edge_contribution(init[i]) is Some
                && edge_contribution(init[i])->0.x_min_nm == edge_union(init)->0.x_min_nm;
        let i1 = choose|i: int|
            0 <= i < init.len() && #[trigger] edge_contribution(init[i]) is Some
                && edge_contribution(init[i])->0.y_min_nm == edge_union(init)->0.y_min_nm;
        let i2 = choose|i: int|
            0 <= i < init.len() && #[trigger] edge_contribution(init[i]) is Some
                && edge_contribution(init[i])->0.x_max_nm == edge_union(init)->0.x_max_nm;
        let i3 = choose|i: int|
            0 <= i < init.len() && #[trigger] edge_contribution(init[i]) is Some
                && edge_contribution(init[i])->0.y_max_nm == edge_union(init)->0.y_max_nm;
        assert(init[i0] == shapes[i0]);
        assert(init[i1] == shapes[i1]);
        assert(init[i2] == shapes[i2]);
        assert(init[i3] == shapes[i3]);
    }
}

} // verus!
