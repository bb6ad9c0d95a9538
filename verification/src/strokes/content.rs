//! The box of a run of stroke elements: the least box around their
//! positions.

use crate::geometry::{
    aabb_ceil, lemma_rescale_corners, lemma_rescaled_inside, Aabb, Vec2,
};
use crate::strokes::strokestyle::{
    elements_inside, elements_rescale_fit, elements_rescaled, elements_translate_fit,
    elements_translated, lemma_elements_rescale_fit, merged_bounds, Element,
};
use vstd::prelude::*;

verus! {

/// The least box around the first `n` elements, for `n` of at least one.
pub open spec fn hull_of(elements: Seq<Element>, n: nat) -> Aabb
    decreases n,
{
    if n <= 1 {
        Aabb::point_spec(elements[0].pos_spec())
    } else {
        hull_of(elements, (n - 1) as nat).merged_spec(
            &Aabb::point_spec(elements[n - 1].pos_spec()),
        )
    }
}

/// The least box around two elements.
pub open spec fn segment_box(from: Element, to: Element) -> Aabb {
    Aabb::point_spec(from.pos_spec()).merged_spec(&Aabb::point_spec(to.pos_spec()))
}

/// Whether a box has an extent along both axes.
pub open spec fn has_extent(b: Aabb) -> bool {
    b.mins.x < b.maxs.x && b.mins.y < b.maxs.y
}

/// Whether the box of [`content_bounds_spec`] is a box of the canvas.
pub open spec fn content_bounds_fit(elements: Seq<Element>) -> bool {
    elements.len() > 0 ==> hull_of(elements, elements.len()).ceil_fits()
}

/// The box of a run of elements: the least box around their positions,
/// grown to the grid. Without elements it is the box of the origin.
pub open spec fn content_bounds_spec(elements: Seq<Element>) -> Aabb {
    if elements.len() == 0 {
        Aabb::point_spec(Vec2::zero_spec())
    } else {
        hull_of(elements, elements.len()).ceiled()
    }
}

/// The hull is a valid box and contains each of the elements it was made
/// of.
pub proof fn lemma_hull_contains(elements: Seq<Element>, n: nat, i: int)
    requires
        1 <= n <= elements.len(),
        0 <= i < n,
    ensures
        hull_of(elements, n).is_valid_spec(),
        hull_of(elements, n).contains_point_spec(&elements[i].pos_spec()),
    decreases n,
{
    if n > 1 {
        lemma_hull_contains(elements, (n - 1) as nat, 0);
        if i < n - 1 {
            lemma_hull_contains(elements, (n - 1) as nat, i);
        }
    }
}

/// The hull is the least box around the elements: every box that contains
/// them all contains the hull.
pub proof fn lemma_hull_least(elements: Seq<Element>, n: nat, d: Aabb)
    requires
        1 <= n <= elements.len(),
        forall|i: int| 0 <= i < n ==> d.contains_point_spec(&(#[trigger] elements[i]).pos_spec()),
    ensures
        d.contains_spec(&hull_of(elements, n)),
    decreases n,
{
    assert(d.contains_point_spec(&elements[0].pos_spec()));
    if n > 1 {
        lemma_hull_least(elements, (n - 1) as nat, d);
        assert(d.contains_point_spec(&elements[n - 1].pos_spec()));
    }
}

/// Each side of the hull passes through one of the elements.
pub proof fn lemma_hull_attained(elements: Seq<Element>, n: nat)
    requires
        1 <= n <= elements.len(),
    ensures
        exists|i: int| 0 <= i < n && (#[trigger] elements[i]).pos_spec().x == hull_of(elements, n).mins.x,
        exists|i: int| 0 <= i < n && (#[trigger] elements[i]).pos_spec().y == hull_of(elements, n).mins.y,
        exists|i: int| 0 <= i < n && (#[trigger] elements[i]).pos_spec().x == hull_of(elements, n).maxs.x,
        exists|i: int| 0 <= i < n && (#[trigger] elements[i]).pos_spec().y == hull_of(elements, n).maxs.y,
    decreases n,
{
    if n > 1 {
        let m = (n - 1) as nat;
        lemma_hull_attained(elements, m);
        let h = hull_of(elements, m);
        let e = elements[n - 1].pos_spec();
        let a = choose|i: int| 0 <= i < m && (#[trigger] elements[i]).pos_spec().x == h.mins.x;
        let b = choose|i: int| 0 <= i < m && (#[trigger] elements[i]).pos_spec().y == h.mins.y;
        let c = choose|i: int| 0 <= i < m && (#[trigger] elements[i]).pos_spec().x == h.maxs.x;
        let d = choose|i: int| 0 <= i < m && (#[trigger] elements[i]).pos_spec().y == h.maxs.y;
        let a2 = if e.x < h.mins.x { n - 1 } else { a };
        let b2 = if e.y < h.mins.y { n - 1 } else { b };
        let c2 = if e.x > h.maxs.x { n - 1 } else { c };
        let d2 = if e.y > h.maxs.y { n - 1 } else { d };
        assert(elements[a2].pos_spec().x == hull_of(elements, n).mins.x);
        assert(elements[b2].pos_spec().y == hull_of(elements, n).mins.y);
        assert(elements[c2].pos_spec().x == hull_of(elements, n).maxs.x);
        assert(elements[d2].pos_spec().y == hull_of(elements, n).maxs.y);
    } else {
        assert(elements[0].pos_spec().x == hull_of(elements, n).mins.x);
        assert(elements[0].pos_spec().y == hull_of(elements, n).mins.y);
    }
}

/// A box that contains all elements and has an element on each side is
/// their hull.
pub proof fn lemma_hull_is(elements: Seq<Element>, n: nat, d: Aabb)
    requires
        1 <= n <= elements.len(),
        forall|i: int| 0 <= i < n ==> d.contains_point_spec(&(#[trigger] elements[i]).pos_spec()),
        exists|i: int| 0 <= i < n && (#[trigger] elements[i]).pos_spec().x == d.mins.x,
        exists|i: int| 0 <= i < n && (#[trigger] elements[i]).pos_spec().y == d.mins.y,
        exists|i: int| 0 <= i < n && (#[trigger] elements[i]).pos_spec().x == d.maxs.x,
        exists|i: int| 0 <= i < n && (#[trigger] elements[i]).pos_spec().y == d.maxs.y,
    ensures
        hull_of(elements, n) == d,
{
    lemma_hull_least(elements, n, d);
    let a = choose|i: int| 0 <= i < n && (#[trigger] elements[i]).pos_spec().x == d.mins.x;
    let b = choose|i: int| 0 <= i < n && (#[trigger] elements[i]).pos_spec().y == d.mins.y;
    let c = choose|i: int| 0 <= i < n && (#[trigger] elements[i]).pos_spec().x == d.maxs.x;
    let e = choose|i: int| 0 <= i < n && (#[trigger] elements[i]).pos_spec().y == d.maxs.y;
    lemma_hull_contains(elements, n, a);
    lemma_hull_contains(elements, n, b);
    lemma_hull_contains(elements, n, c);
    lemma_hull_contains(elements, n, e);
}

/// Where every element can be shifted, their hull can.
pub proof fn lemma_hull_fits(elements: Seq<Element>, n: nat, offset: Vec2)
    requires
        1 <= n <= elements.len(),
        elements_translate_fit(elements, offset),
    ensures
        hull_of(elements, n).translate_fits(offset),
    decreases n,
{
    assert(elements[0].pos_spec().translate_fits(offset));
    if n > 1 {
        lemma_hull_fits(elements, (n - 1) as nat, offset);
        assert(elements[n - 1].pos_spec().translate_fits(offset));
    }
}

/// The hull of shifted elements is the shifted hull of the elements.
pub proof fn lemma_hull_translated(
    after: Seq<Element>,
    before: Seq<Element>,
    offset: Vec2,
    n: nat,
)
    requires
        1 <= n <= before.len(),
        elements_translated(after, before, offset),
        elements_translate_fit(before, offset),
    ensures
        hull_of(before, n).translate_fits(offset),
        hull_of(after, n) == hull_of(before, n).translated(offset),
    decreases n,
{
    lemma_hull_fits(before, n, offset);
    assert(before[0].pos_spec().translate_fits(offset));
    assert(after[0].is_moved(&before[0], before[0].pos_spec().translated(offset)));
    if n > 1 {
        lemma_hull_translated(after, before, offset, (n - 1) as nat);
        assert(before[n - 1].pos_spec().translate_fits(offset));
        assert(after[n - 1].is_moved(
            &before[n - 1],
            before[n - 1].pos_spec().translated(offset),
        ));
    }
}

/// Elements can be sent from their hull onto every box without leaving
/// the canvas.
pub proof fn lemma_hull_rescale_fit(elements: Seq<Element>, dst: Aabb)
    requires
        elements.len() >= 1,
    ensures
        elements_rescale_fit(elements, hull_of(elements, elements.len()), dst),
{
    assert forall|i: int| 0 <= i < elements.len() implies hull_of(
        elements,
        elements.len(),
    ).contains_point_spec(&(#[trigger] elements[i]).pos_spec()) by {
        lemma_hull_contains(elements, elements.len(), i);
    }
    assert(elements_inside(elements, hull_of(elements, elements.len())));
    lemma_elements_rescale_fit(elements, hull_of(elements, elements.len()), dst);
}

/// Elements can be sent from their hull onto every valid box, and where
/// the hull has an extent along both axes their hull is that box
/// afterwards.
pub proof fn lemma_hull_rescaled(after: Seq<Element>, before: Seq<Element>, dst: Aabb)
    requires
        before.len() >= 1,
        elements_rescaled(after, before, hull_of(before, before.len()), dst),
        has_extent(hull_of(before, before.len())),
        dst.is_valid_spec(),
    ensures
        hull_of(after, after.len()) == dst,
{
    let n = before.len();
    let h = hull_of(before, n);
    lemma_hull_attained(before, n);
    assert forall|i: int| 0 <= i < n implies dst.contains_point_spec(
        &(#[trigger] after[i]).pos_spec(),
    ) by {
        lemma_hull_contains(before, n, i);
        lemma_rescaled_inside(before[i].pos_spec(), h, dst);
        assert(after[i].is_moved(&before[i], before[i].pos_spec().rescaled(h, dst)));
    }
    let a = choose|i: int| 0 <= i < n && (#[trigger] before[i]).pos_spec().x == h.mins.x;
    let b = choose|i: int| 0 <= i < n && (#[trigger] before[i]).pos_spec().y == h.mins.y;
    let c = choose|i: int| 0 <= i < n && (#[trigger] before[i]).pos_spec().x == h.maxs.x;
    let d = choose|i: int| 0 <= i < n && (#[trigger] before[i]).pos_spec().y == h.maxs.y;
    lemma_rescale_corners(0, h.mins.x as int, h.maxs.x as int, dst.mins.x as int, dst.maxs.x as int);
    lemma_rescale_corners(0, h.mins.y as int, h.maxs.y as int, dst.mins.y as int, dst.maxs.y as int);
    assert(after[a].is_moved(&before[a], before[a].pos_spec().rescaled(h, dst)));
    assert(after[b].is_moved(&before[b], before[b].pos_spec().rescaled(h, dst)));
    assert(after[c].is_moved(&before[c], before[c].pos_spec().rescaled(h, dst)));
    assert(after[d].is_moved(&before[d], before[d].pos_spec().rescaled(h, dst)));
    assert(after[a].pos_spec().x == dst.mins.x);
    assert(after[b].pos_spec().y == dst.mins.y);
    assert(after[c].pos_spec().x == dst.maxs.x);
    assert(after[d].pos_spec().y == dst.maxs.y);
    lemma_hull_is(after, n, dst);
}

/// The union of the boxes of the first `k` segments of a run of elements
/// is the hull of the elements that they join.
pub proof fn lemma_segments_union(elements: Seq<Element>, boxes: Seq<Aabb>, k: nat)
    requires
        1 <= k <= boxes.len(),
        k + 1 <= elements.len(),
        forall|i: int| 0 <= i < k ==> #[trigger] boxes[i] == segment_box(elements[i], elements[i + 1]),
    ensures
        merged_bounds(boxes, k) == hull_of(elements, k + 1),
    decreases k,
{
    assert(boxes[0] == segment_box(elements[0], elements[1]));
    if k > 1 {
        lemma_segments_union(elements, boxes, (k - 1) as nat);
        lemma_hull_contains(elements, k, k - 1);
        assert(boxes[k - 1] == segment_box(elements[k - 1], elements[k as int]));
        let h = hull_of(elements, k);
        assert(merged_bounds(boxes, k) == h.merged_spec(&boxes[k - 1]));
        assert(hull_of(elements, k + 1) == h.merged_spec(
            &Aabb::point_spec(elements[k as int].pos_spec()),
        ));
        assert(h.contains_point_spec(&elements[k - 1].pos_spec()));
    } else {
        assert(hull_of(elements, 1) == Aabb::point_spec(elements[0].pos_spec()));
        assert(hull_of(elements, 2) == hull_of(elements, 1).merged_spec(
            &Aabb::point_spec(elements[1].pos_spec()),
        ));
        assert(merged_bounds(boxes, 1) == boxes[0]);
    }
}

/// Computes the least box around the elements, or `None` for no elements.
pub fn elements_hull(elements: &Vec<Element>) -> (r: Option<Aabb>)
    ensures
        r is Some <==> elements@.len() > 0,
        r is Some ==> r->Some_0 == hull_of(elements@, elements@.len()),
{
    if elements.len() == 0 {
        return None;
    }
    let mut hull: Aabb = Aabb::point(elements[0].inputdata.pos());
    let mut i: usize = 1;
    while i < elements.len()
        invariant
            1 <= i <= elements.len(),
            hull == hull_of(elements@, i as nat),
        decreases elements.len() - i,
    {
        hull.merge(&Aabb::point(elements[i].inputdata.pos()));
        i += 1;
    }
    Some(hull)
}

/// Computes [`content_bounds_spec`], or `None` where that box would leave
/// the canvas.
pub fn content_bounds(elements: &Vec<Element>) -> (r: Option<Aabb>)
    ensures
        r is Some <==> content_bounds_fit(elements@),
        r is Some ==> r->Some_0 == content_bounds_spec(elements@),
{
    match elements_hull(elements) {
        None => Some(Aabb::point(Vec2::zero())),
        Some(hull) => if hull.can_ceil() {
            Some(aabb_ceil(hull))
        } else {
            None
        },
    }
}

} // verus!
