//! The brush stroke: a line whose width follows the pressure of the pen.

use crate::color::{color_attr_text, push_color_attr, Color};
use crate::geometry::{aabb_translate, Aabb, Vec2};
use crate::render::{svg_views, StrokeError, Svg};
use crate::strokes::content::{
    content_bounds, content_bounds_fit, content_bounds_spec, elements_hull, has_extent, hull_of,
    lemma_hull_rescale_fit, lemma_hull_rescaled, lemma_segments_union, segment_box,
};
use crate::strokes::strokestyle::{
    can_translate_elements, elements_rescaled, elements_translate_fit, elements_translated,
    bounds_in_step, fragment_boxes, lemma_elements_shift_twice, rescale_elements, svgs_spec, translate_elements, Element,
    StrokeBehaviour, StrokeModel,
};
use crate::text::{attr_text, push_attr};
use vstd::prelude::*;

verus! {

/// A stroke drawn with a brush: its elements in the order in which they
/// were recorded, the width of the line at full pressure, its colour, and
/// the cached box.
#[derive(Clone, Debug, PartialEq, Eq)]
pub struct BrushStroke {
    pub elements: Vec<Element>,
    pub width: u32,
    pub color: Color,
    pub bounds: Aabb,
}

/// The width of a segment that ends with `pressure` thousandths of full
/// pressure, for a brush of `width` at full pressure.
pub open spec fn segment_width(width: u32, pressure: int) -> int {
    width * pressure / 1000
}

/// The text of the segment from `from` to `to`, drawn shifted by `offset`:
/// a line between the two elements, as wide as the pressure at its end
/// makes it.
pub open spec fn segment_text(
    from: Element,
    to: Element,
    width: u32,
    color: Color,
    offset: Vec2,
) -> Seq<char> {
    "<line"@ + attr_text("x1"@, from.pos_spec().x + offset.x) + attr_text(
        "y1"@,
        from.pos_spec().y + offset.y,
    ) + attr_text("x2"@, to.pos_spec().x + offset.x) + attr_text(
        "y2"@,
        to.pos_spec().y + offset.y,
    ) + color_attr_text("stroke"@, color) + attr_text(
        "stroke-width"@,
        segment_width(width, to.pressure_spec()),
    ) + "/>"@
}

/// Writes the text of one segment.
pub fn segment_data(from: &Element, to: &Element, width: u32, color: Color, offset: Vec2) -> (data:
    String)
    ensures
        data@ == segment_text(*from, *to, width, color, offset),
{
    let a: Vec2 = from.inputdata.pos();
    let b: Vec2 = to.inputdata.pos();
    let pressure: i32 = to.inputdata.pressure();
    assert(0 <= width * pressure <= 0xffff_ffff * 1000) by (nonlinear_arith)
        requires
            0 <= width <= 0xffff_ffff,
            0 <= pressure <= 1000,
    ;
    let line_width: u64 = (width as u64 * pressure as u64) / 1000;
    let mut data: String = String::new();
    data.append("<line");
    push_attr(&mut data, "x1", a.x as i64 + offset.x as i64);
    push_attr(&mut data, "y1", a.y as i64 + offset.y as i64);
    push_attr(&mut data, "x2", b.x as i64 + offset.x as i64);
    push_attr(&mut data, "y2", b.y as i64 + offset.y as i64);
    push_color_attr(&mut data, "stroke", color);
    push_attr(&mut data, "stroke-width", line_width as i64);
    data.append("/>");
    assert(data@ =~= segment_text(*from, *to, width, color, offset));
    data
}

impl BrushStroke {
    /// The width of a stroke that was given none: six canvas units.
    pub const WIDTH_DEFAULT: u32 = 6000;

    /// The least box around the elements, for a stroke with elements.
    pub open spec fn hull_spec(&self) -> Aabb {
        hull_of(self.elements@, self.elements@.len())
    }

    /// A stroke through `elements`, with the box of the elements for its
    /// cached box, or `None` where that box would leave the canvas.
    pub fn new(elements: Vec<Element>, width: u32, color: Color) -> (r: Option<BrushStroke>)
        ensures
            r is Some <==> content_bounds_fit(elements@),
            r is Some ==> {
                &&& r->Some_0.elements@ == elements@
                &&& r->Some_0.width == width
                &&& r->Some_0.color == color
                &&& r->Some_0.bounds == content_bounds_spec(elements@)
                &&& elements@.len() >= 2 ==> bounds_in_step(&r->Some_0)
            },
    {
        match content_bounds(&elements) {
            Some(bounds) => {
                proof {
                    let made = BrushStroke { elements, width, color, bounds };
                    if elements@.len() >= 2 {
                        let n = (elements@.len() - 1) as nat;
                        let boxes = fragment_boxes(&made, Vec2::zero_spec());
                        assert forall|i: int| 0 <= i < n implies #[trigger] boxes[i] == segment_box(
                            elements@[i],
                            elements@[i + 1],
                        ) by {}
                        lemma_segments_union(elements@, boxes, n);
                    }
                }
                Some(BrushStroke { elements, width, color, bounds })
            },
            None => None,
        }
    }

    /// Adds an element at the end. The cached box is left as it is: call
    /// [`BrushStroke::update_bounds`] once the content is complete.
    pub fn push_elem(&mut self, element: Element)
        ensures
            final(self).elements@ == old(self).elements@.push(element),
            final(self).width == old(self).width,
            final(self).color == old(self).color,
            final(self).bounds == old(self).bounds,
    {
        self.elements.push(element);
    }

    /// Sets the cached box to the box of the elements, and says whether
    /// it did: where that box would leave the canvas, nothing changes.
    pub fn update_bounds(&mut self) -> (updated: bool)
        ensures
            updated == content_bounds_fit(old(self).elements@),
            final(self).elements@ == old(self).elements@,
            final(self).width == old(self).width,
            final(self).color == old(self).color,
            final(self).bounds == if updated {
                content_bounds_spec(old(self).elements@)
            } else {
                old(self).bounds
            },
            updated && old(self).elements@.len() >= 2 ==> bounds_in_step(final(self)),
    {
        match content_bounds(&self.elements) {
            Some(bounds) => {
                self.bounds = bounds;
                proof {
                    let made = *self;
                    let elements = self.elements;
                    if elements@.len() >= 2 {
                        let n = (elements@.len() - 1) as nat;
                        let boxes = fragment_boxes(&made, Vec2::zero_spec());
                        assert forall|i: int| 0 <= i < n implies #[trigger] boxes[i] == segment_box(
                            elements@[i],
                            elements@[i + 1],
                        ) by {}
                        lemma_segments_union(elements@, boxes, n);
                    }
                }
                true
            },
            None => false,
        }
    }
}

impl Default for BrushStroke {
    /// The empty stroke.
    fn default() -> (stroke: BrushStroke)
        ensures
            stroke.elements@.len() == 0,
            stroke.width == 6000,
            stroke.color == Color::black_spec(),
            stroke.bounds == Aabb::point_spec(Vec2::zero_spec()),
    {
        BrushStroke {
            elements: Vec::new(),
            width: 6000,
            color: Color::black(),
            bounds: Aabb::point(Vec2::zero()),
        }
    }
}

impl StrokeModel for BrushStroke {
    open spec fn bounds_spec(&self) -> Aabb {
        self.bounds
    }

    /// One fragment for each segment between two neighbours, so none for
    /// fewer than two elements.
    open spec fn fragment_count(&self) -> Option<nat> {
        if self.elements@.len() >= 2 {
            Some((self.elements@.len() - 1) as nat)
        } else {
            Some(0nat)
        }
    }

    open spec fn payload_spec(&self, offset: Vec2, index: int) -> Seq<char> {
        segment_text(
            self.elements@[index],
            self.elements@[index + 1],
            self.width,
            self.color,
            offset,
        )
    }

    /// The least box around the two elements of the segment, shifted.
    open spec fn fragment_bounds_spec(&self, offset: Vec2, index: int) -> Aabb {
        segment_box(self.elements@[index], self.elements@[index + 1]).translated(offset)
    }

    /// The boxes of the segments fit exactly where every element does.
    open spec fn draw_fits(&self, offset: Vec2) -> bool {
        self.elements@.len() >= 2 ==> elements_translate_fit(self.elements@, offset)
    }

    open spec fn translate_fits(&self, offset: Vec2) -> bool {
        self.bounds.translate_fits(offset) && elements_translate_fit(self.elements@, offset)
    }

    open spec fn can_fill(&self) -> bool {
        self.elements@.len() >= 2 && has_extent(self.hull_spec())
    }

    open spec fn is_rebound_of(&self, before: Self, bounds: Aabb) -> bool {
        &&& self.elements@ == before.elements@
        &&& self.width == before.width
        &&& self.color == before.color
        &&& self.bounds == bounds
    }

    open spec fn is_translation_of(&self, before: Self, offset: Vec2) -> bool {
        &&& elements_translated(self.elements@, before.elements@, offset)
        &&& self.width == before.width
        &&& self.color == before.color
        &&& self.bounds == before.bounds.translated(offset)
    }

    open spec fn is_resize_of(&self, before: Self, new_bounds: Aabb) -> bool {
        &&& elements_rescaled(self.elements@, before.elements@, before.hull_spec(), new_bounds)
        &&& self.width == before.width
        &&& self.color == before.color
        &&& self.bounds == new_bounds
    }

    proof fn lemma_zero_offset_fits(&self) {
    }

    proof fn lemma_fragment_shifts(&self, offset: Vec2) {
        if self.elements@.len() >= 2 {
            assert forall|index: int| 0 <= index < self.elements@.len() - 1 implies {
                &&& (#[trigger] self.fragment_bounds_spec(Vec2::zero_spec(), index)).translate_fits(
                    offset,
                )
                &&& self.fragment_bounds_spec(offset, index) == self.fragment_bounds_spec(
                    Vec2::zero_spec(),
                    index,
                ).translated(offset)
            } by {
                assert(self.elements@[index].pos_spec().translate_fits(offset));
                assert(self.elements@[index + 1].pos_spec().translate_fits(offset));
            }
        }
    }

    proof fn lemma_rebound(&self, before: Self, bounds: Aabb) {
    }

    proof fn lemma_translation(&self, before: Self, offset: Vec2) {
    }

    proof fn lemma_translation_draws_shifted(&self, before: Self, offset: Vec2, second: Vec2) {
        lemma_elements_shift_twice(self.elements@, before.elements@, offset, second);
        if self.elements@.len() >= 2 {
            assert forall|index: int| 0 <= index < self.elements@.len() - 1 implies {
                &&& self.payload_spec(second, index) == before.payload_spec(
                    offset.translated(second),
                    index,
                )
                &&& self.fragment_bounds_spec(second, index) == before.fragment_bounds_spec(
                    offset.translated(second),
                    index,
                )
            } by {
                assert(self.elements@[index].pos_spec().translate_fits(second));
                assert(self.elements@[index + 1].pos_spec().translate_fits(second));
                assert(before.elements@[index].pos_spec().translate_fits(offset.translated(second)));
                assert(before.elements@[index + 1].pos_spec().translate_fits(
                    offset.translated(second),
                ));
            }
        }
    }

    proof fn lemma_resize(&self, before: Self, new_bounds: Aabb) {
        if before.can_fill() && new_bounds.is_valid_spec() {
            lemma_hull_rescaled(self.elements@, before.elements@, new_bounds);
            let n = (self.elements@.len() - 1) as nat;
            let boxes = Seq::new(n, |i: int| self.fragment_bounds_spec(Vec2::zero_spec(), i));
            assert forall|i: int| 0 <= i < n implies #[trigger] boxes[i] == segment_box(
                self.elements@[i],
                self.elements@[i + 1],
            ) by {}
            lemma_segments_union(self.elements@, boxes, n);
        }
    }
}

impl StrokeBehaviour for BrushStroke {
    fn bounds(&self) -> (bounds: Aabb) {
        self.bounds
    }

    fn set_bounds(&mut self, bounds: Aabb) {
        self.bounds = bounds;
    }

    fn has_vector_form(&self) -> (b: bool) {
        true
    }

    fn can_draw(&self, offset: Vec2) -> (b: bool) {
        self.elements.len() < 2 || can_translate_elements(&self.elements, offset)
    }

    fn can_translate(&self, offset: Vec2) -> (b: bool) {
        self.bounds.can_translate(offset) && can_translate_elements(&self.elements, offset)
    }

    fn translate(&mut self, offset: Vec2) {
        translate_elements(&mut self.elements, offset);
        self.bounds = aabb_translate(self.bounds, offset);
    }

    fn resize(&mut self, new_bounds: Aabb) {
        if let Some(hull) = elements_hull(&self.elements) {
            proof {
                lemma_hull_rescale_fit(self.elements@, new_bounds);
            }
            rescale_elements(&mut self.elements, &hull, &new_bounds);
        }
        self.bounds = new_bounds;
    }

    fn gen_svgs(&self, offset: Vec2) -> (r: Result<Vec<Svg>, StrokeError>) {
        let mut svgs: Vec<Svg> = Vec::new();
        if self.elements.len() >= 2 {
            let count: usize = self.elements.len() - 1;
            let mut i: usize = 0;
            while i < count
                invariant
                    i <= count,
                    count + 1 == self.elements@.len(),
                    elements_translate_fit(self.elements@, offset),
                    svgs@.len() == i,
                    forall|j: int|
                        0 <= j < i ==> (#[trigger] svgs@[j]).svg_data@ == self.payload_spec(
                            offset,
                            j,
                        ) && svgs@[j].bounds == self.fragment_bounds_spec(offset, j),
                decreases count - i,
            {
                let from: Element = self.elements[i];
                let to: Element = self.elements[i + 1];
                let svg_data: String = segment_data(&from, &to, self.width, self.color, offset);
                let hull: Aabb = Aabb::point(from.inputdata.pos()).merged(
                    &Aabb::point(to.inputdata.pos()),
                );
                assert(self.elements@[i as int].pos_spec().translate_fits(offset));
                assert(self.elements@[i + 1].pos_spec().translate_fits(offset));
                svgs.push(Svg { svg_data, bounds: aabb_translate(hull, offset) });
                i += 1;
            }
        }
        assert(svgs_spec(self, offset)->Some_0 =~= svg_views(svgs@));
        Ok(svgs)
    }
}

} // verus!
