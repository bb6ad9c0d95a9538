//! The marker stroke: a line of one width through its elements.

use crate::color::{color_attr_text, push_color_attr, Color};
use crate::geometry::{aabb_translate, lemma_translate_compose, Aabb, Vec2};
use crate::render::{svg_views, StrokeError, Svg};
use crate::strokes::content::{
    content_bounds, content_bounds_fit, content_bounds_spec, elements_hull, has_extent, hull_of,
    lemma_hull_fits, lemma_hull_rescale_fit, lemma_hull_rescaled, lemma_hull_translated,
};
use crate::strokes::strokestyle::{
    can_translate_elements, elements_rescaled, elements_translate_fit, elements_translated,
    bounds_in_step, fragment_boxes, lemma_elements_shift_twice, rescale_elements, svgs_spec, translate_elements, Element,
    StrokeBehaviour, StrokeModel,
};
use crate::text::{attr_text, pair_text, push_attr, push_pair};
use vstd::prelude::*;

verus! {

/// A stroke drawn with a marker: its elements in the order in which they
/// were recorded, the width and colour of the line, and the cached box.
#[derive(Clone, Debug, PartialEq, Eq)]
pub struct MarkerStroke {
    pub elements: Vec<Element>,
    pub width: u32,
    pub color: Color,
    pub bounds: Aabb,
}

/// The path data through the first `n` elements, shifted by `offset`: a
/// move to the first element and a line to each one after it.
pub open spec fn path_text(elements: Seq<Element>, offset: Vec2, n: nat) -> Seq<char>
    decreases n,
{
    if n == 0 {
        Seq::<char>::empty()
    } else {
        path_text(elements, offset, (n - 1) as nat) + (if n == 1 {
            "M "@
        } else {
            " L "@
        }) + pair_text(
            elements[n - 1].pos_spec().x + offset.x,
            elements[n - 1].pos_spec().y + offset.y,
        )
    }
}

/// The text of a marker stroke drawn shifted by `offset`.
pub open spec fn marker_text(
    elements: Seq<Element>,
    width: u32,
    color: Color,
    offset: Vec2,
) -> Seq<char> {
    "<path d=\""@ + path_text(elements, offset, elements.len()) + "\" fill=\"none\""@
        + color_attr_text("stroke"@, color) + attr_text("stroke-width"@, width as int) + "/>"@
}

/// Path data depends on the shifted positions alone: two runs of
/// elements whose positions agree after their shifts have the same text.
pub proof fn lemma_path_shifted(
    a: Seq<Element>,
    b: Seq<Element>,
    a_offset: Vec2,
    b_offset: Vec2,
    n: nat,
)
    requires
        n <= a.len() == b.len(),
        forall|i: int|
            0 <= i < a.len() ==> {
                &&& (#[trigger] a[i]).pos_spec().x + a_offset.x == b[i].pos_spec().x + b_offset.x
                &&& a[i].pos_spec().y + a_offset.y == b[i].pos_spec().y + b_offset.y
            },
    ensures
        path_text(a, a_offset, n) == path_text(b, b_offset, n),
    decreases n,
{
    if n > 0 {
        lemma_path_shifted(a, b, a_offset, b_offset, (n - 1) as nat);
        assert(a[n - 1].pos_spec().x + a_offset.x == b[n - 1].pos_spec().x + b_offset.x);
    }
}

impl MarkerStroke {
    /// The width of a stroke that was given none: two canvas units.
    pub const WIDTH_DEFAULT: u32 = 2000;

    /// The least box around the elements, for a stroke with elements.
    pub open spec fn hull_spec(&self) -> Aabb {
        hull_of(self.elements@, self.elements@.len())
    }

    /// A stroke through `elements`, with the box of the elements for its
    /// cached box, or `None` where that box would leave the canvas.
    pub fn new(elements: Vec<Element>, width: u32, color: Color) -> (r: Option<MarkerStroke>)
        ensures
            r is Some <==> content_bounds_fit(elements@),
            r is Some ==> {
                &&& r->Some_0.elements@ == elements@
                &&& r->Some_0.width == width
                &&& r->Some_0.color == color
                &&& r->Some_0.bounds == content_bounds_spec(elements@)
                &&& elements@.len() > 0 ==> bounds_in_step(&r->Some_0)
            },
    {
        match content_bounds(&elements) {
            Some(bounds) => {
                proof {
                    let made = MarkerStroke { elements, width, color, bounds };
                    if elements@.len() > 0 {
                        assert(fragment_boxes(&made, Vec2::zero_spec())[0] == made.hull_spec());
                    }
                }
                Some(MarkerStroke { elements, width, color, bounds })
            },
            None => None,
        }
    }

    /// Adds an element at the end. The cached box is left as it is: call
    /// [`MarkerStroke::update_bounds`] once the content is complete.
    pub fn push_elem(&mut self, element: Element)
        ensures
            final(self).elements@ == old(self).elements@.push(element),
            final(self).width == old(self).width,
            final(self).color == old(self).color,
            final(self).bounds == old(self).bounds,
    {
        self.elements.push(element);
    }

    /// Sets the cached box to the box of the elements, and says whether
    /// it did: where that box would leave the canvas, nothing changes.
    pub fn update_bounds(&mut self) -> (updated: bool)
        ensures
            updated == content_bounds_fit(old(self).elements@),
            final(self).elements@ == old(self).elements@,
            final(self).width == old(self).width,
            final(self).color == old(self).color,
            final(self).bounds == if updated {
                content_bounds_spec(old(self).elements@)
            } else {
                old(self).bounds
            },
            updated && old(self).elements@.len() > 0 ==> bounds_in_step(final(self)),
    {
        match content_bounds(&self.elements) {
            Some(bounds) => {
                self.bounds = bounds;
                proof {
                    let made = *self;
                    let elements = self.elements;
                    if elements@.len() > 0 {
                        assert(fragment_boxes(&made, Vec2::zero_spec())[0] == made.hull_spec());
                    }
                }
                true
            },
            None => false,
        }
    }
}

impl Default for MarkerStroke {
    /// The empty stroke.
    fn default() -> (stroke: MarkerStroke)
        ensures
            stroke.elements@.len() == 0,
            stroke.width == 2000,
            stroke.color == Color::black_spec(),
            stroke.bounds == Aabb::point_spec(Vec2::zero_spec()),
    {
        MarkerStroke {
            elements: Vec::new(),
            width: 2000,
            color: Color::black(),
            bounds: Aabb::point(Vec2::zero()),
        }
    }
}

impl StrokeModel for MarkerStroke {
    open spec fn bounds_spec(&self) -> Aabb {
        self.bounds
    }

    /// One fragment for the whole line, and none without elements.
    open spec fn fragment_count(&self) -> Option<nat> {
        if self.elements@.len() > 0 {
            Some(1nat)
        } else {
            Some(0nat)
        }
    }

    open spec fn payload_spec(&self, offset: Vec2, index: int) -> Seq<char> {
        marker_text(self.elements@, self.width, self.color, offset)
    }

    /// The least box around the elements, shifted.
    open spec fn fragment_bounds_spec(&self, offset: Vec2, index: int) -> Aabb {
        self.hull_spec().translated(offset)
    }

    /// The box fits exactly where every element does.
    open spec fn draw_fits(&self, offset: Vec2) -> bool {
        elements_translate_fit(self.elements@, offset)
    }

    open spec fn translate_fits(&self, offset: Vec2) -> bool {
        self.bounds.translate_fits(offset) && elements_translate_fit(self.elements@, offset)
    }

    open spec fn can_fill(&self) -> bool {
        self.elements@.len() > 0 && has_extent(self.hull_spec())
    }

    open spec fn is_rebound_of(&self, before: Self, bounds: Aabb) -> bool {
        &&& self.elements@ == before.elements@
        &&& self.width == before.width
        &&& self.color == before.color
        &&& self.bounds == bounds
    }

    open spec fn is_translation_of(&self, before: Self, offset: Vec2) -> bool {
        &&& elements_translated(self.elements@, before.elements@, offset)
        &&& self.width == before.width
        &&& self.color == before.color
        &&& self.bounds == before.bounds.translated(offset)
    }

    open spec fn is_resize_of(&self, before: Self, new_bounds: Aabb) -> bool {
        &&& elements_rescaled(self.elements@, before.elements@, before.hull_spec(), new_bounds)
        &&& self.width == before.width
        &&& self.color == before.color
        &&& self.bounds == new_bounds
    }

    proof fn lemma_zero_offset_fits(&self) {
    }

    proof fn lemma_fragment_shifts(&self, offset: Vec2) {
        if self.elements@.len() > 0 {
            lemma_hull_fits(self.elements@, self.elements@.len(), offset);
        }
    }

    proof fn lemma_rebound(&self, before: Self, bounds: Aabb) {
    }

    proof fn lemma_translation(&self, before: Self, offset: Vec2) {
    }

    proof fn lemma_translation_draws_shifted(&self, before: Self, offset: Vec2, second: Vec2) {
        lemma_elements_shift_twice(self.elements@, before.elements@, offset, second);
        lemma_path_shifted(
            self.elements@,
            before.elements@,
            second,
            offset.translated(second),
            self.elements@.len(),
        );
        if self.elements@.len() > 0 {
            let n = self.elements@.len();
            lemma_hull_translated(self.elements@, before.elements@, offset, n);
            lemma_hull_fits(self.elements@, n, second);
            lemma_translate_compose(before.hull_spec(), offset, second);
        }
    }

    proof fn lemma_resize(&self, before: Self, new_bounds: Aabb) {
        if before.can_fill() && new_bounds.is_valid_spec() {
            lemma_hull_rescaled(self.elements@, before.elements@, new_bounds);
            let boxes = Seq::new(1nat, |i: int| self.fragment_bounds_spec(Vec2::zero_spec(), i));
            assert(boxes[0] == new_bounds);
        }
    }
}

impl StrokeBehaviour for MarkerStroke {
    fn bounds(&self) -> (bounds: Aabb) {
        self.bounds
    }

    fn set_bounds(&mut self, bounds: Aabb) {
        self.bounds = bounds;
    }

    fn has_vector_form(&self) -> (b: bool) {
        true
    }

    fn can_draw(&self, offset: Vec2) -> (b: bool) {
        can_translate_elements(&self.elements, offset)
    }

    fn can_translate(&self, offset: Vec2) -> (b: bool) {
        self.bounds.can_translate(offset) && can_translate_elements(&self.elements, offset)
    }

    fn translate(&mut self, offset: Vec2) {
        translate_elements(&mut self.elements, offset);
        self.bounds = aabb_translate(self.bounds, offset);
    }

    fn resize(&mut self, new_bounds: Aabb) {
        if let Some(hull) = elements_hull(&self.elements) {
            proof {
                lemma_hull_rescale_fit(self.elements@, new_bounds);
            }
            rescale_elements(&mut self.elements, &hull, &new_bounds);
        }
        self.bounds = new_bounds;
    }

    fn gen_svgs(&self, offset: Vec2) -> (r: Result<Vec<Svg>, StrokeError>) {
        let mut svgs: Vec<Svg> = Vec::new();
        if let Some(hull) = elements_hull(&self.elements) {
            proof {
                lemma_hull_fits(self.elements@, self.elements@.len(), offset);
            }
            let mut data: String = String::new();
            data.append("<path d=\"");
            let mut i: usize = 0;
            while i < self.elements.len()
                invariant
                    i <= self.elements.len(),
                    elements_translate_fit(self.elements@, offset),
                    data@ == "<path d=\""@ + path_text(self.elements@, offset, i as nat),
                decreases self.elements.len() - i,
            {
                let pos: Vec2 = self.elements[i].inputdata.pos();
                if i == 0 {
                    data.append("M ");
                } else {
                    data.append(" L ");
                }
                push_pair(&mut data, pos.x as i64 + offset.x as i64, pos.y as i64 + offset.y as i64);
                assert(data@ =~= "<path d=\""@ + path_text(self.elements@, offset, (i + 1) as nat));
                i += 1;
            }
            data.append("\" fill=\"none\"");
            push_color_attr(&mut data, "stroke", self.color);
            push_attr(&mut data, "stroke-width", self.width as i64);
            data.append("/>");
            svgs.push(Svg { svg_data: data, bounds: aabb_translate(hull, offset) });
        }
        assert(svgs_spec(self, offset)->Some_0 =~= svg_views(svgs@));
        Ok(svgs)
    }
}

} // verus!
