//! The vector image: an embedded drawing that is shown inside a rectangle.

use crate::compose::{wrap_svg, wrapped_text};
use crate::geometry::{aabb_ceil, aabb_translate, lemma_translate_compose, Aabb, Vec2};
use crate::render::{svg_views, StrokeError, Svg};
use crate::strokes::strokestyle::{
    bounds_in_step, fragment_boxes, svgs_spec, StrokeBehaviour, StrokeModel,
};
use vstd::prelude::*;

verus! {

/// An embedded drawing: its text, the size of the frame in which the text
/// was drawn, the rectangle in which it is shown, and the cached box.
#[derive(Clone, Debug, PartialEq, Eq)]
pub struct VectorImage {
    pub svg_data: String,
    pub intrinsic_size: Vec2,
    pub rectangle: Aabb,
    pub bounds: Aabb,
}

/// The frame of a drawing of `size`: from the origin to `size`.
pub open spec fn frame_spec(size: Vec2) -> Aabb {
    Aabb { mins: Vec2::zero_spec(), maxs: size }
}

/// The rectangle of a picture of `size` with its corner at `pos`.
pub open spec fn placement_spec(pos: Vec2, size: Vec2) -> Aabb {
    Aabb { mins: pos, maxs: pos.translated(size) }
}

impl VectorImage {
    /// Whether the drawing has a frame to scale: a size that is positive
    /// both ways.
    pub open spec fn has_frame(&self) -> bool {
        self.intrinsic_size.x > 0 && self.intrinsic_size.y > 0
    }

    /// A picture shown in its own size with its corner at `pos`, with
    /// that rectangle grown to the grid for its cached box, or `None`
    /// where either would leave the canvas.
    pub fn new(svg_data: String, intrinsic_size: Vec2, pos: Vec2) -> (r: Option<VectorImage>)
        ensures
            r is Some <==> pos.translate_fits(intrinsic_size) && placement_spec(
                pos,
                intrinsic_size,
            ).ceil_fits(),
            r is Some ==> {
                &&& r->Some_0.svg_data@ == svg_data@
                &&& r->Some_0.intrinsic_size == intrinsic_size
                &&& r->Some_0.rectangle == placement_spec(pos, intrinsic_size)
                &&& r->Some_0.bounds == placement_spec(pos, intrinsic_size).ceiled()
                &&& r->Some_0.fragment_count() is Some && r->Some_0.fragment_count()->Some_0 > 0
                    ==> bounds_in_step(&r->Some_0)
            },
    {
        if !pos.can_translate(intrinsic_size) {
            return None;
        }
        let rectangle: Aabb = Aabb::new(pos, pos.translate(intrinsic_size));
        if !rectangle.can_ceil() {
            return None;
        }
        let bounds: Aabb = aabb_ceil(rectangle);
        let made = VectorImage { svg_data, intrinsic_size, rectangle, bounds };
        proof {
            if made.fragment_count() is Some && made.fragment_count()->Some_0 > 0 {
                assert(fragment_boxes(&made, Vec2::zero_spec())[0] == rectangle);
            }
        }
        Some(made)
    }
}

impl StrokeModel for VectorImage {
    open spec fn bounds_spec(&self) -> Aabb {
        self.bounds
    }

    /// No fragment for an empty drawing, one for a drawing with a frame,
    /// and no vector form for a drawing without one.
    open spec fn fragment_count(&self) -> Option<nat> {
        if self.svg_data@.len() == 0 {
            Some(0nat)
        } else if self.has_frame() {
            Some(1nat)
        } else {
            None
        }
    }

    /// The drawing as a nested document that is placed at the shifted
    /// rectangle and looks at the drawing's own frame.
    open spec fn payload_spec(&self, offset: Vec2, index: int) -> Seq<char> {
        wrapped_text(
            self.svg_data@,
            Some(self.rectangle.translated(offset)),
            Some(frame_spec(self.intrinsic_size)),
            false,
            false,
        )
    }

    /// The rectangle in which the picture is shown, shifted.
    open spec fn fragment_bounds_spec(&self, offset: Vec2, index: int) -> Aabb {
        self.rectangle.translated(offset)
    }

    open spec fn draw_fits(&self, offset: Vec2) -> bool {
        self.rectangle.translate_fits(offset)
    }

    open spec fn translate_fits(&self, offset: Vec2) -> bool {
        self.rectangle.translate_fits(offset) && self.bounds.translate_fits(offset)
    }

    /// A picture is stretched over whatever rectangle it is given.
    open spec fn can_fill(&self) -> bool {
        true
    }

    open spec fn is_rebound_of(&self, before: Self, bounds: Aabb) -> bool {
        &&& self.svg_data@ == before.svg_data@
        &&& self.intrinsic_size == before.intrinsic_size
        &&& self.rectangle == before.rectangle
        &&& self.bounds == bounds
    }

    open spec fn is_translation_of(&self, before: Self, offset: Vec2) -> bool {
        &&& self.svg_data@ == before.svg_data@
        &&& self.intrinsic_size == before.intrinsic_size
        &&& self.rectangle == before.rectangle.translated(offset)
        &&& self.bounds == before.bounds.translated(offset)
    }

    open spec fn is_resize_of(&self, before: Self, new_bounds: Aabb) -> bool {
        &&& self.svg_data@ == before.svg_data@
        &&& self.intrinsic_size == before.intrinsic_size
        &&& self.rectangle == new_bounds
        &&& self.bounds == new_bounds
    }

    proof fn lemma_zero_offset_fits(&self) {
    }

    proof fn lemma_fragment_shifts(&self, offset: Vec2) {
    }

    proof fn lemma_rebound(&self, before: Self, bounds: Aabb) {
    }

    proof fn lemma_translation(&self, before: Self, offset: Vec2) {
    }

    proof fn lemma_translation_draws_shifted(&self, before: Self, offset: Vec2, second: Vec2) {
        lemma_translate_compose(before.rectangle, offset, second);
    }

    proof fn lemma_resize(&self, before: Self, new_bounds: Aabb) {
        if self.fragment_count() is Some && self.fragment_count()->Some_0 > 0 {
            let boxes = Seq::new(1nat, |i: int| self.fragment_bounds_spec(Vec2::zero_spec(), i));
            assert(boxes[0] == new_bounds);
        }
    }
}

impl StrokeBehaviour for VectorImage {
    fn bounds(&self) -> (bounds: Aabb) {
        self.bounds
    }

    fn set_bounds(&mut self, bounds: Aabb) {
        self.bounds = bounds;
    }

    fn can_draw(&self, offset: Vec2) -> (b: bool) {
        self.rectangle.can_translate(offset)
    }

    fn can_translate(&self, offset: Vec2) -> (b: bool) {
        self.rectangle.can_translate(offset) && self.bounds.can_translate(offset)
    }

    fn translate(&mut self, offset: Vec2) {
        self.rectangle = aabb_translate(self.rectangle, offset);
        self.bounds = aabb_translate(self.bounds, offset);
    }

    fn resize(&mut self, new_bounds: Aabb) {
        self.rectangle = new_bounds;
        self.bounds = new_bounds;
    }

    fn has_vector_form(&self) -> (b: bool) {
        self.svg_data.as_str().is_empty() || (self.intrinsic_size.x > 0 && self.intrinsic_size.y
            > 0)
    }

    fn gen_svgs(&self, offset: Vec2) -> (r: Result<Vec<Svg>, StrokeError>) {
        let mut svgs: Vec<Svg> = Vec::new();
        if self.svg_data.as_str().is_empty() {
            assert(svgs_spec(self, offset)->Some_0 =~= svg_views(svgs@));
            return Ok(svgs);
        }
        if self.intrinsic_size.x <= 0 || self.intrinsic_size.y <= 0 {
            return Err(StrokeError::UnsupportedContent);
        }
        let bounds: Aabb = aabb_translate(self.rectangle, offset);
        let frame: Aabb = Aabb::new(Vec2::zero(), self.intrinsic_size);
        let svg_data: String = wrap_svg(
            self.svg_data.as_str(),
            Some(bounds),
            Some(frame),
            false,
            false,
        );
        svgs.push(Svg { svg_data, bounds });
        assert(svgs_spec(self, offset)->Some_0 =~= svg_views(svgs@));
        Ok(svgs)
    }
}

} // verus!
