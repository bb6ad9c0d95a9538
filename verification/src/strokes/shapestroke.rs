//! The shape stroke: a line, a rectangle or an ellipse between two points.

use crate::color::{color_attr_text, push_color_attr, Color};
use crate::geometry::{
    aabb_ceil, aabb_translate, lemma_rescale_corners, lemma_rescaled_inside, max_int, min_int, Aabb,
    Vec2,
};
use crate::strokes::content::has_extent;
use crate::render::{svg_views, StrokeError, Svg};
use crate::strokes::strokestyle::{
    bounds_in_step, fragment_boxes, svgs_spec, StrokeBehaviour, StrokeModel,
};
use crate::text::{attr_text, push_attr};
use vstd::prelude::*;

verus! {

/// What is drawn between the two points of a shape stroke.
#[derive(Clone, Copy, Debug, PartialEq, Eq, Structural)]
pub enum ShapeKind {
    /// The straight line from the one point to the other.
    Line,
    /// The upright rectangle with the two points for opposite corners.
    Rectangle,
    /// The ellipse inscribed into that rectangle.
    Ellipse,
}

/// A stroke that draws one shape between `start` and `end`.
#[derive(Clone, Copy, Debug, PartialEq, Eq, Structural)]
pub struct ShapeStroke {
    pub kind: ShapeKind,
    pub start: Vec2,
    pub end: Vec2,
    pub width: u32,
    pub color: Color,
    pub bounds: Aabb,
}

/// The outline attributes that every shape ends with.
pub open spec fn outline_text(width: u32, color: Color) -> Seq<char> {
    color_attr_text("stroke"@, color) + attr_text("stroke-width"@, width as int) + "/>"@
}

/// The text of a shape between the points `(x0, y0)` and `(x1, y1)`.
pub open spec fn shape_text(
    kind: ShapeKind,
    x0: int,
    y0: int,
    x1: int,
    y1: int,
    width: u32,
    color: Color,
) -> Seq<char> {
    let left = min_int(x0, x1);
    let top = min_int(y0, y1);
    let across = max_int(x0, x1) - left;
    let down = max_int(y0, y1) - top;
    match kind {
        ShapeKind::Line => "<line"@ + attr_text("x1"@, x0) + attr_text("y1"@, y0) + attr_text(
            "x2"@,
            x1,
        ) + attr_text("y2"@, y1) + outline_text(width, color),
        ShapeKind::Rectangle => "<rect"@ + attr_text("x"@, left) + attr_text("y"@, top)
            + attr_text("width"@, across) + attr_text("height"@, down) + " fill=\"none\""@
            + outline_text(width, color),
        ShapeKind::Ellipse => "<ellipse"@ + attr_text("cx"@, left + across / 2) + attr_text(
            "cy"@,
            top + down / 2,
        ) + attr_text("rx"@, across / 2) + attr_text("ry"@, down / 2) + " fill=\"none\""@
            + outline_text(width, color),
    }
}

/// The least box around the two points of a shape.
pub open spec fn shape_hull(start: Vec2, end: Vec2) -> Aabb {
    Aabb::point_spec(start).merged_spec(&Aabb::point_spec(end))
}

/// Whether the box of [`shape_bounds_spec`] is a box of the canvas.
pub open spec fn shape_bounds_fit(start: Vec2, end: Vec2) -> bool {
    shape_hull(start, end).ceil_fits()
}

/// The box of a shape between two points: the least box around the
/// points, grown to the grid.
pub open spec fn shape_bounds_spec(start: Vec2, end: Vec2) -> Aabb {
    shape_hull(start, end).ceiled()
}

fn push_outline(out: &mut String, width: u32, color: Color)
    ensures
        final(out)@ == old(out)@ + outline_text(width, color),
{
    push_color_attr(out, "stroke", color);
    push_attr(out, "stroke-width", width as i64);
    out.append("/>");
    assert(out@ =~= old(out)@ + outline_text(width, color));
}

/// Writes the text of a shape between the points `(x0, y0)` and
/// `(x1, y1)`.
pub fn shape_data(kind: ShapeKind, x0: i64, y0: i64, x1: i64, y1: i64, width: u32, color: Color) -> (data:
    String)
    requires
        i64::MIN <= max_int(x0 as int, x1 as int) - min_int(x0 as int, x1 as int) <= i64::MAX,
        i64::MIN <= max_int(y0 as int, y1 as int) - min_int(y0 as int, y1 as int) <= i64::MAX,
    ensures
        data@ == shape_text(kind, x0 as int, y0 as int, x1 as int, y1 as int, width, color),
{
    let left: i64 = if x0 <= x1 { x0 } else { x1 };
    let top: i64 = if y0 <= y1 { y0 } else { y1 };
    let across: i64 = (if x0 >= x1 { x0 } else { x1 }) - left;
    let down: i64 = (if y0 >= y1 { y0 } else { y1 }) - top;
    let mut data: String = String::new();
    match kind {
        ShapeKind::Line => {
            data.append("<line");
            push_attr(&mut data, "x1", x0);
            push_attr(&mut data, "y1", y0);
            push_attr(&mut data, "x2", x1);
            push_attr(&mut data, "y2", y1);
        },
        ShapeKind::Rectangle => {
            data.append("<rect");
            push_attr(&mut data, "x", left);
            push_attr(&mut data, "y", top);
            push_attr(&mut data, "width", across);
            push_attr(&mut data, "height", down);
            data.append(" fill=\"none\"");
        },
        ShapeKind::Ellipse => {
            data.append("<ellipse");
            push_attr(&mut data, "cx", left + across / 2);
            push_attr(&mut data, "cy", top + down / 2);
            push_attr(&mut data, "rx", across / 2);
            push_attr(&mut data, "ry", down / 2);
            data.append(" fill=\"none\"");
        },
    }
    push_outline(&mut data, width, color);
    assert(data@ =~= shape_text(kind, x0 as int, y0 as int, x1 as int, y1 as int, width, color));
    data
}

impl ShapeStroke {
    /// The width of a shape that was given none: two canvas units.
    pub const WIDTH_DEFAULT: u32 = 2000;

    /// The least box around the two points.
    pub open spec fn hull_spec(&self) -> Aabb {
        shape_hull(self.start, self.end)
    }

    /// A shape between `start` and `end`, with the box of the two points
    /// grown to the grid for its cached box, or `None` where that box
    /// would leave the canvas.
    pub fn new(kind: ShapeKind, start: Vec2, end: Vec2, width: u32, color: Color) -> (r: Option<
        ShapeStroke,
    >)
        ensures
            r is Some <==> shape_bounds_fit(start, end),
            r is Some ==> r->Some_0 == (ShapeStroke {
                kind,
                start,
                end,
                width,
                color,
                bounds: shape_bounds_spec(start, end),
            }),
            r is Some ==> bounds_in_step(&r->Some_0),
    {
        let hull: Aabb = Aabb::point(start).merged(&Aabb::point(end));
        if hull.can_ceil() {
            let made = ShapeStroke { kind, start, end, width, color, bounds: aabb_ceil(hull) };
            assert(fragment_boxes(&made, Vec2::zero_spec())[0] == hull);
            Some(made)
        } else {
            None
        }
    }
}

impl StrokeModel for ShapeStroke {
    open spec fn bounds_spec(&self) -> Aabb {
        self.bounds
    }

    /// A shape is always one fragment.
    open spec fn fragment_count(&self) -> Option<nat> {
        Some(1nat)
    }

    open spec fn payload_spec(&self, offset: Vec2, index: int) -> Seq<char> {
        shape_text(
            self.kind,
            self.start.x + offset.x,
            self.start.y + offset.y,
            self.end.x + offset.x,
            self.end.y + offset.y,
            self.width,
            self.color,
        )
    }

    /// The least box around the two points, shifted.
    open spec fn fragment_bounds_spec(&self, offset: Vec2, index: int) -> Aabb {
        self.hull_spec().translated(offset)
    }

    /// The box fits exactly where both points do.
    open spec fn draw_fits(&self, offset: Vec2) -> bool {
        self.start.translate_fits(offset) && self.end.translate_fits(offset)
    }

    open spec fn translate_fits(&self, offset: Vec2) -> bool {
        &&& self.bounds.translate_fits(offset)
        &&& self.start.translate_fits(offset)
        &&& self.end.translate_fits(offset)
    }

    open spec fn can_fill(&self) -> bool {
        has_extent(self.hull_spec())
    }

    open spec fn is_rebound_of(&self, before: Self, bounds: Aabb) -> bool {
        *self == (ShapeStroke { bounds, ..before })
    }

    open spec fn is_translation_of(&self, before: Self, offset: Vec2) -> bool {
        *self == (ShapeStroke {
            start: before.start.translated(offset),
            end: before.end.translated(offset),
            bounds: before.bounds.translated(offset),
            ..before
        })
    }

    open spec fn is_resize_of(&self, before: Self, new_bounds: Aabb) -> bool {
        *self == (ShapeStroke {
            start: before.start.rescaled(before.hull_spec(), new_bounds),
            end: before.end.rescaled(before.hull_spec(), new_bounds),
            bounds: new_bounds,
            ..before
        })
    }

    proof fn lemma_zero_offset_fits(&self) {
    }

    proof fn lemma_fragment_shifts(&self, offset: Vec2) {
    }

    proof fn lemma_rebound(&self, before: Self, bounds: Aabb) {
    }

    proof fn lemma_translation(&self, before: Self, offset: Vec2) {
    }

    proof fn lemma_translation_draws_shifted(&self, before: Self, offset: Vec2, second: Vec2) {
        let sum = offset.translated(second);
        assert(self.start.x + second.x == before.start.x + sum.x);
        assert(self.start.y + second.y == before.start.y + sum.y);
        assert(self.end.x + second.x == before.end.x + sum.x);
        assert(self.end.y + second.y == before.end.y + sum.y);
        assert(self.payload_spec(second, 0) == before.payload_spec(sum, 0));
        assert(self.hull_spec() == before.hull_spec().translated(offset));
        crate::geometry::lemma_translate_compose(before.hull_spec(), offset, second);
    }

    proof fn lemma_resize(&self, before: Self, new_bounds: Aabb) {
        if before.can_fill() && new_bounds.is_valid_spec() {
            let h = before.hull_spec();
            lemma_rescale_corners(
                0,
                h.mins.x as int,
                h.maxs.x as int,
                new_bounds.mins.x as int,
                new_bounds.maxs.x as int,
            );
            lemma_rescale_corners(
                0,
                h.mins.y as int,
                h.maxs.y as int,
                new_bounds.mins.y as int,
                new_bounds.maxs.y as int,
            );
            let boxes = Seq::new(1nat, |i: int| self.fragment_bounds_spec(Vec2::zero_spec(), i));
            assert(self.hull_spec() == new_bounds);
            assert(boxes[0] == new_bounds);
        }
    }
}

impl StrokeBehaviour for ShapeStroke {
    fn bounds(&self) -> (bounds: Aabb) {
        self.bounds
    }

    fn set_bounds(&mut self, bounds: Aabb) {
        self.bounds = bounds;
    }

    fn has_vector_form(&self) -> (b: bool) {
        true
    }

    fn can_draw(&self, offset: Vec2) -> (b: bool) {
        self.start.can_translate(offset) && self.end.can_translate(offset)
    }

    fn can_translate(&self, offset: Vec2) -> (b: bool) {
        self.bounds.can_translate(offset) && self.start.can_translate(offset)
            && self.end.can_translate(offset)
    }

    fn translate(&mut self, offset: Vec2) {
        self.start = self.start.translate(offset);
        self.end = self.end.translate(offset);
        self.bounds = aabb_translate(self.bounds, offset);
    }

    fn resize(&mut self, new_bounds: Aabb) {
        let hull: Aabb = Aabb::point(self.start).merged(&Aabb::point(self.end));
        proof {
            lemma_rescaled_inside(self.start, hull, new_bounds);
            lemma_rescaled_inside(self.end, hull, new_bounds);
        }
        self.start = self.start.rescale(&hull, &new_bounds);
        self.end = self.end.rescale(&hull, &new_bounds);
        self.bounds = new_bounds;
    }

    fn gen_svgs(&self, offset: Vec2) -> (r: Result<Vec<Svg>, StrokeError>) {
        let svg_data: String = shape_data(
            self.kind,
            self.start.x as i64 + offset.x as i64,
            self.start.y as i64 + offset.y as i64,
            self.end.x as i64 + offset.x as i64,
            self.end.y as i64 + offset.y as i64,
            self.width,
            self.color,
        );
        let mut svgs: Vec<Svg> = Vec::new();
        let hull: Aabb = Aabb::point(self.start).merged(&Aabb::point(self.end));
        svgs.push(Svg { svg_data, bounds: aabb_translate(hull, offset) });
        assert(svgs_spec(self, offset)->Some_0 =~= svg_views(svgs@));
        Ok(svgs)
    }
}

} // verus!
