//! Input samples, stroke elements and the behaviour that every stroke has.

use crate::color::Color;
use crate::compose::{wrap_svg, wrapped_text};
use crate::geometry::{aabb_ceil, Aabb, Vec2};
use crate::render::{image_outcome, svg_views, Image, Renderer, StrokeError, Svg, SvgView};
use crate::strokes::bitmapimage::BitmapImage;
use crate::strokes::brushstroke::BrushStroke;
use crate::strokes::markerstroke::MarkerStroke;
use crate::strokes::shapestroke::ShapeStroke;
use crate::strokes::vectorimage::VectorImage;
use rand::rngs::StdRng;
use vstd::prelude::*;

verus! {

/// One recorded pointer sample: where the pointer was and how hard it
/// pressed, in thousandths of full pressure.
#[derive(Clone, Copy, Debug, PartialEq, Eq, Structural)]
pub struct InputData {
    pos: Vec2,
    pressure: i32,
}

impl InputData {
    /// The pressure of a sample that was given none: half of full pressure.
    pub const PRESSURE_DEFAULT: i32 = 500;

    /// Full pressure.
    pub const PRESSURE_MAX: i32 = 1000;

    #[verifier::type_invariant]
    spec fn pressure_in_range(self) -> bool {
        0 <= self.pressure <= 1000
    }

    pub closed spec fn pos_spec(&self) -> Vec2 {
        self.pos
    }

    pub closed spec fn pressure_spec(&self) -> int {
        self.pressure as int
    }

    /// The pressure that is stored for a requested one: the nearest value
    /// between none and full pressure.
    pub open spec fn clamped(pressure: int) -> int {
        if pressure < 0 {
            0
        } else if pressure > 1000 {
            1000
        } else {
            pressure
        }
    }

    pub fn new(pos: Vec2, pressure: i32) -> (data: InputData)
        ensures
            data.pos_spec() == pos,
            data.pressure_spec() == InputData::clamped(pressure as int),
    {
        let mut inputdata: InputData = InputData { pos: Vec2 { x: 0, y: 0 }, pressure: 500 };
        inputdata.set_pos(pos);
        inputdata.set_pressure(pressure);
        inputdata
    }

    #[verifier::when_used_as_spec(pos_spec)]
    pub fn pos(&self) -> (pos: Vec2)
        ensures
            pos == self.pos_spec(),
    {
        self.pos
    }

    pub fn set_pos(&mut self, pos: Vec2)
        ensures
            final(self).pos_spec() == pos,
            final(self).pressure_spec() == old(self).pressure_spec(),
    {
        proof {
            use_type_invariant(&*self);
        }
        self.pos = pos;
    }

    pub fn pressure(&self) -> (pressure: i32)
        ensures
            pressure == self.pressure_spec(),
            0 <= pressure <= 1000,
    {
        proof {
            use_type_invariant(self);
        }
        self.pressure
    }

    pub fn set_pressure(&mut self, pressure: i32)
        ensures
            final(self).pressure_spec() == InputData::clamped(pressure as int),
            final(self).pos_spec() == old(self).pos_spec(),
    {
        self.pressure = if pressure < 0 {
            0
        } else if pressure > 1000 {
            1000
        } else {
            pressure
        };
    }

}

impl Default for InputData {
    fn default() -> (data: InputData)
        ensures
            data.pos_spec() == Vec2::zero_spec(),
            data.pressure_spec() == 500,
    {
        InputData { pos: Vec2 { x: 0, y: 0 }, pressure: 500 }
    }
}

/// A single stroke element: the unit that pen strokes are built from.
#[derive(Clone, Copy, Debug, PartialEq, Eq, Structural)]
pub struct Element {
    pub inputdata: InputData,
}

impl Element {
    pub open spec fn pos_spec(&self) -> Vec2 {
        self.inputdata.pos_spec()
    }

    pub open spec fn pressure_spec(&self) -> int {
        self.inputdata.pressure_spec()
    }

    /// Whether `self` is `before` moved to `pos`, with the pressure kept.
    pub open spec fn is_moved(&self, before: &Element, pos: Vec2) -> bool {
        self.pos_spec() == pos && self.pressure_spec() == before.pressure_spec()
    }

    pub fn new(inputdata: InputData) -> (element: Element)
        ensures
            element.inputdata == inputdata,
    {
        Element { inputdata }
    }

    /// Random elements for trying out strokes: at most twenty of them,
    /// each somewhere in `bounds` and with some pressure between none and
    /// full. All randomness is drawn from `rng`, so a seeded source gives
    /// the same elements on every run.
    pub fn validation_data(bounds: Aabb, rng: &mut StdRng) -> (data_entries: Vec<Element>)
        requires
            bounds.is_valid_spec(),
        ensures
            data_entries@.len() <= 20,
            forall|i: int|
                0 <= i < data_entries@.len() ==> {
                    &&& bounds.contains_point_spec(&(#[trigger] data_entries@[i]).pos_spec())
                    &&& 0 <= data_entries@[i].pressure_spec() <= 1000
                },
    {
        let count: i32 = sample_inclusive(rng, 0, 20);
        let mut samples: Vec<RawSample> = Vec::new();
        let mut i: i32 = 0;
        while i < count
            invariant
                0 <= i <= count <= 20,
                bounds.is_valid_spec(),
                samples@.len() == i,
                forall|j: int|
                    0 <= j < samples@.len() ==> {
                        &&& bounds.contains_point_spec(&(#[trigger] samples@[j]).pos)
                        &&& 0 <= samples@[j].pressure <= 1000
                    },
            decreases count - i,
        {
            let x: i32 = sample_inclusive(rng, bounds.mins.x, bounds.maxs.x);
            let y: i32 = sample_inclusive(rng, bounds.mins.y, bounds.maxs.y);
            let pressure: i32 = sample_inclusive(rng, 0, InputData::PRESSURE_MAX);
            samples.push(RawSample { pos: Vec2::new(x, y), pressure });
            i += 1;
        }
        Element::from_samples(&samples)
    }

    /// The elements that a run of raw samples stands for: one element for
    /// each sample, in the order of the samples, at the sample's position
    /// and with the sample's pressure clamped between none and full.
    pub fn from_samples(samples: &Vec<RawSample>) -> (elements: Vec<Element>)
        ensures
            elements@.len() == samples@.len(),
            forall|i: int|
                0 <= i < samples@.len() ==> {
                    &&& (#[trigger] elements@[i]).pos_spec() == samples@[i].pos
                    &&& elements@[i].pressure_spec() == InputData::clamped(
                        samples@[i].pressure as int,
                    )
                },
    {
        let mut elements: Vec<Element> = Vec::new();
        let mut i: usize = 0;
        while i < samples.len()
            invariant
                i <= samples.len(),
                elements@.len() == i,
                forall|j: int|
                    0 <= j < i ==> {
                        &&& (#[trigger] elements@[j]).pos_spec() == samples@[j].pos
                        &&& elements@[j].pressure_spec() == InputData::clamped(
                            samples@[j].pressure as int,
                        )
                    },
            decreases samples.len() - i,
        {
            let sample: RawSample = samples[i];
            elements.push(Element::new(InputData::new(sample.pos, sample.pressure)));
            i += 1;
        }
        elements
    }

    /// The element moved to `pos`.
    pub fn moved_to(&self, pos: Vec2) -> (element: Element)
        ensures
            element.is_moved(self, pos),
    {
        let mut inputdata: InputData = self.inputdata;
        inputdata.set_pos(pos);
        Element { inputdata }
    }
}

/// A position and a pressure as they were measured or drawn, before the
/// pressure is clamped.
#[derive(Clone, Copy, Debug, PartialEq, Eq, Structural)]
pub struct RawSample {
    pub pos: Vec2,
    pub pressure: i32,
}

impl Default for Element {
    fn default() -> (element: Element)
        ensures
            element.pos_spec() == Vec2::zero_spec(),
            element.pressure_spec() == 500,
    {
        Element { inputdata: InputData::default() }
    }
}


/// `rand`'s standard generator. Nothing is known of what is inside it: it
/// is handed on to `rand` as it comes.
#[verifier::external_type_specification]
#[verifier::external_body]
pub struct ExStdRng(rand::rngs::StdRng);

/// Draws one integer from `rng`, by `rand`'s `Uniform::from` on the
/// inclusive range from `low` to `high` and `Distribution::sample` on the
/// distribution it makes. Which integer comes is up to `rng`; all that is
/// claimed is that it lies in the range. `Uniform::from` panics on an
/// empty range, which `low <= high` rules out.
#[verifier::external_body]
fn sample_inclusive(rng: &mut StdRng, low: i32, high: i32) -> (value: i32)
    requires
        low <= high,
    ensures
        low <= value <= high,
{
    rand::distributions::Distribution::sample(&rand::distributions::Uniform::from(low..=high), rng)
}

/// Whether every element can be shifted by `offset` without leaving the
/// canvas.
pub open spec fn elements_translate_fit(elements: Seq<Element>, offset: Vec2) -> bool {
    forall|i: int|
        0 <= i < elements.len() ==> (#[trigger] elements[i]).pos_spec().translate_fits(offset)
}

/// Whether `after` holds the elements of `before`, in their order, each
/// shifted by `offset` and with its pressure kept.
pub open spec fn elements_translated(
    after: Seq<Element>,
    before: Seq<Element>,
    offset: Vec2,
) -> bool {
    &&& after.len() == before.len()
    &&& forall|i: int|
        0 <= i < before.len() ==> (#[trigger] after[i]).is_moved(
            &before[i],
            before[i].pos_spec().translated(offset),
        )
}

/// Whether every element can be sent through the map from `src` onto
/// `dst` without leaving the canvas.
pub open spec fn elements_rescale_fit(elements: Seq<Element>, src: Aabb, dst: Aabb) -> bool {
    forall|i: int|
        0 <= i < elements.len() ==> (#[trigger] elements[i]).pos_spec().rescale_fits(src, dst)
}

/// Whether `after` holds the elements of `before`, in their order, each
/// sent through the map from `src` onto `dst` and with its pressure kept.
pub open spec fn elements_rescaled(
    after: Seq<Element>,
    before: Seq<Element>,
    src: Aabb,
    dst: Aabb,
) -> bool {
    &&& after.len() == before.len()
    &&& forall|i: int|
        0 <= i < before.len() ==> (#[trigger] after[i]).is_moved(
            &before[i],
            before[i].pos_spec().rescaled(src, dst),
        )
}

/// Whether the box `b` contains every element.
pub open spec fn elements_inside(elements: Seq<Element>, b: Aabb) -> bool {
    forall|i: int|
        0 <= i < elements.len() ==> b.contains_point_spec(&(#[trigger] elements[i]).pos_spec())
}

/// Elements inside a box can be sent onto every box without leaving the
/// canvas.
pub proof fn lemma_elements_rescale_fit(elements: Seq<Element>, src: Aabb, dst: Aabb)
    requires
        elements_inside(elements, src),
    ensures
        elements_rescale_fit(elements, src, dst),
{
    assert forall|i: int| 0 <= i < elements.len() implies (#[trigger] elements[i]).pos_spec().rescale_fits(
        src,
        dst,
    ) by {
        crate::geometry::lemma_rescaled_inside(elements[i].pos_spec(), src, dst);
    }
}

/// Elements that were shifted by `offset` can be shifted by `second`
/// exactly where the elements before can be shifted by the sum of the two.
pub proof fn lemma_elements_shift_twice(
    after: Seq<Element>,
    before: Seq<Element>,
    offset: Vec2,
    second: Vec2,
)
    requires
        elements_translated(after, before, offset),
        elements_translate_fit(before, offset),
        elements_translate_fit(after, second),
        offset.translate_fits(second),
    ensures
        elements_translate_fit(before, offset.translated(second)),
        forall|i: int|
            0 <= i < before.len() ==> {
                &&& (#[trigger] after[i]).pos_spec().x + second.x == before[i].pos_spec().x
                    + offset.translated(second).x
                &&& after[i].pos_spec().y + second.y == before[i].pos_spec().y + offset.translated(
                    second,
                ).y
                &&& after[i].pressure_spec() == before[i].pressure_spec()
            },
{
    assert forall|i: int| 0 <= i < before.len() implies {
        &&& (#[trigger] before[i]).pos_spec().translate_fits(offset.translated(second))
        &&& after[i].pos_spec().x + second.x == before[i].pos_spec().x + offset.translated(second).x
        &&& after[i].pos_spec().y + second.y == before[i].pos_spec().y + offset.translated(second).y
        &&& after[i].pressure_spec() == before[i].pressure_spec()
    } by {
        assert(before[i].pos_spec().translate_fits(offset));
        assert(after[i].pos_spec().translate_fits(second));
        assert(after[i].is_moved(&before[i], before[i].pos_spec().translated(offset)));
    }
}

pub fn can_translate_elements(elements: &Vec<Element>, offset: Vec2) -> (b: bool)
    ensures
        b == elements_translate_fit(elements@, offset),
{
    let mut i: usize = 0;
    while i < elements.len()
        invariant
            i <= elements.len(),
            forall|j: int| 0 <= j < i ==> (#[trigger] elements@[j]).pos_spec().translate_fits(offset),
        decreases elements.len() - i,
    {
        if !elements[i].inputdata.pos().can_translate(offset) {
            assert(!elements@[i as int].pos_spec().translate_fits(offset));
            return false;
        }
        i += 1;
    }
    true
}

pub fn translate_elements(elements: &mut Vec<Element>, offset: Vec2)
    requires
        elements_translate_fit(old(elements)@, offset),
    ensures
        elements_translated(final(elements)@, old(elements)@, offset),
{
    let mut i: usize = 0;
    while i < elements.len()
        invariant
            i <= elements.len(),
            elements@.len() == old(elements)@.len(),
            elements_translate_fit(old(elements)@, offset),
            forall|j: int|
                0 <= j < i ==> (#[trigger] elements@[j]).is_moved(
                    &old(elements)@[j],
                    old(elements)@[j].pos_spec().translated(offset),
                ),
            forall|j: int| i <= j < elements@.len() ==> elements@[j] == old(elements)@[j],
        decreases elements.len() - i,
    {
        let element: Element = elements[i];
        assert(old(elements)@[i as int].pos_spec().translate_fits(offset));
        let moved: Element = element.moved_to(element.inputdata.pos().translate(offset));
        elements.set(i, moved);
        i += 1;
    }
}

pub fn can_rescale_elements(elements: &Vec<Element>, src: &Aabb, dst: &Aabb) -> (b: bool)
    ensures
        b == elements_rescale_fit(elements@, *src, *dst),
{
    let mut i: usize = 0;
    while i < elements.len()
        invariant
            i <= elements.len(),
            forall|j: int|
                0 <= j < i ==> (#[trigger] elements@[j]).pos_spec().rescale_fits(*src, *dst),
        decreases elements.len() - i,
    {
        if !elements[i].inputdata.pos().can_rescale(src, dst) {
            assert(!elements@[i as int].pos_spec().rescale_fits(*src, *dst));
            return false;
        }
        i += 1;
    }
    true
}

pub fn rescale_elements(elements: &mut Vec<Element>, src: &Aabb, dst: &Aabb)
    requires
        elements_rescale_fit(old(elements)@, *src, *dst),
    ensures
        elements_rescaled(final(elements)@, old(elements)@, *src, *dst),
{
    let mut i: usize = 0;
    while i < elements.len()
        invariant
            i <= elements.len(),
            elements@.len() == old(elements)@.len(),
            elements_rescale_fit(old(elements)@, *src, *dst),
            forall|j: int|
                0 <= j < i ==> (#[trigger] elements@[j]).is_moved(
                    &old(elements)@[j],
                    old(elements)@[j].pos_spec().rescaled(*src, *dst),
                ),
            forall|j: int| i <= j < elements@.len() ==> elements@[j] == old(elements)@[j],
        decreases elements.len() - i,
    {
        let element: Element = elements[i];
        assert(old(elements)@[i as int].pos_spec().rescale_fits(*src, *dst));
        let moved: Element = element.moved_to(element.inputdata.pos().rescale(src, dst));
        elements.set(i, moved);
        i += 1;
    }
}

/// What a stroke is, mathematically, whatever it is made of.
///
/// A stroke owns content and a cached box. Its vector output is a sequence
/// of fragments: `fragment_count` says how many there are (`None` where
/// the content has no vector form), `payload_spec` the text of each and
/// `fragment_bounds_spec` the box of each when the stroke is drawn shifted
/// by an offset. All three are made from the content alone; the cached box
/// has no part in them.
pub trait StrokeModel: Sized {
    /// The cached box.
    spec fn bounds_spec(&self) -> Aabb;

    /// The number of fragments, or `None` where the content has no vector
    /// form.
    spec fn fragment_count(&self) -> Option<nat>;

    /// The text of fragment `index` when the stroke is drawn shifted by
    /// `offset`.
    spec fn payload_spec(&self, offset: Vec2, index: int) -> Seq<char>;

    /// The box of fragment `index` when the stroke is drawn shifted by
    /// `offset`.
    spec fn fragment_bounds_spec(&self, offset: Vec2, index: int) -> Aabb;

    /// Whether the boxes of all fragments are boxes of the canvas when the
    /// stroke is drawn shifted by `offset`.
    spec fn draw_fits(&self, offset: Vec2) -> bool;

    /// Whether content and cached box stay on the canvas when shifted by
    /// `offset`.
    spec fn translate_fits(&self, offset: Vec2) -> bool;

    /// Whether the content has an extent along both axes, so that it can
    /// be stretched to fill any box. Along an axis without extent there
    /// is no scale factor: resizing only moves the content there.
    spec fn can_fill(&self) -> bool;

    /// Whether `self` is `before` with `bounds` for its cached box and the
    /// content untouched.
    spec fn is_rebound_of(&self, before: Self, bounds: Aabb) -> bool;

    /// Whether `self` is `before` shifted by `offset`.
    spec fn is_translation_of(&self, before: Self, offset: Vec2) -> bool;

    /// Whether `self` is `before` with its content sent through the map
    /// from the box of the content onto `new_bounds`.
    spec fn is_resize_of(&self, before: Self, new_bounds: Aabb) -> bool;

    /// Every stroke can be drawn where it is.
    proof fn lemma_zero_offset_fits(&self)
        ensures
            self.translate_fits(Vec2::zero_spec()),
            self.draw_fits(Vec2::zero_spec()),
    ;

    /// The box of a fragment drawn at an offset is its box where the
    /// stroke is, shifted by the offset.
    proof fn lemma_fragment_shifts(&self, offset: Vec2)
        requires
            self.draw_fits(offset),
        ensures
            forall|index: int|
                self.fragment_count() is Some && 0 <= index < self.fragment_count()->Some_0 ==> {
                    &&& (#[trigger] self.fragment_bounds_spec(
                        Vec2::zero_spec(),
                        index,
                    )).translate_fits(offset)
                    &&& self.fragment_bounds_spec(offset, index) == self.fragment_bounds_spec(
                        Vec2::zero_spec(),
                        index,
                    ).translated(offset)
                },
    ;

    /// Overwriting the cached box changes nothing that is drawn: neither
    /// the number of fragments, nor their text, nor their boxes.
    proof fn lemma_rebound(&self, before: Self, bounds: Aabb)
        requires
            self.is_rebound_of(before, bounds),
        ensures
            self.bounds_spec() == bounds,
            self.fragment_count() == before.fragment_count(),
            forall|offset: Vec2| self.draw_fits(offset) == before.draw_fits(offset),
            forall|offset: Vec2, index: int|
                #![trigger self.payload_spec(offset, index)]
                #![trigger self.fragment_bounds_spec(offset, index)]
                self.payload_spec(offset, index) == before.payload_spec(offset, index)
                    && self.fragment_bounds_spec(offset, index) == before.fragment_bounds_spec(
                    offset,
                    index,
                ),
    ;

    /// The cached box of a shifted stroke is the shifted cached box of
    /// the stroke, and shifting neither adds nor removes a fragment.
    proof fn lemma_translation(&self, before: Self, offset: Vec2)
        requires
            self.is_translation_of(before, offset),
        ensures
            self.bounds_spec() == before.bounds_spec().translated(offset),
            self.fragment_count() == before.fragment_count(),
    ;

    /// Shifting is a pure shift of what is drawn: a stroke that was
    /// shifted by `offset` and is drawn at `second` has the text and the
    /// boxes of the stroke before, drawn at the sum of the two.
    proof fn lemma_translation_draws_shifted(&self, before: Self, offset: Vec2, second: Vec2)
        requires
            self.is_translation_of(before, offset),
            before.translate_fits(offset),
            self.translate_fits(second),
            offset.translate_fits(second),
        ensures
            self.draw_fits(second),
            before.draw_fits(offset.translated(second)),
            forall|index: int|
                self.fragment_count() is Some && 0 <= index < self.fragment_count()->Some_0 ==> {
                    &&& self.payload_spec(second, index) == before.payload_spec(
                        offset.translated(second),
                        index,
                    )
                    &&& self.fragment_bounds_spec(second, index) == before.fragment_bounds_spec(
                        offset.translated(second),
                        index,
                    )
                },
    ;

    /// The cached box of a resized stroke is the box that was asked for,
    /// resizing neither adds nor removes a fragment, and content with an
    /// extent along both axes fills a valid box exactly: the union of the
    /// boxes of its fragments is that box.
    proof fn lemma_resize(&self, before: Self, new_bounds: Aabb)
        requires
            self.is_resize_of(before, new_bounds),
        ensures
            self.bounds_spec() == new_bounds,
            self.fragment_count() == before.fragment_count(),
            before.can_fill() && new_bounds.is_valid_spec() && self.fragment_count() is Some
                && self.fragment_count()->Some_0 > 0 ==> merged_bounds(
                Seq::new(
                    self.fragment_count()->Some_0,
                    |i: int| self.fragment_bounds_spec(Vec2::zero_spec(), i),
                ),
                self.fragment_count()->Some_0,
            ) == new_bounds,
    ;
}

/// What every stroke can do, whatever it is made of.
pub trait StrokeBehaviour: StrokeModel {
    /// The cached box. Nothing is computed.
    fn bounds(&self) -> (bounds: Aabb)
        ensures
            bounds == self.bounds_spec(),
    ;

    /// Overwrites the cached box and leaves the content alone.
    fn set_bounds(&mut self, bounds: Aabb)
        ensures
            final(self).is_rebound_of(*old(self), bounds),
            final(self).bounds_spec() == bounds,
    ;

    /// Says whether the content has a vector form.
    fn has_vector_form(&self) -> (b: bool)
        ensures
            b == (self.fragment_count() is Some),
    ;

    fn can_draw(&self, offset: Vec2) -> (b: bool)
        ensures
            b == self.draw_fits(offset),
    ;

    fn can_translate(&self, offset: Vec2) -> (b: bool)
        ensures
            b == self.translate_fits(offset),
    ;

    /// Shifts the content and the cached box by `offset`.
    fn translate(&mut self, offset: Vec2)
        requires
            old(self).translate_fits(offset),
        ensures
            final(self).is_translation_of(*old(self), offset),
            final(self).bounds_spec() == old(self).bounds_spec().translated(offset),
    ;

    /// Sends the content through the map from the box of the content onto
    /// `new_bounds`, which becomes the cached box. Along an axis on which
    /// the content has no extent it is moved, not scaled. Every box can
    /// be asked for: the content never leaves the canvas.
    fn resize(&mut self, new_bounds: Aabb)
        ensures
            final(self).is_resize_of(*old(self), new_bounds),
            final(self).bounds_spec() == new_bounds,
    ;

    /// The fragments of the stroke drawn shifted by `offset`, or
    /// [`StrokeError::UnsupportedContent`] where the content has no vector
    /// form.
    fn gen_svgs(&self, offset: Vec2) -> (r: Result<Vec<Svg>, StrokeError>)
        requires
            self.draw_fits(offset),
        ensures
            svgs_result(self, offset, r),
    ;

    /// Says whether [`StrokeBehaviour::gen_bounds`] can be asked.
    fn can_gen_bounds(&self) -> (b: bool)
        ensures
            b == gen_bounds_fits(self),
    {
        proof {
            self.lemma_zero_offset_fits();
            if self.fragment_count() is Some {
                lemma_gen_bounds(self);
            }
        }
        match self.gen_svgs(Vec2::zero()) {
            Ok(svgs) => match merged_box(&svgs) {
                Some(merged) => merged.can_ceil(),
                None => true,
            },
            Err(_) => false,
        }
    }

    /// Computes the box anew from the content: the union of the boxes of
    /// the fragments of the stroke where it is, grown to the grid. There
    /// is none exactly for a stroke without fragments. A stroke without a
    /// vector form is not asked: its failure is reported by
    /// [`StrokeBehaviour::gen_svgs`], never as a missing box.
    fn gen_bounds(&self) -> (r: Option<Aabb>)
        requires
            gen_bounds_fits(self),
        ensures
            r == gen_bounds_spec(self),
            r is None <==> self.fragment_count() == Some(0nat),
    {
        proof {
            self.lemma_zero_offset_fits();
            lemma_gen_bounds(self);
        }
        match self.gen_svgs(Vec2::zero()) {
            Ok(svgs) => fragments_bounds(&svgs),
            Err(_) => None,
        }
    }

    /// The fragments of the stroke where it is, each wrapped into a
    /// standalone document that is placed at the cached box and looks at
    /// it: what a backend is given to rasterise.
    fn gen_wrapped_svgs(&self) -> (r: Result<Vec<Svg>, StrokeError>)
        ensures
            match r {
                Ok(svgs) => svgs_spec(self, Vec2::zero_spec()) is Some && svg_views(svgs@)
                    == wrapped_svgs_spec(
                    svgs_spec(self, Vec2::zero_spec())->Some_0,
                    self.bounds_spec(),
                ),
                Err(e) => svgs_spec(self, Vec2::zero_spec()) is None && e is UnsupportedContent,
            },
    {
        proof {
            self.lemma_zero_offset_fits();
        }
        match self.gen_svgs(Vec2::zero()) {
            Ok(svgs) => Ok(wrap_fragments(svgs, self.bounds())),
            Err(e) => Err(e),
        }
    }

    /// Rasterises the stroke at `zoom` thousandths of its natural size:
    /// hands the wrapped fragments and the cached box to `renderer` and
    /// passes on its answer. Fails with the stroke's own error where it
    /// has no vector form, and with the backend's otherwise.
    fn gen_image<R: Renderer>(&self, zoom: i32, renderer: &R) -> (r: Result<Image, StrokeError>)
        ensures
            svgs_spec(self, Vec2::zero_spec()) is None ==> r is Err && r->Err_0 is UnsupportedContent,
            svgs_spec(self, Vec2::zero_spec()) is Some ==> r is Ok || r->Err_0 is Backend,
    {
        match self.gen_wrapped_svgs() {
            Ok(svgs) => image_outcome(renderer.gen_image(zoom, &svgs, self.bounds())),
            Err(e) => Err(e),
        }
    }
}

/// The boxes of the fragments of `stroke` drawn shifted by `offset`, in
/// the order of the fragments.
pub open spec fn fragment_boxes<S: StrokeModel>(stroke: &S, offset: Vec2) -> Seq<Aabb> {
    match stroke.fragment_count() {
        Some(n) => Seq::new(n, |i: int| stroke.fragment_bounds_spec(offset, i)),
        None => Seq::<Aabb>::empty(),
    }
}

/// The fragments of `stroke` drawn shifted by `offset`: as many as it
/// counts, each with its text and its box.
pub open spec fn svgs_spec<S: StrokeModel>(stroke: &S, offset: Vec2) -> Option<Seq<SvgView>> {
    match stroke.fragment_count() {
        Some(n) => Some(
            Seq::new(
                n,
                |i: int|
                    SvgView {
                        data: stroke.payload_spec(offset, i),
                        bounds: stroke.fragment_bounds_spec(offset, i),
                    },
            ),
        ),
        None => None,
    }
}

/// Whether `r` is what drawing `stroke` shifted by `offset` returns.
pub open spec fn svgs_result<S: StrokeModel>(
    stroke: &S,
    offset: Vec2,
    r: Result<Vec<Svg>, StrokeError>,
) -> bool {
    match r {
        Ok(svgs) => svgs_spec(stroke, offset) == Some(svg_views(svgs@)),
        Err(e) => svgs_spec(stroke, offset) is None && e is UnsupportedContent,
    }
}

/// The boxes of a sequence of fragments, in their order.
pub open spec fn svg_boxes(svgs: Seq<SvgView>) -> Seq<Aabb> {
    Seq::new(svgs.len(), |i: int| svgs[i].bounds)
}

/// The union of the first `n` boxes, for `n` of at least one.
pub open spec fn merged_bounds(boxes: Seq<Aabb>, n: nat) -> Aabb
    decreases n,
{
    if n <= 1 {
        boxes[0]
    } else {
        merged_bounds(boxes, (n - 1) as nat).merged_spec(&boxes[n - 1])
    }
}

/// The box of a sequence of fragments: the union of their boxes grown to
/// the grid, and none for no fragments.
pub open spec fn fragments_bounds_spec(svgs: Seq<SvgView>) -> Option<Aabb> {
    if svgs.len() == 0 {
        None
    } else {
        Some(merged_bounds(svg_boxes(svgs), svgs.len()).ceiled())
    }
}

/// The union of the boxes of the fragments of `stroke` where it is, for a
/// stroke with at least one fragment.
pub open spec fn fragments_union<S: StrokeModel>(stroke: &S) -> Aabb {
    merged_bounds(fragment_boxes(stroke, Vec2::zero_spec()), fragment_boxes(stroke, Vec2::zero_spec()).len())
}

/// Whether the box of `stroke` can be computed anew: the stroke has a
/// vector form, and where it has fragments their union can be grown to
/// the grid.
pub open spec fn gen_bounds_fits<S: StrokeModel>(stroke: &S) -> bool {
    &&& stroke.fragment_count() is Some
    &&& stroke.fragment_count()->Some_0 > 0 ==> fragments_union(stroke).ceil_fits()
}

/// The box that a stroke with a vector form computes anew from its
/// content: the union of the boxes of its fragments grown to the grid,
/// and none without fragments.
pub open spec fn gen_bounds_spec<S: StrokeModel>(stroke: &S) -> Option<Aabb> {
    match stroke.fragment_count() {
        Some(n) => if n > 0 {
            Some(fragments_union(stroke).ceiled())
        } else {
            None
        },
        None => None,
    }
}

/// Whether the cached box of `stroke` is the box that it computes anew.
pub open spec fn bounds_in_step<S: StrokeModel>(stroke: &S) -> bool {
    gen_bounds_spec(stroke) == Some(stroke.bounds_spec())
}

/// The fragments of `svgs`, each wrapped into a standalone document that
/// is placed at `bounds` and looks at `bounds`.
pub open spec fn wrapped_svgs_spec(svgs: Seq<SvgView>, bounds: Aabb) -> Seq<SvgView> {
    Seq::new(
        svgs.len(),
        |i: int|
            SvgView {
                data: wrapped_text(svgs[i].data, Some(bounds), Some(bounds), true, false),
                bounds: svgs[i].bounds,
            },
    )
}

/// Computes the union of the boxes of a sequence of fragments, or `None`
/// for no fragments.
pub fn merged_box(svgs: &Vec<Svg>) -> (r: Option<Aabb>)
    ensures
        r is None <==> svgs@.len() == 0,
        r is Some ==> r->Some_0 == merged_bounds(svg_boxes(svg_views(svgs@)), svgs@.len()),
{
    if svgs.len() == 0 {
        return None;
    }
    let mut new_bounds: Aabb = svgs[0].bounds;
    let mut i: usize = 1;
    while i < svgs.len()
        invariant
            1 <= i <= svgs.len(),
            new_bounds == merged_bounds(svg_boxes(svg_views(svgs@)), i as nat),
        decreases svgs.len() - i,
    {
        new_bounds.merge(&svgs[i].bounds);
        i += 1;
    }
    Some(new_bounds)
}

/// Computes the box of a sequence of fragments.
pub fn fragments_bounds(svgs: &Vec<Svg>) -> (r: Option<Aabb>)
    requires
        svgs@.len() > 0 ==> merged_bounds(svg_boxes(svg_views(svgs@)), svgs@.len()).ceil_fits(),
    ensures
        r == fragments_bounds_spec(svg_views(svgs@)),
{
    match merged_box(svgs) {
        Some(merged) => Some(aabb_ceil(merged)),
        None => None,
    }
}

/// Wraps each fragment into a standalone document that is placed at
/// `bounds` and looks at `bounds`.
pub fn wrap_fragments(svgs: Vec<Svg>, bounds: Aabb) -> (r: Vec<Svg>)
    ensures
        svg_views(r@) == wrapped_svgs_spec(svg_views(svgs@), bounds),
{
    let mut wrapped: Vec<Svg> = Vec::new();
    let mut i: usize = 0;
    while i < svgs.len()
        invariant
            i <= svgs.len(),
            wrapped@.len() == i,
            forall|j: int|
                0 <= j < i ==> (#[trigger] wrapped@[j])@ == wrapped_svgs_spec(
                    svg_views(svgs@),
                    bounds,
                )[j],
        decreases svgs.len() - i,
    {
        let svg_data: String = wrap_svg(
            svgs[i].svg_data.as_str(),
            Some(bounds),
            Some(bounds),
            true,
            false,
        );
        wrapped.push(Svg { svg_data, bounds: svgs[i].bounds });
        i += 1;
    }
    assert(svg_views(wrapped@) =~= wrapped_svgs_spec(svg_views(svgs@), bounds));
    wrapped
}

/// The union of the first `n` boxes depends on those boxes alone.
pub proof fn lemma_merged_bounds_same(a: Seq<Aabb>, b: Seq<Aabb>, n: nat)
    requires
        1 <= n <= a.len(),
        n <= b.len(),
        forall|i: int| 0 <= i < n ==> a[i] == b[i],
    ensures
        merged_bounds(a, n) == merged_bounds(b, n),
    decreases n,
{
    if n > 1 {
        lemma_merged_bounds_same(a, b, (n - 1) as nat);
    }
}

/// The union contains each of the boxes it was made of, and it is valid
/// where they are.
pub proof fn lemma_merged_bounds_contains(boxes: Seq<Aabb>, n: nat, i: int)
    requires
        1 <= n <= boxes.len(),
        0 <= i < n,
    ensures
        merged_bounds(boxes, n).contains_spec(&boxes[i]),
        boxes[0].is_valid_spec() ==> merged_bounds(boxes, n).is_valid_spec(),
    decreases n,
{
    if n > 1 {
        lemma_merged_bounds_contains(boxes, (n - 1) as nat, 0);
        if i < n - 1 {
            lemma_merged_bounds_contains(boxes, (n - 1) as nat, i);
        }
    }
}

/// The box of two fragments does not depend on their order, a fragment
/// that comes twice counts once, and the box of three fragments does not
/// depend on which two are merged first.
pub proof fn lemma_fragments_bounds_merge_laws(f: SvgView, g: SvgView, h: SvgView)
    ensures
        fragments_bounds_spec(seq![f, g]) == fragments_bounds_spec(seq![g, f]),
        fragments_bounds_spec(seq![f, f]) == fragments_bounds_spec(seq![f]),
        fragments_bounds_spec(seq![f, g, h]) == Some(
            f.bounds.merged_spec(&g.bounds.merged_spec(&h.bounds)).ceiled(),
        ),
        fragments_bounds_spec(seq![f, g, h]) == Some(
            f.bounds.merged_spec(&g.bounds).merged_spec(&h.bounds).ceiled(),
        ),
{
    let fg = svg_boxes(seq![f, g]);
    let gf = svg_boxes(seq![g, f]);
    let ff = svg_boxes(seq![f, f]);
    let fgh = svg_boxes(seq![f, g, h]);
    assert(merged_bounds(fg, 1) == f.bounds);
    assert(merged_bounds(fg, 2) == f.bounds.merged_spec(&g.bounds));
    assert(merged_bounds(gf, 1) == g.bounds);
    assert(merged_bounds(gf, 2) == g.bounds.merged_spec(&f.bounds));
    assert(merged_bounds(ff, 1) == f.bounds);
    assert(merged_bounds(ff, 2) == f.bounds.merged_spec(&f.bounds));
    assert(merged_bounds(svg_boxes(seq![f]), 1) == f.bounds);
    assert(merged_bounds(fgh, 1) == f.bounds);
    assert(merged_bounds(fgh, 2) == f.bounds.merged_spec(&g.bounds));
    assert(merged_bounds(fgh, 3) == f.bounds.merged_spec(&g.bounds).merged_spec(&h.bounds));
    crate::geometry::lemma_merge_commutative(f.bounds, g.bounds);
    crate::geometry::lemma_merge_idempotent(f.bounds);
    crate::geometry::lemma_merge_associative(f.bounds, g.bounds, h.bounds);
}

/// The union of shifted boxes is the shifted union of the boxes.
pub proof fn lemma_merged_bounds_translated(
    boxes: Seq<Aabb>,
    shifted: Seq<Aabb>,
    n: nat,
    offset: Vec2,
)
    requires
        1 <= n <= boxes.len(),
        n <= shifted.len(),
        forall|i: int|
            0 <= i < n ==> (#[trigger] boxes[i]).translate_fits(offset) && shifted[i]
                == boxes[i].translated(offset),
    ensures
        merged_bounds(boxes, n).translate_fits(offset),
        merged_bounds(shifted, n) == merged_bounds(boxes, n).translated(offset),
    decreases n,
{
    assert(boxes[0].translate_fits(offset));
    if n > 1 {
        lemma_merged_bounds_translated(boxes, shifted, (n - 1) as nat, offset);
        assert(boxes[n - 1].translate_fits(offset));
    }
}

/// What a stroke computes anew is what its fragments give: the box of the
/// fragments that drawing it where it is returns.
pub proof fn lemma_gen_bounds<S: StrokeModel>(stroke: &S)
    requires
        stroke.fragment_count() is Some,
    ensures
        gen_bounds_spec(stroke) == fragments_bounds_spec(
            svgs_spec(stroke, Vec2::zero_spec())->Some_0,
        ),
        stroke.fragment_count()->Some_0 > 0 ==> fragments_union(stroke) == merged_bounds(
            svg_boxes(svgs_spec(stroke, Vec2::zero_spec())->Some_0),
            stroke.fragment_count()->Some_0,
        ),
        gen_bounds_spec(stroke) is None <==> stroke.fragment_count() == Some(0nat),
{
    let n = stroke.fragment_count()->Some_0;
    if n > 0 {
        let svgs = svgs_spec(stroke, Vec2::zero_spec())->Some_0;
        lemma_merged_bounds_same(fragment_boxes(stroke, Vec2::zero_spec()), svg_boxes(svgs), n);
    }
}

/// Drawing is reproducible: whatever two runs of drawing the same stroke
/// at the same offset return, they return the same fragments, text and
/// boxes alike, or both fail for want of a vector form.
pub proof fn lemma_fragments_reproducible<S: StrokeModel>(
    stroke: &S,
    offset: Vec2,
    first: Result<Vec<Svg>, StrokeError>,
    second: Result<Vec<Svg>, StrokeError>,
)
    requires
        svgs_result(stroke, offset, first),
        svgs_result(stroke, offset, second),
    ensures
        first is Ok <==> second is Ok,
        first is Ok ==> svg_views(first->Ok_0@) == svg_views(second->Ok_0@),
        first is Err ==> first->Err_0 is UnsupportedContent && second->Err_0 is UnsupportedContent,
{
}

/// A stroke without fragments has no box to compute, and it is the only
/// stroke with a vector form that has none.
pub proof fn lemma_empty_content_has_no_bounds<S: StrokeModel>(stroke: &S)
    requires
        stroke.fragment_count() is Some,
    ensures
        gen_bounds_spec(stroke) is None <==> stroke.fragment_count() == Some(0nat),
{
}

/// The box that a stroke computes anew lies on the grid, so that growing
/// it again changes nothing, and it contains the box of every fragment.
pub proof fn lemma_gen_bounds_covers<S: StrokeModel>(stroke: &S, index: int)
    requires
        gen_bounds_fits(stroke),
        0 <= index < stroke.fragment_count()->Some_0,
    ensures
        gen_bounds_spec(stroke) is Some,
        gen_bounds_spec(stroke)->Some_0.on_grid(),
        gen_bounds_spec(stroke)->Some_0.ceil_fits(),
        gen_bounds_spec(stroke)->Some_0.ceiled() == gen_bounds_spec(stroke)->Some_0,
        gen_bounds_spec(stroke)->Some_0.contains_spec(
            &stroke.fragment_bounds_spec(Vec2::zero_spec(), index),
        ),
{
    let boxes = fragment_boxes(stroke, Vec2::zero_spec());
    lemma_merged_bounds_contains(boxes, boxes.len(), index);
    crate::geometry::lemma_ceil_contains(fragments_union(stroke));
    crate::geometry::lemma_ceil_idempotent(fragments_union(stroke));
}

/// Overwriting the cached box changes neither the fragments nor the box
/// that the stroke computes anew.
pub proof fn lemma_rebound_keeps_fragments<S: StrokeModel>(
    after: &S,
    before: S,
    bounds: Aabb,
    offset: Vec2,
)
    requires
        after.is_rebound_of(before, bounds),
    ensures
        svgs_spec(after, offset) == svgs_spec(&before, offset),
        gen_bounds_spec(after) == gen_bounds_spec(&before),
        gen_bounds_fits(after) == gen_bounds_fits(&before),
{
    after.lemma_rebound(before, bounds);
    if after.fragment_count() is Some {
        assert(svgs_spec(after, offset)->Some_0 =~= svgs_spec(&before, offset)->Some_0);
        assert(fragment_boxes(after, Vec2::zero_spec()) =~= fragment_boxes(
            &before,
            Vec2::zero_spec(),
        ));
    }
}

/// Resizing is exact: a stroke with at least one fragment whose content
/// has an extent along both axes, resized to a valid box on the grid,
/// computes exactly that box anew, so that its cached box is in step.
pub proof fn lemma_resize_exact<S: StrokeModel>(after: &S, before: S, new_bounds: Aabb)
    requires
        after.is_resize_of(before, new_bounds),
        before.fragment_count() is Some,
        before.fragment_count()->Some_0 > 0,
        before.can_fill(),
        new_bounds.is_valid_spec(),
        new_bounds.on_grid(),
    ensures
        gen_bounds_fits(after),
        gen_bounds_spec(after) == Some(new_bounds),
        bounds_in_step(after),
{
    after.lemma_resize(before, new_bounds);
    crate::geometry::lemma_ceil_fixed_points(new_bounds);
    assert(fragment_boxes(after, Vec2::zero_spec()) =~= Seq::new(
        after.fragment_count()->Some_0,
        |i: int| after.fragment_bounds_spec(Vec2::zero_spec(), i),
    ));
}

/// Resizing to a valid box that is off the grid computes that box grown
/// to the grid.
pub proof fn lemma_resize_grown<S: StrokeModel>(after: &S, before: S, new_bounds: Aabb)
    requires
        after.is_resize_of(before, new_bounds),
        before.fragment_count() is Some,
        before.fragment_count()->Some_0 > 0,
        before.can_fill(),
        new_bounds.is_valid_spec(),
        new_bounds.ceil_fits(),
    ensures
        gen_bounds_fits(after),
        gen_bounds_spec(after) == Some(new_bounds.ceiled()),
{
    after.lemma_resize(before, new_bounds);
    assert(fragment_boxes(after, Vec2::zero_spec()) =~= Seq::new(
        after.fragment_count()->Some_0,
        |i: int| after.fragment_bounds_spec(Vec2::zero_spec(), i),
    ));
}

/// Shifting keeps the cached box and the box that is computed anew in
/// step: the box that a shifted stroke computes is the box that the stroke
/// computed before, shifted, for every shift by whole canvas units.
pub proof fn lemma_translate_gen_bounds<S: StrokeModel>(after: &S, before: S, offset: Vec2)
    requires
        after.is_translation_of(before, offset),
        before.translate_fits(offset),
        gen_bounds_fits(&before),
        before.fragment_count()->Some_0 > 0 ==> fragments_union(&before).is_valid_spec()
            && fragments_union(&before).ceiled().translate_fits(offset),
        offset.x % 1000 == 0,
        offset.y % 1000 == 0,
    ensures
        gen_bounds_fits(after),
        gen_bounds_spec(after) == match gen_bounds_spec(&before) {
            Some(b) => Some(b.translated(offset)),
            None => None,
        },
        bounds_in_step(&before) ==> bounds_in_step(after),
{
    after.lemma_translation(before, offset);
    let n = before.fragment_count()->Some_0;
    if n > 0 {
        let zero = Vec2::zero_spec();
        after.lemma_zero_offset_fits();
        after.lemma_translation_draws_shifted(before, offset, zero);
        assert(offset.translated(zero) == offset);
        before.lemma_fragment_shifts(offset);
        let boxes = fragment_boxes(&before, zero);
        let shifted = fragment_boxes(after, zero);
        assert forall|i: int| 0 <= i < n implies (#[trigger] boxes[i]).translate_fits(offset)
            && shifted[i] == boxes[i].translated(offset) by {
            assert(before.fragment_bounds_spec(zero, i).translate_fits(offset));
            assert(after.fragment_bounds_spec(zero, i) == before.fragment_bounds_spec(offset, i));
        }
        lemma_merged_bounds_translated(boxes, shifted, n, offset);
        crate::geometry::lemma_ceil_translate(fragments_union(&before), offset);
    }
}

/// A stroke of any kind: exactly one of the five. Whatever is asked of it
/// is asked of the stroke that it holds.
#[derive(Clone, Debug, PartialEq, Eq)]
pub enum StrokeStyle {
    MarkerStroke(MarkerStroke),
    BrushStroke(BrushStroke),
    ShapeStroke(ShapeStroke),
    VectorImage(VectorImage),
    BitmapImage(BitmapImage),
}

impl StrokeModel for StrokeStyle {
    open spec fn bounds_spec(&self) -> Aabb {
        match *self {
            StrokeStyle::MarkerStroke(s) => s.bounds_spec(),
            StrokeStyle::BrushStroke(s) => s.bounds_spec(),
            StrokeStyle::ShapeStroke(s) => s.bounds_spec(),
            StrokeStyle::VectorImage(s) => s.bounds_spec(),
            StrokeStyle::BitmapImage(s) => s.bounds_spec(),
        }
    }

    open spec fn fragment_count(&self) -> Option<nat> {
        match *self {
            StrokeStyle::MarkerStroke(s) => s.fragment_count(),
            StrokeStyle::BrushStroke(s) => s.fragment_count(),
            StrokeStyle::ShapeStroke(s) => s.fragment_count(),
            StrokeStyle::VectorImage(s) => s.fragment_count(),
            StrokeStyle::BitmapImage(s) => s.fragment_count(),
        }
    }

    open spec fn payload_spec(&self, offset: Vec2, index: int) -> Seq<char> {
        match *self {
            StrokeStyle::MarkerStroke(s) => s.payload_spec(offset, index),
            StrokeStyle::BrushStroke(s) => s.payload_spec(offset, index),
            StrokeStyle::ShapeStroke(s) => s.payload_spec(offset, index),
            StrokeStyle::VectorImage(s) => s.payload_spec(offset, index),
            StrokeStyle::BitmapImage(s) => s.payload_spec(offset, index),
        }
    }

    open spec fn fragment_bounds_spec(&self, offset: Vec2, index: int) -> Aabb {
        match *self {
            StrokeStyle::MarkerStroke(s) => s.fragment_bounds_spec(offset, index),
            StrokeStyle::BrushStroke(s) => s.fragment_bounds_spec(offset, index),
            StrokeStyle::ShapeStroke(s) => s.fragment_bounds_spec(offset, index),
            StrokeStyle::VectorImage(s) => s.fragment_bounds_spec(offset, index),
            StrokeStyle::BitmapImage(s) => s.fragment_bounds_spec(offset, index),
        }
    }

    open spec fn draw_fits(&self, offset: Vec2) -> bool {
        match *self {
            StrokeStyle::MarkerStroke(s) => s.draw_fits(offset),
            StrokeStyle::BrushStroke(s) => s.draw_fits(offset),
            StrokeStyle::ShapeStroke(s) => s.draw_fits(offset),
            StrokeStyle::VectorImage(s) => s.draw_fits(offset),
            StrokeStyle::BitmapImage(s) => s.draw_fits(offset),
        }
    }

    open spec fn translate_fits(&self, offset: Vec2) -> bool {
        match *self {
            StrokeStyle::MarkerStroke(s) => s.translate_fits(offset),
            StrokeStyle::BrushStroke(s) => s.translate_fits(offset),
            StrokeStyle::ShapeStroke(s) => s.translate_fits(offset),
            StrokeStyle::VectorImage(s) => s.translate_fits(offset),
            StrokeStyle::BitmapImage(s) => s.translate_fits(offset),
        }
    }

    open spec fn can_fill(&self) -> bool {
        match *self {
            StrokeStyle::MarkerStroke(s) => s.can_fill(),
            StrokeStyle::BrushStroke(s) => s.can_fill(),
            StrokeStyle::ShapeStroke(s) => s.can_fill(),
            StrokeStyle::VectorImage(s) => s.can_fill(),
            StrokeStyle::BitmapImage(s) => s.can_fill(),
        }
    }

    /// The same kind of stroke as before, with its box overwritten.
    open spec fn is_rebound_of(&self, before: Self, bounds: Aabb) -> bool {
        match (*self, before) {
            (StrokeStyle::MarkerStroke(a), StrokeStyle::MarkerStroke(b)) => a.is_rebound_of(b, bounds),
            (StrokeStyle::BrushStroke(a), StrokeStyle::BrushStroke(b)) => a.is_rebound_of(b, bounds),
            (StrokeStyle::ShapeStroke(a), StrokeStyle::ShapeStroke(b)) => a.is_rebound_of(b, bounds),
            (StrokeStyle::VectorImage(a), StrokeStyle::VectorImage(b)) => a.is_rebound_of(b, bounds),
            (StrokeStyle::BitmapImage(a), StrokeStyle::BitmapImage(b)) => a.is_rebound_of(b, bounds),
            _ => false,
        }
    }

    /// The same kind of stroke as before, shifted.
    open spec fn is_translation_of(&self, before: Self, offset: Vec2) -> bool {
        match (*self, before) {
            (StrokeStyle::MarkerStroke(a), StrokeStyle::MarkerStroke(b)) => a.is_translation_of(b, offset),
            (StrokeStyle::BrushStroke(a), StrokeStyle::BrushStroke(b)) => a.is_translation_of(b, offset),
            (StrokeStyle::ShapeStroke(a), StrokeStyle::ShapeStroke(b)) => a.is_translation_of(b, offset),
            (StrokeStyle::VectorImage(a), StrokeStyle::VectorImage(b)) => a.is_translation_of(b, offset),
            (StrokeStyle::BitmapImage(a), StrokeStyle::BitmapImage(b)) => a.is_translation_of(b, offset),
            _ => false,
        }
    }

    /// The same kind of stroke as before, resized.
    open spec fn is_resize_of(&self, before: Self, new_bounds: Aabb) -> bool {
        match (*self, before) {
            (StrokeStyle::MarkerStroke(a), StrokeStyle::MarkerStroke(b)) => a.is_resize_of(b, new_bounds),
            (StrokeStyle::BrushStroke(a), StrokeStyle::BrushStroke(b)) => a.is_resize_of(b, new_bounds),
            (StrokeStyle::ShapeStroke(a), StrokeStyle::ShapeStroke(b)) => a.is_resize_of(b, new_bounds),
            (StrokeStyle::VectorImage(a), StrokeStyle::VectorImage(b)) => a.is_resize_of(b, new_bounds),
            (StrokeStyle::BitmapImage(a), StrokeStyle::BitmapImage(b)) => a.is_resize_of(b, new_bounds),
            _ => false,
        }
    }

    proof fn lemma_zero_offset_fits(&self) {
        match *self {
            StrokeStyle::MarkerStroke(s) => s.lemma_zero_offset_fits(),
            StrokeStyle::BrushStroke(s) => s.lemma_zero_offset_fits(),
            StrokeStyle::ShapeStroke(s) => s.lemma_zero_offset_fits(),
            StrokeStyle::VectorImage(s) => s.lemma_zero_offset_fits(),
            StrokeStyle::BitmapImage(s) => s.lemma_zero_offset_fits(),
        }
    }

    proof fn lemma_fragment_shifts(&self, offset: Vec2) {
        match *self {
            StrokeStyle::MarkerStroke(s) => s.lemma_fragment_shifts(offset),
            StrokeStyle::BrushStroke(s) => s.lemma_fragment_shifts(offset),
            StrokeStyle::ShapeStroke(s) => s.lemma_fragment_shifts(offset),
            StrokeStyle::VectorImage(s) => s.lemma_fragment_shifts(offset),
            StrokeStyle::BitmapImage(s) => s.lemma_fragment_shifts(offset),
        }
    }

    proof fn lemma_rebound(&self, before: Self, bounds: Aabb) {
        match (*self, before) {
            (StrokeStyle::MarkerStroke(a), StrokeStyle::MarkerStroke(b)) => a.lemma_rebound(b, bounds),
            (StrokeStyle::BrushStroke(a), StrokeStyle::BrushStroke(b)) => a.lemma_rebound(b, bounds),
            (StrokeStyle::ShapeStroke(a), StrokeStyle::ShapeStroke(b)) => a.lemma_rebound(b, bounds),
            (StrokeStyle::VectorImage(a), StrokeStyle::VectorImage(b)) => a.lemma_rebound(b, bounds),
            (StrokeStyle::BitmapImage(a), StrokeStyle::BitmapImage(b)) => a.lemma_rebound(b, bounds),
            _ => {},
        }
    }

    proof fn lemma_translation(&self, before: Self, offset: Vec2) {
        match (*self, before) {
            (StrokeStyle::MarkerStroke(a), StrokeStyle::MarkerStroke(b)) => a.lemma_translation(b, offset),
            (StrokeStyle::BrushStroke(a), StrokeStyle::BrushStroke(b)) => a.lemma_translation(b, offset),
            (StrokeStyle::ShapeStroke(a), StrokeStyle::ShapeStroke(b)) => a.lemma_translation(b, offset),
            (StrokeStyle::VectorImage(a), StrokeStyle::VectorImage(b)) => a.lemma_translation(b, offset),
            (StrokeStyle::BitmapImage(a), StrokeStyle::BitmapImage(b)) => a.lemma_translation(b, offset),
            _ => {},
        }
    }

    proof fn lemma_translation_draws_shifted(&self, before: Self, offset: Vec2, second: Vec2) {
        match (*self, before) {
            (StrokeStyle::MarkerStroke(a), StrokeStyle::MarkerStroke(b)) => a.lemma_translation_draws_shifted(b, offset, second),
            (StrokeStyle::BrushStroke(a), StrokeStyle::BrushStroke(b)) => a.lemma_translation_draws_shifted(b, offset, second),
            (StrokeStyle::ShapeStroke(a), StrokeStyle::ShapeStroke(b)) => a.lemma_translation_draws_shifted(b, offset, second),
            (StrokeStyle::VectorImage(a), StrokeStyle::VectorImage(b)) => a.lemma_translation_draws_shifted(b, offset, second),
            (StrokeStyle::BitmapImage(a), StrokeStyle::BitmapImage(b)) => a.lemma_translation_draws_shifted(b, offset, second),
            _ => {},
        }
    }

    proof fn lemma_resize(&self, before: Self, new_bounds: Aabb) {
        match (*self, before) {
            (StrokeStyle::MarkerStroke(a), StrokeStyle::MarkerStroke(b)) => {
                a.lemma_resize(b, new_bounds);
                if a.fragment_count() is Some && a.fragment_count()->Some_0 > 0 {
                    assert(Seq::new(
                        self.fragment_count()->Some_0,
                        |i: int| self.fragment_bounds_spec(Vec2::zero_spec(), i),
                    ) =~= Seq::new(
                        a.fragment_count()->Some_0,
                        |i: int| a.fragment_bounds_spec(Vec2::zero_spec(), i),
                    ));
                }
            },
            (StrokeStyle::BrushStroke(a), StrokeStyle::BrushStroke(b)) => {
                a.lemma_resize(b, new_bounds);
                if a.fragment_count() is Some && a.fragment_count()->Some_0 > 0 {
                    assert(Seq::new(
                        self.fragment_count()->Some_0,
                        |i: int| self.fragment_bounds_spec(Vec2::zero_spec(), i),
                    ) =~= Seq::new(
                        a.fragment_count()->Some_0,
                        |i: int| a.fragment_bounds_spec(Vec2::zero_spec(), i),
                    ));
                }
            },
            (StrokeStyle::ShapeStroke(a), StrokeStyle::ShapeStroke(b)) => {
                a.lemma_resize(b, new_bounds);
                if a.fragment_count() is Some && a.fragment_count()->Some_0 > 0 {
                    assert(Seq::new(
                        self.fragment_count()->Some_0,
                        |i: int| self.fragment_bounds_spec(Vec2::zero_spec(), i),
                    ) =~= Seq::new(
                        a.fragment_count()->Some_0,
                        |i: int| a.fragment_bounds_spec(Vec2::zero_spec(), i),
                    ));
                }
            },
            (StrokeStyle::VectorImage(a), StrokeStyle::VectorImage(b)) => {
                a.lemma_resize(b, new_bounds);
                if a.fragment_count() is Some && a.fragment_count()->Some_0 > 0 {
                    assert(Seq::new(
                        self.fragment_count()->Some_0,
                        |i: int| self.fragment_bounds_spec(Vec2::zero_spec(), i),
                    ) =~= Seq::new(
                        a.fragment_count()->Some_0,
                        |i: int| a.fragment_bounds_spec(Vec2::zero_spec(), i),
                    ));
                }
            },
            (StrokeStyle::BitmapImage(a), StrokeStyle::BitmapImage(b)) => {
                a.lemma_resize(b, new_bounds);
                if a.fragment_count() is Some && a.fragment_count()->Some_0 > 0 {
                    assert(Seq::new(
                        self.fragment_count()->Some_0,
                        |i: int| self.fragment_bounds_spec(Vec2::zero_spec(), i),
                    ) =~= Seq::new(
                        a.fragment_count()->Some_0,
                        |i: int| a.fragment_bounds_spec(Vec2::zero_spec(), i),
                    ));
                }
            },
            _ => {},
        }
    }
}

impl StrokeBehaviour for StrokeStyle {
    fn bounds(&self) -> (bounds: Aabb) {
        match self {
            Self::MarkerStroke(markerstroke) => markerstroke.bounds(),
            Self::BrushStroke(brushstroke) => brushstroke.bounds(),
            Self::ShapeStroke(shapestroke) => shapestroke.bounds(),
            Self::VectorImage(vectorimage) => vectorimage.bounds(),
            Self::BitmapImage(bitmapimage) => bitmapimage.bounds(),
        }
    }

    fn set_bounds(&mut self, bounds: Aabb) {
        match self {
            Self::MarkerStroke(markerstroke) => markerstroke.set_bounds(bounds),
            Self::BrushStroke(brushstroke) => brushstroke.set_bounds(bounds),
            Self::ShapeStroke(shapestroke) => shapestroke.set_bounds(bounds),
            Self::VectorImage(vectorimage) => vectorimage.set_bounds(bounds),
            Self::BitmapImage(bitmapimage) => bitmapimage.set_bounds(bounds),
        }
    }

    fn has_vector_form(&self) -> (b: bool) {
        match self {
            Self::MarkerStroke(markerstroke) => markerstroke.has_vector_form(),
            Self::BrushStroke(brushstroke) => brushstroke.has_vector_form(),
            Self::ShapeStroke(shapestroke) => shapestroke.has_vector_form(),
            Self::VectorImage(vectorimage) => vectorimage.has_vector_form(),
            Self::BitmapImage(bitmapimage) => bitmapimage.has_vector_form(),
        }
    }

    fn can_draw(&self, offset: Vec2) -> (b: bool) {
        match self {
            Self::MarkerStroke(markerstroke) => markerstroke.can_draw(offset),
            Self::BrushStroke(brushstroke) => brushstroke.can_draw(offset),
            Self::ShapeStroke(shapestroke) => shapestroke.can_draw(offset),
            Self::VectorImage(vectorimage) => vectorimage.can_draw(offset),
            Self::BitmapImage(bitmapimage) => bitmapimage.can_draw(offset),
        }
    }

    fn can_translate(&self, offset: Vec2) -> (b: bool) {
        match self {
            Self::MarkerStroke(markerstroke) => markerstroke.can_translate(offset),
            Self::BrushStroke(brushstroke) => brushstroke.can_translate(offset),
            Self::ShapeStroke(shapestroke) => shapestroke.can_translate(offset),
            Self::VectorImage(vectorimage) => vectorimage.can_translate(offset),
            Self::BitmapImage(bitmapimage) => bitmapimage.can_translate(offset),
        }
    }

    fn translate(&mut self, offset: Vec2) {
        match self {
            Self::MarkerStroke(markerstroke) => {
                markerstroke.translate(offset);
            },
            Self::BrushStroke(brushstroke) => {
                brushstroke.translate(offset);
            },
            Self::ShapeStroke(shapestroke) => {
                shapestroke.translate(offset);
            },
            Self::VectorImage(vectorimage) => {
                vectorimage.translate(offset);
            },
            Self::BitmapImage(bitmapimage) => {
                bitmapimage.translate(offset);
            },
        }
    }

    fn resize(&mut self, new_bounds: Aabb) {
        match self {
            Self::MarkerStroke(markerstroke) => {
                markerstroke.resize(new_bounds);
            },
            Self::BrushStroke(brushstroke) => {
                brushstroke.resize(new_bounds);
            },
            Self::ShapeStroke(shapestroke) => {
                shapestroke.resize(new_bounds);
            },
            Self::VectorImage(vectorimage) => {
                vectorimage.resize(new_bounds);
            },
            Self::BitmapImage(bitmapimage) => {
                bitmapimage.resize(new_bounds);
            },
        }
    }

    fn gen_svgs(&self, offset: Vec2) -> (r: Result<Vec<Svg>, StrokeError>) {
        let r: Result<Vec<Svg>, StrokeError> = match self {
            Self::MarkerStroke(markerstroke) => markerstroke.gen_svgs(offset),
            Self::BrushStroke(brushstroke) => brushstroke.gen_svgs(offset),
            Self::ShapeStroke(shapestroke) => shapestroke.gen_svgs(offset),
            Self::VectorImage(vectorimage) => vectorimage.gen_svgs(offset),
            Self::BitmapImage(bitmapimage) => bitmapimage.gen_svgs(offset),
        };
        proof {
            if r is Ok {
                assert(svgs_spec(self, offset)->Some_0 =~= svg_views(r->Ok_0@));
            }
        }
        r
    }
}

impl Default for StrokeStyle {
    /// The empty marker stroke, as [`MarkerStroke::default`] makes it.
    fn default() -> (stroke: StrokeStyle)
        ensures
            stroke is MarkerStroke,
            stroke->MarkerStroke_0.elements@.len() == 0,
            stroke->MarkerStroke_0.width == 2000,
            stroke->MarkerStroke_0.color == Color::black_spec(),
            stroke->MarkerStroke_0.bounds == Aabb::point_spec(Vec2::zero_spec()),
            stroke.fragment_count() == Some(0nat),
    {
        Self::MarkerStroke(MarkerStroke::default())
    }
}

} // verus!
