//! What passes between a stroke and the backend that rasterises it.

use crate::geometry::Aabb;
use vstd::prelude::*;

verus! {

/// One self-contained piece of vector output: its text and the box that
/// it occupies on the canvas.
#[derive(Clone, Debug, PartialEq, Eq)]
pub struct Svg {
    pub svg_data: String,
    pub bounds: Aabb,
}

/// The mathematical content of an [`Svg`].
pub struct SvgView {
    pub data: Seq<char>,
    pub bounds: Aabb,
}

impl View for Svg {
    type V = SvgView;

    open spec fn view(&self) -> SvgView {
        SvgView { data: self.svg_data@, bounds: self.bounds }
    }
}

/// The contents of a sequence of fragments, in order.
pub open spec fn svg_views(svgs: Seq<Svg>) -> Seq<SvgView> {
    Seq::new(svgs.len(), |i: int| svgs[i]@)
}

/// A raster image as a backend hands it back.
#[derive(Clone, Debug, PartialEq, Eq)]
pub struct Image {
    pub data: Vec<u8>,
    pub bounds: Aabb,
    pub pixel_width: u32,
    pub pixel_height: u32,
}

/// Why a stroke could not be drawn.
#[derive(Clone, Debug, PartialEq, Eq)]
pub enum StrokeError {
    /// The stroke holds content that has no vector form.
    UnsupportedContent,
    /// The backend could not rasterise the fragments it was given; the
    /// text is the backend's own.
    Backend(String),
}

/// A rendering backend. Nothing is promised of what it returns: a stroke
/// hands it fragments and passes on whatever comes back.
pub trait Renderer {
    /// Rasterises `svgs`, which all lie in `bounds`, at `zoom` thousandths
    /// of the natural size.
    fn gen_image(&self, zoom: i32, svgs: &Vec<Svg>, bounds: Aabb) -> Result<Image, String>;
}

/// What a stroke reports for a backend's answer: the image as it came, or
/// the backend's message as a [`StrokeError::Backend`].
pub open spec fn image_outcome_spec(answer: Result<Image, String>) -> Result<Image, StrokeError> {
    match answer {
        Ok(image) => Ok(image),
        Err(message) => Err(StrokeError::Backend(message)),
    }
}

#[verifier::when_used_as_spec(image_outcome_spec)]
pub fn image_outcome(answer: Result<Image, String>) -> (r: Result<Image, StrokeError>)
    ensures
        r == image_outcome_spec(answer),
{
    match answer {
        Ok(image) => Ok(image),
        Err(message) => Err(StrokeError::Backend(message)),
    }
}

} // verus!
