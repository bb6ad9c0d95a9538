//! The bitmap image: an encoded picture that is shown inside a rectangle.

use crate::compose::{placement_text, push_placement};
use crate::geometry::{aabb_ceil, aabb_translate, lemma_translate_compose, Aabb, Vec2};
use crate::render::{svg_views, StrokeError, Svg};
use crate::strokes::strokestyle::{
    bounds_in_step, fragment_boxes, svgs_spec, StrokeBehaviour, StrokeModel,
};
use crate::strokes::vectorimage::placement_spec;
use vstd::prelude::*;
use vstd::string::StringSliceAdditionalSpecFns;

verus! {

/// How the picture of a bitmap image is encoded.
#[derive(Clone, Copy, Debug, PartialEq, Eq, Structural)]
pub enum ImageFormat {
    Png,
    Jpeg,
}

/// An embedded picture: its encoded bytes as base64 text, their format,
/// the size of the picture, the rectangle in which it is shown, and the
/// cached box.
#[derive(Clone, Debug, PartialEq, Eq)]
pub struct BitmapImage {
    pub data_base64: String,
    pub format: ImageFormat,
    pub intrinsic_size: Vec2,
    pub rectangle: Aabb,
    pub bounds: Aabb,
}

/// Whether `c` is a character of base64 text: a letter, a digit, `+`, `/`
/// or the padding `=`.
pub open spec fn is_base64_char(c: char) -> bool {
    ||| 'A' <= c <= 'Z'
    ||| 'a' <= c <= 'z'
    ||| '0' <= c <= '9'
    ||| c == '+'
    ||| c == '/'
    ||| c == '='
}

/// Whether `text` is made of base64 characters alone.
pub open spec fn is_base64_text(text: Seq<char>) -> bool {
    forall|i: int| 0 <= i < text.len() ==> is_base64_char(#[trigger] text[i])
}

/// The name of a format in a media type.
pub open spec fn format_text(format: ImageFormat) -> Seq<char> {
    match format {
        ImageFormat::Png => "png"@,
        ImageFormat::Jpeg => "jpeg"@,
    }
}

/// The text of a picture shown in the box `b`: an image element that is
/// placed at `b` and carries the picture in a data address.
pub open spec fn image_text(data: Seq<char>, format: ImageFormat, b: Aabb) -> Seq<char> {
    "<image"@ + placement_text(b) + " preserveAspectRatio=\"none\" href=\"data:image/"@
        + format_text(format) + ";base64,"@ + data + "\"/>"@
}

/// Says whether `text` is made of base64 characters alone.
pub fn check_base64_text(text: &str) -> (ok: bool)
    ensures
        ok == is_base64_text(text@),
{
    if !text.is_ascii() {
        assert(!is_base64_text(text@)) by {
            if is_base64_text(text@) {
                assert forall|i: int| 0 <= i < text@.len() implies '\0' <= #[trigger] text@[i]
                    <= '\u{7f}' by {
                    assert(is_base64_char(text@[i]));
                }
                assert(vstd::utf8::is_ascii_chars(text@));
            }
        }
        return false;
    }
    let n: usize = text.as_bytes().len();
    proof {
        vstd::string::is_ascii_spec_bytes(text);
        assert(vstd::string::is_ascii(text));
        assert(text.spec_bytes() =~= Seq::new(text@.len(), |i: int| text@.index(i) as u8));
        assert(text.spec_bytes().len() == text@.len());
    }
    let mut i: usize = 0;
    while i < n
        invariant
            i <= n,
            n == text@.len(),
            text.is_ascii(),
            forall|j: int| 0 <= j < i ==> is_base64_char(#[trigger] text@[j]),
        decreases n - i,
    {
        let b: u8 = text.get_ascii(i);
        let ok: bool = (65 <= b && b <= 90) || (97 <= b && b <= 122) || (48 <= b && b <= 57) || b
            == 43 || b == 47 || b == 61;
        proof {
            let c = text@[i as int];
            assert('\0' <= c <= '\u{7f}');
            assert(c as u8 == b);
            assert(ok == is_base64_char(c));
        }
        if !ok {
            return false;
        }
        i += 1;
    }
    true
}

impl BitmapImage {
    /// A picture shown in its own size with its corner at `pos`, with
    /// that rectangle grown to the grid for its cached box, or `None`
    /// where either would leave the canvas.
    pub fn new(data_base64: String, format: ImageFormat, intrinsic_size: Vec2, pos: Vec2) -> (r: Option<BitmapImage>)
        ensures
            r is Some <==> pos.translate_fits(intrinsic_size) && placement_spec(
                pos,
                intrinsic_size,
            ).ceil_fits(),
            r is Some ==> {
                &&& r->Some_0.data_base64@ == data_base64@
                &&& r->Some_0.format == format
                &&& r->Some_0.intrinsic_size == intrinsic_size
                &&& r->Some_0.rectangle == placement_spec(pos, intrinsic_size)
                &&& r->Some_0.bounds == placement_spec(pos, intrinsic_size).ceiled()
                &&& r->Some_0.fragment_count() is Some && r->Some_0.fragment_count()->Some_0 > 0
                    ==> bounds_in_step(&r->Some_0)
            },
    {
        if !pos.can_translate(intrinsic_size) {
            return None;
        }
        let rectangle: Aabb = Aabb::new(pos, pos.translate(intrinsic_size));
        if !rectangle.can_ceil() {
            return None;
        }
        let bounds: Aabb = aabb_ceil(rectangle);
        let made = BitmapImage { data_base64, format, intrinsic_size, rectangle, bounds };
        proof {
            if made.fragment_count() is Some && made.fragment_count()->Some_0 > 0 {
                assert(fragment_boxes(&made, Vec2::zero_spec())[0] == rectangle);
            }
        }
        Some(made)
    }
}

impl StrokeModel for BitmapImage {
    open spec fn bounds_spec(&self) -> Aabb {
        self.bounds
    }

    /// No fragment for an empty picture, one for a picture in base64 text,
    /// and no vector form for anything else.
    open spec fn fragment_count(&self) -> Option<nat> {
        if self.data_base64@.len() == 0 {
            Some(0nat)
        } else if is_base64_text(self.data_base64@) {
            Some(1nat)
        } else {
            None
        }
    }

    open spec fn payload_spec(&self, offset: Vec2, index: int) -> Seq<char> {
        image_text(self.data_base64@, self.format, self.rectangle.translated(offset))
    }

    /// The rectangle in which the picture is shown, shifted.
    open spec fn fragment_bounds_spec(&self, offset: Vec2, index: int) -> Aabb {
        self.rectangle.translated(offset)
    }

    open spec fn draw_fits(&self, offset: Vec2) -> bool {
        self.rectangle.translate_fits(offset)
    }

    open spec fn translate_fits(&self, offset: Vec2) -> bool {
        self.rectangle.translate_fits(offset) && self.bounds.translate_fits(offset)
    }

    /// A picture is stretched over whatever rectangle it is given.
    open spec fn can_fill(&self) -> bool {
        true
    }

    open spec fn is_rebound_of(&self, before: Self, bounds: Aabb) -> bool {
        &&& self.data_base64@ == before.data_base64@
        &&& self.format == before.format
        &&& self.intrinsic_size == before.intrinsic_size
        &&& self.rectangle == before.rectangle
        &&& self.bounds == bounds
    }

    open spec fn is_translation_of(&self, before: Self, offset: Vec2) -> bool {
        &&& self.data_base64@ == before.data_base64@
        &&& self.format == before.format
        &&& self.intrinsic_size == before.intrinsic_size
        &&& self.rectangle == before.rectangle.translated(offset)
        &&& self.bounds == before.bounds.translated(offset)
    }

    open spec fn is_resize_of(&self, before: Self, new_bounds: Aabb) -> bool {
        &&& self.data_base64@ == before.data_base64@
        &&& self.format == before.format
        &&& self.intrinsic_size == before.intrinsic_size
        &&& self.rectangle == new_bounds
        &&& self.bounds == new_bounds
    }

    proof fn lemma_zero_offset_fits(&self) {
    }

    proof fn lemma_fragment_shifts(&self, offset: Vec2) {
    }

    proof fn lemma_rebound(&self, before: Self, bounds: Aabb) {
    }

    proof fn lemma_translation(&self, before: Self, offset: Vec2) {
    }

    proof fn lemma_translation_draws_shifted(&self, before: Self, offset: Vec2, second: Vec2) {
        lemma_translate_compose(before.rectangle, offset, second);
    }

    proof fn lemma_resize(&self, before: Self, new_bounds: Aabb) {
        if self.fragment_count() is Some && self.fragment_count()->Some_0 > 0 {
            let boxes = Seq::new(1nat, |i: int| self.fragment_bounds_spec(Vec2::zero_spec(), i));
            assert(boxes[0] == new_bounds);
        }
    }
}

impl StrokeBehaviour for BitmapImage {
    fn bounds(&self) -> (bounds: Aabb) {
        self.bounds
    }

    fn set_bounds(&mut self, bounds: Aabb) {
        self.bounds = bounds;
    }

    fn can_draw(&self, offset: Vec2) -> (b: bool) {
        self.rectangle.can_translate(offset)
    }

    fn can_translate(&self, offset: Vec2) -> (b: bool) {
        self.rectangle.can_translate(offset) && self.bounds.can_translate(offset)
    }

    fn translate(&mut self, offset: Vec2) {
        self.rectangle = aabb_translate(self.rectangle, offset);
        self.bounds = aabb_translate(self.bounds, offset);
    }

    fn resize(&mut self, new_bounds: Aabb) {
        self.rectangle = new_bounds;
        self.bounds = new_bounds;
    }

    fn has_vector_form(&self) -> (b: bool) {
        self.data_base64.as_str().is_empty() || check_base64_text(self.data_base64.as_str())
    }

    fn gen_svgs(&self, offset: Vec2) -> (r: Result<Vec<Svg>, StrokeError>) {
        let mut svgs: Vec<Svg> = Vec::new();
        if self.data_base64.as_str().is_empty() {
            assert(svgs_spec(self, offset)->Some_0 =~= svg_views(svgs@));
            return Ok(svgs);
        }
        if !check_base64_text(self.data_base64.as_str()) {
            return Err(StrokeError::UnsupportedContent);
        }
        let bounds: Aabb = aabb_translate(self.rectangle, offset);
        let mut data: String = String::new();
        data.append("<image");
        push_placement(&mut data, &bounds);
        data.append(" preserveAspectRatio=\"none\" href=\"data:image/");
        match self.format {
            ImageFormat::Png => data.append("png"),
            ImageFormat::Jpeg => data.append("jpeg"),
        }
        data.append(";base64,");
        data.append(self.data_base64.as_str());
        data.append("\"/>");
        assert(data@ =~= image_text(self.data_base64@, self.format, bounds));
        svgs.push(Svg { svg_data: data, bounds });
        assert(svgs_spec(self, offset)->Some_0 =~= svg_views(svgs@));
        Ok(svgs)
    }
}

} // verus!
