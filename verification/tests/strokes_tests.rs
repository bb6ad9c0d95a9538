use inkcore::color::Color;
use inkcore::geometry::{Aabb, Vec2};
use inkcore::render::{Image, Renderer, StrokeError, Svg};
use inkcore::strokes::bitmapimage::{check_base64_text, BitmapImage, ImageFormat};
use inkcore::strokes::brushstroke::{segment_data, BrushStroke};
use inkcore::strokes::content::{content_bounds, elements_hull};
use inkcore::strokes::markerstroke::MarkerStroke;
use inkcore::strokes::shapestroke::{shape_data, ShapeKind, ShapeStroke};
use inkcore::strokes::strokestyle::{
    can_rescale_elements, can_translate_elements, fragments_bounds, merged_box,
    rescale_elements, translate_elements, wrap_fragments, Element, InputData, RawSample,
    StrokeBehaviour, StrokeStyle,
};
use inkcore::strokes::vectorimage::VectorImage;
use rand::rngs::StdRng;
use rand::SeedableRng;
use std::cell::RefCell;

fn boxed(x0: i32, y0: i32, x1: i32, y1: i32) -> Aabb {
    Aabb::new(Vec2::new(x0, y0), Vec2::new(x1, y1))
}

fn element(x: i32, y: i32, pressure: i32) -> Element {
    Element::new(InputData::new(Vec2::new(x, y), pressure))
}

fn corner_elements() -> Vec<Element> {
    vec![element(0, 0, 500), element(10000, 0, 500), element(10000, 10000, 500)]
}

fn corner_marker() -> MarkerStroke {
    MarkerStroke::new(corner_elements(), 2000, Color::black()).unwrap()
}

/// A backend that keeps what it was given and answers as it was told.
struct Recorder {
    fail_with: Option<String>,
    seen: RefCell<Vec<(i32, Vec<Svg>, Aabb)>>,
}

impl Recorder {
    fn new(fail_with: Option<&str>) -> Recorder {
        Recorder { fail_with: fail_with.map(|m| m.to_string()), seen: RefCell::new(Vec::new()) }
    }
}

impl Renderer for Recorder {
    fn gen_image(&self, zoom: i32, svgs: &Vec<Svg>, bounds: Aabb) -> Result<Image, String> {
        self.seen.borrow_mut().push((zoom, svgs.clone(), bounds));
        match &self.fail_with {
            Some(message) => Err(message.clone()),
            None => Ok(Image {
                data: vec![svgs.len() as u8],
                bounds,
                pixel_width: (bounds.width() * zoom as i64 / 1_000_000) as u32,
                pixel_height: (bounds.height() * zoom as i64 / 1_000_000) as u32,
            }),
        }
    }
}

#[test]
fn pressure_is_clamped_on_construction() {
    assert_eq!(InputData::new(Vec2::zero(), -300).pressure(), 0);
    assert_eq!(InputData::new(Vec2::zero(), 1700).pressure(), 1000);
    assert_eq!(InputData::new(Vec2::zero(), 500).pressure(), 500);
    assert_eq!(InputData::new(Vec2::zero(), 0).pressure(), 0);
    assert_eq!(InputData::new(Vec2::zero(), 1000).pressure(), 1000);
}

#[test]
fn pressure_is_clamped_by_the_setter() {
    let mut data = InputData::new(Vec2::new(3, 4), 200);
    data.set_pressure(i32::MAX);
    assert_eq!(data.pressure(), 1000);
    assert_eq!(data.pos(), Vec2::new(3, 4));
    data.set_pressure(i32::MIN);
    assert_eq!(data.pressure(), 0);
    data.set_pressure(731);
    assert_eq!(data.pressure(), 731);
}

#[test]
fn set_pos_keeps_the_pressure() {
    let mut data = InputData::new(Vec2::new(3, 4), 200);
    data.set_pos(Vec2::new(-9, 8));
    assert_eq!(data.pos(), Vec2::new(-9, 8));
    assert_eq!(data.pressure(), 200);
}

#[test]
fn default_sample_is_at_the_origin_with_half_pressure() {
    let data = InputData::default();
    assert_eq!(data.pos(), Vec2::zero());
    assert_eq!(data.pressure(), 500);
    assert_eq!(InputData::PRESSURE_DEFAULT, 500);
    assert_eq!(InputData::PRESSURE_MAX, 1000);
    assert_eq!(Element::default().inputdata, data);
}

#[test]
fn element_holds_its_sample() {
    let data = InputData::new(Vec2::new(1, 2), 3);
    let e = Element::new(data);
    assert_eq!(e.inputdata, data);
    let moved = e.moved_to(Vec2::new(7, 8));
    assert_eq!(moved.inputdata.pos(), Vec2::new(7, 8));
    assert_eq!(moved.inputdata.pressure(), 3);
}

#[test]
fn marker_stroke_end_to_end() {
    let mut stroke = corner_marker();
    assert!(stroke.can_gen_bounds());
    let first = stroke.gen_bounds().unwrap();
    assert!(first.contains(&boxed(0, 0, 10000, 10000)));
    assert_eq!(first, boxed(0, 0, 10000, 10000));
    assert_eq!(stroke.bounds(), first);

    assert!(stroke.can_translate(Vec2::new(5000, 5000)));
    stroke.translate(Vec2::new(5000, 5000));
    assert_eq!(stroke.bounds(), boxed(5000, 5000, 15000, 15000));
    assert_eq!(stroke.gen_bounds(), Some(stroke.bounds()));

    let target = boxed(0, 0, 20000, 20000);
    stroke.resize(target);
    assert_eq!(stroke.gen_bounds(), Some(target));
    assert_eq!(stroke.bounds(), target);
}

#[test]
fn translate_moves_content_and_keeps_pressure_and_order() {
    let mut stroke = MarkerStroke::new(
        vec![element(0, 0, 100), element(10, 0, 200), element(10, 10, 300)],
        2000,
        Color::black(),
    )
    .unwrap();
    stroke.translate(Vec2::new(-5, 7));
    assert_eq!(
        stroke.elements,
        vec![element(-5, 7, 100), element(5, 7, 200), element(5, 17, 300)]
    );
    assert_eq!(stroke.width, 2000);
}

#[test]
fn translation_invariance_for_every_kind() {
    let offset = Vec2::new(3000, -4000);
    let strokes = vec![
        StrokeStyle::MarkerStroke(corner_marker()),
        StrokeStyle::BrushStroke(BrushStroke::new(corner_elements(), 6000, Color::black()).unwrap()),
        StrokeStyle::ShapeStroke(
            ShapeStroke::new(
                ShapeKind::Ellipse,
                Vec2::new(0, 0),
                Vec2::new(500, 700),
                2000,
                Color::black(),
            )
            .unwrap(),
        ),
        StrokeStyle::VectorImage(
            VectorImage::new("<g/>".to_string(), Vec2::new(100, 100), Vec2::new(5, 5)).unwrap(),
        ),
        StrokeStyle::BitmapImage(
            BitmapImage::new("QUJD".to_string(), ImageFormat::Png, Vec2::new(64, 64), Vec2::zero())
                .unwrap(),
        ),
    ];
    for mut stroke in strokes {
        let before = stroke.bounds();
        assert!(stroke.can_translate(offset));
        stroke.translate(offset);
        assert_eq!(stroke.bounds(), inkcore::geometry::aabb_translate(before, offset));
    }
}

#[test]
fn resize_is_exact_for_every_kind() {
    let target = boxed(-3000, 2000, 7000, 4000);
    let strokes = vec![
        StrokeStyle::MarkerStroke(corner_marker()),
        StrokeStyle::BrushStroke(BrushStroke::new(corner_elements(), 6000, Color::black()).unwrap()),
        StrokeStyle::ShapeStroke(
            ShapeStroke::new(
                ShapeKind::Line,
                Vec2::new(0, 0),
                Vec2::new(500, 700),
                2000,
                Color::black(),
            )
            .unwrap(),
        ),
        StrokeStyle::VectorImage(
            VectorImage::new("<g/>".to_string(), Vec2::new(100, 100), Vec2::new(5, 5)).unwrap(),
        ),
        StrokeStyle::BitmapImage(
            BitmapImage::new("QUJD".to_string(), ImageFormat::Jpeg, Vec2::new(64, 64), Vec2::zero())
                .unwrap(),
        ),
    ];
    for mut stroke in strokes {
        stroke.resize(target);
        assert_eq!(stroke.bounds(), target);
        assert!(stroke.can_gen_bounds());
        assert_eq!(stroke.gen_bounds(), Some(target));
    }
}

#[test]
fn resize_to_a_box_off_the_grid_computes_the_grown_box() {
    let mut stroke = corner_marker();
    stroke.resize(boxed(0, 0, 500, 500));
    assert_eq!(stroke.bounds(), boxed(0, 0, 500, 500));
    assert_eq!(stroke.gen_bounds(), Some(boxed(0, 0, 1000, 1000)));
}

#[test]
fn resize_scales_the_elements() {
    let mut stroke = corner_marker();
    stroke.resize(boxed(1000, 0, 4000, 20000));
    assert_eq!(
        stroke.elements,
        vec![element(1000, 0, 500), element(4000, 0, 500), element(4000, 20000, 500)]
    );
    let mut inner = MarkerStroke::new(
        vec![element(0, 0, 1), element(3, 9, 2), element(1, 3, 3), element(2, 6, 4)],
        2000,
        Color::black(),
    )
    .unwrap();
    inner.resize(boxed(0, 0, 10, 10));
    assert_eq!(
        inner.elements,
        vec![element(0, 0, 1), element(10, 10, 2), element(3, 3, 3), element(6, 6, 4)]
    );
}

#[test]
fn resize_to_a_box_without_extent_collapses_the_content() {
    let mut stroke = corner_marker();
    let target = boxed(4000, 0, 4000, 12000);
    stroke.resize(target);
    assert_eq!(stroke.bounds(), target);
    assert_eq!(
        stroke.elements,
        vec![element(4000, 0, 500), element(4000, 0, 500), element(4000, 12000, 500)]
    );
    assert_eq!(stroke.gen_bounds(), Some(target));
}

#[test]
fn resize_from_a_box_without_extent_only_shifts() {
    let mut stroke =
        MarkerStroke::new(vec![element(0, 500, 500), element(10000, 500, 500)], 2000, Color::black())
            .unwrap();
    let target = boxed(1000, 0, 9000, 20000);
    stroke.resize(target);
    assert_eq!(stroke.elements, vec![element(1000, 0, 500), element(9000, 0, 500)]);
    assert_eq!(stroke.bounds(), target);
    // the content has no height to stretch, so it does not fill the box
    assert_eq!(stroke.gen_bounds(), Some(boxed(1000, 0, 9000, 0)));
}

#[test]
fn set_bounds_leaves_the_content_alone() {
    let strokes = vec![
        StrokeStyle::MarkerStroke(corner_marker()),
        StrokeStyle::BrushStroke(BrushStroke::new(corner_elements(), 6000, Color::black()).unwrap()),
        StrokeStyle::ShapeStroke(
            ShapeStroke::new(
                ShapeKind::Ellipse,
                Vec2::new(0, 0),
                Vec2::new(500, 700),
                2000,
                Color::black(),
            )
            .unwrap(),
        ),
        StrokeStyle::VectorImage(
            VectorImage::new("<g/>".to_string(), Vec2::new(100, 100), Vec2::new(5, 5)).unwrap(),
        ),
        StrokeStyle::BitmapImage(
            BitmapImage::new("QUJD".to_string(), ImageFormat::Png, Vec2::new(64, 64), Vec2::zero())
                .unwrap(),
        ),
    ];
    let offset = Vec2::new(30, -40);
    for before in strokes {
        let mut after = before.clone();
        after.set_bounds(boxed(1, 2, 3, 4));
        assert_eq!(after.bounds(), boxed(1, 2, 3, 4));
        assert_eq!(after.gen_svgs(offset), before.gen_svgs(offset));
        assert_eq!(after.gen_bounds(), before.gen_bounds());
        assert_eq!(after.gen_bounds(), Some(before.bounds()));
    }
    let mut marker = corner_marker();
    marker.set_bounds(boxed(1, 2, 3, 4));
    assert_eq!(marker.elements, corner_elements());
}

#[test]
fn operations_that_leave_the_canvas_are_told_apart() {
    let mut stroke = corner_marker();
    assert!(!stroke.can_translate(Vec2::new(i32::MAX, 0)));
    assert!(!stroke.can_draw(Vec2::new(i32::MAX, 0)));
    assert!(stroke.can_draw(Vec2::new(i32::MAX - 10000, 0)));
    assert!(stroke.can_gen_bounds());
    stroke.push_elem(element(i32::MAX, 0, 500));
    assert!(!stroke.can_gen_bounds());
    assert!(stroke.can_draw(Vec2::zero()));
    // a stale cached box at the end of the canvas stops a shift, not a drawing
    let mut stale = corner_marker();
    stale.set_bounds(boxed(0, 0, i32::MAX, i32::MAX));
    assert!(!stale.can_translate(Vec2::new(1, 0)));
    assert!(stale.can_draw(Vec2::new(1, 0)));
    // every box can be asked for, also one with its corners swapped
    stale.resize(boxed(i32::MAX, i32::MAX, i32::MIN, i32::MIN));
    assert_eq!(
        stale.elements,
        vec![
            element(i32::MAX, i32::MAX, 500),
            element(i32::MIN, i32::MAX, 500),
            element(i32::MIN, i32::MIN, 500)
        ]
    );
}

#[test]
fn marker_payload() {
    let svgs = corner_marker().gen_svgs(Vec2::zero()).unwrap();
    assert_eq!(svgs.len(), 1);
    assert_eq!(
        svgs[0].svg_data,
        "<path d=\"M 0.000 0.000 L 10.000 0.000 L 10.000 10.000\" fill=\"none\" stroke=\"#000000ff\" stroke-width=\"2.000\"/>"
    );
    assert_eq!(svgs[0].bounds, boxed(0, 0, 10000, 10000));
}

#[test]
fn marker_payload_at_an_offset() {
    let svgs = corner_marker().gen_svgs(Vec2::new(-500, 250)).unwrap();
    assert_eq!(
        svgs[0].svg_data,
        "<path d=\"M -0.500 0.250 L 9.500 0.250 L 9.500 10.250\" fill=\"none\" stroke=\"#000000ff\" stroke-width=\"2.000\"/>"
    );
    assert_eq!(svgs[0].bounds, boxed(-500, 250, 9500, 10250));
}

#[test]
fn fragments_are_reproducible() {
    let stroke = StrokeStyle::BrushStroke(
        BrushStroke::new(corner_elements(), 6000, Color::new(1, 2, 3, 4)).unwrap(),
    );
    let first = stroke.gen_svgs(Vec2::new(7, 9)).unwrap();
    let second = stroke.gen_svgs(Vec2::new(7, 9)).unwrap();
    assert_eq!(first, second);
    assert_eq!(first.len(), 2);
}

#[test]
fn empty_content_has_no_bounds() {
    assert_eq!(StrokeStyle::default().gen_bounds(), None);
    assert_eq!(MarkerStroke::default().gen_bounds(), None);
    assert_eq!(BrushStroke::default().gen_bounds(), None);
    let one = BrushStroke::new(vec![element(5, 5, 500)], 6000, Color::black()).unwrap();
    assert_eq!(one.gen_bounds(), None);
    // nothing is grown where there is no fragment, so a stale box at the end of the canvas is no bar
    let mut edge = MarkerStroke::default();
    edge.set_bounds(boxed(i32::MIN, i32::MIN, i32::MAX, i32::MAX));
    assert!(edge.can_gen_bounds());
    assert_eq!(edge.gen_bounds(), None);
    let image = VectorImage::new(String::new(), Vec2::new(10, 10), Vec2::zero()).unwrap();
    assert_eq!(image.gen_bounds(), None);
    assert_eq!(image.gen_svgs(Vec2::zero()), Ok(vec![]));
    let picture =
        BitmapImage::new(String::new(), ImageFormat::Png, Vec2::new(10, 10), Vec2::zero()).unwrap();
    assert_eq!(picture.gen_bounds(), None);
}

#[test]
fn default_stroke_is_an_empty_marker() {
    assert_eq!(StrokeStyle::default(), StrokeStyle::MarkerStroke(MarkerStroke::default()));
    match StrokeStyle::default() {
        StrokeStyle::MarkerStroke(marker) => {
            assert!(marker.elements.is_empty());
            assert_eq!(marker.width, MarkerStroke::WIDTH_DEFAULT);
            assert_eq!(marker.width, 2000);
            assert_eq!(marker.color, Color::black());
            assert_eq!(marker.bounds, boxed(0, 0, 0, 0));
        }
        other => panic!("not a marker stroke: {:?}", other),
    }
}

#[test]
fn marker_bounds_follow_pushed_elements_only_on_update() {
    let mut stroke = MarkerStroke::default();
    stroke.push_elem(element(2500, -300, 500));
    stroke.push_elem(element(-2500, 300, 500));
    assert_eq!(stroke.bounds(), boxed(0, 0, 0, 0));
    // the box that is computed anew follows the content at once
    assert_eq!(stroke.gen_bounds(), Some(boxed(-3000, -1000, 3000, 1000)));
    assert!(stroke.update_bounds());
    assert_eq!(stroke.bounds(), boxed(-3000, -1000, 3000, 1000));
    stroke.push_elem(element(i32::MAX, 0, 500));
    assert!(!stroke.update_bounds());
    assert_eq!(stroke.bounds(), boxed(-3000, -1000, 3000, 1000));
    let mut far = MarkerStroke::default();
    far.push_elem(element(50000, 50000, 500));
    assert_eq!(far.gen_bounds(), Some(boxed(50000, 50000, 50000, 50000)));
}

#[test]
fn content_bounds_of_elements() {
    assert_eq!(elements_hull(&vec![]), None);
    assert_eq!(elements_hull(&corner_elements()), Some(boxed(0, 0, 10000, 10000)));
    assert_eq!(content_bounds(&vec![]), Some(boxed(0, 0, 0, 0)));
    assert_eq!(content_bounds(&vec![element(1, 1, 0)]), Some(boxed(0, 0, 1000, 1000)));
    assert_eq!(
        content_bounds(&vec![element(1, -1, 0), element(-1001, 2000, 0)]),
        Some(boxed(-2000, -1000, 1000, 2000))
    );
    assert_eq!(content_bounds(&vec![element(i32::MAX, 1, 0)]), None);
    assert!(MarkerStroke::new(vec![element(i32::MIN, 0, 0)], 2, Color::black()).is_none());
}

#[test]
fn brush_payload_follows_the_pressure() {
    let stroke = BrushStroke::new(
        vec![element(0, 0, 1000), element(1000, 0, 500), element(1000, 2000, 1)],
        6000,
        Color::new(255, 0, 0, 255),
    )
    .unwrap();
    let svgs = stroke.gen_svgs(Vec2::zero()).unwrap();
    assert_eq!(svgs.len(), 2);
    assert_eq!(
        svgs[0].svg_data,
        "<line x1=\"0.000\" y1=\"0.000\" x2=\"1.000\" y2=\"0.000\" stroke=\"#ff0000ff\" stroke-width=\"3.000\"/>"
    );
    assert_eq!(
        svgs[1].svg_data,
        "<line x1=\"1.000\" y1=\"0.000\" x2=\"1.000\" y2=\"2.000\" stroke=\"#ff0000ff\" stroke-width=\"0.006\"/>"
    );
    // each fragment has the box of its own segment; their union is the box of the stroke
    assert_eq!(svgs[0].bounds, boxed(0, 0, 1000, 0));
    assert_eq!(svgs[1].bounds, boxed(1000, 0, 1000, 2000));
    assert_eq!(merged_box(&svgs), Some(boxed(0, 0, 1000, 2000)));
    assert_eq!(stroke.bounds(), boxed(0, 0, 1000, 2000));
    assert_eq!(stroke.gen_bounds(), Some(stroke.bounds()));
    assert_eq!(
        segment_data(&element(0, 0, 0), &element(1, 1, 999), u32::MAX, Color::black(), Vec2::zero()),
        "<line x1=\"0.000\" y1=\"0.000\" x2=\"0.001\" y2=\"0.001\" stroke=\"#000000ff\" stroke-width=\"4290672.327\"/>"
    );
}

#[test]
fn shape_payloads() {
    let c = Color::black();
    assert_eq!(
        shape_data(ShapeKind::Line, 3000, 1000, 1000, 2000, 500, c),
        "<line x1=\"3.000\" y1=\"1.000\" x2=\"1.000\" y2=\"2.000\" stroke=\"#000000ff\" stroke-width=\"0.500\"/>"
    );
    assert_eq!(
        shape_data(ShapeKind::Rectangle, 3000, 1000, 1000, 2000, 500, c),
        "<rect x=\"1.000\" y=\"1.000\" width=\"2.000\" height=\"1.000\" fill=\"none\" stroke=\"#000000ff\" stroke-width=\"0.500\"/>"
    );
    assert_eq!(
        shape_data(ShapeKind::Ellipse, 3000, 1000, 1000, 2001, 500, c),
        "<ellipse cx=\"2.000\" cy=\"1.500\" rx=\"1.000\" ry=\"0.500\" fill=\"none\" stroke=\"#000000ff\" stroke-width=\"0.500\"/>"
    );
}

#[test]
fn shape_stroke_moves_and_scales_its_points() {
    let mut shape =
        ShapeStroke::new(ShapeKind::Rectangle, Vec2::new(4000, 0), Vec2::new(0, 2000), 2000, Color::black())
            .unwrap();
    assert_eq!(shape.bounds(), boxed(0, 0, 4000, 2000));
    shape.translate(Vec2::new(1000, 1000));
    assert_eq!(shape.start, Vec2::new(5000, 1000));
    assert_eq!(shape.end, Vec2::new(1000, 3000));
    shape.resize(boxed(0, 0, 12000, 8000));
    assert_eq!(shape.start, Vec2::new(12000, 0));
    assert_eq!(shape.end, Vec2::new(0, 8000));
    let svgs = shape.gen_svgs(Vec2::zero()).unwrap();
    assert_eq!(svgs.len(), 1);
    assert_eq!(svgs[0].bounds, boxed(0, 0, 12000, 8000));
    assert!(ShapeStroke::new(ShapeKind::Line, Vec2::zero(), Vec2::new(i32::MAX, 0), 0, Color::black())
        .is_none());
}

#[test]
fn vector_image_is_nested_into_its_box() {
    let image =
        VectorImage::new("<circle r=\"1\"/>".to_string(), Vec2::new(2000, 1000), Vec2::new(500, 0))
            .unwrap();
    assert_eq!(image.rectangle, boxed(500, 0, 2500, 1000));
    assert_eq!(image.bounds(), boxed(0, 0, 3000, 1000));
    assert_eq!(image.gen_bounds(), Some(image.bounds()));
    let svgs = image.gen_svgs(Vec2::new(500, 1000)).unwrap();
    assert_eq!(svgs.len(), 1);
    assert_eq!(
        svgs[0].svg_data,
        "<svg xmlns=\"http://www.w3.org/2000/svg\" x=\"1.000\" y=\"1.000\" width=\"2.000\" height=\"1.000\" viewBox=\"0.000 0.000 2.000 1.000\"><circle r=\"1\"/></svg>"
    );
    assert_eq!(svgs[0].bounds, boxed(1000, 1000, 3000, 2000));
    assert!(VectorImage::new(String::new(), Vec2::new(1, 1), Vec2::new(i32::MAX, 0)).is_none());
    assert!(VectorImage::new(String::new(), Vec2::new(1, 1), Vec2::new(i32::MAX - 1, 0)).is_none());
}

#[test]
fn vector_image_without_a_frame_is_unsupported() {
    let image = VectorImage::new("<g/>".to_string(), Vec2::new(0, 10), Vec2::zero()).unwrap();
    assert!(!image.has_vector_form());
    assert!(!image.can_gen_bounds());
    assert_eq!(image.gen_svgs(Vec2::zero()), Err(StrokeError::UnsupportedContent));
    let renderer = Recorder::new(None);
    assert_eq!(image.gen_image(1000, &renderer), Err(StrokeError::UnsupportedContent));
    assert!(renderer.seen.borrow().is_empty());
    let framed = VectorImage::new("<g/>".to_string(), Vec2::new(1, 10), Vec2::zero()).unwrap();
    assert!(framed.has_vector_form());
    let empty = VectorImage::new(String::new(), Vec2::new(0, 0), Vec2::zero()).unwrap();
    assert!(empty.has_vector_form());
    assert_eq!(empty.gen_bounds(), None);
}

#[test]
fn bitmap_image_payload() {
    let picture =
        BitmapImage::new("QUJD+/8=".to_string(), ImageFormat::Jpeg, Vec2::new(3000, 2000), Vec2::new(0, 1000))
            .unwrap();
    let svgs = picture.gen_svgs(Vec2::zero()).unwrap();
    assert_eq!(svgs.len(), 1);
    assert_eq!(
        svgs[0].svg_data,
        "<image x=\"0.000\" y=\"1.000\" width=\"3.000\" height=\"2.000\" preserveAspectRatio=\"none\" href=\"data:image/jpeg;base64,QUJD+/8=\"/>"
    );
    let png = BitmapImage::new("QQ==".to_string(), ImageFormat::Png, Vec2::new(1, 1), Vec2::zero())
        .unwrap();
    assert!(png.gen_svgs(Vec2::zero()).unwrap()[0].svg_data.contains("data:image/png;base64,QQ=="));
}

#[test]
fn bitmap_image_with_broken_data_is_unsupported() {
    for data in ["QUJD\n", "QU JD", "épée", "QUJD\"", "a-b"] {
        let picture =
            BitmapImage::new(data.to_string(), ImageFormat::Png, Vec2::new(1, 1), Vec2::zero()).unwrap();
        assert!(!picture.has_vector_form());
        assert!(!StrokeStyle::BitmapImage(picture.clone()).can_gen_bounds());
        assert_eq!(picture.gen_svgs(Vec2::zero()), Err(StrokeError::UnsupportedContent));
    }
}

#[test]
fn base64_text_is_recognised() {
    assert!(check_base64_text(""));
    assert!(check_base64_text("ABCXYZabcxyz0189+/=="));
    assert!(!check_base64_text("@"));
    assert!(!check_base64_text("["));
    assert!(!check_base64_text("`"));
    assert!(!check_base64_text("{"));
    assert!(!check_base64_text(":"));
    assert!(!check_base64_text("AB\u{e9}"));
}

#[test]
fn fragments_bounds_merges_then_grows() {
    let svgs = vec![
        Svg { svg_data: String::new(), bounds: boxed(10, 10, 20, 20) },
        Svg { svg_data: String::new(), bounds: boxed(-1500, 15, 15, 2001) },
    ];
    assert_eq!(fragments_bounds(&svgs), Some(boxed(-2000, 0, 1000, 3000)));
    assert_eq!(fragments_bounds(&vec![]), None);
}

#[test]
fn wrap_fragments_wraps_each_payload() {
    let b = boxed(0, 0, 1000, 2000);
    let svgs = vec![
        Svg { svg_data: "a".to_string(), bounds: boxed(1, 2, 3, 4) },
        Svg { svg_data: "b".to_string(), bounds: boxed(5, 6, 7, 8) },
    ];
    let wrapped = wrap_fragments(svgs, b);
    assert_eq!(wrapped.len(), 2);
    assert_eq!(
        wrapped[0].svg_data,
        "<?xml version=\"1.0\" standalone=\"no\"?>\n<svg xmlns=\"http://www.w3.org/2000/svg\" x=\"0.000\" y=\"0.000\" width=\"1.000\" height=\"2.000\" viewBox=\"0.000 0.000 1.000 2.000\">a</svg>"
    );
    assert_eq!(wrapped[0].bounds, boxed(1, 2, 3, 4));
    assert!(wrapped[1].svg_data.ends_with(">b</svg>"));
    assert_eq!(wrapped[1].bounds, boxed(5, 6, 7, 8));
}

#[test]
fn gen_image_hands_wrapped_fragments_to_the_backend() {
    let mut stroke = StrokeStyle::MarkerStroke(corner_marker());
    stroke.set_bounds(boxed(-1000, -1000, 11000, 11000));
    let renderer = Recorder::new(None);
    let image = stroke.gen_image(2000, &renderer).unwrap();
    assert_eq!(image.bounds, stroke.bounds());
    assert_eq!(image.pixel_width, 24);
    assert_eq!(image.pixel_height, 24);
    let seen = renderer.seen.borrow();
    assert_eq!(seen.len(), 1);
    let (zoom, svgs, bounds) = &seen[0];
    assert_eq!(*zoom, 2000);
    assert_eq!(*bounds, stroke.bounds());
    assert_eq!(*svgs, stroke.gen_wrapped_svgs().unwrap());
    assert_eq!(
        svgs[0].svg_data,
        "<?xml version=\"1.0\" standalone=\"no\"?>\n<svg xmlns=\"http://www.w3.org/2000/svg\" x=\"-1.000\" y=\"-1.000\" width=\"12.000\" height=\"12.000\" viewBox=\"-1.000 -1.000 12.000 12.000\"><path d=\"M 0.000 0.000 L 10.000 0.000 L 10.000 10.000\" fill=\"none\" stroke=\"#000000ff\" stroke-width=\"2.000\"/></svg>"
    );
    assert_eq!(svgs[0].bounds, boxed(0, 0, 10000, 10000));
}

#[test]
fn gen_image_passes_on_the_backend_error() {
    let stroke = corner_marker();
    let renderer = Recorder::new(Some("no surface"));
    assert_eq!(
        stroke.gen_image(1000, &renderer),
        Err(StrokeError::Backend("no surface".to_string()))
    );
    assert_eq!(renderer.seen.borrow().len(), 1);
}

#[test]
fn image_outcome_maps_both_answers() {
    let image = Image { data: vec![1, 2], bounds: boxed(0, 0, 1, 1), pixel_width: 1, pixel_height: 2 };
    assert_eq!(inkcore::render::image_outcome(Ok(image.clone())), Ok(image));
    assert_eq!(
        inkcore::render::image_outcome(Err("x".to_string())),
        Err(StrokeError::Backend("x".to_string()))
    );
}

#[test]
fn element_runs_translate_and_rescale() {
    let mut elements = corner_elements();
    assert!(can_translate_elements(&elements, Vec2::new(1, 1)));
    assert!(!can_translate_elements(&elements, Vec2::new(i32::MAX, 0)));
    translate_elements(&mut elements, Vec2::new(1, 1));
    assert_eq!(elements, vec![element(1, 1, 500), element(10001, 1, 500), element(10001, 10001, 500)]);
    let src = boxed(1, 1, 10001, 10001);
    let dst = boxed(0, 0, 100, 50);
    assert!(can_rescale_elements(&elements, &src, &dst));
    rescale_elements(&mut elements, &src, &dst);
    assert_eq!(elements, vec![element(0, 0, 500), element(100, 0, 500), element(100, 50, 500)]);
    assert!(!can_rescale_elements(&vec![element(i32::MAX, 0, 0)], &boxed(0, 0, 1, 1), &boxed(0, 0, 2, 2)));
}

#[test]
fn validation_data_stays_in_bounds() {
    let bounds = boxed(-5000, 100, 5000, 200);
    for seed in 0..200u64 {
        let mut rng = StdRng::seed_from_u64(seed);
        let data = Element::validation_data(bounds, &mut rng);
        assert!(data.len() <= 20);
        for e in &data {
            assert!(bounds.contains_point(&e.inputdata.pos()));
            assert!(0 <= e.inputdata.pressure() && e.inputdata.pressure() <= 1000);
        }
    }
}

#[test]
fn validation_data_is_reproducible_under_a_seed() {
    let bounds = boxed(0, 0, 100000, 100000);
    let first = Element::validation_data(bounds, &mut StdRng::seed_from_u64(42));
    let second = Element::validation_data(bounds, &mut StdRng::seed_from_u64(42));
    assert_eq!(first, second);
}

#[test]
fn validation_data_is_drawn_at_random() {
    let bounds = boxed(0, 0, 100000, 100000);
    let mut lengths = std::collections::BTreeSet::new();
    let mut xs = std::collections::BTreeSet::new();
    let mut pressures = std::collections::BTreeSet::new();
    for seed in 0..200u64 {
        let data = Element::validation_data(bounds, &mut StdRng::seed_from_u64(seed));
        lengths.insert(data.len());
        for e in &data {
            xs.insert(e.inputdata.pos().x);
            pressures.insert(e.inputdata.pressure());
        }
    }
    assert!(lengths.contains(&0));
    assert!(lengths.contains(&20));
    assert!(lengths.len() > 10);
    assert!(xs.len() > 100);
    assert!(pressures.len() > 100);
}

#[test]
fn validation_data_on_a_single_point() {
    let bounds = boxed(7, 8, 7, 8);
    let data = Element::validation_data(bounds, &mut StdRng::seed_from_u64(3));
    for e in &data {
        assert_eq!(e.inputdata.pos(), Vec2::new(7, 8));
    }
}

#[test]
fn drawing_a_shifted_stroke_is_drawing_at_the_sum() {
    let offset = Vec2::new(1500, -2500);
    let second = Vec2::new(-40, 70);
    let sum = Vec2::new(1460, -2430);
    let strokes = vec![
        StrokeStyle::MarkerStroke(corner_marker()),
        StrokeStyle::BrushStroke(BrushStroke::new(corner_elements(), 6000, Color::black()).unwrap()),
        StrokeStyle::ShapeStroke(
            ShapeStroke::new(
                ShapeKind::Rectangle,
                Vec2::new(0, 0),
                Vec2::new(500, 700),
                2000,
                Color::black(),
            )
            .unwrap(),
        ),
        StrokeStyle::VectorImage(
            VectorImage::new("<g/>".to_string(), Vec2::new(100, 100), Vec2::new(5, 5)).unwrap(),
        ),
        StrokeStyle::BitmapImage(
            BitmapImage::new("QUJD".to_string(), ImageFormat::Png, Vec2::new(64, 64), Vec2::zero())
                .unwrap(),
        ),
    ];
    for before in strokes {
        let mut after = before.clone();
        after.translate(offset);
        assert_eq!(after.gen_svgs(second), before.gen_svgs(sum));
        assert_ne!(after.gen_svgs(second), before.gen_svgs(second));
    }
}

#[test]
fn content_stays_inside_the_box() {
    let mut stroke = corner_marker();
    for target in [boxed(0, 0, 20000, 20000), boxed(-7, 3, -7, 9000), boxed(1, 1, 2, 2)] {
        stroke.resize(target);
        for e in &stroke.elements {
            assert!(stroke.bounds().contains_point(&e.inputdata.pos()));
        }
    }
    stroke.translate(Vec2::new(123, -456));
    for e in &stroke.elements {
        assert!(stroke.bounds().contains_point(&e.inputdata.pos()));
    }
}

#[test]
fn elements_from_raw_samples() {
    let samples = vec![
        RawSample { pos: Vec2::new(3, -4), pressure: 250 },
        RawSample { pos: Vec2::new(i32::MAX, i32::MIN), pressure: -1 },
        RawSample { pos: Vec2::new(0, 0), pressure: 1001 },
    ];
    assert_eq!(
        Element::from_samples(&samples),
        vec![element(3, -4, 250), element(i32::MAX, i32::MIN, 0), element(0, 0, 1000)]
    );
    assert_eq!(Element::from_samples(&vec![]), vec![]);
}
