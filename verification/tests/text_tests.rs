use inkcore::color::{push_color_attr, Color};
use inkcore::compose::wrap_svg;
use inkcore::geometry::{Aabb, Vec2};
use inkcore::text::{fixed_to_string, push_attr, push_fixed, push_nat, push_pair};

#[test]
fn fixed_text_has_three_decimals() {
    assert_eq!(fixed_to_string(0), "0.000");
    assert_eq!(fixed_to_string(5), "0.005");
    assert_eq!(fixed_to_string(12500), "12.500");
    assert_eq!(fixed_to_string(1000), "1.000");
    assert_eq!(fixed_to_string(999), "0.999");
    assert_eq!(fixed_to_string(123456789), "123456.789");
}

#[test]
fn fixed_text_of_negative_values() {
    assert_eq!(fixed_to_string(-250), "-0.250");
    assert_eq!(fixed_to_string(-1), "-0.001");
    assert_eq!(fixed_to_string(-10000), "-10.000");
}

#[test]
fn fixed_text_at_the_ends_of_the_range() {
    assert_eq!(fixed_to_string(i64::MAX), "9223372036854775.807");
    assert_eq!(fixed_to_string(i64::MIN), "-9223372036854775.808");
}

#[test]
fn pushing_appends_to_what_is_there() {
    let mut out = String::from("a");
    push_nat(&mut out, 0);
    push_nat(&mut out, 907);
    push_fixed(&mut out, -1500);
    push_pair(&mut out, 1000, -2);
    push_attr(&mut out, "x", 20);
    assert_eq!(out, "a0907-1.5001.000 -0.002 x=\"0.020\"");
}

#[test]
fn color_text_is_lower_case_hex() {
    let mut out = String::new();
    push_color_attr(&mut out, "stroke", Color::new(0, 171, 255, 16));
    assert_eq!(out, " stroke=\"#00abff10\"");
    assert_eq!(Color::black(), Color::new(0, 0, 0, 255));
}

#[test]
fn wrap_svg_standalone_with_box_and_viewport() {
    let b = Aabb::new(Vec2::new(-1000, 0), Vec2::new(11000, 5500));
    let doc = wrap_svg("<g/>", Some(b), Some(b), true, false);
    assert_eq!(
        doc,
        "<?xml version=\"1.0\" standalone=\"no\"?>\n<svg xmlns=\"http://www.w3.org/2000/svg\" x=\"-1.000\" y=\"0.000\" width=\"12.000\" height=\"5.500\" viewBox=\"-1.000 0.000 12.000 5.500\"><g/></svg>"
    );
}

#[test]
fn wrap_svg_bare() {
    assert_eq!(
        wrap_svg("", None, None, false, false),
        "<svg xmlns=\"http://www.w3.org/2000/svg\"></svg>"
    );
}

#[test]
fn wrap_svg_with_styles() {
    let view = Aabb::new(Vec2::new(0, 0), Vec2::new(2000, 1000));
    assert_eq!(
        wrap_svg("x", None, Some(view), false, true),
        "<svg xmlns=\"http://www.w3.org/2000/svg\" viewBox=\"0.000 0.000 2.000 1.000\"><style>path,line,rect,ellipse{stroke-linecap:round;stroke-linejoin:round}</style>x</svg>"
    );
}
