//! Stroke colours and their text in vector payloads.

use vstd::prelude::*;

verus! {

/// A colour with opacity, eight bits a channel.
#[derive(Clone, Copy, Debug, PartialEq, Eq, Structural)]
pub struct Color {
    pub r: u8,
    pub g: u8,
    pub b: u8,
    pub a: u8,
}

/// The one-character text of a hexadecimal digit, in lower case.
pub open spec fn hex_digit_text(d: int) -> Seq<char> {
    if d == 0 {
        "0"@
    } else if d == 1 {
        "1"@
    } else if d == 2 {
        "2"@
    } else if d == 3 {
        "3"@
    } else if d == 4 {
        "4"@
    } else if d == 5 {
        "5"@
    } else if d == 6 {
        "6"@
    } else if d == 7 {
        "7"@
    } else if d == 8 {
        "8"@
    } else if d == 9 {
        "9"@
    } else if d == 10 {
        "a"@
    } else if d == 11 {
        "b"@
    } else if d == 12 {
        "c"@
    } else if d == 13 {
        "d"@
    } else if d == 14 {
        "e"@
    } else {
        "f"@
    }
}

/// The two hexadecimal digits of a channel.
pub open spec fn channel_text(c: u8) -> Seq<char> {
    hex_digit_text(c as int / 16) + hex_digit_text(c as int % 16)
}

/// The text of a colour: `#`, then red, green, blue and opacity as two
/// hexadecimal digits each.
pub open spec fn color_text(c: Color) -> Seq<char> {
    "#"@ + channel_text(c.r) + channel_text(c.g) + channel_text(c.b) + channel_text(c.a)
}

/// The text of an attribute with a colour for its value.
pub open spec fn color_attr_text(name: Seq<char>, c: Color) -> Seq<char> {
    " "@ + name + "=\""@ + color_text(c) + "\""@
}

fn hex_digit_str(d: u8) -> (s: &'static str)
    requires
        d < 16,
    ensures
        s@ == hex_digit_text(d as int),
{
    if d == 0 {
        "0"
    } else if d == 1 {
        "1"
    } else if d == 2 {
        "2"
    } else if d == 3 {
        "3"
    } else if d == 4 {
        "4"
    } else if d == 5 {
        "5"
    } else if d == 6 {
        "6"
    } else if d == 7 {
        "7"
    } else if d == 8 {
        "8"
    } else if d == 9 {
        "9"
    } else if d == 10 {
        "a"
    } else if d == 11 {
        "b"
    } else if d == 12 {
        "c"
    } else if d == 13 {
        "d"
    } else if d == 14 {
        "e"
    } else {
        "f"
    }
}

fn push_channel(out: &mut String, c: u8)
    ensures
        final(out)@ == old(out)@ + channel_text(c),
{
    out.append(hex_digit_str(c / 16));
    out.append(hex_digit_str(c % 16));
    assert(out@ =~= old(out)@ + channel_text(c));
}

impl Color {
    pub open spec fn black_spec() -> Color {
        Color { r: 0, g: 0, b: 0, a: 255 }
    }

    pub fn new(r: u8, g: u8, b: u8, a: u8) -> (c: Color)
        ensures
            c == (Color { r, g, b, a }),
    {
        Color { r, g, b, a }
    }

    /// Opaque black, the colour of a stroke that was given none.
    #[verifier::when_used_as_spec(black_spec)]
    pub fn black() -> (c: Color)
        ensures
            c == Color::black_spec(),
    {
        Color { r: 0, g: 0, b: 0, a: 255 }
    }
}

/// Appends an attribute with a colour for its value to `out`.
pub fn push_color_attr(out: &mut String, name: &str, c: Color)
    ensures
        final(out)@ == old(out)@ + color_attr_text(name@, c),
{
    out.append(" ");
    out.append(name);
    out.append("=\"#");
    push_channel(out, c.r);
    push_channel(out, c.g);
    push_channel(out, c.b);
    push_channel(out, c.a);
    out.append("\"");
    proof {
        reveal_strlit("=\"#");
        reveal_strlit("=\"");
        reveal_strlit("#");
        assert("=\"#"@ =~= "=\""@ + "#"@);
        assert(out@ =~= old(out)@ + color_attr_text(name@, c));
    }
}

} // verus!
