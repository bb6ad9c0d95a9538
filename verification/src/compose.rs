//! Turning a bare vector payload into a document that can be rendered on
//! its own.

use crate::geometry::Aabb;
use crate::text::{attr_text, fixed_text, push_attr, push_fixed};
use vstd::prelude::*;

verus! {

/// The declaration that opens a standalone document.
pub open spec fn xml_header_text() -> Seq<char> {
    "<?xml version=\"1.0\" standalone=\"no\"?>\n"@
}

/// The opening of the root element, up to its attributes.
pub open spec fn root_open_text() -> Seq<char> {
    "<svg xmlns=\"http://www.w3.org/2000/svg\""@
}

/// The style sheet that a document carries when it embeds its styles.
pub open spec fn styles_text() -> Seq<char> {
    "<style>path,line,rect,ellipse{stroke-linecap:round;stroke-linejoin:round}</style>"@
}

/// The attributes that place a document: its corner and its size.
pub open spec fn placement_text(b: Aabb) -> Seq<char> {
    attr_text("x"@, b.mins.x as int) + attr_text("y"@, b.mins.y as int) + attr_text(
        "width"@,
        b.width_spec(),
    ) + attr_text("height"@, b.height_spec())
}

/// The attribute that declares the viewport of a document.
pub open spec fn viewbox_text(b: Aabb) -> Seq<char> {
    " viewBox=\""@ + fixed_text(b.mins.x as int) + " "@ + fixed_text(b.mins.y as int) + " "@
        + fixed_text(b.width_spec()) + " "@ + fixed_text(b.height_spec()) + "\""@
}

pub open spec fn optional_text(present: bool, text: Seq<char>) -> Seq<char> {
    if present {
        text
    } else {
        Seq::<char>::empty()
    }
}

/// The document around `data`: the declaration where it is `standalone`,
/// the root element placed at `bounds` and looking at `viewbox` as far as
/// they are given, the style sheet where `embed_styles` asks for it, then
/// `data` itself and the end of the root element.
pub open spec fn wrapped_text(
    data: Seq<char>,
    bounds: Option<Aabb>,
    viewbox: Option<Aabb>,
    standalone: bool,
    embed_styles: bool,
) -> Seq<char> {
    optional_text(standalone, xml_header_text()) + root_open_text() + optional_text(
        bounds is Some,
        placement_text(bounds->Some_0),
    ) + optional_text(viewbox is Some, viewbox_text(viewbox->Some_0)) + ">"@ + optional_text(
        embed_styles,
        styles_text(),
    ) + data + "</svg>"@
}

/// Appends the attributes that place a document at `b`.
pub fn push_placement(out: &mut String, b: &Aabb)
    ensures
        final(out)@ == old(out)@ + placement_text(*b),
{
    push_attr(out, "x", b.mins.x as i64);
    push_attr(out, "y", b.mins.y as i64);
    push_attr(out, "width", b.width());
    push_attr(out, "height", b.height());
    assert(out@ =~= old(out)@ + placement_text(*b));
}

fn push_viewbox(out: &mut String, b: &Aabb)
    ensures
        final(out)@ == old(out)@ + viewbox_text(*b),
{
    out.append(" viewBox=\"");
    push_fixed(out, b.mins.x as i64);
    out.append(" ");
    push_fixed(out, b.mins.y as i64);
    out.append(" ");
    push_fixed(out, b.width());
    out.append(" ");
    push_fixed(out, b.height());
    out.append("\"");
    assert(out@ =~= old(out)@ + viewbox_text(*b));
}

/// Wraps a payload into a document of its own.
pub fn wrap_svg(
    data: &str,
    bounds: Option<Aabb>,
    viewbox: Option<Aabb>,
    standalone: bool,
    embed_styles: bool,
) -> (doc: String)
    ensures
        doc@ == wrapped_text(data@, bounds, viewbox, standalone, embed_styles),
{
    let mut out: String = String::new();
    if standalone {
        out.append("<?xml version=\"1.0\" standalone=\"no\"?>\n");
    }
    out.append("<svg xmlns=\"http://www.w3.org/2000/svg\"");
    if let Some(b) = bounds {
        push_placement(&mut out, &b);
    }
    if let Some(b) = viewbox {
        push_viewbox(&mut out, &b);
    }
    out.append(">");
    if embed_styles {
        out.append(
            "<style>path,line,rect,ellipse{stroke-linecap:round;stroke-linejoin:round}</style>",
        );
    }
    out.append(data);
    out.append("</svg>");
    assert(out@ =~= wrapped_text(data@, bounds, viewbox, standalone, embed_styles));
    out
}

} // verus!
