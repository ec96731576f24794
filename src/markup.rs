use vstd::prelude::*;
use vstd::string::StringExecFns;

use crate::model::{AnnotationKind, Edge};

verus! {

/// The fixed notice shown in place of markup that the renderer does not know.
pub const UNKNOWN_NOTICE: &'static str = "<p class=\"libmedium__meta\"><b>From LibMedium:</b> LibMedium is built by reverse engineering the Medium's internal API. This post contains markup(formatting rules) that we are unaware of. Please report this URL <a href=\"https://github.com/realaravinth/libmedium/issues/1\" rel=\"noreferrer\">on our bug tracker</a> so that we can improve page rendering.</p>";

/// The opening tag of an unknown kind: the notice, then a neutral wrapper.
pub open spec fn unknown_open() -> Seq<char> {
    UNKNOWN_NOTICE@ + "<span>"@
}

/// The HTML that stands for one edge of an annotation of kind `kind`.
pub open spec fn markup_html(kind: AnnotationKind, edge: Edge) -> Seq<char> {
    match kind {
        AnnotationKind::Link { href } => match edge {
            Edge::Open => "<a rel=\"noreferrer\" href=\""@ + href@ + "\">"@,
            Edge::Close => "</a>"@,
        },
        AnnotationKind::UserMention { user_id } => match edge {
            Edge::Open => "<a rel=\"noreferrer\" href=\"https://medium.com/u/"@ + user_id@ + "\">"@,
            Edge::Close => "</a>"@,
        },
        AnnotationKind::Emphasis => match edge {
            Edge::Open => "<em>"@,
            Edge::Close => "</em>"@,
        },
        AnnotationKind::Strong => match edge {
            Edge::Open => "<strong>"@,
            Edge::Close => "</strong>"@,
        },
        AnnotationKind::Code => match edge {
            Edge::Open => "<code>"@,
            Edge::Close => "</code>"@,
        },
        AnnotationKind::PreformattedInline => match edge {
            Edge::Open => "<pre>"@,
            Edge::Close => "</pre>"@,
        },
        AnnotationKind::Unknown => match edge {
            Edge::Open => unknown_open(),
            Edge::Close => "</span>"@,
        },
    }
}

/// Appends the HTML of one edge of an annotation to `out`. Never fails: an unknown
/// kind gets the fixed notice.
pub fn push_markup(out: &mut String, kind: &AnnotationKind, edge: Edge)
    ensures
        final(out)@ == old(out)@ + markup_html(*kind, edge),
{
    match kind {
        AnnotationKind::Link { href } => match edge {
            Edge::Open => {
                out.append("<a rel=\"noreferrer\" href=\"");
                out.append(href.as_str());
                out.append("\">");
            },
            Edge::Close => out.append("</a>"),
        },
        AnnotationKind::UserMention { user_id } => match edge {
            Edge::Open => {
                out.append("<a rel=\"noreferrer\" href=\"https://medium.com/u/");
                out.append(user_id.as_str());
                out.append("\">");
            },
            Edge::Close => out.append("</a>"),
        },
        AnnotationKind::Emphasis => match edge {
            Edge::Open => out.append("<em>"),
            Edge::Close => out.append("</em>"),
        },
        AnnotationKind::Strong => match edge {
            Edge::Open => out.append("<strong>"),
            Edge::Close => out.append("</strong>"),
        },
        AnnotationKind::Code => match edge {
            Edge::Open => out.append("<code>"),
            Edge::Close => out.append("</code>"),
        },
        AnnotationKind::PreformattedInline => match edge {
            Edge::Open => out.append("<pre>"),
            Edge::Close => out.append("</pre>"),
        },
        AnnotationKind::Unknown => match edge {
            Edge::Open => {
                out.append(UNKNOWN_NOTICE);
                out.append("<span>");
            },
            Edge::Close => out.append("</span>"),
        },
    }
    assert(final(out)@ =~= old(out)@ + markup_html(*kind, edge));
}

/// The HTML of one edge of an annotation of kind `kind`.
pub fn markup_tag(kind: &AnnotationKind, edge: Edge) -> (r: String)
    ensures
        r@ == markup_html(*kind, edge),
{
    let mut s = String::new();
    push_markup(&mut s, kind, edge);
    assert(s@ =~= markup_html(*kind, edge));
    s
}

} // verus!
