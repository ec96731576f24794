use vstd::prelude::*;
use vstd::string::StringExecFns;

use crate::markup::{unknown_open, UNKNOWN_NOTICE};
use crate::model::{BlockKind, EmbedRef, Paragraph, RenderedGist, ResolvedGist};
use crate::routes::Proxy;
use crate::text::{decimal, decimal_string, has_infix, replace_all, same_text, str_contains};

verus! {

/// The host whose iframes embed a hosted snippet set.
pub const GIST_HOST: &'static str = "gist.github.com";

/// Which list wrapper is open across paragraphs of one document.
#[derive(Clone, Copy, Debug, PartialEq, Eq, Structural)]
pub struct ListState {
    pub in_uli: bool,
    pub in_oli: bool,
}

pub open spec fn idle() -> ListState {
    ListState { in_uli: false, in_oli: false }
}

impl Default for ListState {
    fn default() -> (r: Self)
        ensures
            r == idle(),
    {
        ListState { in_uli: false, in_oli: false }
    }
}

/// Closes an open list wrapper that the paragraph of kind `kind` does not continue.
pub open spec fn list_close(s: ListState, kind: BlockKind) -> (Seq<char>, ListState) {
    let (h1, s1) = if s.in_oli && kind != BlockKind::OrderedListItem {
        ("</ol>"@, ListState { in_uli: s.in_uli, in_oli: false })
    } else {
        (Seq::<char>::empty(), s)
    };
    let (h2, s2) = if s1.in_uli && kind != BlockKind::UnorderedListItem {
        ("</ul>"@, ListState { in_uli: false, in_oli: s1.in_oli })
    } else {
        (Seq::<char>::empty(), s1)
    };
    (h1 + h2, s2)
}

/// What closes the wrappers still open when a document ends.
pub open spec fn list_flush(s: ListState) -> Seq<char> {
    list_close(s, BlockKind::Paragraph).0
}

/// The iframe source names a hosted snippet set.
pub open spec fn is_gist_ref(href: Seq<char>) -> bool {
    has_infix(href, GIST_HOST@)
}

/// True when an iframe with source `href` embeds a hosted snippet set.
pub fn is_gist_iframe(href: &str) -> (r: bool)
    ensures
        r == is_gist_ref(href@),
{
    str_contains(href, GIST_HOST)
}

/// The first index at or after `i` of a snippet set resolved for `href`; -1 if none.
pub open spec fn gist_index(gists: Seq<ResolvedGist>, href: Seq<char>, i: int) -> int
    decreases gists.len() - i,
{
    if i < 0 || i >= gists.len() {
        -1
    } else if gists[i].url@ == href {
        i
    } else {
        gist_index(gists, href, i + 1)
    }
}

/// The snippet set that an iframe paragraph with source `href` shows inline, if any.
pub open spec fn shown_gist(gists: Seq<ResolvedGist>, href: Seq<char>) -> Option<RenderedGist> {
    if is_gist_ref(href) && gist_index(gists, href, 0) >= 0 {
        Some(gists[gist_index(gists, href, 0)].gist)
    } else {
        None
    }
}

pub open spec fn files_html(files: Seq<String>) -> Seq<char>
    decreases files.len(),
{
    if files.len() == 0 {
        Seq::<char>::empty()
    } else {
        files_html(files.drop_last()) + "<div class=\"code-block gist-block\">"@ + files.last()@
            + "</div>"@
    }
}

/// A container with every file of the snippet set, then a link to the set's page.
pub open spec fn gist_open(g: RenderedGist) -> Seq<char> {
    "<div class=\"gist_container\">"@ + files_html(g.files_html@)
        + "<a class=\"gist_link\" href=\""@ + g.html_url@
        + "\" target=\"_blank\">See gist on GitHub</a>"@
}

pub open spec fn iframe_open(href: Seq<char>) -> Seq<char> {
    "<iframe src=\""@ + href + "\" frameborder=\"0\">"@
}

/// A figure whose image is fetched through this proxy's asset path.
pub open spec fn image_open(id: Seq<char>, width: i64) -> Seq<char> {
    "<figure><img width=\""@ + decimal(width as int) + "\" src=\""@ + replace_all(
        "/asset/medium/{name}"@,
        "{name}"@,
        id,
    ) + "\" /> <figcaption>"@
}

/// The opening HTML of a paragraph at position `index` of its document, after any
/// list wrapper was closed, and the list state after it.
pub open spec fn block_open(p: Paragraph, index: int, gists: Seq<ResolvedGist>, s: ListState) -> (Seq<char>, ListState) {
    match p.kind {
        BlockKind::Paragraph => ("<p>"@, s),
        BlockKind::Preformatted => ("<pre>"@, s),
        BlockKind::Blockquote => ("<blockquote>"@, s),
        BlockKind::Heading1 => ("<h1>"@, s),
        BlockKind::Heading2 => ("<h2>"@, s),
        BlockKind::Heading3 => (
            if index == 0 {
                Seq::<char>::empty()
            } else {
                "<h3>"@
            },
            s,
        ),
        BlockKind::Heading4 => ("<h4>"@, s),
        BlockKind::Heading5 => ("<h5>"@, s),
        BlockKind::Heading6 => ("<h6>"@, s),
        BlockKind::Image => (
            match p.embed {
                Some(EmbedRef::Image { id, width }) => image_open(id@, width),
                _ => unknown_open(),
            },
            s,
        ),
        BlockKind::Iframe => (
            match p.embed {
                Some(EmbedRef::Iframe { href }) => match shown_gist(gists, href@) {
                    Some(g) => gist_open(g),
                    None => iframe_open(href@),
                },
                _ => unknown_open(),
            },
            s,
        ),
        BlockKind::OrderedListItem => if s.in_oli {
            ("<li>"@, s)
        } else {
            ("<ol><li>"@, ListState { in_uli: s.in_uli, in_oli: true })
        },
        BlockKind::UnorderedListItem => if s.in_uli {
            ("<li>"@, s)
        } else {
            ("<ul><li>"@, ListState { in_uli: true, in_oli: s.in_oli })
        },
        BlockKind::Unknown => (unknown_open(), s),
    }
}

/// The closing HTML of a paragraph at position `index` of its document.
pub open spec fn block_close(p: Paragraph, index: int, gists: Seq<ResolvedGist>) -> Seq<char> {
    match p.kind {
        BlockKind::Paragraph => "</p>"@,
        BlockKind::Preformatted => "</pre>"@,
        BlockKind::Blockquote => "</blockquote>"@,
        BlockKind::Heading1 => "</h1>"@,
        BlockKind::Heading2 => "</h2>"@,
        BlockKind::Heading3 => if index == 0 {
            Seq::<char>::empty()
        } else {
            "</h3>"@
        },
        BlockKind::Heading4 => "</h4>"@,
        BlockKind::Heading5 => "</h5>"@,
        BlockKind::Heading6 => "</h6>"@,
        BlockKind::Image => match p.embed {
            Some(EmbedRef::Image { .. }) => "</figcaption></figure>"@,
            _ => "</span>"@,
        },
        BlockKind::Iframe => match p.embed {
            Some(EmbedRef::Iframe { href }) => match shown_gist(gists, href@) {
                Some(_) => "</div>"@,
                None => "</iframe>"@,
            },
            _ => "</span>"@,
        },
        BlockKind::OrderedListItem => "</li>"@,
        BlockKind::UnorderedListItem => "</li>"@,
        BlockKind::Unknown => "</span>"@,
    }
}

/// Writes what closes a list wrapper that a paragraph of kind `kind` does not continue.
pub fn push_list_close(state: &mut ListState, kind: BlockKind, out: &mut String)
    ensures
        final(out)@ == old(out)@ + list_close(*old(state), kind).0,
        *final(state) == list_close(*old(state), kind).1,
{
    let ghost out0 = out@;
    if state.in_oli && kind != BlockKind::OrderedListItem {
        state.in_oli = false;
        out.append("</ol>");
    }
    let ghost out1 = out@;
    if state.in_uli && kind != BlockKind::UnorderedListItem {
        state.in_uli = false;
        out.append("</ul>");
    }
    assert(out@ =~= out0 + list_close(*old(state), kind).0);
}

/// The index of the first snippet set resolved for `href`.
fn find_gist(gists: &Vec<ResolvedGist>, href: &str) -> (r: Option<usize>)
    ensures
        match r {
            Some(i) => i as int == gist_index(gists@, href@, 0) && i < gists@.len(),
            None => gist_index(gists@, href@, 0) == -1,
        },
{
    let mut i: usize = 0;
    while i < gists.len()
        invariant
            i <= gists@.len(),
            gist_index(gists@, href@, 0) == gist_index(gists@, href@, i as int),
        decreases gists.len() - i,
    {
        if same_text(gists[i].url.as_str(), href) {
            return Some(i);
        }
        i = i + 1;
    }
    None
}

/// The index of the snippet set that an iframe with source `href` shows inline.
fn gist_for(gists: &Vec<ResolvedGist>, href: &str) -> (r: Option<usize>)
    ensures
        match r {
            Some(i) => i < gists@.len() && shown_gist(gists@, href@) == Some(gists@[i as int].gist),
            None => shown_gist(gists@, href@) is None,
        },
{
    if str_contains(href, GIST_HOST) {
        find_gist(gists, href)
    } else {
        None
    }
}

fn push_gist_open(g: &RenderedGist, out: &mut String)
    ensures
        final(out)@ == old(out)@ + gist_open(*g),
{
    let ghost out0 = out@;
    out.append("<div class=\"gist_container\">");
    let ghost out1 = out@;
    let mut i: usize = 0;
    while i < g.files_html.len()
        invariant
            i <= g.files_html@.len(),
            out@ == out1 + files_html(g.files_html@.subrange(0, i as int)),
        decreases g.files_html.len() - i,
    {
        out.append("<div class=\"code-block gist-block\">");
        out.append(g.files_html[i].as_str());
        out.append("</div>");
        proof {
            let f = g.files_html@.subrange(0, i as int + 1);
            assert(f.drop_last() =~= g.files_html@.subrange(0, i as int));
        }
        i = i + 1;
    }
    assert(g.files_html@.subrange(0, g.files_html@.len() as int) =~= g.files_html@);
    out.append("<a class=\"gist_link\" href=\"");
    out.append(g.html_url.as_str());
    out.append("\" target=\"_blank\">See gist on GitHub</a>");
    assert(out@ =~= out0 + gist_open(*g));
}

/// Writes the opening HTML of a paragraph; list items open their wrapper when none
/// is open.
pub fn push_block_open(
    p: &Paragraph,
    index: usize,
    gists: &Vec<ResolvedGist>,
    state: &mut ListState,
    out: &mut String,
)
    ensures
        final(out)@ == old(out)@ + block_open(*p, index as int, gists@, *old(state)).0,
        *final(state) == block_open(*p, index as int, gists@, *old(state)).1,
{
    let ghost out0 = out@;
    match p.kind {
        BlockKind::Paragraph => out.append("<p>"),
        BlockKind::Preformatted => out.append("<pre>"),
        BlockKind::Blockquote => out.append("<blockquote>"),
        BlockKind::Heading1 => out.append("<h1>"),
        BlockKind::Heading2 => out.append("<h2>"),
        BlockKind::Heading3 => {
            if index != 0 {
                out.append("<h3>");
            }
        },
        BlockKind::Heading4 => out.append("<h4>"),
        BlockKind::Heading5 => out.append("<h5>"),
        BlockKind::Heading6 => out.append("<h6>"),
        BlockKind::Image => match &p.embed {
            Some(EmbedRef::Image { id, width }) => {
                out.append("<figure><img width=\"");
                out.append(decimal_string(*width).as_str());
                out.append("\" src=\"");
                let proxy = Proxy::new();
                out.append(proxy.get_medium_asset(id.as_str()).as_str());
                out.append("\" /> <figcaption>");
            },
            _ => {
                out.append(UNKNOWN_NOTICE);
                out.append("<span>");
            },
        },
        BlockKind::Iframe => match &p.embed {
            Some(EmbedRef::Iframe { href }) => match gist_for(gists, href.as_str()) {
                Some(i) => push_gist_open(&gists[i].gist, out),
                None => {
                    out.append("<iframe src=\"");
                    out.append(href.as_str());
                    out.append("\" frameborder=\"0\">");
                },
            },
            _ => {
                out.append(UNKNOWN_NOTICE);
                out.append("<span>");
            },
        },
        BlockKind::OrderedListItem => {
            if state.in_oli {
                out.append("<li>");
            } else {
                state.in_oli = true;
                out.append("<ol><li>");
            }
        },
        BlockKind::UnorderedListItem => {
            if state.in_uli {
                out.append("<li>");
            } else {
                state.in_uli = true;
                out.append("<ul><li>");
            }
        },
        BlockKind::Unknown => {
            out.append(UNKNOWN_NOTICE);
            out.append("<span>");
        },
    }
    assert(out@ =~= out0 + block_open(*p, index as int, gists@, *old(state)).0);
}

/// Writes the closing HTML of a paragraph.
pub fn push_block_close(p: &Paragraph, index: usize, gists: &Vec<ResolvedGist>, out: &mut String)
    ensures
        final(out)@ == old(out)@ + block_close(*p, index as int, gists@),
{
    let ghost out0 = out@;
    match p.kind {
        BlockKind::Paragraph => out.append("</p>"),
        BlockKind::Preformatted => out.append("</pre>"),
        BlockKind::Blockquote => out.append("</blockquote>"),
        BlockKind::Heading1 => out.append("</h1>"),
        BlockKind::Heading2 => out.append("</h2>"),
        BlockKind::Heading3 => {
            if index != 0 {
                out.append("</h3>");
            }
        },
        BlockKind::Heading4 => out.append("</h4>"),
        BlockKind::Heading5 => out.append("</h5>"),
        BlockKind::Heading6 => out.append("</h6>"),
        BlockKind::Image => match &p.embed {
            Some(EmbedRef::Image { .. }) => out.append("</figcaption></figure>"),
            _ => out.append("</span>"),
        },
        BlockKind::Iframe => match &p.embed {
            Some(EmbedRef::Iframe { href }) => match gist_for(gists, href.as_str()) {
                Some(_) => out.append("</div>"),
                None => out.append("</iframe>"),
            },
            _ => out.append("</span>"),
        },
        BlockKind::OrderedListItem => out.append("</li>"),
        BlockKind::UnorderedListItem => out.append("</li>"),
        BlockKind::Unknown => out.append("</span>"),
    }
    assert(out@ =~= out0 + block_close(*p, index as int, gists@));
}

} // verus!
