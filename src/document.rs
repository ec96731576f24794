use vstd::prelude::*;
use vstd::string::StringExecFns;

use crate::block::{
    block_close, block_open, files_html, gist_index, gist_open, idle, is_gist_iframe, is_gist_ref,
    list_close, list_flush, push_block_close, push_block_open, push_list_close, shown_gist, ListState,
};
use crate::text::same_text;
use crate::highlight::{highlighted_snippet, Bundled, SourcegraphQuery};
use crate::model::{
    html_content_of, BlockKind, EmbedRef, GistContent, Paragraph, RenderedGist, ResolvedGist,
};
use crate::resolver::{body_html, lemma_body_plain, render_body};

verus! {

/// `rendered` shows the snippet set `gist`: the same page, and each file's content as
/// shown on a page, coloured, in order.
pub open spec fn renders_gist(rendered: RenderedGist, gist: GistContent) -> bool {
    &&& rendered.html_url@ == gist.html_url@
    &&& rendered.files_html@.len() == gist.files@.len()
    &&& forall|i: int|
        0 <= i < gist.files@.len() ==> #[trigger] rendered.files_html@[i]@ == highlighted_snippet(
            gist.files@[i].file_name@,
            html_content_of(gist.files@[i].content@),
        )
}

/// `resolved` holds, in order and under the same references, the rendered sets of `gists`.
pub open spec fn renders_gists(resolved: Seq<ResolvedGist>, gists: Seq<(String, GistContent)>) -> bool {
    &&& resolved.len() == gists.len()
    &&& forall|i: int|
        0 <= i < gists.len() ==> #[trigger] resolved[i].url@ == gists[i].0@ && renders_gist(
            resolved[i].gist,
            gists[i].1,
        )
}

/// The snippet reference of an iframe paragraph that embeds a hosted snippet set.
pub open spec fn gist_ref_of(p: Paragraph) -> Option<Seq<char>> {
    if p.kind == BlockKind::Iframe {
        match p.embed {
            Some(EmbedRef::Iframe { href }) => if is_gist_ref(href@) {
                Some(href@)
            } else {
                None
            },
            _ => None,
        }
    } else {
        None
    }
}

/// Every reference in `refs` is the snippet reference of one of the first `j` paragraphs.
#[verifier::opaque]
pub open spec fn refs_from(doc: Seq<Paragraph>, refs: Seq<String>, j: int) -> bool {
    forall|i: int|
        #![trigger refs[i]]
        0 <= i < refs.len() ==> exists|m: int| 0 <= m < j && #[trigger] gist_ref_of(doc[m]) == Some(refs[i]@)
}

/// The snippet reference of each of the first `j` paragraphs is in `refs`.
#[verifier::opaque]
pub open spec fn refs_cover(doc: Seq<Paragraph>, refs: Seq<String>, j: int) -> bool {
    forall|m: int|
        0 <= m < j && (#[trigger] gist_ref_of(doc[m])) is Some ==> exists|i: int|
            0 <= i < refs.len() && gist_ref_of(doc[m]) == Some(#[trigger] refs[i]@)
}

/// No reference stands twice in `refs`.
#[verifier::opaque]
pub open spec fn refs_distinct(refs: Seq<String>) -> bool {
    forall|i: int, k: int| 0 <= i < k < refs.len() ==> refs[i]@ != refs[k]@
}

/// Adds `href` to `refs` unless it is there already.
fn note_reference(refs: &mut Vec<String>, href: &String)
    ensures
        (exists|k: int| 0 <= k < old(refs)@.len() && #[trigger] old(refs)@[k]@ == href@) ==> final(refs)@ == old(refs)@,
        !(exists|k: int| 0 <= k < old(refs)@.len() && #[trigger] old(refs)@[k]@ == href@) ==> final(refs)@ == old(refs)@.push(*href),
{
    let mut i: usize = 0;
    while i < refs.len()
        invariant
            i <= refs@.len(),
            refs@ == old(refs)@,
            forall|k: int| 0 <= k < i ==> #[trigger] refs@[k]@ != href@,
        decreases refs.len() - i,
    {
        if same_text(refs[i].as_str(), href.as_str()) {
            return;
        }
        i = i + 1;
    }
    refs.push(href.clone());
}

proof fn lemma_noted(doc: Seq<Paragraph>, before: Seq<String>, after: Seq<String>, j: int, href: String)
    requires
        0 <= j < doc.len(),
        gist_ref_of(doc[j]) == Some(href@),
        refs_from(doc, before, j),
        refs_cover(doc, before, j),
        refs_distinct(before),
        (exists|k: int| 0 <= k < before.len() && #[trigger] before[k]@ == href@) ==> after == before,
        !(exists|k: int| 0 <= k < before.len() && #[trigger] before[k]@ == href@) ==> after == before.push(href),
    ensures
        refs_from(doc, after, j + 1),
        refs_cover(doc, after, j + 1),
        refs_distinct(after),
{
    reveal(refs_from);
    reveal(refs_cover);
    reveal(refs_distinct);
    assert forall|i: int| #![trigger after[i]] 0 <= i < after.len() implies exists|m: int|
        0 <= m < j + 1 && #[trigger] gist_ref_of(doc[m]) == Some(after[i]@) by {
        if i < before.len() {
            assert(after[i] == before[i]);
            let m = choose|m: int| 0 <= m < j && #[trigger] gist_ref_of(doc[m]) == Some(before[i]@);
        } else {
            assert(gist_ref_of(doc[j]) == Some(after[i]@));
        }
    }
    assert forall|m: int| 0 <= m < j + 1 && (#[trigger] gist_ref_of(doc[m])) is Some implies exists|i: int|
        0 <= i < after.len() && gist_ref_of(doc[m]) == Some(#[trigger] after[i]@) by {
        if m < j {
            let i = choose|i: int| 0 <= i < before.len() && gist_ref_of(doc[m]) == Some(#[trigger] before[i]@);
            assert(after[i] == before[i]);
        } else if exists|k: int| 0 <= k < before.len() && #[trigger] before[k]@ == href@ {
            let k = choose|k: int| 0 <= k < before.len() && #[trigger] before[k]@ == href@;
            assert(after[k]@ == href@);
        } else {
            assert(after[before.len() as int]@ == href@);
        }
    }
    assert forall|i: int, k: int| 0 <= i < k < after.len() implies after[i]@ != after[k]@ by {
        if k >= before.len() {
            assert(after[k]@ == href@);
            assert(after[i] == before[i]);
        }
    }
}

proof fn lemma_not_a_reference(doc: Seq<Paragraph>, refs: Seq<String>, j: int)
    requires
        0 <= j < doc.len(),
        gist_ref_of(doc[j]) is None,
        refs_from(doc, refs, j),
        refs_cover(doc, refs, j),
    ensures
        refs_from(doc, refs, j + 1),
        refs_cover(doc, refs, j + 1),
{
    reveal(refs_from);
    reveal(refs_cover);
    assert forall|i: int| #![trigger refs[i]] 0 <= i < refs.len() implies exists|m: int|
        0 <= m < j + 1 && #[trigger] gist_ref_of(doc[m]) == Some(refs[i]@) by {
        let m = choose|m: int| 0 <= m < j && #[trigger] gist_ref_of(doc[m]) == Some(refs[i]@);
    }
}

/// The distinct snippet references of a document, each to be resolved once before the
/// document is rendered.
pub fn gist_references(doc: &Vec<Paragraph>) -> (r: Vec<String>)
    ensures
        refs_from(doc@, r@, doc@.len() as int),
        refs_cover(doc@, r@, doc@.len() as int),
        refs_distinct(r@),
{
    let mut refs: Vec<String> = Vec::new();
    let mut j: usize = 0;
    proof {
        reveal(refs_from);
        reveal(refs_cover);
        reveal(refs_distinct);
    }
    while j < doc.len()
        invariant
            j <= doc@.len(),
            refs_from(doc@, refs@, j as int),
            refs_cover(doc@, refs@, j as int),
            refs_distinct(refs@),
        decreases doc.len() - j,
    {
        let p = &doc[j];
        let ghost before = refs@;
        let mut found: Option<&String> = None;
        if p.kind == BlockKind::Iframe {
            if let Some(EmbedRef::Iframe { href }) = &p.embed {
                if is_gist_iframe(href.as_str()) {
                    found = Some(href);
                }
            }
        }
        match found {
            Some(href) => {
                assert(gist_ref_of(doc@[j as int]) == Some(href@));
                note_reference(&mut refs, href);
                proof {
                    lemma_noted(doc@, before, refs@, j as int, *href);
                }
            },
            None => {
                proof {
                    lemma_not_a_reference(doc@, refs@, j as int);
                }
            },
        }
        j = j + 1;
    }
    refs
}

/// The resolved snippet sets, none when there are none.
pub open spec fn gist_list(gists: Option<Vec<(String, GistContent)>>) -> Seq<(String, GistContent)> {
    match gists {
        Some(g) => g@,
        None => Seq::<(String, GistContent)>::empty(),
    }
}

/// Colours every file of a snippet set.
pub fn render_gist(gist: &GistContent) -> (r: RenderedGist)
    ensures
        renders_gist(r, *gist),
{
    let bundled = Bundled::load();
    let mut files_html: Vec<String> = Vec::new();
    let mut i: usize = 0;
    while i < gist.files.len()
        invariant
            i <= gist.files@.len(),
            files_html@.len() == i,
            forall|j: int|
                0 <= j < i ==> #[trigger] files_html@[j]@ == highlighted_snippet(
                    gist.files@[j].file_name@,
                    html_content_of(gist.files@[j].content@),
                ),
        decreases gist.files.len() - i,
    {
        let file = &gist.files[i];
        let code = file.get_html_content();
        let query = SourcegraphQuery { filepath: file.file_name.as_str(), code: code.as_str() };
        let html = query.highlight_with(&bundled);
        files_html.push(html);
        i = i + 1;
    }
    RenderedGist { files_html, html_url: gist.html_url.clone() }
}

/// Renders a post into one HTML fragment per paragraph, with the snippet sets resolved
/// for its iframes, each under the reference it was resolved for, coloured first.
pub fn apply_markup(doc: &Vec<Paragraph>, gists: &Option<Vec<(String, GistContent)>>) -> (r: Vec<String>)
    ensures
        r@.len() == doc@.len(),
        exists|resolved: Seq<ResolvedGist>|
            #[trigger] renders_gists(resolved, gist_list(*gists)) && forall|i: int|
                0 <= i < r@.len() ==> #[trigger] r@[i]@ == render_spec(doc@, resolved)[i],
{
    let mut resolved: Vec<ResolvedGist> = Vec::new();
    let ghost all = gist_list(*gists);
    match gists {
        Some(g) => {
            let mut i: usize = 0;
            while i < g.len()
                invariant
                    i <= g@.len(),
                    all == g@,
                    resolved@.len() == i,
                    forall|j: int|
                        0 <= j < i ==> #[trigger] resolved@[j].url@ == all[j].0@ && renders_gist(
                            resolved@[j].gist,
                            all[j].1,
                        ),
                decreases g.len() - i,
            {
                let gist = render_gist(&g[i].1);
                resolved.push(ResolvedGist { url: g[i].0.clone(), gist });
                i = i + 1;
            }
        },
        None => {},
    }
    let r = render_document(doc, &resolved);
    assert(renders_gists(resolved@, all));
    r
}

/// A heading of level three that opens a document repeats the page title: it is
/// left out.
pub open spec fn is_suppressed(p: Paragraph, index: int) -> bool {
    p.kind == BlockKind::Heading3 && index == 0
}

/// The fragment of one paragraph at position `index`, given the list state before
/// it, and the list state after it.
pub open spec fn paragraph_html(p: Paragraph, index: int, gists: Seq<ResolvedGist>, s: ListState) -> (Seq<char>, ListState) {
    if is_suppressed(p, index) {
        (Seq::<char>::empty(), s)
    } else {
        let (lc, s1) = list_close(s, p.kind);
        let (op, s2) = block_open(p, index, gists, s1);
        (lc + op + body_html(p.annotations@, p.text@) + block_close(p, index, gists), s2)
    }
}

/// The fragments of the first `n` paragraphs, and the list state after them.
pub open spec fn render_upto(doc: Seq<Paragraph>, gists: Seq<ResolvedGist>, n: int) -> (Seq<Seq<char>>, ListState)
    decreases n,
{
    if n <= 0 {
        (Seq::<Seq<char>>::empty(), idle())
    } else {
        let (fs, s) = render_upto(doc, gists, n - 1);
        let (h, s2) = paragraph_html(doc[n - 1], n - 1, gists, s);
        (fs.push(h), s2)
    }
}

/// The fragments of a document, one per paragraph; a list still open at the end is
/// closed at the end of the last fragment.
pub open spec fn render_spec(doc: Seq<Paragraph>, gists: Seq<ResolvedGist>) -> Seq<Seq<char>> {
    let (fs, s) = render_upto(doc, gists, doc.len() as int);
    if fs.len() == 0 {
        fs
    } else {
        fs.update(fs.len() - 1, fs.last() + list_flush(s))
    }
}

/// Renders one paragraph and moves the list state on.
pub fn render_paragraph(p: &Paragraph, index: usize, gists: &Vec<ResolvedGist>, state: &mut ListState) -> (r: String)
    ensures
        r@ == paragraph_html(*p, index as int, gists@, *old(state)).0,
        *final(state) == paragraph_html(*p, index as int, gists@, *old(state)).1,
{
    let mut out = String::new();
    if p.kind == BlockKind::Heading3 && index == 0 {
        return out;
    }
    push_list_close(state, p.kind, &mut out);
    push_block_open(p, index, gists, state, &mut out);
    let body = render_body(&p.annotations, p.text.as_str());
    out.append(body.as_str());
    push_block_close(p, index, gists, &mut out);
    proof {
        let s = *old(state);
        let (lc, s1) = list_close(s, p.kind);
        let (op, s2) = block_open(*p, index as int, gists@, s1);
        assert(out@ =~= lc + op + body_html(p.annotations@, p.text@) + block_close(*p, index as int, gists@));
    }
    out
}

/// Renders a document into one HTML fragment per paragraph. `gists` holds the snippet
/// sets resolved for the document's iframes, each under the iframe source it serves.
pub fn render_document(doc: &Vec<Paragraph>, gists: &Vec<ResolvedGist>) -> (r: Vec<String>)
    ensures
        r@.len() == doc@.len(),
        forall|i: int| 0 <= i < r@.len() ==> #[trigger] r@[i]@ == render_spec(doc@, gists@)[i],
{
    let mut out: Vec<String> = Vec::new();
    let mut state = ListState::default();
    let mut i: usize = 0;
    while i < doc.len()
        invariant
            i <= doc@.len(),
            out@.len() == i,
            forall|j: int| 0 <= j < i ==> #[trigger] out@[j]@ == render_upto(doc@, gists@, i as int).0[j],
            render_upto(doc@, gists@, i as int).0.len() == i,
            state == render_upto(doc@, gists@, i as int).1,
        decreases doc.len() - i,
    {
        let frag = render_paragraph(&doc[i], i, gists, &mut state);
        out.push(frag);
        i = i + 1;
        proof {
            let prev = render_upto(doc@, gists@, i as int - 1).0;
            assert forall|j: int| 0 <= j < i implies #[trigger] out@[j]@ == render_upto(doc@, gists@, i as int).0[j] by {
                if j < i - 1 {
                    assert(render_upto(doc@, gists@, i as int).0[j] == prev[j]);
                }
            }
        }
    }
    let n = out.len();
    let ghost before = out@;
    if n > 0 {
        let mut last = out.pop().unwrap();
        let mut flush = String::new();
        let mut st = state;
        push_list_close(&mut st, BlockKind::Paragraph, &mut flush);
        last.append(flush.as_str());
        out.push(last);
        proof {
            let spec = render_spec(doc@, gists@);
            assert forall|i: int| 0 <= i < out@.len() implies #[trigger] out@[i]@ == spec[i] by {
                if i < n - 1 {
                    assert(out@[i] == before[i]);
                }
            }
        }
    }
    out
}

pub open spec fn is_list_item(k: BlockKind) -> bool {
    k == BlockKind::OrderedListItem || k == BlockKind::UnorderedListItem
}

/// The list state after a paragraph of kind `k`.
pub open spec fn state_after(k: BlockKind) -> ListState {
    if k == BlockKind::OrderedListItem {
        ListState { in_uli: false, in_oli: true }
    } else if k == BlockKind::UnorderedListItem {
        ListState { in_uli: true, in_oli: false }
    } else {
        idle()
    }
}

proof fn lemma_paragraph_state(p: Paragraph, index: int, gists: Seq<ResolvedGist>, s: ListState)
    requires
        s == idle() || s == state_after(BlockKind::OrderedListItem) || s == state_after(
            BlockKind::UnorderedListItem,
        ),
        is_suppressed(p, index) ==> s == idle(),
    ensures
        paragraph_html(p, index, gists, s).1 == state_after(p.kind),
{
    if !is_suppressed(p, index) {
        let s1 = list_close(s, p.kind).1;
        match p.kind {
            BlockKind::OrderedListItem => {
                assert(!s1.in_uli);
            },
            BlockKind::UnorderedListItem => {
                assert(!s1.in_oli);
            },
            _ => {
                assert(s1 == idle());
            },
        }
    }
}

proof fn lemma_state_tracks(doc: Seq<Paragraph>, gists: Seq<ResolvedGist>, j: int)
    requires
        0 <= j < doc.len(),
    ensures
        render_upto(doc, gists, j + 1).1 == state_after(doc[j].kind),
        render_upto(doc, gists, j).1 == idle() || render_upto(doc, gists, j).1 == state_after(
            BlockKind::OrderedListItem,
        ) || render_upto(doc, gists, j).1 == state_after(BlockKind::UnorderedListItem),
    decreases j,
{
    if j > 0 {
        lemma_state_tracks(doc, gists, j - 1);
    }
    let (fs, st) = render_upto(doc, gists, j);
    lemma_paragraph_state(doc[j], j, gists, st);
}

proof fn lemma_upto_len(doc: Seq<Paragraph>, gists: Seq<ResolvedGist>, m: int)
    requires
        0 <= m,
    ensures
        render_upto(doc, gists, m).0.len() == m,
    decreases m,
{
    if m > 0 {
        lemma_upto_len(doc, gists, m - 1);
    }
}

/// A fragment, once rendered, is not changed by the paragraphs after it.
proof fn lemma_upto_prefix(doc: Seq<Paragraph>, gists: Seq<ResolvedGist>, j: int, m: int)
    requires
        0 <= j < m,
    ensures
        render_upto(doc, gists, m).0[j] == render_upto(doc, gists, j + 1).0[j],
    decreases m,
{
    lemma_upto_len(doc, gists, m - 1);
    if m > j + 1 {
        lemma_upto_prefix(doc, gists, j, m - 1);
    }
}

/// The fragment at `j` before any closing of lists at the end of the document.
proof fn lemma_fragment(doc: Seq<Paragraph>, gists: Seq<ResolvedGist>, j: int)
    requires
        0 <= j < doc.len(),
        j < doc.len() - 1 || list_flush(state_after(doc[j].kind)) == Seq::<char>::empty(),
    ensures
        render_spec(doc, gists)[j] == paragraph_html(doc[j], j, gists, render_upto(doc, gists, j).1).0,
{
    let n = doc.len() as int;
    lemma_upto_len(doc, gists, n);
    lemma_upto_len(doc, gists, j);
    lemma_upto_prefix(doc, gists, j, n);
    lemma_state_tracks(doc, gists, j);
    let fs = render_upto(doc, gists, n).0;
    assert(render_upto(doc, gists, j + 1).0[j] == paragraph_html(doc[j], j, gists, render_upto(doc, gists, j).1).0);
    if j < n - 1 {
        assert(render_spec(doc, gists)[j] == fs[j]);
    }
    if j == n - 1 {
        lemma_state_tracks(doc, gists, n - 1);
        let fs = render_upto(doc, gists, n).0;
        assert(fs.last() + list_flush(render_upto(doc, gists, n).1) =~= fs.last());
    }
}

/// A paragraph without annotations renders as its opening HTML, its text exactly as
/// it is, and its closing HTML.
pub proof fn lemma_plain_paragraph(p: Paragraph, index: int, gists: Seq<ResolvedGist>, s: ListState)
    requires
        p.annotations@.len() == 0,
        p.text@.len() <= usize::MAX,
        !is_suppressed(p, index),
    ensures
        paragraph_html(p, index, gists, s).0 == list_close(s, p.kind).0 + block_open(
            p,
            index,
            gists,
            list_close(s, p.kind).1,
        ).0 + p.text@ + block_close(p, index, gists),
{
    lemma_body_plain(p.annotations@, p.text@);
}

/// Two lists of rendered snippet sets that show the same things.
pub open spec fn same_gists(r1: Seq<ResolvedGist>, r2: Seq<ResolvedGist>) -> bool {
    &&& r1.len() == r2.len()
    &&& forall|i: int|
        0 <= i < r1.len() ==> {
            &&& (#[trigger] r1[i]).url@ == r2[i].url@
            &&& r1[i].gist.html_url@ == r2[i].gist.html_url@
            &&& r1[i].gist.files_html@.len() == r2[i].gist.files_html@.len()
            &&& forall|j: int|
                0 <= j < r1[i].gist.files_html@.len() ==> (#[trigger] r1[i].gist.files_html@[j])@
                    == r2[i].gist.files_html@[j]@
        }
}

proof fn lemma_gist_index_same(r1: Seq<ResolvedGist>, r2: Seq<ResolvedGist>, href: Seq<char>, i: int)
    requires
        same_gists(r1, r2),
    ensures
        gist_index(r1, href, i) == gist_index(r2, href, i),
    decreases r1.len() - i,
{
    if 0 <= i < r1.len() {
        assert(r1[i].url@ == r2[i].url@);
        lemma_gist_index_same(r1, r2, href, i + 1);
    }
}

proof fn lemma_gist_index_range(r: Seq<ResolvedGist>, href: Seq<char>, i: int)
    ensures
        gist_index(r, href, i) == -1 || (0 <= gist_index(r, href, i) < r.len()),
    decreases r.len() - i,
{
    if 0 <= i < r.len() {
        lemma_gist_index_range(r, href, i + 1);
    }
}

proof fn lemma_files_html_same(f1: Seq<String>, f2: Seq<String>)
    requires
        f1.len() == f2.len(),
        forall|j: int| 0 <= j < f1.len() ==> (#[trigger] f1[j])@ == f2[j]@,
    ensures
        files_html(f1) == files_html(f2),
    decreases f1.len(),
{
    if f1.len() > 0 {
        let d1 = f1.drop_last();
        let d2 = f2.drop_last();
        assert forall|j: int| 0 <= j < d1.len() implies (#[trigger] d1[j])@ == d2[j]@ by {
            assert(d1[j] == f1[j] && d2[j] == f2[j]);
        }
        lemma_files_html_same(d1, d2);
        assert(f1.last()@ == f2.last()@);
    }
}

proof fn lemma_paragraph_same(p: Paragraph, index: int, r1: Seq<ResolvedGist>, r2: Seq<ResolvedGist>, s: ListState)
    requires
        same_gists(r1, r2),
    ensures
        paragraph_html(p, index, r1, s) == paragraph_html(p, index, r2, s),
{
    if let Some(EmbedRef::Iframe { href }) = p.embed {
        lemma_gist_index_same(r1, r2, href@, 0);
        lemma_gist_index_range(r1, href@, 0);
        let k = gist_index(r1, href@, 0);
        if 0 <= k < r1.len() {
            let g1 = r1[k].gist;
            let g2 = r2[k].gist;
            assert(g1.files_html@.len() == g2.files_html@.len());
            assert forall|j: int| 0 <= j < g1.files_html@.len() implies (#[trigger] g1.files_html@[j])@
                == g2.files_html@[j]@ by {
                assert(r1[k].gist.files_html@[j]@ == r2[k].gist.files_html@[j]@);
            }
            lemma_files_html_same(g1.files_html@, g2.files_html@);
            assert(g1.html_url@ == g2.html_url@);
            assert(gist_open(g1) == gist_open(g2));
        }
        assert(shown_gist(r1, href@) is Some <==> shown_gist(r2, href@) is Some);
    }
    let s1 = list_close(s, p.kind).1;
    assert(block_open(p, index, r1, s1) == block_open(p, index, r2, s1));
    assert(block_close(p, index, r1) == block_close(p, index, r2));
}

proof fn lemma_upto_same(doc: Seq<Paragraph>, r1: Seq<ResolvedGist>, r2: Seq<ResolvedGist>, n: int)
    requires
        same_gists(r1, r2),
    ensures
        render_upto(doc, r1, n) == render_upto(doc, r2, n),
    decreases n,
{
    if n > 0 {
        lemma_upto_same(doc, r1, r2, n - 1);
        let s = render_upto(doc, r1, n - 1).1;
        lemma_paragraph_same(doc[n - 1], n - 1, r1, r2, s);
    }
}

/// Rendering depends on the document and on what the resolved snippet sets show alone:
/// two renderings of the same post and the same snippet sets, each file coloured as
/// `apply_markup` colours it, are identical.
pub proof fn lemma_render_repeatable(
    doc: Seq<Paragraph>,
    gists: Seq<(String, GistContent)>,
    first: Seq<ResolvedGist>,
    second: Seq<ResolvedGist>,
)
    requires
        renders_gists(first, gists),
        renders_gists(second, gists),
    ensures
        render_spec(doc, first) == render_spec(doc, second),
{
    assert forall|i: int| 0 <= i < first.len() implies {
        &&& (#[trigger] first[i]).url@ == second[i].url@
        &&& first[i].gist.html_url@ == second[i].gist.html_url@
        &&& first[i].gist.files_html@.len() == second[i].gist.files_html@.len()
        &&& forall|j: int|
            0 <= j < first[i].gist.files_html@.len() ==> (#[trigger] first[i].gist.files_html@[j])@
                == second[i].gist.files_html@[j]@
    } by {
        assert(first[i].url@ == gists[i].0@);
        assert(second[i].url@ == gists[i].0@);
        assert(renders_gist(first[i].gist, gists[i].1));
        assert(renders_gist(second[i].gist, gists[i].1));
    }
    lemma_upto_same(doc, first, second, doc.len() as int);
}

/// A run of `n` ordered list items, followed by a paragraph that is no list item: the
/// first item opens the one `<ol>` (after closing an unordered list just before it, if
/// any), every item is one `<li>` pair, and the one `</ol>` stands right before the
/// opening HTML of the paragraph after the run.
#[verifier::rlimit(50)]
pub proof fn lemma_ordered_run(doc: Seq<Paragraph>, gists: Seq<ResolvedGist>, i: int, n: int)
    requires
        0 <= i,
        1 <= n,
        i + n < doc.len(),
        forall|j: int| i <= j < i + n ==> (#[trigger] doc[j]).kind == BlockKind::OrderedListItem,
        !is_list_item(doc[i + n].kind),
        i == 0 || doc[i - 1].kind != BlockKind::OrderedListItem,
    ensures
        render_spec(doc, gists)[i] == (if i > 0 && doc[i - 1].kind == BlockKind::UnorderedListItem {
            "</ul>"@
        } else {
            Seq::<char>::empty()
        }) + "<ol><li>"@ + body_html(doc[i].annotations@, doc[i].text@) + "</li>"@,
        forall|j: int|
            i < j < i + n ==> #[trigger] render_spec(doc, gists)[j] == "<li>"@ + body_html(
                doc[j].annotations@,
                doc[j].text@,
            ) + "</li>"@,
        render_spec(doc, gists)[i + n] == "</ol>"@ + block_open(doc[i + n], i + n, gists, idle()).0
            + body_html(doc[i + n].annotations@, doc[i + n].text@) + block_close(
            doc[i + n],
            i + n,
            gists,
        ),
{
    assert(doc[i].kind == BlockKind::OrderedListItem);
    lemma_fragment(doc, gists, i);
    if i > 0 {
        lemma_state_tracks(doc, gists, i - 1);
    }
    if i > 0 && doc[i - 1].kind == BlockKind::UnorderedListItem {
        assert(render_upto(doc, gists, i).1 == state_after(BlockKind::UnorderedListItem));
        assert(Seq::<char>::empty() + "</ul>"@ =~= "</ul>"@);
    } else {
        assert(render_upto(doc, gists, i).1 == idle());
        assert(Seq::<char>::empty() + Seq::<char>::empty() =~= Seq::<char>::empty());
    }
    assert(Seq::<char>::empty() + "<ol><li>"@ =~= "<ol><li>"@);
    assert forall|j: int| i < j < i + n implies #[trigger] render_spec(doc, gists)[j] == "<li>"@
        + body_html(doc[j].annotations@, doc[j].text@) + "</li>"@ by {
        assert(doc[j].kind == BlockKind::OrderedListItem);
        assert(doc[j - 1].kind == BlockKind::OrderedListItem);
        lemma_fragment(doc, gists, j);
        lemma_state_tracks(doc, gists, j - 1);
        assert(Seq::<char>::empty() + "<li>"@ =~= "<li>"@);
    }
    let last = i + n;
    assert(doc[last - 1].kind == BlockKind::OrderedListItem);
    lemma_state_tracks(doc, gists, last - 1);
    lemma_state_tracks(doc, gists, last);
    assert(list_flush(idle()) =~= Seq::<char>::empty());
    lemma_fragment(doc, gists, last);
    assert(("</ol>"@ + Seq::<char>::empty()) =~= "</ol>"@);
}

/// In a document, a paragraph without annotations renders as its opening HTML (after
/// closing any list it does not continue), its text exactly as it is, and its closing
/// HTML. The last paragraph of a document, when it is a list item, also closes its
/// list after that.
pub proof fn lemma_plain_fragment(doc: Seq<Paragraph>, gists: Seq<ResolvedGist>, i: int)
    requires
        0 <= i < doc.len(),
        doc[i].annotations@.len() == 0,
        doc[i].text@.len() <= usize::MAX,
        !is_suppressed(doc[i], i),
        i < doc.len() - 1 || !is_list_item(doc[i].kind),
    ensures
        render_spec(doc, gists)[i] == list_close(render_upto(doc, gists, i).1, doc[i].kind).0
            + block_open(
            doc[i],
            i,
            gists,
            list_close(render_upto(doc, gists, i).1, doc[i].kind).1,
        ).0 + doc[i].text@ + block_close(doc[i], i, gists),
{
    assert(list_flush(idle()) =~= Seq::<char>::empty());
    lemma_fragment(doc, gists, i);
    lemma_plain_paragraph(doc[i], i, gists, render_upto(doc, gists, i).1);
}

/// A document that opens with a heading of level three renders that paragraph as an
/// empty fragment, whatever its text and annotations.
pub proof fn lemma_leading_heading(doc: Seq<Paragraph>, gists: Seq<ResolvedGist>)
    requires
        doc.len() > 0,
        doc[0].kind == BlockKind::Heading3,
    ensures
        render_spec(doc, gists)[0] == Seq::<char>::empty(),
{
    lemma_state_tracks(doc, gists, 0);
    assert(list_flush(idle()) =~= Seq::<char>::empty());
    lemma_fragment(doc, gists, 0);
}

/// A heading of level three anywhere but first renders as a heading.
pub proof fn lemma_later_heading(doc: Seq<Paragraph>, gists: Seq<ResolvedGist>, j: int)
    requires
        0 < j < doc.len(),
        doc[j].kind == BlockKind::Heading3,
    ensures
        render_spec(doc, gists)[j] == list_close(render_upto(doc, gists, j).1, BlockKind::Heading3).0
            + "<h3>"@ + body_html(doc[j].annotations@, doc[j].text@) + "</h3>"@,
{
    lemma_state_tracks(doc, gists, j);
    assert(list_flush(idle()) =~= Seq::<char>::empty());
    lemma_fragment(doc, gists, j);
}

} // verus!
