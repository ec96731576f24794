use libmedium::block::ListState;
use libmedium::document::{apply_markup, render_document, render_paragraph};
use libmedium::markup::{markup_tag, UNKNOWN_NOTICE};
use libmedium::model::{
    Annotation, AnnotationKind, BlockKind, Edge, EmbedRef, GistContent, GistFile, Paragraph,
    RenderedGist, ResolvedGist,
};
use libmedium::resolver::render_body;

fn ann(kind: AnnotationKind, start: i64, end: i64) -> Annotation {
    Annotation { kind, start, end }
}

fn para(kind: BlockKind, text: &str, annotations: Vec<Annotation>) -> Paragraph {
    Paragraph { kind, text: text.to_string(), annotations, embed: None }
}

#[test]
fn strong_prefix_scenario() {
    let p = para(BlockKind::Paragraph, "Hello world", vec![ann(AnnotationKind::Strong, 0, 5)]);
    let out = render_document(&vec![p], &vec![]);
    assert_eq!(out, vec!["<p><strong>Hello</strong> world</p>".to_string()]);
}

#[test]
fn plain_paragraph_is_open_text_close() {
    let text = "no markup <here> & there";
    let out = render_document(&vec![para(BlockKind::Blockquote, text, vec![])], &vec![]);
    assert_eq!(out[0], format!("<blockquote>{}</blockquote>", text));
}

#[test]
fn nested_annotations_close_in_reverse_order() {
    let p = para(
        BlockKind::Paragraph,
        "abcdef",
        vec![ann(AnnotationKind::Emphasis, 1, 3), ann(AnnotationKind::Strong, 0, 6)],
    );
    let out = render_document(&vec![p], &vec![]);
    assert_eq!(out[0], "<p><strong>a<em>bc</em>def</strong></p>");
}

#[test]
fn shared_boundaries_keep_nesting() {
    let body = render_body(
        &vec![
            ann(AnnotationKind::Strong, 0, 4),
            ann(AnnotationKind::Emphasis, 0, 2),
            ann(AnnotationKind::Code, 2, 4),
        ],
        "abcd",
    );
    assert_eq!(body, "<strong><em>ab</em><code>cd</code></strong>");
}

#[test]
fn crossing_annotations_are_split_to_nest() {
    let body = render_body(
        &vec![ann(AnnotationKind::Strong, 0, 3), ann(AnnotationKind::Emphasis, 2, 5)],
        "abcde",
    );
    assert_eq!(body, "<strong>ab<em>c</em></strong><em>de</em>");
}

#[test]
fn empty_annotation_opens_and_closes_in_place() {
    let body = render_body(&vec![ann(AnnotationKind::Code, 2, 2)], "abcd");
    assert_eq!(body, "ab<code></code>cd");
}

#[test]
fn malformed_annotations_are_skipped() {
    let body = render_body(
        &vec![
            ann(AnnotationKind::Strong, 3, 1),
            ann(AnnotationKind::Emphasis, -1, 2),
            ann(AnnotationKind::Code, 2, 99),
        ],
        "abcd",
    );
    assert_eq!(body, "abcd");
}

#[test]
fn offsets_count_code_points() {
    let body = render_body(&vec![ann(AnnotationKind::Emphasis, 1, 3)], "h\u{e9}\u{1f600}!");
    assert_eq!(body, "h<em>\u{e9}\u{1f600}</em>!");
}

#[test]
fn links_and_mentions() {
    let p = para(
        BlockKind::Paragraph,
        "see bob",
        vec![
            ann(AnnotationKind::Link { href: "https://example.org/x".to_string() }, 0, 3),
            ann(AnnotationKind::UserMention { user_id: "u42".to_string() }, 4, 7),
        ],
    );
    let out = render_document(&vec![p], &vec![]);
    assert_eq!(
        out[0],
        "<p><a rel=\"noreferrer\" href=\"https://example.org/x\">see</a> <a rel=\"noreferrer\" href=\"https://medium.com/u/u42\">bob</a></p>"
    );
}

#[test]
fn unknown_markup_shows_notice() {
    assert_eq!(markup_tag(&AnnotationKind::Unknown, Edge::Open), format!("{}<span>", UNKNOWN_NOTICE));
    assert_eq!(markup_tag(&AnnotationKind::Unknown, Edge::Close), "</span>");
    assert_eq!(markup_tag(&AnnotationKind::PreformattedInline, Edge::Open), "<pre>");
    let out = render_document(&vec![para(BlockKind::Unknown, "x", vec![])], &vec![]);
    assert_eq!(out[0], format!("{}<span>x</span>", UNKNOWN_NOTICE));
}

#[test]
fn rendering_twice_is_identical() {
    let doc = vec![
        para(BlockKind::Heading1, "Title", vec![ann(AnnotationKind::Emphasis, 0, 2)]),
        para(BlockKind::OrderedListItem, "one", vec![]),
        para(BlockKind::Paragraph, "tail", vec![ann(AnnotationKind::Code, 1, 3)]),
    ];
    let first = render_document(&doc, &vec![]);
    let second = render_document(&doc, &vec![]);
    assert_eq!(first, second);
}

#[test]
fn ordered_run_has_one_wrapper() {
    let doc = vec![
        para(BlockKind::Paragraph, "intro", vec![]),
        para(BlockKind::OrderedListItem, "a", vec![]),
        para(BlockKind::OrderedListItem, "b", vec![]),
        para(BlockKind::OrderedListItem, "c", vec![]),
        para(BlockKind::Paragraph, "after", vec![]),
    ];
    let out = render_document(&doc, &vec![]);
    assert_eq!(
        out,
        vec![
            "<p>intro</p>",
            "<ol><li>a</li>",
            "<li>b</li>",
            "<li>c</li>",
            "</ol><p>after</p>",
        ]
    );
    assert_eq!(out.concat().matches("<ol>").count(), 1);
    assert_eq!(out.concat().matches("</ol>").count(), 1);
}

#[test]
fn switching_list_kinds_closes_the_first() {
    let doc = vec![
        para(BlockKind::UnorderedListItem, "a", vec![]),
        para(BlockKind::OrderedListItem, "b", vec![]),
    ];
    let out = render_document(&doc, &vec![]);
    assert_eq!(out, vec!["<ul><li>a</li>", "</ul><ol><li>b</li></ol>"]);
}

#[test]
fn list_open_at_end_is_flushed() {
    let doc = vec![para(BlockKind::UnorderedListItem, "only", vec![])];
    let out = render_document(&doc, &vec![]);
    assert_eq!(out, vec!["<ul><li>only</li></ul>"]);
}

#[test]
fn leading_heading_is_suppressed() {
    let doc = vec![
        para(BlockKind::Heading3, "Title", vec![ann(AnnotationKind::Strong, 0, 5)]),
        para(BlockKind::Heading3, "Section", vec![]),
    ];
    let out = render_document(&doc, &vec![]);
    assert_eq!(out, vec!["", "<h3>Section</h3>"]);
}

#[test]
fn heading_levels() {
    let kinds = [
        (BlockKind::Heading1, "h1"),
        (BlockKind::Heading2, "h2"),
        (BlockKind::Heading4, "h4"),
        (BlockKind::Heading5, "h5"),
        (BlockKind::Heading6, "h6"),
        (BlockKind::Preformatted, "pre"),
    ];
    for (kind, tag) in kinds.iter() {
        let out = render_document(&vec![para(*kind, "t", vec![])], &vec![]);
        assert_eq!(out[0], format!("<{tag}>t</{tag}>"));
    }
}

#[test]
fn image_is_proxied() {
    let p = Paragraph {
        kind: BlockKind::Image,
        text: "caption".to_string(),
        annotations: vec![],
        embed: Some(EmbedRef::Image { id: "1*abc.png".to_string(), width: 700 }),
    };
    let out = render_document(&vec![p], &vec![]);
    assert_eq!(
        out[0],
        "<figure><img width=\"700\" src=\"/asset/medium/1*abc.png\" /> <figcaption>caption</figcaption></figure>"
    );
}

#[test]
fn image_without_embed_falls_back() {
    let out = render_document(&vec![para(BlockKind::Image, "c", vec![])], &vec![]);
    assert_eq!(out[0], format!("{}<span>c</span>", UNKNOWN_NOTICE));
}

#[test]
fn foreign_iframe_is_embedded() {
    let p = Paragraph {
        kind: BlockKind::Iframe,
        text: String::new(),
        annotations: vec![],
        embed: Some(EmbedRef::Iframe { href: "https://www.youtube.com/embed/x".to_string() }),
    };
    let out = render_document(&vec![p], &vec![]);
    assert_eq!(out[0], "<iframe src=\"https://www.youtube.com/embed/x\" frameborder=\"0\"></iframe>");
}

#[test]
fn resolved_gist_is_inlined() {
    let href = "https://gist.github.com/someone/abc123";
    let p = Paragraph {
        kind: BlockKind::Iframe,
        text: String::new(),
        annotations: vec![],
        embed: Some(EmbedRef::Iframe { href: href.to_string() }),
    };
    let gists = vec![ResolvedGist {
        url: href.to_string(),
        gist: RenderedGist {
            files_html: vec!["<b>x</b>".to_string(), "y".to_string()],
            html_url: href.to_string(),
        },
    }];
    let out = render_document(&vec![p], &gists);
    assert_eq!(
        out[0],
        format!(
            "<div class=\"gist_container\"><div class=\"code-block gist-block\"><b>x</b></div><div class=\"code-block gist-block\">y</div><a class=\"gist_link\" href=\"{href}\" target=\"_blank\">See gist on GitHub</a></div>"
        )
    );
}

#[test]
fn unresolved_gist_stays_an_iframe() {
    let href = "https://gist.github.com/someone/abc123";
    let p = Paragraph {
        kind: BlockKind::Iframe,
        text: String::new(),
        annotations: vec![],
        embed: Some(EmbedRef::Iframe { href: href.to_string() }),
    };
    let out = render_document(&vec![p], &vec![]);
    assert_eq!(out[0], format!("<iframe src=\"{href}\" frameborder=\"0\"></iframe>"));
}

#[test]
fn gist_scenario_highlights_main_rs() {
    let href = "https://gist.github.com/someone/abc123";
    let p = Paragraph {
        kind: BlockKind::Iframe,
        text: String::new(),
        annotations: vec![],
        embed: Some(EmbedRef::Iframe { href: href.to_string() }),
    };
    let set = GistContent {
        files: vec![GistFile {
            file_name: "main.rs".to_string(),
            content: "fn main() {}".to_string(),
            language: "Rust".to_string(),
            raw_url: "https://gist.githubusercontent.com/someone/abc123/raw/main.rs".to_string(),
        }],
        html_url: href.to_string(),
    };
    let out = apply_markup(&vec![p], &Some(vec![(href.to_string(), set)]));
    let frag = &out[0];
    assert!(frag.starts_with("<div class=\"gist_container\"><div class=\"code-block gist-block\"><style>"));
    assert!(frag.contains("main"));
    assert!(frag.contains("<span"));
    assert!(!frag.contains("fn main() {}"));
    assert!(frag.ends_with(&format!(
        "</div><a class=\"gist_link\" href=\"{href}\" target=\"_blank\">See gist on GitHub</a></div>"
    )));
}

#[test]
fn paragraph_moves_list_state() {
    let mut state = ListState::default();
    let p = para(BlockKind::OrderedListItem, "x", vec![]);
    assert_eq!(render_paragraph(&p, 1, &vec![], &mut state), "<ol><li>x</li>");
    assert!(state.in_oli && !state.in_uli);
    let q = para(BlockKind::Paragraph, "y", vec![]);
    assert_eq!(render_paragraph(&q, 2, &vec![], &mut state), "</ol><p>y</p>");
    assert!(!state.in_oli && !state.in_uli);
}
