use libmedium::block::is_gist_iframe;
use libmedium::cache::get_post_id;
use libmedium::document::{gist_references, render_document};
use libmedium::model::{AnnotationKind, BlockKind, EmbedRef, Paragraph};

fn iframe(href: &str) -> Paragraph {
    Paragraph {
        kind: BlockKind::Iframe,
        text: String::new(),
        annotations: vec![],
        embed: Some(EmbedRef::Iframe { href: href.to_string() }),
    }
}

#[test]
fn block_tags() {
    let cases = [
        ("P", BlockKind::Paragraph),
        ("PRE", BlockKind::Preformatted),
        ("BQ", BlockKind::Blockquote),
        ("H1", BlockKind::Heading1),
        ("H3", BlockKind::Heading3),
        ("H6", BlockKind::Heading6),
        ("IMG", BlockKind::Image),
        ("IFRAME", BlockKind::Iframe),
        ("OLI", BlockKind::OrderedListItem),
        ("ULI", BlockKind::UnorderedListItem),
        ("MIXTAPE_EMBED", BlockKind::Unknown),
        ("p", BlockKind::Unknown),
    ];
    for (tag, kind) in cases.iter() {
        assert_eq!(BlockKind::from_tag(tag), *kind, "tag {tag}");
    }
}

#[test]
fn markup_tags() {
    assert!(matches!(
        AnnotationKind::from_tags("A", Some("LINK"), Some("https://x.org"), None),
        AnnotationKind::Link { href } if href == "https://x.org"
    ));
    assert!(matches!(
        AnnotationKind::from_tags("A", Some("USER"), None, Some("u1")),
        AnnotationKind::UserMention { user_id } if user_id == "u1"
    ));
    assert!(matches!(AnnotationKind::from_tags("A", Some("POST"), Some("h"), None), AnnotationKind::Unknown));
    assert!(matches!(AnnotationKind::from_tags("A", Some("LINK"), None, None), AnnotationKind::Unknown));
    assert!(matches!(AnnotationKind::from_tags("A", None, Some("h"), None), AnnotationKind::Unknown));
    assert!(matches!(AnnotationKind::from_tags("EM", None, None, None), AnnotationKind::Emphasis));
    assert!(matches!(AnnotationKind::from_tags("STRONG", None, None, None), AnnotationKind::Strong));
    assert!(matches!(AnnotationKind::from_tags("CODE", None, None, None), AnnotationKind::Code));
    assert!(matches!(AnnotationKind::from_tags("PRE", None, None, None), AnnotationKind::PreformattedInline));
    assert!(matches!(AnnotationKind::from_tags("STRIKE", None, None, None), AnnotationKind::Unknown));
}

#[test]
fn snippet_references_are_distinct() {
    let doc = vec![
        iframe("https://gist.github.com/u/a"),
        iframe("https://www.youtube.com/embed/x"),
        iframe("https://gist.github.com/u/b?file=x.rs"),
        iframe("https://gist.github.com/u/a"),
        Paragraph { kind: BlockKind::Paragraph, text: "https://gist.github.com/u/c".to_string(), annotations: vec![], embed: None },
    ];
    assert_eq!(
        gist_references(&doc),
        vec!["https://gist.github.com/u/a".to_string(), "https://gist.github.com/u/b?file=x.rs".to_string()]
    );
    assert!(is_gist_iframe("https://gist.github.com/u/a"));
    assert!(!is_gist_iframe("https://example.org/gist"));
}

#[test]
fn post_id_is_after_last_dash() {
    assert_eq!(get_post_id("big-data-small-effort-b62607a43a8c"), "b62607a43a8c");
    assert_eq!(get_post_id("b62607a43a8c"), "b62607a43a8c");
    assert_eq!(get_post_id("ends-"), "");
}

#[test]
fn empty_document_and_empty_text() {
    assert!(render_document(&vec![], &vec![]).is_empty());
    let p = Paragraph { kind: BlockKind::Paragraph, text: String::new(), annotations: vec![], embed: None };
    assert_eq!(render_document(&vec![p], &vec![]), vec!["<p></p>".to_string()]);
}
