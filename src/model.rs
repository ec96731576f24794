use vstd::prelude::*;
use vstd::string::StrSliceExecFns;

use crate::text::{replace_all, replace_all_str, same_text};

verus! {

/// What a paragraph of a post is, as a closed set of block types.
#[derive(Clone, Copy, Debug, PartialEq, Eq, Structural)]
pub enum BlockKind {
    Paragraph,
    Preformatted,
    Blockquote,
    Heading1,
    Heading2,
    Heading3,
    Heading4,
    Heading5,
    Heading6,
    Image,
    Iframe,
    OrderedListItem,
    UnorderedListItem,
    Unknown,
}

/// The block type that an upstream type tag names.
pub open spec fn block_kind_of(tag: Seq<char>) -> BlockKind {
    if tag == "P"@ {
        BlockKind::Paragraph
    } else if tag == "PRE"@ {
        BlockKind::Preformatted
    } else if tag == "BQ"@ {
        BlockKind::Blockquote
    } else if tag == "H1"@ {
        BlockKind::Heading1
    } else if tag == "H2"@ {
        BlockKind::Heading2
    } else if tag == "H3"@ {
        BlockKind::Heading3
    } else if tag == "H4"@ {
        BlockKind::Heading4
    } else if tag == "H5"@ {
        BlockKind::Heading5
    } else if tag == "H6"@ {
        BlockKind::Heading6
    } else if tag == "IMG"@ {
        BlockKind::Image
    } else if tag == "IFRAME"@ {
        BlockKind::Iframe
    } else if tag == "OLI"@ {
        BlockKind::OrderedListItem
    } else if tag == "ULI"@ {
        BlockKind::UnorderedListItem
    } else {
        BlockKind::Unknown
    }
}

impl BlockKind {
    /// The block type of an upstream type tag; a tag not listed is `Unknown`.
    pub fn from_tag(tag: &str) -> (r: BlockKind)
        ensures
            r == block_kind_of(tag@),
    {
        if same_text(tag, "P") {
            BlockKind::Paragraph
        } else if same_text(tag, "PRE") {
            BlockKind::Preformatted
        } else if same_text(tag, "BQ") {
            BlockKind::Blockquote
        } else if same_text(tag, "H1") {
            BlockKind::Heading1
        } else if same_text(tag, "H2") {
            BlockKind::Heading2
        } else if same_text(tag, "H3") {
            BlockKind::Heading3
        } else if same_text(tag, "H4") {
            BlockKind::Heading4
        } else if same_text(tag, "H5") {
            BlockKind::Heading5
        } else if same_text(tag, "H6") {
            BlockKind::Heading6
        } else if same_text(tag, "IMG") {
            BlockKind::Image
        } else if same_text(tag, "IFRAME") {
            BlockKind::Iframe
        } else if same_text(tag, "OLI") {
            BlockKind::OrderedListItem
        } else if same_text(tag, "ULI") {
            BlockKind::UnorderedListItem
        } else {
            BlockKind::Unknown
        }
    }
}

/// The kind of an inline annotation, with the attributes that the kind carries.
#[derive(Clone, Debug)]
pub enum AnnotationKind {
    Link { href: String },
    UserMention { user_id: String },
    Emphasis,
    Strong,
    Code,
    PreformattedInline,
    Unknown,
}

impl AnnotationKind {
    /// The kind of an upstream markup from its type tag, and for an anchor (`A`) its
    /// anchor type: a link needs its `href`, a mention its `user_id`; anything else is
    /// `Unknown`.
    pub fn from_tags(
        type_: &str,
        anchor_type: Option<&str>,
        href: Option<&str>,
        user_id: Option<&str>,
    ) -> (r: AnnotationKind)
        ensures
            type_@ == "A"@ ==> (anchor_type matches Some(t) ==> (t@ == "LINK"@ ==> (href matches Some(h)
                ==> (r matches AnnotationKind::Link { href: x } && x@ == h@)))),
            type_@ == "A"@ ==> (anchor_type matches Some(t) ==> (t@ == "USER"@ ==> (user_id matches Some(u)
                ==> (r matches AnnotationKind::UserMention { user_id: x } && x@ == u@)))),
            type_@ == "A"@ && !(anchor_type matches Some(t) && t@ == "LINK"@ && href is Some) && !(
            anchor_type matches Some(t) && t@ == "USER"@ && user_id is Some) ==> r is Unknown,
            type_@ == "PRE"@ ==> r is PreformattedInline,
            type_@ == "EM"@ ==> r is Emphasis,
            type_@ == "STRONG"@ ==> r is Strong,
            type_@ == "CODE"@ ==> r is Code,
            type_@ != "A"@ && type_@ != "PRE"@ && type_@ != "EM"@ && type_@ != "STRONG"@ && type_@
                != "CODE"@ ==> r is Unknown,
    {
        proof {
            reveal_strlit("A");
            reveal_strlit("LINK");
            reveal_strlit("USER");
            reveal_strlit("PRE");
            reveal_strlit("EM");
            reveal_strlit("STRONG");
            reveal_strlit("CODE");
            assert("A"@.len() == 1 && "PRE"@.len() == 3 && "EM"@.len() == 2 && "STRONG"@.len() == 6
                && "CODE"@.len() == 4);
            assert("PRE"@[0] == 'P' && "CODE"@[0] == 'C');
            assert("LINK"@[0] == 'L' && "USER"@[0] == 'U');
        }
        if same_text(type_, "A") {
            match anchor_type {
                Some(t) => {
                    if same_text(t, "LINK") {
                        match href {
                            Some(h) => AnnotationKind::Link { href: h.to_owned() },
                            None => AnnotationKind::Unknown,
                        }
                    } else if same_text(t, "USER") {
                        match user_id {
                            Some(u) => AnnotationKind::UserMention { user_id: u.to_owned() },
                            None => AnnotationKind::Unknown,
                        }
                    } else {
                        AnnotationKind::Unknown
                    }
                },
                None => AnnotationKind::Unknown,
            }
        } else if same_text(type_, "PRE") {
            AnnotationKind::PreformattedInline
        } else if same_text(type_, "EM") {
            AnnotationKind::Emphasis
        } else if same_text(type_, "STRONG") {
            AnnotationKind::Strong
        } else if same_text(type_, "CODE") {
            AnnotationKind::Code
        } else {
            AnnotationKind::Unknown
        }
    }
}

/// An inline span over a paragraph's text, in code-point offsets `[start, end)`.
/// Offsets come from upstream as they are: they may lie outside the text.
#[derive(Clone, Debug)]
pub struct Annotation {
    pub kind: AnnotationKind,
    pub start: i64,
    pub end: i64,
}

/// Which side of an annotation a tag stands for.
#[derive(Clone, Copy, Debug, PartialEq, Eq, Structural)]
pub enum Edge {
    Open,
    Close,
}

/// Foreign content that an image or iframe paragraph refers to.
#[derive(Clone, Debug)]
pub enum EmbedRef {
    Image { id: String, width: i64 },
    Iframe { href: String },
}

#[derive(Clone, Debug)]
pub struct Paragraph {
    pub kind: BlockKind,
    pub text: String,
    pub annotations: Vec<Annotation>,
    pub embed: Option<EmbedRef>,
}

/// One file of a hosted snippet set.
#[derive(Clone, Debug)]
pub struct GistFile {
    pub file_name: String,
    pub content: String,
    pub language: String,
    pub raw_url: String,
}

/// The content with one surrounding pair of quotes taken off (either may be
/// missing), and each escaped tab `\t` written as two spaces.
pub open spec fn html_content_of(content: Seq<char>) -> Seq<char> {
    let c1 = if content.len() > 0 && content[0] == '"' {
        content.subrange(1, content.len() as int)
    } else {
        content
    };
    let c2 = if c1.len() > 0 && c1.last() == '"' {
        c1.drop_last()
    } else {
        c1
    };
    replace_all(c2, seq!['\\', 't'], seq![' ', ' '])
}

impl GistFile {
    /// The file's content as it is shown on a page.
    pub fn get_html_content(&self) -> (r: String)
        ensures
            r@ == html_content_of(self.content@),
    {
        let c = self.content.as_str();
        let n = c.unicode_len();
        let mut start: usize = 0;
        let mut end: usize = n;
        if n > 0 && c.get_char(0) == '"' {
            start = 1;
        }
        if end > start && c.get_char(end - 1) == '"' {
            end = end - 1;
        }
        let trimmed = c.substring_char(start, end);
        proof {
            reveal_strlit("\\t");
            reveal_strlit("  ");
            assert("\\t"@ =~= seq!['\\', 't']);
            assert("  "@ =~= seq![' ', ' ']);
            let content = self.content@;
            let c1 = if content.len() > 0 && content[0] == '"' {
                content.subrange(1, content.len() as int)
            } else {
                content
            };
            if c1.len() > 0 && c1.last() == '"' {
                assert(c1.drop_last() =~= trimmed@);
            } else {
                assert(c1 =~= trimmed@);
            }
        }
        replace_all_str(trimmed, "\\t", "  ")
    }
}

/// A hosted snippet set: its files, in order, and the page it can be seen on.
#[derive(Clone, Debug)]
pub struct GistContent {
    pub files: Vec<GistFile>,
    pub html_url: String,
}

/// A snippet set made ready for a page: the markup of each file, and the set's page.
#[derive(Clone, Debug)]
pub struct RenderedGist {
    pub files_html: Vec<String>,
    pub html_url: String,
}

/// A snippet set resolved for the snippet reference `url`.
#[derive(Clone, Debug)]
pub struct ResolvedGist {
    pub url: String,
    pub gist: RenderedGist,
}

/// A post's identity as the proxy addresses it.
#[derive(Clone, Debug)]
pub struct PostUrl {
    pub slug: String,
    pub username: String,
}

} // verus!
