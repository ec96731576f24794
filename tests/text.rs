use libmedium::highlight::{escape_html, number_lines, Bundled, LanguageLookup, SourcegraphQuery};
use libmedium::model::GistFile;
use libmedium::routes::{Meta, Proxy, Routes, Server};
use libmedium::text::{decimal_string, replace_all_str, same_text, StringUtils};

#[test]
fn cls_tex() {
    let syntax_set = Bundled::load();
    let query = SourcegraphQuery { filepath: "foo.cls", code: "%" };
    let result = query.determine_language(&syntax_set).unwrap();
    assert_eq!(result, "TeX");
    let _result = query.syntax_highlight();
}

#[test]
fn cls_without_tex_prefix_is_apex() {
    let query = SourcegraphQuery { filepath: "dir/foo.cls", code: "/**" };
    assert!(matches!(query.lookup_plan(), LanguageLookup::Named(n) if n == "Apex"));
}

#[test]
fn lookup_by_file_name_and_extension() {
    let query = SourcegraphQuery { filepath: "src/main.rs", code: "" };
    match query.lookup_plan() {
        LanguageLookup::ByFileName { file_name, extension } => {
            assert_eq!(file_name, "main.rs");
            assert_eq!(extension, "rs");
        }
        _ => panic!("expected a lookup by file name"),
    }
    let dotfile = SourcegraphQuery { filepath: ".bashrc", code: "" };
    match dotfile.lookup_plan() {
        LanguageLookup::ByFileName { file_name, extension } => {
            assert_eq!(file_name, ".bashrc");
            assert_eq!(extension, "");
        }
        _ => panic!("expected a lookup by file name"),
    }
    let none = SourcegraphQuery { filepath: "", code: "#!/bin/sh" };
    assert!(matches!(none.lookup_plan(), LanguageLookup::FirstLine));
}

#[test]
fn highlight_starts_with_theme_style() {
    let query = SourcegraphQuery { filepath: "main.rs", code: "fn main() {}\nlet x = 1;\n" };
    let html = query.syntax_highlight();
    assert!(html.starts_with("<style>.gist_file { background-color:#ffffff; }</style><pre"));
    assert!(html.contains("<div id=\"line-1\" class=\"line\"><a href=\"#line-1\"><span class=\"line-number\">1</span></a>"));
}

#[test]
fn numbering_skips_blank_lines() {
    let lines = vec!["<pre>".to_string(), "  ".to_string(), "a".to_string(), "b".to_string()];
    assert_eq!(
        number_lines(&lines),
        "<pre><div id=\"line-1\" class=\"line\"><a href=\"#line-1\"><span class=\"line-number\">1</span></a>a</div><div id=\"line-2\" class=\"line\"><a href=\"#line-2\"><span class=\"line-number\">2</span></a>b</div>"
    );
}

#[test]
fn languages_by_extension_and_fallback() {
    let bundled = Bundled::load();
    let rust = SourcegraphQuery { filepath: "src/main.rs", code: "fn main() {}" };
    assert_eq!(rust.determine_language(&bundled).unwrap(), "Rust");
    let unknown = SourcegraphQuery { filepath: "notes.zzzz", code: "hello" };
    assert_eq!(unknown.determine_language(&bundled).unwrap(), "Plain Text");
}

#[test]
fn highlighting_is_repeatable_and_keeps_code() {
    let query = SourcegraphQuery { filepath: "a.py", code: "print(1)" };
    let first = query.syntax_highlight();
    assert_eq!(first, query.syntax_highlight());
    assert!(first.contains("print"));
}

#[test]
fn escaping() {
    assert_eq!(escape_html("a<b>&\"c\""), "a&lt;b&gt;&amp;&quot;c&quot;");
}

#[test]
fn html_content_strips_quotes_and_tabs() {
    let f = GistFile {
        file_name: "x".to_string(),
        content: "\"a\\tb\"".to_string(),
        language: String::new(),
        raw_url: String::new(),
    };
    assert_eq!(f.get_html_content(), "a  b");
    let g = GistFile { content: "plain \u{e9}\"".to_string(), ..f.clone() };
    assert_eq!(g.get_html_content(), "plain \u{e9}");
    let h = GistFile { content: "\"".to_string(), ..f };
    assert_eq!(h.get_html_content(), "");
}

#[test]
fn proxy_paths() {
    let proxy = Proxy::new();
    assert_eq!(proxy.get_page("@ftrain", "big-data-b62607a43a8c"), "/@ftrain/big-data-b62607a43a8c");
    assert_eq!(proxy.get_medium_asset("1*LY2ohYsNa9nOV1Clko3zJA.png"), "/asset/medium/1*LY2ohYsNa9nOV1Clko3zJA.png");
    let routes = Routes::new();
    assert_eq!(routes.proxy.index, "/");
    assert_eq!(routes.meta.build_details, "/api/v1/meta/build");
    assert_eq!(Meta::new().health, "/api/v1/meta/health");
}

#[test]
fn server_address() {
    let s = Server {
        port: 7000,
        domain: "example.org".to_string(),
        ip: "0.0.0.0".to_string(),
        proxy_has_tls: false,
        workers: None,
    };
    assert_eq!(s.get_ip(), "0.0.0.0:7000");
}

#[test]
fn decimals() {
    assert_eq!(decimal_string(0), "0");
    assert_eq!(decimal_string(1200), "1200");
    assert_eq!(decimal_string(-45), "-45");
    assert_eq!(decimal_string(i64::MIN), "-9223372036854775808");
    assert_eq!(decimal_string(i64::MAX), "9223372036854775807");
}

#[test]
fn replacing_and_comparing() {
    assert_eq!(replace_all_str("aXbXXc", "X", "--"), "a--b----c");
    assert_eq!(replace_all_str("aaa", "aa", "b"), "ba");
    assert_eq!(replace_all_str("abc", "", "-"), "abc".replace("", "-"));
    assert_eq!(replace_all_str("", "", "-"), "-");
    assert!(same_text("h\u{e9}", "h\u{e9}"));
    assert!(!same_text("ab", "abc"));
}

#[test]
fn code_point_slices() {
    let s = "h\u{e9}llo \u{1f600}!";
    assert_eq!(s.substring(1, 3), "\u{e9}ll");
    assert_eq!(s.substring(6, 10), "\u{1f600}!");
    assert_eq!(s.substring(20, 2), "");
    assert_eq!(s.slice(2, Some(4)), "ll");
    assert_eq!(s.slice(6, None), "\u{1f600}!");
}
