use libmedium::cache::{
    filter_gist, get_gist_id, lookup_action, plan_migration, requested_file, resolve_gist,
    CacheAction, CacheError, Migration, GIST_CACHE_VERSION, POST_CACHE_VERSION,
};
use libmedium::model::{GistContent, GistFile};

fn file(name: &str, content: &str) -> GistFile {
    GistFile {
        file_name: name.to_string(),
        content: content.to_string(),
        language: "Text".to_string(),
        raw_url: format!("https://gist.githubusercontent.com/u/id/raw/{name}"),
    }
}

fn set() -> GistContent {
    GistContent {
        files: vec![file("a.rs", "fn a() {}"), file("b.py", "print(1)")],
        html_url: "https://gist.github.com/u/id".to_string(),
    }
}

#[test]
fn current_marker_keeps_partition() {
    let marker = bincode::serialize(&POST_CACHE_VERSION).unwrap();
    assert!(matches!(plan_migration(Some(&marker[..]), POST_CACHE_VERSION), Migration::Keep));
}

#[test]
fn changed_version_resets_partition() {
    let old = bincode::serialize(&2u64).unwrap();
    match plan_migration(Some(&old[..]), POST_CACHE_VERSION) {
        Migration::Reset(m) => {
            assert_eq!(m, vec![3, 0, 0, 0, 0, 0, 0, 0]);
            assert_eq!(bincode::deserialize::<u64>(&m).unwrap(), POST_CACHE_VERSION);
        }
        _ => panic!("expected a reset"),
    }
}

#[test]
fn missing_or_short_marker_resets_partition() {
    match plan_migration(None, GIST_CACHE_VERSION) {
        Migration::Reset(m) => assert_eq!(m, vec![1, 0, 0, 0, 0, 0, 0, 0]),
        _ => panic!("expected a reset"),
    }
    let short = [1u8, 0, 0];
    assert!(matches!(plan_migration(Some(&short[..]), GIST_CACHE_VERSION), Migration::Reset(_)));
}

#[test]
fn stored_value_is_used_without_fetching() {
    match lookup_action(Some(vec![7, 8, 9])) {
        CacheAction::Use(v) => assert_eq!(v, vec![7, 8, 9]),
        CacheAction::FetchAndStore => panic!("a stored value must not be fetched again"),
    }
    assert!(matches!(lookup_action(None), CacheAction::FetchAndStore));
}

#[test]
fn gist_id_is_last_segment_without_query() {
    assert_eq!(get_gist_id("https://gist.github.com/someone/abc123"), "abc123");
    assert_eq!(get_gist_id("https://gist.github.com/someone/abc123?file=main.rs"), "abc123");
    assert_eq!(get_gist_id("abc"), "abc");
    assert_eq!(get_gist_id("https://gist.github.com/someone/"), "");
}

#[test]
fn requested_file_from_query() {
    assert_eq!(
        requested_file("https://gist.github.com/u/id?file=main%20file.rs"),
        Some("main file.rs".to_string())
    );
    assert_eq!(requested_file("https://gist.github.com/u/id?x=1&file=b.py&file=c"), Some("b.py".to_string()));
    assert_eq!(requested_file("https://gist.github.com/u/id"), None);
    assert_eq!(requested_file("https://gist.github.com/u/id?x=1"), None);
}

#[test]
fn filter_keeps_the_named_file() {
    let g = filter_gist(&set(), "b.py", "https://gist.github.com/u/id?file=b.py").unwrap();
    assert_eq!(g.files.len(), 1);
    assert_eq!(g.files[0].file_name, "b.py");
    assert_eq!(g.files[0].content, "print(1)");
    assert_eq!(g.html_url, "https://gist.github.com/u/id?file=b.py");
}

#[test]
fn filter_reports_missing_file() {
    assert_eq!(filter_gist(&set(), "c.go", "u").err(), Some(CacheError::MissingFile));
}

#[test]
fn resolve_filters_only_when_asked() {
    let whole = resolve_gist("https://gist.github.com/u/id", set()).unwrap();
    assert_eq!(whole.files.len(), 2);
    assert_eq!(whole.html_url, "https://gist.github.com/u/id");
    let one = resolve_gist("https://gist.github.com/u/id?file=a.rs", set()).unwrap();
    assert_eq!(one.files.len(), 1);
    assert_eq!(one.files[0].file_name, "a.rs");
    assert_eq!(one.html_url, "https://gist.github.com/u/id?file=a.rs");
    assert_eq!(
        resolve_gist("https://gist.github.com/u/id?file=zzz", set()).err(),
        Some(CacheError::MissingFile)
    );
}
