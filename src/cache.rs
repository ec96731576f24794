use vstd::prelude::*;
use vstd::string::StrSliceExecFns;
use vstd::string::StringExecFns;

use crate::model::{GistContent, GistFile};
use crate::text::{has_infix, same_text, str_contains};

verus! {

/// The schema version of the cached posts; bumping it discards every cached post.
pub const POST_CACHE_VERSION: u64 = 3;

/// The schema version of the cached snippet sets.
pub const GIST_CACHE_VERSION: u64 = 1;

/// The reserved key under which the post partition keeps its version marker.
pub const POST_VERSION_KEY: &'static str = "POST_CACHE_VERSION";

/// The reserved key under which the snippet partition keeps its version marker.
pub const GIST_VERSION_KEY: &'static str = "GIST_CACHE_VERSION";

/// What can go wrong in the content cache's own logic.
#[derive(Clone, Copy, Debug, PartialEq, Eq, Structural)]
pub enum CacheError {
    /// A snippet set asked for by file name holds no file of that name.
    MissingFile,
}

/// The value of eight bytes read least significant first.
pub open spec fn le_value(b: Seq<u8>) -> nat
    recommends
        b.len() >= 8,
{
    (b[0] as nat) + 256 * ((b[1] as nat) + 256 * ((b[2] as nat) + 256 * ((b[3] as nat) + 256 * (
    (b[4] as nat) + 256 * ((b[5] as nat) + 256 * ((b[6] as nat) + 256 * (b[7] as nat)))))))
}

/// The version that a stored marker holds: its first eight bytes, least significant
/// first; none if it is shorter.
pub open spec fn marker_version(b: Seq<u8>) -> Option<nat> {
    if b.len() >= 8 {
        Some(le_value(b))
    } else {
        None
    }
}

/// Relies on `bincode::serialize` (fixed-width integers, little endian, no size limit):
/// a `u64` is written as its eight bytes, least significant first, and writing it into
/// a `Vec` cannot fail.
#[verifier::external_body]
fn encode_u64(v: u64) -> (r: Option<Vec<u8>>)
    ensures
        r is Some,
        r matches Some(b) ==> b@.len() == 8 && le_value(b@) == v as nat,
{
    bincode::serialize(&v).ok()
}

/// Relies on `bincode::deserialize` (fixed-width integers, little endian, trailing
/// bytes allowed): a `u64` is read from the first eight bytes, and fewer bytes fail.
#[verifier::external_body]
fn decode_u64(b: &[u8]) -> (r: Option<u64>)
    ensures
        r matches Some(v) ==> marker_version(b@) == Some(v as nat),
        r is None ==> marker_version(b@) is None,
{
    bincode::deserialize::<u64>(b).ok()
}

/// What a partition needs at startup.
#[derive(Clone, Debug)]
pub enum Migration {
    /// The marker holds the current version: the entries stay.
    Keep,
    /// Every entry goes, and the reserved key then holds this marker.
    Reset(Vec<u8>),
}

/// The startup check of one partition: `stored` is what its reserved key holds.
/// A marker that is missing, unreadable or of another version resets the partition.
pub fn plan_migration(stored: Option<&[u8]>, current: u64) -> (r: Migration)
    ensures
        (stored matches Some(b) && marker_version(b@) == Some(current as nat)) <==> r is Keep,
        r matches Migration::Reset(m) ==> marker_version(m@) == Some(current as nat),
{
    let up_to_date = match stored {
        Some(b) => match decode_u64(b) {
            Some(v) => v == current,
            None => false,
        },
        None => false,
    };
    if up_to_date {
        Migration::Keep
    } else {
        Migration::Reset(encode_u64(current).unwrap())
    }
}

/// A partition as a map from keys to stored bytes.
pub open spec fn apply_migration(
    store: Map<Seq<char>, Seq<u8>>,
    key: Seq<char>,
    plan: Migration,
) -> Map<Seq<char>, Seq<u8>> {
    match plan {
        Migration::Keep => store,
        Migration::Reset(m) => Map::<Seq<char>, Seq<u8>>::empty().insert(key, m@),
    }
}

/// After the compiled-in version of a partition changes, or where its marker is
/// missing, the next startup empties the partition but for its marker, and the marker
/// reads the current version.
pub proof fn lemma_migration_resets(
    store: Map<Seq<char>, Seq<u8>>,
    key: Seq<char>,
    current: u64,
    plan: Migration,
)
    requires
        !(store.contains_key(key) && marker_version(store[key]) == Some(current as nat)),
        (store.contains_key(key) && marker_version(store[key]) == Some(current as nat)) <==> plan is Keep,
        plan matches Migration::Reset(m) ==> marker_version(m@) == Some(current as nat),
    ensures
        plan is Reset,
        apply_migration(store, key, plan).dom() == set![key],
        marker_version(apply_migration(store, key, plan)[key]) == Some(current as nat),
{
    let after = apply_migration(store, key, plan);
    assert(after.dom() =~= set![key]);
}

/// A partition whose marker holds the current version keeps every entry.
pub proof fn lemma_migration_keeps(
    store: Map<Seq<char>, Seq<u8>>,
    key: Seq<char>,
    current: u64,
    plan: Migration,
)
    requires
        store.contains_key(key) && marker_version(store[key]) == Some(current as nat),
        (store.contains_key(key) && marker_version(store[key]) == Some(current as nat)) <==> plan is Keep,
    ensures
        apply_migration(store, key, plan) == store,
{
}

/// What a lookup in the cache leads to.
#[derive(Clone, Debug)]
pub enum CacheAction {
    /// The key was stored: these bytes are the value, and nothing is fetched.
    Use(Vec<u8>),
    /// The key was not stored: fetch the value, store it under the key, return it.
    FetchAndStore,
}

/// The decision of a fetch-or-populate lookup, from what the partition held for the key.
/// There is no expiry: a stored value is always used.
pub fn lookup_action(found: Option<Vec<u8>>) -> (r: CacheAction)
    ensures
        match found {
            Some(b) => r matches CacheAction::Use(v) && v@ == b@,
            None => r is FetchAndStore,
        },
{
    match found {
        Some(b) => CacheAction::Use(b),
        None => CacheAction::FetchAndStore,
    }
}

/// What a partition holds for `key`.
pub open spec fn stored_under(store: Map<Seq<char>, Seq<u8>>, key: Seq<char>) -> Option<Seq<u8>> {
    if store.contains_key(key) {
        Some(store[key])
    } else {
        None
    }
}

/// The partition after one fetch-or-populate call for `key`, where a fetch would
/// return `fetched`.
pub open spec fn after_get_or_fetch(store: Map<Seq<char>, Seq<u8>>, key: Seq<char>, fetched: Seq<u8>) -> Map<Seq<char>, Seq<u8>> {
    if store.contains_key(key) {
        store
    } else {
        store.insert(key, fetched)
    }
}

/// The value a fetch-or-populate call for `key` returns.
pub open spec fn get_or_fetch_value(store: Map<Seq<char>, Seq<u8>>, key: Seq<char>, fetched: Seq<u8>) -> Seq<u8> {
    if store.contains_key(key) {
        store[key]
    } else {
        fetched
    }
}

/// Two fetch-or-populate calls with the same key: the second finds the value that the
/// first returned (so `lookup_action` decides to use it and nothing is fetched), and
/// leaves the partition as the first left it.
pub proof fn lemma_second_call_hits(
    store: Map<Seq<char>, Seq<u8>>,
    key: Seq<char>,
    first_fetch: Seq<u8>,
    second_fetch: Seq<u8>,
)
    ensures
        stored_under(after_get_or_fetch(store, key, first_fetch), key) == Some(
            get_or_fetch_value(store, key, first_fetch),
        ),
        get_or_fetch_value(after_get_or_fetch(store, key, first_fetch), key, second_fetch)
            == get_or_fetch_value(store, key, first_fetch),
        after_get_or_fetch(after_get_or_fetch(store, key, first_fetch), key, second_fetch)
            == after_get_or_fetch(store, key, first_fetch),
{
}

/// The offset of the first `c` in `s` at or after `i`, or `s.len()`.
pub open spec fn index_of(s: Seq<char>, c: char, i: int) -> int
    decreases s.len() - i,
{
    if i < 0 || i >= s.len() {
        s.len() as int
    } else if s[i] == c {
        i
    } else {
        index_of(s, c, i + 1)
    }
}

/// The offset just after the last `c` in `s[..n]`, or 0.
pub open spec fn after_last(s: Seq<char>, c: char, n: int) -> int
    decreases n,
{
    if n <= 0 {
        0
    } else if s[n - 1] == c {
        n
    } else {
        after_last(s, c, n - 1)
    }
}

/// The resource id of a snippet reference: the last path segment of the URL, without
/// its query.
pub open spec fn gist_id_of(url: Seq<char>) -> Seq<char> {
    let end = index_of(url, '?', 0);
    url.subrange(after_last(url, '/', end), end)
}

/// The resource id of a snippet reference, under which its set is cached.
pub fn get_gist_id(url: &str) -> (r: String)
    ensures
        r@ == gist_id_of(url@),
{
    let n = url.unicode_len();
    let mut end: usize = 0;
    while end < n && url.get_char(end) != '?'
        invariant
            n == url@.len(),
            end <= n,
            index_of(url@, '?', 0) == index_of(url@, '?', end as int),
        decreases n - end,
    {
        end = end + 1;
    }
    let mut start: usize = end;
    while start > 0 && url.get_char(start - 1) != '/'
        invariant
            n == url@.len(),
            end <= n,
            start <= end,
            after_last(url@, '/', end as int) == after_last(url@, '/', start as int),
        decreases start,
    {
        start = start - 1;
    }
    url.substring_char(start, end).to_owned()
}

/// The post id in the last path segment of a post's page: what follows its last `-`.
pub open spec fn post_id_of(slug: Seq<char>) -> Seq<char> {
    slug.subrange(after_last(slug, '-', slug.len() as int), slug.len() as int)
}

/// The post id in the last path segment of a post's page.
pub fn get_post_id(slug: &str) -> (r: String)
    ensures
        r@ == post_id_of(slug@),
{
    let n = slug.unicode_len();
    let mut start: usize = n;
    while start > 0 && slug.get_char(start - 1) != '-'
        invariant
            n == slug@.len(),
            start <= n,
            after_last(slug@, '-', n as int) == after_last(slug@, '-', start as int),
        decreases start,
    {
        start = start - 1;
    }
    slug.substring_char(start, n).to_owned()
}

/// The decoded query pairs of a URL, in order; none where the text is no URL.
pub uninterp spec fn url_query_pairs(url: Seq<char>) -> Option<Seq<(Seq<char>, Seq<char>)>>;

pub open spec fn pairs_view(v: Seq<(String, String)>) -> Seq<(Seq<char>, Seq<char>)> {
    v.map_values(|p: (String, String)| (p.0@, p.1@))
}

/// Relies on `url::Url::parse` and `Url::query_pairs`: the URL's query, split and
/// percent-decoded into key/value pairs, in order.
#[verifier::external_body]
fn query_pairs(url: &str) -> (r: Option<Vec<(String, String)>>)
    ensures
        match r {
            Some(v) => url_query_pairs(url@) == Some(pairs_view(v@)),
            None => url_query_pairs(url@) is None,
        },
{
    match url::Url::parse(url) {
        Ok(u) => Some(u.query_pairs().map(|(k, v)| (k.into_owned(), v.into_owned())).collect()),
        Err(_) => None,
    }
}

/// The value of the first pair at or after `i` whose key is `key`.
pub open spec fn first_value(pairs: Seq<(Seq<char>, Seq<char>)>, key: Seq<char>, i: int) -> Option<Seq<char>>
    decreases pairs.len() - i,
{
    if i < 0 || i >= pairs.len() {
        None
    } else if pairs[i].0 == key {
        Some(pairs[i].1)
    } else {
        first_value(pairs, key, i + 1)
    }
}

/// The file that a snippet reference asks for: its `file` query parameter, if it has one.
pub open spec fn requested_file_of(url: Seq<char>) -> Option<Seq<char>> {
    if !has_infix(url, "?"@) {
        None
    } else {
        match url_query_pairs(url) {
            Some(pairs) => first_value(pairs, "file"@, 0),
            None => None,
        }
    }
}

/// The file that a snippet reference asks for, if it asks for one.
pub fn requested_file(url: &str) -> (r: Option<String>)
    ensures
        match r {
            Some(f) => requested_file_of(url@) == Some(f@),
            None => requested_file_of(url@) is None,
        },
{
    if !str_contains(url, "?") {
        return None;
    }
    match query_pairs(url) {
        None => None,
        Some(pairs) => {
            let mut i: usize = 0;
            while i < pairs.len()
                invariant
                    i <= pairs@.len(),
                    has_infix(url@, "?"@),
                    url_query_pairs(url@) == Some(pairs_view(pairs@)),
                    first_value(pairs_view(pairs@), "file"@, 0) == first_value(
                        pairs_view(pairs@),
                        "file"@,
                        i as int,
                    ),
                decreases pairs.len() - i,
            {
                assert(pairs_view(pairs@)[i as int] == (pairs@[i as int].0@, pairs@[i as int].1@));
                if same_text(pairs[i].0.as_str(), "file") {
                    let v = pairs[i].1.clone();
                    assert(v@ == pairs@[i as int].1@);
                    assert(has_infix(url@, "?"@));
                    return Some(v);
                }
                i = i + 1;
            }
            None
        },
    }
}

/// The index of the first file at or after `i` named `name`, or -1.
pub open spec fn file_index(files: Seq<GistFile>, name: Seq<char>, i: int) -> int
    decreases files.len() - i,
{
    if i < 0 || i >= files.len() {
        -1
    } else if files[i].file_name@ == name {
        i
    } else {
        file_index(files, name, i + 1)
    }
}

fn copy_file(f: &GistFile) -> (r: GistFile)
    ensures
        r == *f,
{
    GistFile {
        file_name: f.file_name.clone(),
        content: f.content.clone(),
        language: f.language.clone(),
        raw_url: f.raw_url.clone(),
    }
}

/// The view of a snippet set that holds only the file `file_name`, with the requested
/// URL as its page. A set without such a file is a lookup error.
pub fn filter_gist(gist: &GistContent, file_name: &str, requested_url: &str) -> (r: Result<GistContent, CacheError>)
    ensures
        file_index(gist.files@, file_name@, 0) == -1 <==> r is Err,
        r matches Err(e) ==> e == CacheError::MissingFile,
        r matches Ok(g) ==> g.files@ == seq![gist.files@[file_index(gist.files@, file_name@, 0)]]
            && g.html_url@ == requested_url@,
{
    let mut i: usize = 0;
    while i < gist.files.len()
        invariant
            i <= gist.files@.len(),
            file_index(gist.files@, file_name@, 0) == file_index(gist.files@, file_name@, i as int),
        decreases gist.files.len() - i,
    {
        if same_text(gist.files[i].file_name.as_str(), file_name) {
            let mut files: Vec<GistFile> = Vec::new();
            files.push(copy_file(&gist.files[i]));
            assert(files@ =~= seq![gist.files@[i as int]]);
            return Ok(GistContent { files, html_url: requested_url.to_owned() });
        }
        i = i + 1;
    }
    Err(CacheError::MissingFile)
}

/// The snippet set to show for the reference `url`, from the whole set cached under
/// its resource id: filtered to the requested file, if the reference asks for one.
pub fn resolve_gist(url: &str, full: GistContent) -> (r: Result<GistContent, CacheError>)
    ensures
        requested_file_of(url@) is None ==> r == Ok::<GistContent, CacheError>(full),
        requested_file_of(url@) matches Some(f) ==> (file_index(full.files@, f, 0) == -1 <==> r is Err),
        requested_file_of(url@) matches Some(f) ==> (r matches Ok(g) ==> g.files@ == seq![
            full.files@[file_index(full.files@, f, 0)]] && g.html_url@ == url@),
        r matches Err(e) ==> e == CacheError::MissingFile,
{
    match requested_file(url) {
        None => Ok(full),
        Some(f) => {
            let r = filter_gist(&full, f.as_str(), url);
            proof {
                assert(requested_file_of(url@) == Some(f@));
                if r is Ok {
                    assert(file_index(full.files@, f@, 0) != -1);
                    assert(r->Ok_0.files@ == seq![full.files@[file_index(full.files@, f@, 0)]]);
                    assert(r->Ok_0.html_url@ == url@);
                }
            }
            r
        },
    }
}

} // verus!
