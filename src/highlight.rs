use vstd::prelude::*;
use vstd::string::StrSliceExecFns;
use vstd::string::StringExecFns;

use syntect::highlighting::ThemeSet;
use syntect::parsing::SyntaxSet;

use crate::cache::after_last;
use crate::text::{decimal, decimal_u64, same_text};

verus! {

#[verifier::external_type_specification]
#[verifier::external_body]
pub struct ExSyntaxSet(SyntaxSet);

#[verifier::external_type_specification]
#[verifier::external_body]
pub struct ExThemeSet(ThemeSet);

/// The theme that snippets are coloured with.
pub const THEME_NAME: &'static str = "InspiredGitHub";

/// The name of the syntax that colours text as it is.
pub const PLAIN_TEXT: &'static str = "Plain Text";

/// The syntax definitions and themes bundled with syntect. Only `load` makes one, so
/// what is looked up in it depends on the names and code asked about alone.
pub struct Bundled {
    syntaxes: SyntaxSet,
    themes: ThemeSet,
}

/// Relies on `SyntaxSet::load_defaults_newlines`: the syntax definitions bundled with
/// syntect.
#[verifier::external_body]
fn bundled_syntaxes() -> SyntaxSet {
    SyntaxSet::load_defaults_newlines()
}

/// Relies on `ThemeSet::load_defaults`: the themes bundled with syntect.
#[verifier::external_body]
fn bundled_themes() -> ThemeSet {
    ThemeSet::load_defaults()
}

impl Bundled {
    pub fn load() -> Bundled {
        Bundled { syntaxes: bundled_syntaxes(), themes: bundled_themes() }
    }
}

/// Whether the bundled set has a syntax of this name.
pub uninterp spec fn has_syntax(name: Seq<char>) -> bool;

/// The name of the bundled syntax that claims this extension (or whole file name).
pub uninterp spec fn syntax_for_extension(extension: Seq<char>) -> Option<Seq<char>>;

/// The name of the bundled syntax recognised from the code's first line.
pub uninterp spec fn syntax_for_first_line(code: Seq<char>) -> Option<Seq<char>>;

/// The code coloured as HTML in a `<pre>` block, by the bundled syntax and theme of
/// these names; none where either is missing or colouring fails.
pub uninterp spec fn highlighted_of(code: Seq<char>, syntax_name: Seq<char>, theme_name: Seq<char>) -> Option<Seq<char>>;

/// The background colour that the bundled theme of this name sets.
pub uninterp spec fn theme_background_of(theme_name: Seq<char>) -> Option<(u8, u8, u8)>;

/// Relies on `SyntaxSet::find_syntax_by_name`: the syntax whose name is `name`.
#[verifier::external_body]
fn syntax_by_name(b: &Bundled, name: &str) -> (r: Option<String>)
    ensures
        r is Some == has_syntax(name@),
        r matches Some(n) ==> n@ == name@,
{
    b.syntaxes.find_syntax_by_name(name).map(|s| s.name.clone())
}

/// Relies on `SyntaxSet::find_syntax_by_extension`: the name of a syntax that claims the
/// extension (or whole file name).
#[verifier::external_body]
fn syntax_by_extension(b: &Bundled, extension: &str) -> (r: Option<String>)
    ensures
        view_opt(r) == syntax_for_extension(extension@),
{
    b.syntaxes.find_syntax_by_extension(extension).map(|s| s.name.clone())
}

/// Relies on `SyntaxSet::find_syntax_by_first_line`: the name of a syntax recognised
/// from the code's first line.
#[verifier::external_body]
fn syntax_by_first_line(b: &Bundled, code: &str) -> (r: Option<String>)
    ensures
        view_opt(r) == syntax_for_first_line(code@),
{
    b.syntaxes.find_syntax_by_first_line(code).map(|s| s.name.clone())
}

/// Relies on `Theme::settings.background` of the bundled theme of that name.
#[verifier::external_body]
fn theme_background(b: &Bundled, theme_name: &str) -> (r: Option<(u8, u8, u8)>)
    ensures
        r == theme_background_of(theme_name@),
{
    b.themes.themes.get(theme_name).and_then(|t| t.settings.background).map(|c| (c.r, c.g, c.b))
}

/// Relies on `syntect::html::highlighted_html_for_string`, with the bundled syntax and
/// theme taken by name: the code as coloured HTML in a `<pre>` block.
#[verifier::external_body]
fn highlighted_html(b: &Bundled, code: &str, syntax_name: &str, theme_name: &str) -> (r: Option<String>)
    ensures
        view_opt(r) == highlighted_of(code@, syntax_name@, theme_name@),
{
    let syntax = b.syntaxes.find_syntax_by_name(syntax_name)?;
    let theme = b.themes.themes.get(theme_name)?;
    syntect::html::highlighted_html_for_string(code, &b.syntaxes, syntax, theme).ok()
}

pub open spec fn view_opt(s: Option<String>) -> Option<Seq<char>> {
    match s {
        Some(x) => Some(x@),
        None => None,
    }
}

/// Relies on `str::lines`: the string split at each `\n`, a `\r` right before it
/// dropped, and no line after a final `\n`.
#[verifier::external_body]
fn std_lines(s: &str) -> (r: Vec<String>)
    ensures
        strings_view(r@) == lines_of(s@, 0, 0),
{
    s.lines().map(|l| l.to_string()).collect()
}

/// Relies on `str::trim`: the string without leading and trailing characters of the
/// Unicode property `White_Space`.
#[verifier::external_body]
fn std_trim(s: &str) -> (r: &str)
    ensures
        r@ == trimmed(s@),
{
    s.trim()
}

/// A character of the Unicode property `White_Space`.
pub open spec fn is_white(c: char) -> bool {
    let u = c as u32;
    (0x9 <= u <= 0xd) || u == 0x20 || u == 0x85 || u == 0xa0 || u == 0x1680 || (0x2000 <= u
        <= 0x200a) || u == 0x2028 || u == 0x2029 || u == 0x202f || u == 0x205f || u == 0x3000
}

pub open spec fn trim_start(s: Seq<char>) -> Seq<char>
    decreases s.len(),
{
    if s.len() > 0 && is_white(s[0]) {
        trim_start(s.subrange(1, s.len() as int))
    } else {
        s
    }
}

pub open spec fn trim_end(s: Seq<char>) -> Seq<char>
    decreases s.len(),
{
    if s.len() > 0 && is_white(s.last()) {
        trim_end(s.drop_last())
    } else {
        s
    }
}

/// What `str::trim` leaves of a string: no white space at either end.
pub open spec fn trimmed(s: Seq<char>) -> Seq<char> {
    trim_end(trim_start(s))
}

pub open spec fn strings_view(v: Seq<String>) -> Seq<Seq<char>> {
    v.map_values(|s: String| s@)
}

/// A line without the `\r` that ended it.
pub open spec fn without_cr(line: Seq<char>) -> Seq<char> {
    if line.len() > 0 && line.last() == '\r' {
        line.drop_last()
    } else {
        line
    }
}

/// The lines of `s` from offset `i`, the current line having started at `start`.
pub open spec fn lines_of(s: Seq<char>, start: int, i: int) -> Seq<Seq<char>>
    decreases s.len() - i,
{
    if i >= s.len() {
        if start < s.len() {
            seq![s.subrange(start, s.len() as int)]
        } else {
            Seq::<Seq<char>>::empty()
        }
    } else if s[i] == '\n' {
        seq![without_cr(s.subrange(start, i))] + lines_of(s, i + 1, i + 1)
    } else {
        lines_of(s, start, i + 1)
    }
}

/// How the syntax of a snippet is looked up.
#[derive(Clone, Debug)]
pub enum LanguageLookup {
    /// From the code's first line alone.
    FirstLine,
    /// By the name of a syntax.
    Named(String),
    /// By the file name, then by its extension, then from the first line.
    ByFileName { file_name: String, extension: String },
}

/// The part of a path after its last `/`.
pub open spec fn file_name_of(path: Seq<char>) -> Seq<char> {
    path.subrange(after_last(path, '/', path.len() as int), path.len() as int)
}

/// The extension of a file name: after its last `.`, unless that dot starts the name.
pub open spec fn extension_of(name: Seq<char>) -> Seq<char> {
    let d = after_last(name, '.', name.len() as int);
    if d <= 1 {
        Seq::<char>::empty()
    } else {
        name.subrange(d, name.len() as int)
    }
}

/// The syntax name forced for an extension whose syntaxes conflict: a `.cls` file is
/// TeX when it starts with `%` or `\`, and Apex otherwise.
pub open spec fn forced_language(extension: Seq<char>, code: Seq<char>) -> Option<Seq<char>> {
    if extension == "cls"@ {
        if code.len() > 0 && (code[0] == '%' || code[0] == '\\') {
            Some("TeX"@)
        } else {
            Some("Apex"@)
        }
    } else {
        None
    }
}

fn after_last_of(s: &str, c: char) -> (r: usize)
    ensures
        r as int == after_last(s@, c, s@.len() as int),
        r <= s@.len(),
{
    let mut i = s.unicode_len();
    while i > 0 && s.get_char(i - 1) != c
        invariant
            i <= s@.len(),
            after_last(s@, c, s@.len() as int) == after_last(s@, c, i as int),
        decreases i,
    {
        i = i - 1;
    }
    i
}

/// A snippet to be coloured: its file path and its code.
pub struct SourcegraphQuery<'a> {
    pub filepath: &'a str,
    pub code: &'a str,
}

impl<'a> SourcegraphQuery<'a> {
    /// How this snippet's syntax is looked up.
    pub fn lookup_plan(&self) -> (r: LanguageLookup)
        ensures
            self.filepath@.len() == 0 ==> r is FirstLine,
            self.filepath@.len() > 0 ==> (forced_language(
                extension_of(file_name_of(self.filepath@)),
                self.code@,
            ) matches Some(n) ==> (r matches LanguageLookup::Named(m) && m@ == n)),
            self.filepath@.len() > 0 ==> (forced_language(
                extension_of(file_name_of(self.filepath@)),
                self.code@,
            ) is None ==> (r matches LanguageLookup::ByFileName { file_name, extension } && file_name@
                == file_name_of(self.filepath@) && extension@ == extension_of(
                file_name_of(self.filepath@),
            ))),
    {
        if self.filepath.unicode_len() == 0 {
            return LanguageLookup::FirstLine;
        }
        let path = self.filepath;
        let slash = after_last_of(path, '/');
        let file_name = path.substring_char(slash, path.unicode_len());
        let dot = after_last_of(file_name, '.');
        let extension = if dot <= 1 {
            ""
        } else {
            file_name.substring_char(dot, file_name.unicode_len())
        };
        proof {
            reveal_strlit("");
            reveal_strlit("cls");
            reveal_strlit("TeX");
            reveal_strlit("Apex");
        }
        assert(file_name@ == file_name_of(self.filepath@));
        assert(extension@ == extension_of(file_name@));
        if same_text(extension, "cls") {
            let code = self.code;
            let tex = code.unicode_len() > 0 && (code.get_char(0) == '%' || code.get_char(0) == '\\');
            if tex {
                LanguageLookup::Named("TeX".to_owned())
            } else {
                LanguageLookup::Named("Apex".to_owned())
            }
        } else {
            LanguageLookup::ByFileName {
                file_name: file_name.to_owned(),
                extension: extension.to_owned(),
            }
        }
    }

    /// The syntax to colour this snippet with; plain text where nothing matches.
    pub fn determine_language(&self, bundled: &Bundled) -> (r: Option<String>)
        ensures
            view_opt(r) == language_of(self.filepath@, self.code@),
    {
        proof {
            reveal_strlit("cls");
        }
        let found = match self.lookup_plan() {
            LanguageLookup::FirstLine => syntax_by_first_line(bundled, self.code),
            LanguageLookup::Named(name) => syntax_by_name(bundled, name.as_str()),
            LanguageLookup::ByFileName { file_name, extension } => {
                match syntax_by_extension(bundled, file_name.as_str()) {
                    Some(s) => Some(s),
                    None => match syntax_by_extension(bundled, extension.as_str()) {
                        Some(s) => Some(s),
                        None => syntax_by_first_line(bundled, self.code),
                    },
                }
            },
        };
        match found {
            Some(s) => Some(s),
            None => syntax_by_name(bundled, PLAIN_TEXT),
        }
    }

    /// The snippet as coloured HTML, each line after the first numbered; the code,
    /// escaped, where it cannot be coloured.
    pub fn syntax_highlight(&self) -> (r: String)
        ensures
            r@ == highlighted_snippet(self.filepath@, self.code@),
    {
        self.highlight_with(&Bundled::load())
    }

    /// `syntax_highlight`, with the bundled definitions already loaded.
    pub fn highlight_with(&self, bundled: &Bundled) -> (r: String)
        ensures
            r@ == highlighted_snippet(self.filepath@, self.code@),
    {
        let bg = match theme_background(bundled, THEME_NAME) {
            Some(c) => c,
            None => (255u8, 255u8, 255u8),
        };
        let mut out = style_header(bg);
        let html = match self.determine_language(bundled) {
            Some(syntax) => highlighted_html(bundled, self.code, syntax.as_str(), THEME_NAME),
            None => None,
        };
        match html {
            Some(h) => {
                let lines = std_lines(h.as_str());
                out.append(number_lines(&lines).as_str());
            },
            None => {
                out.append("<pre>");
                out.append(escape_html(self.code).as_str());
                out.append("</pre>");
                assert(out@ =~= style_block(bg) + highlight_body(None, self.code@));
            },
        }
        out
    }
}

/// The name of the syntax that a snippet is coloured with: by the plan of
/// `lookup_plan`, else plain text.
pub open spec fn language_of(filepath: Seq<char>, code: Seq<char>) -> Option<Seq<char>> {
    let name = file_name_of(filepath);
    let ext = extension_of(name);
    let found = if filepath.len() == 0 {
        syntax_for_first_line(code)
    } else {
        match forced_language(ext, code) {
            Some(n) => if has_syntax(n) {
                Some(n)
            } else {
                None
            },
            None => match syntax_for_extension(name) {
                Some(s) => Some(s),
                None => match syntax_for_extension(ext) {
                    Some(s) => Some(s),
                    None => syntax_for_first_line(code),
                },
            },
        }
    };
    match found {
        Some(s) => Some(s),
        None => if has_syntax(PLAIN_TEXT@) {
            Some(PLAIN_TEXT@)
        } else {
            None
        },
    }
}

/// A snippet as `syntax_highlight` shows it: the theme's background (white where it
/// sets none), then the coloured code, or the escaped code where it cannot be coloured.
pub open spec fn highlighted_snippet(filepath: Seq<char>, code: Seq<char>) -> Seq<char> {
    let bg = match theme_background_of(THEME_NAME@) {
        Some(c) => c,
        None => (255u8, 255u8, 255u8),
    };
    let html = match language_of(filepath, code) {
        Some(n) => highlighted_of(code, n, THEME_NAME@),
        None => None,
    };
    style_block(bg) + highlight_body(html, code)
}

/// What follows the style block in a coloured snippet: the numbered lines of the
/// coloured HTML where there is some, else the escaped code in a `<pre>` block.
pub open spec fn highlight_body(html: Option<Seq<char>>, code: Seq<char>) -> Seq<char> {
    match html {
        Some(h) => numbered_from(lines_of(h, 0, 0), 0, 1),
        None => "<pre>"@ + escaped(code) + "</pre>"@,
    }
}

pub open spec fn hex_digit(d: nat) -> char {
    "0123456789abcdef"@[d as int]
}

/// Two lower-case hex digits.
pub open spec fn hex2(b: u8) -> Seq<char> {
    seq![hex_digit(b as nat / 16), hex_digit(b as nat % 16)]
}

/// The style that gives snippet blocks the theme's background colour.
pub open spec fn style_block(bg: (u8, u8, u8)) -> Seq<char> {
    "<style>.gist_file { background-color:#"@ + hex2(bg.0) + hex2(bg.1) + hex2(bg.2) + "; }</style>"@
}

fn push_hex2(out: &mut String, b: u8)
    ensures
        final(out)@ == old(out)@ + hex2(b),
{
    let digits = "0123456789abcdef";
    proof {
        reveal_strlit("0123456789abcdef");
    }
    let hi = digits.substring_char((b / 16) as usize, (b / 16) as usize + 1);
    let lo = digits.substring_char((b % 16) as usize, (b % 16) as usize + 1);
    out.append(hi);
    out.append(lo);
    assert(final(out)@ =~= old(out)@ + hex2(b));
}

fn style_header(bg: (u8, u8, u8)) -> (r: String)
    ensures
        r@ == style_block(bg),
{
    let mut s = String::new();
    s.append("<style>.gist_file { background-color:#");
    push_hex2(&mut s, bg.0);
    push_hex2(&mut s, bg.1);
    push_hex2(&mut s, bg.2);
    s.append("; }</style>");
    assert(s@ =~= style_block(bg));
    s
}

/// A highlighted line with its number and an anchor to it.
pub open spec fn numbered_line(num: nat, line: Seq<char>) -> Seq<char> {
    "<div id=\"line-"@ + decimal(num as int) + "\" class=\"line\"><a href=\"#line-"@ + decimal(
        num as int,
    ) + "\"><span class=\"line-number\">"@ + decimal(num as int) + "</span></a>"@ + line
        + "</div>"@
}

/// Lines `i..` of highlighted output: blank lines dropped, the first line as it is,
/// the others numbered from `num` on.
pub open spec fn numbered_from(lines: Seq<Seq<char>>, i: int, num: nat) -> Seq<char>
    decreases lines.len() - i,
{
    if i < 0 || i >= lines.len() {
        Seq::<char>::empty()
    } else if trimmed(lines[i]).len() == 0 {
        numbered_from(lines, i + 1, num)
    } else if i == 0 {
        lines[i] + numbered_from(lines, i + 1, num)
    } else {
        numbered_line(num, lines[i]) + numbered_from(lines, i + 1, num + 1)
    }
}

/// Numbers the lines of highlighted output.
pub fn number_lines(lines: &Vec<String>) -> (r: String)
    ensures
        r@ == numbered_from(strings_view(lines@), 0, 1),
{
    let ghost ls = strings_view(lines@);
    let mut out = String::new();
    let mut num: usize = 1;
    let mut i: usize = 0;
    assert(out@ + numbered_from(ls, 0, 1) =~= numbered_from(ls, 0, 1));
    while i < lines.len()
        invariant
            i <= lines@.len(),
            ls == strings_view(lines@),
            1 <= num,
            i == 0 ==> num == 1,
            i > 0 ==> num <= i,
            out@ + numbered_from(ls, i as int, num as nat) == numbered_from(ls, 0, 1),
        decreases lines.len() - i,
    {
        let ghost out0 = out@;
        let line = lines[i].as_str();
        assert(ls[i as int] == line@);
        let ghost rest = numbered_from(ls, i as int + 1, num as nat);
        if std_trim(line).unicode_len() == 0 {
        } else if i == 0 {
            out.append(line);
            assert(out@ + rest =~= out0 + (line@ + rest));
        } else {
            let d = decimal_u64(num as u64);
            out.append("<div id=\"line-");
            out.append(d.as_str());
            out.append("\" class=\"line\"><a href=\"#line-");
            out.append(d.as_str());
            out.append("\"><span class=\"line-number\">");
            out.append(d.as_str());
            out.append("</span></a>");
            out.append(line);
            out.append("</div>");
            let ghost rest2 = numbered_from(ls, i as int + 1, num as nat + 1);
            assert(out@ + rest2 =~= out0 + (numbered_line(num as nat, line@) + rest2));
            num = num + 1;
        }
        i = i + 1;
    }
    assert(numbered_from(ls, i as int, num as nat) =~= Seq::<char>::empty());
    assert(out@ + Seq::<char>::empty() =~= out@);
    out
}

/// The HTML text of one character.
pub open spec fn escaped_char(c: char) -> Seq<char> {
    if c == '&' {
        "&amp;"@
    } else if c == '<' {
        "&lt;"@
    } else if c == '>' {
        "&gt;"@
    } else if c == '"' {
        "&quot;"@
    } else {
        seq![c]
    }
}

/// `s` as HTML text.
pub open spec fn escaped(s: Seq<char>) -> Seq<char>
    decreases s.len(),
{
    if s.len() == 0 {
        Seq::<char>::empty()
    } else {
        escaped(s.drop_last()) + escaped_char(s.last())
    }
}

/// Writes `s` as HTML text.
pub fn escape_html(s: &str) -> (r: String)
    ensures
        r@ == escaped(s@),
{
    let n = s.unicode_len();
    let mut out = String::new();
    let mut i: usize = 0;
    while i < n
        invariant
            n == s@.len(),
            i <= n,
            out@ == escaped(s@.subrange(0, i as int)),
        decreases n - i,
    {
        let c = s.get_char(i);
        if c == '&' {
            out.append("&amp;");
        } else if c == '<' {
            out.append("&lt;");
        } else if c == '>' {
            out.append("&gt;");
        } else if c == '"' {
            out.append("&quot;");
        } else {
            out.append(s.substring_char(i, i + 1));
        }
        proof {
            assert(s@.subrange(0, i as int + 1).drop_last() =~= s@.subrange(0, i as int));
            assert(s@.subrange(i as int, i as int + 1) =~= seq![c]);
        }
        i = i + 1;
    }
    assert(s@.subrange(0, n as int) =~= s@);
    out
}

} // verus!
