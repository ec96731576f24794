use vstd::prelude::*;
use vstd::string::StrSliceExecFns;
use vstd::string::StringExecFns;

use crate::markup::{markup_html, push_markup};
use crate::model::{Annotation, Edge};

verus! {

/// One step of a paragraph's body: a tag for an edge of the annotation at an index,
/// or the character at a code-point offset of the text.
#[derive(Clone, Copy, Debug, PartialEq, Eq, Structural)]
pub enum Token {
    Open(usize),
    Close(usize),
    Char(usize),
}

/// An annotation lies within a text of `len` code points.
pub open spec fn is_valid(a: Annotation, len: int) -> bool {
    0 <= a.start <= a.end <= len
}

/// Annotation `i` lies within the text and starts at `p`.
pub open spec fn starts_at(anns: Seq<Annotation>, i: int, p: int, len: int) -> bool {
    is_valid(anns[i], len) && anns[i].start == p
}

/// No annotation within the text starts or ends at `r`.
pub open spec fn is_quiet(anns: Seq<Annotation>, r: int, len: int) -> bool {
    forall|m: int|
        0 <= m < anns.len() && #[trigger] is_valid(anns[m], len) ==> anns[m].start != r
            && anns[m].end != r
}

/// Every entry of `stack` names an annotation of `anns` that lies within the text.
pub open spec fn stack_ok(anns: Seq<Annotation>, stack: Seq<usize>, len: int) -> bool {
    forall|j: int|
        0 <= j < stack.len() ==> (#[trigger] stack[j]) < anns.len() && is_valid(
            anns[stack[j] as int],
            len,
        )
}

/// The lowest position at or above `k` in `stack` whose annotation ends at `p`;
/// `stack.len()` where there is none.
pub open spec fn first_closing(anns: Seq<Annotation>, stack: Seq<usize>, p: int, k: int) -> int
    decreases stack.len() - k,
{
    if k < 0 || k >= stack.len() {
        stack.len() as int
    } else if anns[stack[k] as int].end == p {
        k
    } else {
        first_closing(anns, stack, p, k + 1)
    }
}

/// Closing tags for `stack[k..]`, topmost first.
pub open spec fn closing_tokens(stack: Seq<usize>, k: int) -> Seq<Token> {
    Seq::new((stack.len() - k) as nat, |t: int| Token::Close(stack[stack.len() - 1 - t]))
}

/// The annotations of `stack[k..j]` that stay open past `p`, bottom first.
pub open spec fn kept(anns: Seq<Annotation>, stack: Seq<usize>, p: int, k: int, j: int) -> Seq<
    usize,
>
    decreases j - k,
{
    if j <= k {
        seq![]
    } else {
        let r = kept(anns, stack, p, k, j - 1);
        if anns[stack[j - 1] as int].end != p {
            r.push(stack[j - 1])
        } else {
            r
        }
    }
}

pub open spec fn opens_of(s: Seq<usize>) -> Seq<Token> {
    s.map_values(|i: usize| Token::Open(i))
}

/// Among annotations `0..i`, those that start at `p` and end at `e`, in index order:
/// their tags, and those that stay open.
pub open spec fn open_row(anns: Seq<Annotation>, p: int, e: int, len: int, i: int) -> (Seq<Token>, Seq<usize>)
    decreases i,
{
    if i <= 0 {
        (seq![], seq![])
    } else {
        let (t, s) = open_row(anns, p, e, len, i - 1);
        if starts_at(anns, i - 1, p, len) && anns[i - 1].end == e {
            if e == p {
                (t + seq![Token::Open((i - 1) as usize), Token::Close((i - 1) as usize)], s)
            } else {
                (t.push(Token::Open((i - 1) as usize)), s.push((i - 1) as usize))
            }
        } else {
            (t, s)
        }
    }
}

/// The annotations that start at `p`, longest first (end from `len` down to `e`),
/// ties in index order.
pub open spec fn open_rows(anns: Seq<Annotation>, p: int, e: int, len: int) -> (Seq<Token>, Seq<usize>)
    decreases len + 1 - e,
{
    if e > len {
        (seq![], seq![])
    } else {
        let (t, s) = open_rows(anns, p, e + 1, len);
        let (t2, s2) = open_row(anns, p, e, len, anns.len() as int);
        (t + t2, s + s2)
    }
}

/// The tags at breakpoint `p` and the stack of open annotations after them. Annotations
/// that end at `p` close, topmost first; one that crosses them is closed with them and
/// opened again; then those that start at `p` open.
pub open spec fn boundary(anns: Seq<Annotation>, stack: Seq<usize>, p: int, len: int) -> (Seq<Token>, Seq<usize>) {
    let k = first_closing(anns, stack, p, 0);
    let kp = kept(anns, stack, p, k, stack.len() as int);
    let (ot, os) = open_rows(anns, p, p, len);
    (closing_tokens(stack, k) + opens_of(kp) + ot, stack.subrange(0, k) + kp + os)
}

/// The tokens of the first `p` positions of a text of `len` code points, and the stack
/// of annotations open at `p`.
pub open spec fn state_upto(anns: Seq<Annotation>, len: int, p: int) -> (Seq<Token>, Seq<usize>)
    decreases p,
{
    if p <= 0 {
        (seq![], seq![])
    } else {
        let (t, s) = state_upto(anns, len, p - 1);
        let (bt, s2) = boundary(anns, s, p - 1, len);
        (t + bt + seq![Token::Char((p - 1) as usize)], s2)
    }
}

/// The body of a paragraph of `len` code points as a sequence of tokens.
pub open spec fn paragraph_tokens(anns: Seq<Annotation>, len: int) -> Seq<Token> {
    let (t, s) = state_upto(anns, len, len);
    t + boundary(anns, s, len, len).0
}

pub open spec fn token_html(anns: Seq<Annotation>, text: Seq<char>, tok: Token) -> Seq<char> {
    match tok {
        Token::Open(i) => markup_html(anns[i as int].kind, Edge::Open),
        Token::Close(i) => markup_html(anns[i as int].kind, Edge::Close),
        Token::Char(p) => seq![text[p as int]],
    }
}

pub open spec fn tokens_html(anns: Seq<Annotation>, text: Seq<char>, ts: Seq<Token>) -> Seq<char>
    decreases ts.len(),
{
    if ts.len() == 0 {
        seq![]
    } else {
        tokens_html(anns, text, ts.drop_last()) + token_html(anns, text, ts.last())
    }
}

/// The HTML of a paragraph's body: its text with the tags of its annotations.
pub open spec fn body_html(anns: Seq<Annotation>, text: Seq<char>) -> Seq<char> {
    tokens_html(anns, text, paragraph_tokens(anns, text.len() as int))
}

pub open spec fn char_tokens(a: int, b: int) -> Seq<Token> {
    Seq::new((b - a) as nat, |t: int| Token::Char((a + t) as usize))
}

pub proof fn lemma_html_concat(anns: Seq<Annotation>, text: Seq<char>, a: Seq<Token>, b: Seq<Token>)
    ensures
        tokens_html(anns, text, a + b) == tokens_html(anns, text, a) + tokens_html(anns, text, b),
    decreases b.len(),
{
    if b.len() == 0 {
        assert(a + b =~= a);
        assert(tokens_html(anns, text, a) + tokens_html(anns, text, b) =~= tokens_html(anns, text, a));
    } else {
        assert((a + b).drop_last() =~= a + b.drop_last());
        lemma_html_concat(anns, text, a, b.drop_last());
        assert(tokens_html(anns, text, a + b) =~= tokens_html(anns, text, a) + tokens_html(anns, text, b));
    }
}

pub proof fn lemma_html_push(anns: Seq<Annotation>, text: Seq<char>, a: Seq<Token>, x: Token)
    ensures
        tokens_html(anns, text, a.push(x)) == tokens_html(anns, text, a) + token_html(anns, text, x),
{
    assert(a.push(x).drop_last() =~= a);
}

proof fn lemma_char_html(anns: Seq<Annotation>, text: Seq<char>, a: int, b: int)
    requires
        0 <= a <= b <= text.len(),
        b <= usize::MAX,
    ensures
        tokens_html(anns, text, char_tokens(a, b)) == text.subrange(a, b),
    decreases b - a,
{
    if b == a {
        assert(char_tokens(a, b) =~= seq![]);
        assert(text.subrange(a, b) =~= seq![]);
    } else {
        lemma_char_html(anns, text, a, b - 1);
        assert(char_tokens(a, b).drop_last() =~= char_tokens(a, b - 1));
        assert(char_tokens(a, b).last() == Token::Char((b - 1) as usize));
        assert(text.subrange(a, b) =~= text.subrange(a, b - 1) + seq![text[b - 1]]);
    }
}

proof fn lemma_no_closing(anns: Seq<Annotation>, stack: Seq<usize>, p: int, k: int)
    requires
        0 <= k <= stack.len(),
        forall|j: int| k <= j < stack.len() ==> anns[#[trigger] stack[j] as int].end != p,
    ensures
        first_closing(anns, stack, p, k) == stack.len(),
    decreases stack.len() - k,
{
    if k < stack.len() {
        lemma_no_closing(anns, stack, p, k + 1);
    }
}

proof fn lemma_row_empty(anns: Seq<Annotation>, p: int, e: int, len: int, i: int)
    requires
        i <= anns.len(),
        forall|m: int| 0 <= m < i ==> !(#[trigger] starts_at(anns, m, p, len)),
    ensures
        open_row(anns, p, e, len, i) == (Seq::<Token>::empty(), Seq::<usize>::empty()),
    decreases i,
{
    if i > 0 {
        lemma_row_empty(anns, p, e, len, i - 1);
        assert(!starts_at(anns, i - 1, p, len));
    }
}

proof fn lemma_rows_empty(anns: Seq<Annotation>, p: int, e: int, len: int)
    requires
        forall|m: int| 0 <= m < anns.len() ==> !(#[trigger] starts_at(anns, m, p, len)),
    ensures
        open_rows(anns, p, e, len) == (Seq::<Token>::empty(), Seq::<usize>::empty()),
    decreases len + 1 - e,
{
    if e <= len {
        lemma_rows_empty(anns, p, e + 1, len);
        lemma_row_empty(anns, p, e, len, anns.len() as int);
        assert(Seq::<Token>::empty() + Seq::<Token>::empty() =~= Seq::<Token>::empty());
        assert(Seq::<usize>::empty() + Seq::<usize>::empty() =~= Seq::<usize>::empty());
    }
}

/// At a position where nothing starts or ends, no tag is written and the stack stays.
proof fn lemma_boundary_quiet(anns: Seq<Annotation>, stack: Seq<usize>, r: int, len: int)
    requires
        is_quiet(anns, r, len),
        stack_ok(anns, stack, len),
    ensures
        boundary(anns, stack, r, len) == (Seq::<Token>::empty(), stack),
{
    assert forall|j: int| 0 <= j < stack.len() implies anns[#[trigger] stack[j] as int].end != r by {
        assert(is_valid(anns[stack[j] as int], len));
    }
    lemma_no_closing(anns, stack, r, 0);
    assert forall|m: int| 0 <= m < anns.len() implies !(#[trigger] starts_at(anns, m, r, len)) by {
        if is_valid(anns[m], len) {
        }
    }
    lemma_rows_empty(anns, r, r, len);
    let k = stack.len() as int;
    assert(closing_tokens(stack, k) =~= Seq::<Token>::empty());
    assert(opens_of(kept(anns, stack, r, k, k)) =~= Seq::<Token>::empty());
    assert(stack.subrange(0, k) + kept(anns, stack, r, k, k) + Seq::<usize>::empty() =~= stack);
    assert(closing_tokens(stack, k) + opens_of(kept(anns, stack, r, k, k)) + Seq::<Token>::empty()
        =~= Seq::<Token>::empty());
}

/// Over a run of quiet positions the body only gains characters.
pub proof fn lemma_quiet_run(anns: Seq<Annotation>, len: int, a: int, q: int)
    requires
        0 <= a <= q,
        stack_ok(anns, state_upto(anns, len, a).1, len),
        forall|r: int| a <= r < q ==> #[trigger] is_quiet(anns, r, len),
    ensures
        state_upto(anns, len, q) == (state_upto(anns, len, a).0 + char_tokens(a, q), state_upto(
            anns,
            len,
            a,
        ).1),
    decreases q - a,
{
    if q == a {
        assert(state_upto(anns, len, a).0 + char_tokens(a, q) =~= state_upto(anns, len, a).0);
    } else {
        lemma_quiet_run(anns, len, a, q - 1);
        let s = state_upto(anns, len, q - 1).1;
        assert(is_quiet(anns, q - 1, len));
        lemma_boundary_quiet(anns, s, q - 1, len);
        assert(state_upto(anns, len, a).0 + char_tokens(a, q - 1) + Seq::<Token>::empty() + seq![
            Token::Char((q - 1) as usize)]
            =~= state_upto(anns, len, a).0 + char_tokens(a, q));
    }
}

/// Runs the tags of `ts` against a stack of open annotations: an opening tag pushes,
/// a closing tag must close the topmost one, characters leave the stack as it is.
/// `None` once a closing tag closes anything but the topmost.
pub open spec fn run_tags(s: Option<Seq<usize>>, ts: Seq<Token>) -> Option<Seq<usize>>
    decreases ts.len(),
{
    if ts.len() == 0 {
        s
    } else {
        match run_tags(s, ts.drop_last()) {
            None => None,
            Some(st) => match ts.last() {
                Token::Open(i) => Some(st.push(i)),
                Token::Close(i) => if st.len() > 0 && st.last() == i {
                    Some(st.drop_last())
                } else {
                    None
                },
                Token::Char(_) => Some(st),
            },
        }
    }
}

/// Every opening tag has its closing tag, and tags close in the reverse order of
/// their opening.
pub open spec fn tags_balanced(ts: Seq<Token>) -> bool {
    run_tags(Some(Seq::<usize>::empty()), ts) == Some(Seq::<usize>::empty())
}

/// Every annotation in `s` lies within the text and has not ended before `p`.
pub open spec fn open_past(anns: Seq<Annotation>, s: Seq<usize>, p: int, len: int) -> bool {
    forall|j: int|
        0 <= j < s.len() ==> (#[trigger] s[j]) < anns.len() && is_valid(anns[s[j] as int], len)
            && anns[s[j] as int].end >= p
}

proof fn lemma_run_concat(s: Option<Seq<usize>>, a: Seq<Token>, b: Seq<Token>)
    ensures
        run_tags(s, a + b) == run_tags(run_tags(s, a), b),
    decreases b.len(),
{
    if b.len() == 0 {
        assert(a + b =~= a);
    } else {
        assert((a + b).drop_last() =~= a + b.drop_last());
        lemma_run_concat(s, a, b.drop_last());
        match run_tags(s, a) {
            None => {
                lemma_run_none(b);
            },
            Some(_) => {},
        }
    }
}

proof fn lemma_run_none(b: Seq<Token>)
    ensures
        run_tags(None, b) == None::<Seq<usize>>,
    decreases b.len(),
{
    if b.len() > 0 {
        lemma_run_none(b.drop_last());
    }
}

proof fn lemma_run_closing(stack: Seq<usize>, j: int)
    requires
        0 <= j <= stack.len(),
    ensures
        run_tags(Some(stack), closing_tokens(stack, j)) == Some(stack.subrange(0, j)),
    decreases stack.len() - j,
{
    if j == stack.len() {
        assert(closing_tokens(stack, j) =~= Seq::<Token>::empty());
        assert(stack.subrange(0, j) =~= stack);
    } else {
        lemma_run_closing(stack, j + 1);
        assert(closing_tokens(stack, j).drop_last() =~= closing_tokens(stack, j + 1));
        assert(stack.subrange(0, j + 1).drop_last() =~= stack.subrange(0, j));
    }
}

proof fn lemma_run_opens(x: Seq<usize>, kp: Seq<usize>)
    ensures
        run_tags(Some(x), opens_of(kp)) == Some(x + kp),
    decreases kp.len(),
{
    if kp.len() == 0 {
        assert(opens_of(kp) =~= Seq::<Token>::empty());
        assert(x + kp =~= x);
    } else {
        lemma_run_opens(x, kp.drop_last());
        assert(opens_of(kp).drop_last() =~= opens_of(kp.drop_last()));
        assert((x + kp.drop_last()).push(kp.last()) =~= x + kp);
    }
}

proof fn lemma_run_row(anns: Seq<Annotation>, x: Seq<usize>, p: int, e: int, len: int, i: int)
    requires
        i <= anns.len() <= usize::MAX,
    ensures
        run_tags(Some(x), open_row(anns, p, e, len, i).0) == Some(x + open_row(anns, p, e, len, i).1),
    decreases i,
{
    if i <= 0 {
        assert(x + Seq::<usize>::empty() =~= x);
    } else {
        lemma_run_row(anns, x, p, e, len, i - 1);
        let (t, s) = open_row(anns, p, e, len, i - 1);
        let o = Token::Open((i - 1) as usize);
        let c = Token::Close((i - 1) as usize);
        if starts_at(anns, i - 1, p, len) && anns[i - 1].end == e {
            if e == p {
                assert((t + seq![o, c]).drop_last() =~= t.push(o));
                assert(t.push(o).drop_last() =~= t);
                lemma_run_concat(Some(x), t, seq![o, c]);
                assert(seq![o, c].drop_last() =~= seq![o]);
                assert(seq![o].drop_last() =~= Seq::<Token>::empty());
                assert(run_tags(Some(x + s), Seq::<Token>::empty()) == Some(x + s));
                assert(seq![o].last() == o);
                assert(seq![o, c].last() == c);
                assert(run_tags(Some(x + s), seq![o]) == Some((x + s).push((i - 1) as usize)));
                assert((x + s).push((i - 1) as usize).drop_last() =~= x + s);
            } else {
                assert(t.push(o).drop_last() =~= t);
                assert((x + s).push((i - 1) as usize) =~= x + s.push((i - 1) as usize));
            }
        }
    }
}

proof fn lemma_run_rows(anns: Seq<Annotation>, x: Seq<usize>, p: int, e: int, len: int)
    requires
        anns.len() <= usize::MAX,
    ensures
        run_tags(Some(x), open_rows(anns, p, e, len).0) == Some(x + open_rows(anns, p, e, len).1),
    decreases len + 1 - e,
{
    if e > len {
        assert(x + Seq::<usize>::empty() =~= x);
    } else {
        let (t, s) = open_rows(anns, p, e + 1, len);
        let (t2, s2) = open_row(anns, p, e, len, anns.len() as int);
        lemma_run_rows(anns, x, p, e + 1, len);
        lemma_run_concat(Some(x), t, t2);
        lemma_run_row(anns, x + s, p, e, len, anns.len() as int);
        assert(x + s + s2 =~= x + (s + s2));
    }
}

/// The tags at one breakpoint take the stack before it to the stack after it.
proof fn lemma_run_boundary(anns: Seq<Annotation>, stack: Seq<usize>, p: int, len: int)
    requires
        anns.len() <= usize::MAX,
        0 <= first_closing(anns, stack, p, 0) <= stack.len(),
    ensures
        run_tags(Some(stack), boundary(anns, stack, p, len).0) == Some(boundary(anns, stack, p, len).1),
{
    let k = first_closing(anns, stack, p, 0);
    let kp = kept(anns, stack, p, k, stack.len() as int);
    let (ot, os) = open_rows(anns, p, p, len);
    lemma_run_closing(stack, k);
    lemma_run_concat(Some(stack), closing_tokens(stack, k), opens_of(kp));
    lemma_run_opens(stack.subrange(0, k), kp);
    lemma_run_concat(Some(stack), closing_tokens(stack, k) + opens_of(kp), ot);
    lemma_run_rows(anns, stack.subrange(0, k) + kp, p, p, len);
}

proof fn lemma_first_closing(anns: Seq<Annotation>, stack: Seq<usize>, p: int, k: int)
    requires
        0 <= k <= stack.len(),
    ensures
        k <= first_closing(anns, stack, p, k) <= stack.len(),
        forall|j: int| k <= j < first_closing(anns, stack, p, k) ==> anns[#[trigger] stack[j] as int].end != p,
        first_closing(anns, stack, p, k) < stack.len() ==> anns[stack[first_closing(anns, stack, p, k)] as int].end == p,
    decreases stack.len() - k,
{
    if k < stack.len() && anns[stack[k] as int].end != p {
        lemma_first_closing(anns, stack, p, k + 1);
    }
}

proof fn lemma_kept_members(anns: Seq<Annotation>, stack: Seq<usize>, p: int, k: int, j: int, len: int)
    requires
        0 <= k <= j <= stack.len(),
        open_past(anns, stack, p, len),
    ensures
        open_past(anns, kept(anns, stack, p, k, j), p + 1, len),
    decreases j - k,
{
    if j > k {
        lemma_kept_members(anns, stack, p, k, j - 1, len);
        let r = kept(anns, stack, p, k, j - 1);
        if anns[stack[j - 1] as int].end != p {
            assert forall|m: int| 0 <= m < r.push(stack[j - 1]).len() implies (#[trigger] r.push(stack[j - 1])[m]) < anns.len()
                && is_valid(anns[r.push(stack[j - 1])[m] as int], len) && anns[r.push(stack[j - 1])[m] as int].end >= p + 1 by {
                if m < r.len() {
                    assert(r.push(stack[j - 1])[m] == r[m]);
                }
            }
        }
    }
}

proof fn lemma_row_members(anns: Seq<Annotation>, p: int, e: int, len: int, i: int)
    requires
        i <= anns.len() <= usize::MAX,
        p < e,
    ensures
        forall|m: int| 0 <= m < open_row(anns, p, e, len, i).1.len() ==> (#[trigger] open_row(anns, p, e, len, i).1[m]) < anns.len()
            && is_valid(anns[open_row(anns, p, e, len, i).1[m] as int], len)
            && anns[open_row(anns, p, e, len, i).1[m] as int].end == e,
    decreases i,
{
    if i > 0 {
        lemma_row_members(anns, p, e, len, i - 1);
        let s = open_row(anns, p, e, len, i - 1).1;
        if starts_at(anns, i - 1, p, len) && anns[i - 1].end == e {
            assert forall|m: int| 0 <= m < s.push((i - 1) as usize).len() implies (#[trigger] s.push((i - 1) as usize)[m]) < anns.len()
                && is_valid(anns[s.push((i - 1) as usize)[m] as int], len)
                && anns[s.push((i - 1) as usize)[m] as int].end == e by {
                if m < s.len() {
                    assert(s.push((i - 1) as usize)[m] == s[m]);
                }
            }
        }
    }
}

proof fn lemma_row_at_start(anns: Seq<Annotation>, p: int, len: int, i: int)
    ensures
        open_row(anns, p, p, len, i).1 == Seq::<usize>::empty(),
    decreases i,
{
    if i > 0 {
        lemma_row_at_start(anns, p, len, i - 1);
    }
}

proof fn lemma_rows_members(anns: Seq<Annotation>, p: int, e: int, len: int)
    requires
        p <= e,
        anns.len() <= usize::MAX,
    ensures
        open_past(anns, open_rows(anns, p, e, len).1, p + 1, len),
    decreases len + 1 - e,
{
    if e <= len {
        lemma_rows_members(anns, p, e + 1, len);
        let s = open_rows(anns, p, e + 1, len).1;
        let s2 = open_row(anns, p, e, len, anns.len() as int).1;
        if e == p {
            lemma_row_at_start(anns, p, len, anns.len() as int);
            assert(s + s2 =~= s);
        } else {
            lemma_row_members(anns, p, e, len, anns.len() as int);
            assert forall|m: int| 0 <= m < (s + s2).len() implies (#[trigger] (s + s2)[m]) < anns.len()
                && is_valid(anns[(s + s2)[m] as int], len) && anns[(s + s2)[m] as int].end >= p + 1 by {
                if m < s.len() {
                    assert((s + s2)[m] == s[m]);
                } else {
                    assert((s + s2)[m] == s2[m - s.len()]);
                }
            }
        }
    }
}

/// After the tags at `p`, every annotation still open ends after `p`.
proof fn lemma_boundary_open_past(anns: Seq<Annotation>, stack: Seq<usize>, p: int, len: int)
    requires
        anns.len() <= usize::MAX,
        open_past(anns, stack, p, len),
    ensures
        open_past(anns, boundary(anns, stack, p, len).1, p + 1, len),
{
    lemma_first_closing(anns, stack, p, 0);
    let k = first_closing(anns, stack, p, 0);
    let kp = kept(anns, stack, p, k, stack.len() as int);
    let os = open_rows(anns, p, p, len).1;
    lemma_kept_members(anns, stack, p, k, stack.len() as int, len);
    lemma_rows_members(anns, p, p, len);
    let pre = stack.subrange(0, k);
    let all = pre + kp + os;
    assert forall|m: int| 0 <= m < all.len() implies (#[trigger] all[m]) < anns.len() && is_valid(anns[all[m] as int], len)
        && anns[all[m] as int].end >= p + 1 by {
        if m < k {
            assert(all[m] == stack[m]);
        } else if m < k + kp.len() {
            assert(all[m] == kp[m - k]);
        } else {
            assert(all[m] == os[m - k - kp.len()]);
        }
    }
}

proof fn lemma_state_run(anns: Seq<Annotation>, len: int, p: int)
    requires
        0 <= p,
        anns.len() <= usize::MAX,
    ensures
        run_tags(Some(Seq::<usize>::empty()), state_upto(anns, len, p).0) == Some(state_upto(anns, len, p).1),
        open_past(anns, state_upto(anns, len, p).1, p, len),
    decreases p,
{
    if p > 0 {
        lemma_state_run(anns, len, p - 1);
        let (t, s) = state_upto(anns, len, p - 1);
        let (bt, s2) = boundary(anns, s, p - 1, len);
        lemma_first_closing(anns, s, p - 1, 0);
        lemma_run_boundary(anns, s, p - 1, len);
        lemma_run_concat(Some(Seq::<usize>::empty()), t, bt);
        assert((t + bt + seq![Token::Char((p - 1) as usize)]).drop_last() =~= t + bt);
        lemma_boundary_open_past(anns, s, p - 1, len);
    }
}

/// At the end of the text no annotation stays open.
proof fn lemma_last_boundary(anns: Seq<Annotation>, stack: Seq<usize>, len: int)
    requires
        anns.len() <= usize::MAX,
        open_past(anns, stack, len, len),
    ensures
        boundary(anns, stack, len, len).1 == Seq::<usize>::empty(),
{
    lemma_first_closing(anns, stack, len, 0);
    let k = first_closing(anns, stack, len, 0);
    if stack.len() > 0 {
        assert(is_valid(anns[stack[0] as int], len));
        assert(k == 0);
    }
    lemma_kept_members(anns, stack, len, k, stack.len() as int, len);
    let kp = kept(anns, stack, len, k, stack.len() as int);
    if kp.len() > 0 {
        assert(is_valid(anns[kp[0] as int], len));
    }
    lemma_rows_empty_above(anns, len, len + 1);
    lemma_row_at_start(anns, len, len, anns.len() as int);
    assert(open_rows(anns, len, len, len).1 =~= Seq::<usize>::empty());
    assert(stack.subrange(0, k) + kp + Seq::<usize>::empty() =~= Seq::<usize>::empty());
}

proof fn lemma_rows_empty_above(anns: Seq<Annotation>, p: int, e: int)
    requires
        e > p,
    ensures
        open_rows(anns, p, e, p) == (Seq::<Token>::empty(), Seq::<usize>::empty()),
{
}

/// For every list of annotations, with no condition on their offsets, the tags in a
/// paragraph's body are balanced: each opened tag is closed, and tags close in the
/// reverse order of their opening.
pub proof fn lemma_body_tags_balanced(anns: Seq<Annotation>, len: int)
    requires
        0 <= len,
        anns.len() <= usize::MAX,
    ensures
        tags_balanced(paragraph_tokens(anns, len)),
{
    lemma_state_run(anns, len, len);
    let (t, s) = state_upto(anns, len, len);
    lemma_first_closing(anns, s, len, 0);
    lemma_run_boundary(anns, s, len, len);
    lemma_run_concat(Some(Seq::<usize>::empty()), t, boundary(anns, s, len, len).0);
    lemma_last_boundary(anns, s, len);
}

fn annotation_within(a: &Annotation, len: usize) -> (r: bool)
    ensures
        r == is_valid(*a, len as int),
{
    0 <= a.start && a.start <= a.end && (a.end as i128) <= (len as i128)
}

/// Writes the tags that stand at breakpoint `p` and updates the stack of open
/// annotations.
fn emit_boundary(
    anns: &Vec<Annotation>,
    text: &str,
    stack: &mut Vec<usize>,
    p: usize,
    len: usize,
    out: &mut String,
)
    requires
        p <= len,
        stack_ok(anns@, old(stack)@, len as int),
    ensures
        final(stack)@ == boundary(anns@, old(stack)@, p as int, len as int).1,
        final(out)@ == old(out)@ + tokens_html(
            anns@,
            text@,
            boundary(anns@, old(stack)@, p as int, len as int).0,
        ),
        stack_ok(anns@, final(stack)@, len as int),
{
    let ghost a = anns@;
    let ghost st = stack@;
    let ghost t = text@;
    let ghost out0 = out@;
    let n = stack.len();
    let mut k: usize = 0;
    while k < n && (anns[stack[k]].end as i128) != (p as i128)
        invariant
            k <= n,
            n == stack.len(),
            stack@ == st,
            stack_ok(a, st, len as int),
            a == anns@,
            first_closing(a, st, p as int, 0) == first_closing(a, st, p as int, k as int),
        decreases n - k,
    {
        k = k + 1;
    }
    // close from the top down to k
    let mut j: usize = n;
    while j > k
        invariant
            k <= j <= n,
            n == stack.len(),
            stack@ == st,
            stack_ok(a, st, len as int),
            a == anns@,
            out@ == out0 + tokens_html(a, t, closing_tokens(st, j as int)),
        decreases j,
    {
        j = j - 1;
        let ghost before = out@;
        push_markup(out, &anns[stack[j]].kind, Edge::Close);
        proof {
            assert(closing_tokens(st, j as int) =~= closing_tokens(st, (j + 1) as int).push(
                Token::Close(st[j as int]),
            ));
            lemma_html_push(a, t, closing_tokens(st, (j + 1) as int), Token::Close(st[j as int]));
        }
    }
    let ghost out1 = out@;
    let mut ns: Vec<usize> = Vec::new();
    let mut i: usize = 0;
    while i < k
        invariant
            i <= k <= n,
            n == stack.len(),
            stack@ == st,
            ns@ == st.subrange(0, i as int),
            stack_ok(a, st, len as int),
            stack_ok(a, ns@, len as int),
        decreases k - i,
    {
        ns.push(stack[i]);
        i = i + 1;
        assert(ns@ =~= st.subrange(0, i as int));
        assert(ns@[i - 1] == st[i - 1]);
    }
    // reopen those that cross the closed ones
    let mut j: usize = k;
    while j < n
        invariant
            k <= j <= n,
            n == stack.len(),
            stack@ == st,
            stack_ok(a, st, len as int),
            a == anns@,
            ns@ == st.subrange(0, k as int) + kept(a, st, p as int, k as int, j as int),
            stack_ok(a, ns@, len as int),
            out@ == out1 + tokens_html(a, t, opens_of(kept(a, st, p as int, k as int, j as int))),
        decreases n - j,
    {
        let idx = stack[j];
        let ghost kp = kept(a, st, p as int, k as int, j as int);
        if (anns[idx].end as i128) != (p as i128) {
            ns.push(idx);
            push_markup(out, &anns[idx].kind, Edge::Open);
            proof {
                assert(opens_of(kp.push(idx)) =~= opens_of(kp).push(Token::Open(idx)));
                lemma_html_push(a, t, opens_of(kp), Token::Open(idx));
            }
        }
        j = j + 1;
    }
    let ghost out2 = out@;
    let ghost base = ns@;
    // open those that start here, longest first
    let mut e: usize = len;
    loop
        invariant_except_break
            ns@ == base + open_rows(a, p as int, e as int + 1, len as int).1,
            out@ == out2 + tokens_html(a, t, open_rows(a, p as int, e as int + 1, len as int).0),
        invariant
            p <= e <= len,
            a == anns@,
            stack_ok(a, base, len as int),
            forall|m: int|
                0 <= m < open_rows(a, p as int, e as int + 1, len as int).1.len() ==> (
                #[trigger] open_rows(a, p as int, e as int + 1, len as int).1[m]) < a.len()
                    && is_valid(a[open_rows(a, p as int, e as int + 1, len as int).1[m] as int], len as int),
        ensures
            ns@ == base + open_rows(a, p as int, p as int, len as int).1,
            out@ == out2 + tokens_html(a, t, open_rows(a, p as int, p as int, len as int).0),
            stack_ok(a, ns@, len as int),
        decreases e,
    {
        let ghost above = open_rows(a, p as int, e as int + 1, len as int);
        let ghost out_row = out@;
        let ghost ns_row = ns@;
        let mut i: usize = 0;
        while i < anns.len()
            invariant
                i <= anns.len(),
                a == anns@,
                p <= e <= len,
                ns@ == ns_row + open_row(a, p as int, e as int, len as int, i as int).1,
                out@ == out_row + tokens_html(a, t, open_row(a, p as int, e as int, len as int, i as int).0),
                forall|m: int|
                    0 <= m < open_row(a, p as int, e as int, len as int, i as int).1.len() ==> (
                    #[trigger] open_row(a, p as int, e as int, len as int, i as int).1[m]) < i
                        && is_valid(a[open_row(a, p as int, e as int, len as int, i as int).1[m] as int], len as int),
            decreases anns.len() - i,
        {
            let ghost row = open_row(a, p as int, e as int, len as int, i as int);
            let an = &anns[i];
            if annotation_within(an, len) && (an.start as i128) == (p as i128) && (an.end as i128) == (
            e as i128) {
                push_markup(out, &an.kind, Edge::Open);
                proof {
                    lemma_html_push(a, t, row.0, Token::Open(i));
                }
                if e == p {
                    push_markup(out, &an.kind, Edge::Close);
                    proof {
                        lemma_html_push(a, t, row.0.push(Token::Open(i)), Token::Close(i));
                        assert(row.0.push(Token::Open(i)).push(Token::Close(i)) =~= row.0 + seq![
                            Token::Open(i), Token::Close(i)]);
                    }
                } else {
                    ns.push(i);
                    proof {
                        assert(ns@ =~= ns_row + row.1.push(i));
                    }
                }
            }
            i = i + 1;
        }
        proof {
            let row = open_row(a, p as int, e as int, len as int, a.len() as int);
            lemma_html_concat(a, t, above.0, row.0);
            assert(ns@ =~= base + (above.1 + row.1));
            assert(out@ =~= out2 + tokens_html(a, t, above.0 + row.0));
            let rows = open_rows(a, p as int, e as int, len as int);
            assert(rows.1 =~= above.1 + row.1);
            assert forall|m: int| 0 <= m < rows.1.len() implies (#[trigger] rows.1[m]) < a.len()
                && is_valid(a[rows.1[m] as int], len as int) by {
                if m >= above.1.len() {
                    assert(rows.1[m] == row.1[m - above.1.len()]);
                }
            }
        }
        if e == p {
            proof {
                let rows = open_rows(a, p as int, e as int, len as int);
                assert forall|j: int| 0 <= j < ns@.len() implies (#[trigger] ns@[j]) < a.len()
                    && is_valid(a[ns@[j] as int], len as int) by {
                    if j >= base.len() {
                        assert(ns@[j] == rows.1[j - base.len()]);
                    } else {
                        assert(ns@[j] == base[j]);
                    }
                }
            }
            break;
        }
        e = e - 1;
    }
    proof {
        let k_ = first_closing(a, st, p as int, 0);
        assert(k_ == k as int);
        let rows = open_rows(a, p as int, p as int, len as int);
        let kp = kept(a, st, p as int, k as int, n as int);
        lemma_html_concat(a, t, closing_tokens(st, k as int), opens_of(kp));
        lemma_html_concat(a, t, closing_tokens(st, k as int) + opens_of(kp), rows.0);
        assert(ns@ =~= st.subrange(0, k as int) + kp + rows.1);
    }
    *stack = ns;
}

/// The next offset after `p` where an annotation within the text starts or ends, or
/// `len` if there is none.
fn next_breakpoint(anns: &Vec<Annotation>, p: usize, len: usize) -> (q: usize)
    requires
        p < len,
    ensures
        p < q <= len,
        forall|r: int| p < r < q ==> #[trigger] is_quiet(anns@, r, len as int),
{
    let mut q = len;
    let mut i: usize = 0;
    while i < anns.len()
        invariant
            i <= anns.len(),
            p < q <= len,
            forall|m: int|
                0 <= m < i && #[trigger] is_valid(anns@[m], len as int) ==> !(p < anns@[m].start < q)
                    && !(p < anns@[m].end < q),
        decreases anns.len() - i,
    {
        let an = &anns[i];
        if annotation_within(an, len) {
            if (p as i128) < (an.start as i128) && (an.start as i128) < (q as i128) {
                q = an.start as usize;
            }
            if (p as i128) < (an.end as i128) && (an.end as i128) < (q as i128) {
                q = an.end as usize;
            }
        }
        i = i + 1;
    }
    proof {
        assert forall|r: int| p < r < q implies #[trigger] is_quiet(anns@, r, len as int) by {
            assert forall|m: int| 0 <= m < anns@.len() && #[trigger] is_valid(anns@[m], len as int) implies anns@[m].start != r
                && anns@[m].end != r by {
            }
        }
    }
    q
}

/// Renders a paragraph's body: its text, with the tags of each annotation that lies
/// within it. Annotations outside the text are skipped; tags always nest.
pub fn render_body(anns: &Vec<Annotation>, text: &str) -> (r: String)
    ensures
        r@ == body_html(anns@, text@),
{
    let len = text.unicode_len();
    let ghost a = anns@;
    let ghost t = text@;
    let mut out = String::new();
    let mut stack: Vec<usize> = Vec::new();
    let mut p: usize = 0;
    loop
        invariant_except_break
            out@ == tokens_html(a, t, state_upto(a, len as int, p as int).0),
            stack@ == state_upto(a, len as int, p as int).1,
            stack_ok(a, stack@, len as int),
        invariant
            p <= len,
            len == t.len(),
            a == anns@,
            t == text@,
        ensures
            out@ == body_html(a, t),
        decreases len - p,
    {
        let ghost st = state_upto(a, len as int, p as int);
        let ghost bd = boundary(a, stack@, p as int, len as int);
        emit_boundary(anns, text, &mut stack, p, len, &mut out);
        proof {
            lemma_html_concat(a, t, st.0, bd.0);
        }
        if p == len {
            break;
        }
        let q = next_breakpoint(anns, p, len);
        out.append(text.substring_char(p, q));
        proof {
            let next = state_upto(a, len as int, p as int + 1);
            assert(next.0 == st.0 + bd.0 + seq![Token::Char(p)]);
            assert(next.1 == bd.1);
            lemma_quiet_run(a, len as int, p as int + 1, q as int);
            assert(st.0 + bd.0 + seq![Token::Char(p)] + char_tokens(p as int + 1, q as int)
                =~= (st.0 + bd.0) + char_tokens(p as int, q as int));
            lemma_html_concat(a, t, st.0 + bd.0, char_tokens(p as int, q as int));
            lemma_char_html(a, t, p as int, q as int);
        }
        p = q;
    }
    out
}

/// Without annotations, a paragraph's body is its text as it is.
pub proof fn lemma_body_plain(anns: Seq<Annotation>, text: Seq<char>)
    requires
        anns.len() == 0,
        text.len() <= usize::MAX,
    ensures
        body_html(anns, text) == text,
{
    let len = text.len() as int;
    assert(stack_ok(anns, state_upto(anns, len, 0).1, len));
    assert forall|r: int| 0 <= r < len implies #[trigger] is_quiet(anns, r, len) by {}
    lemma_quiet_run(anns, len, 0, len);
    assert(is_quiet(anns, len, len));
    lemma_boundary_quiet(anns, Seq::<usize>::empty(), len, len);
    assert(paragraph_tokens(anns, len) =~= char_tokens(0, len));
    lemma_char_html(anns, text, 0, len);
    assert(text.subrange(0, len) =~= text);
}

} // verus!
