use vstd::prelude::*;
use vstd::string::StrSliceExecFns;
use vstd::string::StringExecFns;

verus! {

/// True when `pat` occurs in `s` as a contiguous run of characters.
pub open spec fn has_infix(s: Seq<char>, pat: Seq<char>) -> bool {
    exists|i: int| 0 <= i <= s.len() - pat.len() && #[trigger] s.subrange(i, i + pat.len()) == pat
}

/// Relies on `str::contains` with a `&str` pattern: true exactly when the pattern
/// occurs in the string.
#[verifier::external_body]
pub(crate) fn str_contains(s: &str, pat: &str) -> (r: bool)
    ensures
        r == has_infix(s@, pat@),
{
    s.contains(pat)
}

/// Character equality of two strings.
pub fn same_text(a: &str, b: &str) -> (r: bool)
    ensures
        r == (a@ == b@),
{
    let n = a.unicode_len();
    let m = b.unicode_len();
    if n != m {
        return false;
    }
    let mut i: usize = 0;
    while i < n
        invariant
            n == a@.len(),
            m == b@.len(),
            n == m,
            i <= n,
            forall|j: int| 0 <= j < i ==> a@[j] == b@[j],
        decreases n - i,
    {
        if a.get_char(i) != b.get_char(i) {
            return false;
        }
        i = i + 1;
    }
    assert(a@ =~= b@);
    true
}

pub open spec fn digit_char(d: nat) -> char {
    if d == 0 {
        '0'
    } else if d == 1 {
        '1'
    } else if d == 2 {
        '2'
    } else if d == 3 {
        '3'
    } else if d == 4 {
        '4'
    } else if d == 5 {
        '5'
    } else if d == 6 {
        '6'
    } else if d == 7 {
        '7'
    } else if d == 8 {
        '8'
    } else {
        '9'
    }
}

/// The decimal digits of `n`, most significant first.
pub open spec fn decimal_nat(n: nat) -> Seq<char>
    decreases n,
{
    if n < 10 {
        seq![digit_char(n)]
    } else {
        decimal_nat(n / 10) + seq![digit_char(n % 10)]
    }
}

/// The decimal text of `n`, with a leading `-` when it is negative.
pub open spec fn decimal(n: int) -> Seq<char> {
    if n < 0 {
        seq!['-'] + decimal_nat((-n) as nat)
    } else {
        decimal_nat(n as nat)
    }
}

fn digit_str(d: u64) -> (r: &'static str)
    requires
        d < 10,
    ensures
        r@ == seq![digit_char(d as nat)],
{
    if d == 0 {
        proof { reveal_strlit("0"); }
        "0"
    } else if d == 1 {
        proof { reveal_strlit("1"); }
        "1"
    } else if d == 2 {
        proof { reveal_strlit("2"); }
        "2"
    } else if d == 3 {
        proof { reveal_strlit("3"); }
        "3"
    } else if d == 4 {
        proof { reveal_strlit("4"); }
        "4"
    } else if d == 5 {
        proof { reveal_strlit("5"); }
        "5"
    } else if d == 6 {
        proof { reveal_strlit("6"); }
        "6"
    } else if d == 7 {
        proof { reveal_strlit("7"); }
        "7"
    } else if d == 8 {
        proof { reveal_strlit("8"); }
        "8"
    } else {
        proof { reveal_strlit("9"); }
        "9"
    }
}

pub(crate) fn decimal_u64(n: u64) -> (r: String)
    ensures
        r@ == decimal_nat(n as nat),
    decreases n,
{
    let mut s = if n < 10 {
        String::new()
    } else {
        decimal_u64(n / 10)
    };
    s.append(digit_str(n % 10));
    proof {
        if n < 10 {
            assert(s@ =~= decimal_nat(n as nat));
        }
    }
    s
}

/// Writes `n` in decimal.
pub fn decimal_string(n: i64) -> (r: String)
    ensures
        r@ == decimal(n as int),
{
    if n < 0 {
        let m: u64 = (-(n as i128)) as u64;
        let mut s = String::new();
        proof { reveal_strlit("-"); }
        s.append("-");
        s.append(decimal_u64(m).as_str());
        s
    } else {
        decimal_u64(n as u64)
    }
}

/// `s` with every occurrence of `pat` replaced by `rep`, matched left to right without
/// overlap. An empty pattern occurs before each character and at the end.
pub open spec fn replace_all(s: Seq<char>, pat: Seq<char>, rep: Seq<char>) -> Seq<char>
    decreases s.len(),
{
    if pat.len() == 0 {
        if s.len() == 0 {
            rep
        } else {
            rep + seq![s[0]] + replace_all(s.subrange(1, s.len() as int), pat, rep)
        }
    } else if s.len() < pat.len() {
        s
    } else if s.subrange(0, pat.len() as int) == pat {
        rep + replace_all(s.subrange(pat.len() as int, s.len() as int), pat, rep)
    } else {
        seq![s[0]] + replace_all(s.subrange(1, s.len() as int), pat, rep)
    }
}

/// Replaces every occurrence of `pat` in `s` by `rep`.
pub fn replace_all_str(s: &str, pat: &str, rep: &str) -> (r: String)
    ensures
        r@ == replace_all(s@, pat@, rep@),
{
    let n = s.unicode_len();
    let m = pat.unicode_len();
    let mut out = String::new();
    let mut i: usize = 0;
    assert(s@.subrange(0, n as int) =~= s@);
    if m == 0 {
        assert(out@ + replace_all(s@, pat@, rep@) =~= replace_all(s@, pat@, rep@));
        while i < n
            invariant
                n == s@.len(),
                m == pat@.len(),
                m == 0,
                i <= n,
                out@ + replace_all(s@.subrange(i as int, n as int), pat@, rep@) == replace_all(s@, pat@, rep@),
            decreases n - i,
        {
            let ghost rest = s@.subrange(i as int, n as int);
            let ghost out0 = out@;
            out.append(rep);
            out.append(s.substring_char(i, i + 1));
            proof {
                assert(rest.subrange(1, rest.len() as int) =~= s@.subrange((i + 1) as int, n as int));
                assert(s@.subrange(i as int, (i + 1) as int) =~= seq![rest[0]]);
                let tail = replace_all(s@.subrange((i + 1) as int, n as int), pat@, rep@);
                assert(out@ + tail =~= out0 + (rep@ + seq![rest[0]] + tail));
            }
            i = i + 1;
        }
        out.append(rep);
        assert(s@.subrange(n as int, n as int) =~= Seq::<char>::empty());
        return out;
    }
    assert(out@ + replace_all(s@, pat@, rep@) =~= replace_all(s@, pat@, rep@));
    while i < n
        invariant
            n == s@.len(),
            m == pat@.len(),
            m > 0,
            i <= n,
            out@ + replace_all(s@.subrange(i as int, n as int), pat@, rep@) == replace_all(s@, pat@, rep@),
        decreases n - i,
    {
        let ghost rest = s@.subrange(i as int, n as int);
        let ghost out0 = out@;
        if n - i >= m && same_text(s.substring_char(i, i + m), pat) {
            out.append(rep);
            proof {
                assert(rest.subrange(0, m as int) =~= s@.subrange(i as int, (i + m) as int));
                assert(rest.subrange(m as int, rest.len() as int) =~= s@.subrange((i + m) as int, n as int));
                let tail = replace_all(s@.subrange((i + m) as int, n as int), pat@, rep@);
                assert(out@ + tail =~= out0 + (rep@ + tail));
            }
            i = i + m;
        } else {
            out.append(s.substring_char(i, i + 1));
            proof {
                if n - i >= m {
                    assert(rest.subrange(0, m as int) =~= s@.subrange(i as int, (i + m) as int));
                }
                assert(rest.subrange(1, rest.len() as int) =~= s@.subrange((i + 1) as int, n as int));
                assert(s@.subrange(i as int, (i + 1) as int) =~= seq![rest[0]]);
                let tail = replace_all(s@.subrange((i + 1) as int, n as int), pat@, rep@);
                assert(out@ + tail =~= out0 + (seq![rest[0]] + tail));
            }
            i = i + 1;
        }
    }
    proof {
        assert(s@.subrange(n as int, n as int) =~= Seq::<char>::empty());
        assert(out@ + Seq::<char>::empty() =~= out@);
    }
    out
}

pub open spec fn min_int(a: int, b: int) -> int {
    if a <= b {
        a
    } else {
        b
    }
}

/// Slicing a string by code points rather than bytes.
pub trait StringUtils {
    /// The characters of the string.
    spec fn chars_view(&self) -> Seq<char>;

    /// Up to `len` characters from character `start`, clipped to the string's end.
    fn substring(&self, start: usize, len: usize) -> (r: &str)
        ensures
            r@ == self.chars_view().subrange(
                min_int(start as int, self.chars_view().len() as int),
                min_int(start + len, self.chars_view().len() as int),
            ),
    ;

    /// The characters from `start` up to `end` (to the string's end when `end` is none),
    /// clipped to the string's end.
    fn slice(&self, start: usize, end: Option<usize>) -> (r: &str)
        requires
            end matches Some(e) ==> start <= e,
        ensures
            r@ == self.chars_view().subrange(
                min_int(start as int, self.chars_view().len() as int),
                match end {
                    Some(e) => min_int(e as int, self.chars_view().len() as int),
                    None => self.chars_view().len() as int,
                },
            ),
    ;
}

impl StringUtils for str {
    open spec fn chars_view(&self) -> Seq<char> {
        self@
    }

    fn substring(&self, start: usize, len: usize) -> (r: &str) {
        let n = self.unicode_len();
        let a = if start <= n {
            start
        } else {
            n
        };
        let b = if len <= n - a {
            a + len
        } else {
            n
        };
        self.substring_char(a, b)
    }

    fn slice(&self, start: usize, end: Option<usize>) -> (r: &str) {
        let n = self.unicode_len();
        let len = match end {
            Some(e) => e - start,
            None => if start <= n {
                n - start
            } else {
                0
            },
        };
        self.substring(start, len)
    }
}

} // verus!
