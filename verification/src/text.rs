//! Small text helpers: equality and substring search over characters, and
//! decimal rendering of counts.

use vstd::prelude::*;
use vstd::string::{StrSliceExecFns, StringExecFns};

verus! {

/// The characters `a` and `b` are the same text.
pub fn same_text(a: &str, b: &str) -> (r: bool)
    ensures
        r == (a@ == b@),
{
    let n = a.unicode_len();
    if n != b.unicode_len() {
        return false;
    }
    let mut i: usize = 0;
    while i < n
        invariant
            n == a@.len(),
            n == b@.len(),
            i <= n,
            forall|k: int| 0 <= k < i ==> a@[k] == b@[k],
        decreases n - i,
    {
        if a.get_char(i) != b.get_char(i) {
            return false;
        }
        i = i + 1;
    }
    assert(a@ =~= b@);
    true
}

/// `needle` occurs in `hay` at position `i`.
pub open spec fn occurs_at(hay: Seq<char>, needle: Seq<char>, i: int) -> bool {
    0 <= i && i + needle.len() <= hay.len() && hay.subrange(i, i + needle.len()) == needle
}

/// `needle` occurs somewhere in `hay` (the empty text occurs everywhere).
pub open spec fn contains_text(hay: Seq<char>, needle: Seq<char>) -> bool {
    exists|i: int| #[trigger] occurs_at(hay, needle, i)
}

/// Substring search over characters.
pub fn text_contains(hay: &str, needle: &str) -> (r: bool)
    ensures
        r == contains_text(hay@, needle@),
{
    let h = hay.unicode_len();
    let m = needle.unicode_len();
    if m > h {
        assert forall|i: int| !#[trigger] occurs_at(hay@, needle@, i) by {}
        return false;
    }
    let last = h - m;
    let mut i: usize = 0;
    loop
        invariant
            h == hay@.len(),
            m == needle@.len(),
            m <= h,
            last == h - m,
            i <= last,
            forall|k: int| 0 <= k < i ==> !#[trigger] occurs_at(hay@, needle@, k),
        decreases last - i,
    {
        let mut j: usize = 0;
        let mut matched = true;
        while j < m
            invariant
                h == hay@.len(),
                m == needle@.len(),
                i + m <= h,
                j <= m,
                matched ==> forall|k: int| 0 <= k < j ==> hay@[i + k] == needle@[k],
                !matched ==> !occurs_at(hay@, needle@, i as int),
            decreases m - j,
        {
            if matched && hay.get_char(i + j) != needle.get_char(j) {
                matched = false;
                assert(hay@.subrange(i as int, i + m)[j as int] != needle@[j as int]);
            }
            j = j + 1;
        }
        if matched {
            assert(hay@.subrange(i as int, i + m) =~= needle@);
            assert(occurs_at(hay@, needle@, i as int));
            return true;
        }
        if i == last {
            assert forall|k: int| !#[trigger] occurs_at(hay@, needle@, k) by {
                if k > last {
                }
            }
            return false;
        }
        i = i + 1;
    }
}

/// The decimal digit `d` (0 to 9) as a character.
pub open spec fn digit_char(d: nat) -> char {
    "0123456789"@[d as int]
}

/// `n` written in decimal, most significant digit first, with no leading
/// zeros ("0" for zero).
pub open spec fn decimal(n: nat) -> Seq<char>
    decreases n,
{
    if n < 10 {
        seq![digit_char(n)]
    } else {
        decimal(n / 10).push(digit_char(n % 10))
    }
}

/// `n` in decimal, as `Display` for integers writes it.
pub fn decimal_text(n: u128) -> (r: String)
    ensures
        r@ == decimal(n as nat),
    decreases n,
{
    let digits = "0123456789";
    proof {
        reveal_strlit("0123456789");
    }
    let d = (n % 10) as usize;
    let mut r = if n < 10 {
        String::new()
    } else {
        decimal_text(n / 10)
    };
    r.append(digits.substring_char(d, d + 1));
    if n < 10 {
        assert(r@ =~= seq![digit_char(n as nat)]);
    } else {
        assert(r@ =~= decimal((n / 10) as nat).push(digit_char((n % 10) as nat)));
    }
    r
}

/// `c` has the Unicode `White_Space` property, which `char::is_whitespace`
/// tests: tab, line feed, vertical tab, form feed, carriage return, space,
/// next line, no-break space, ogham space mark, the spaces from en quad to
/// hair space, line and paragraph separators, narrow no-break space, medium
/// mathematical space and ideographic space.
pub open spec fn whitespace(c: char) -> bool {
    ||| '\u{0009}' <= c <= '\u{000D}'
    ||| c == '\u{0020}'
    ||| c == '\u{0085}'
    ||| c == '\u{00A0}'
    ||| c == '\u{1680}'
    ||| '\u{2000}' <= c <= '\u{200A}'
    ||| c == '\u{2028}'
    ||| c == '\u{2029}'
    ||| c == '\u{202F}'
    ||| c == '\u{205F}'
    ||| c == '\u{3000}'
}

/// Whether `c` is whitespace, as `char::is_whitespace` answers.
pub fn is_whitespace(c: char) -> (r: bool)
    ensures
        r == whitespace(c),
{
    ('\u{0009}' <= c && c <= '\u{000D}') || c == '\u{0020}' || c == '\u{0085}' || c == '\u{00A0}'
        || c == '\u{1680}' || ('\u{2000}' <= c && c <= '\u{200A}') || c == '\u{2028}' || c == '\u{2029}'
        || c == '\u{202F}' || c == '\u{205F}' || c == '\u{3000}'
}

/// `s` without its leading whitespace.
pub open spec fn trim_start(s: Seq<char>) -> Seq<char>
    decreases s.len(),
{
    if s.len() > 0 && whitespace(s[0]) {
        trim_start(s.drop_first())
    } else {
        s
    }
}

/// `s` without its trailing whitespace.
pub open spec fn trim_end(s: Seq<char>) -> Seq<char>
    decreases s.len(),
{
    if s.len() > 0 && whitespace(s.last()) {
        trim_end(s.drop_last())
    } else {
        s
    }
}

/// `s` without leading or trailing whitespace, as `str::trim` gives it.
pub open spec fn trimmed(s: Seq<char>) -> Seq<char> {
    trim_end(trim_start(s))
}

/// `s` with leading and trailing whitespace removed.
pub fn trim_text(s: &str) -> (r: String)
    ensures
        r@ == trimmed(s@),
{
    let n = s.unicode_len();
    let mut i: usize = 0;
    assert(s@.subrange(0, n as int) =~= s@);
    while i < n && is_whitespace(s.get_char(i))
        invariant
            n == s@.len(),
            i <= n,
            trim_start(s@) == trim_start(s@.subrange(i as int, n as int)),
        decreases n - i,
    {
        assert(s@.subrange(i as int, n as int).drop_first() =~= s@.subrange(i + 1, n as int));
        i = i + 1;
    }
    assert(trim_start(s@) == s@.subrange(i as int, n as int));
    let mut j: usize = n;
    while j > i && is_whitespace(s.get_char(j - 1))
        invariant
            n == s@.len(),
            i <= j <= n,
            trim_end(s@.subrange(i as int, n as int)) == trim_end(s@.subrange(i as int, j as int)),
        decreases j - i,
    {
        assert(s@.subrange(i as int, j as int).drop_last() =~= s@.subrange(i as int, j - 1));
        j = j - 1;
    }
    assert(trim_end(s@.subrange(i as int, j as int)) == s@.subrange(i as int, j as int));
    String::from_str(s.substring_char(i, j))
}

/// The state of a left-to-right scan of the first `k` characters of `s`
/// for whitespace-separated words: the words finished so far, and where
/// the word under way (if any) starts.
pub open spec fn scan_words(s: Seq<char>, k: nat) -> (Seq<Seq<char>>, Option<nat>)
    decreases k,
{
    if k == 0 {
        (seq![], None)
    } else {
        let prev = scan_words(s, (k - 1) as nat);
        if whitespace(s[k - 1]) {
            match prev.1 {
                Some(b) => (prev.0.push(s.subrange(b as int, k - 1)), None),
                None => prev,
            }
        } else {
            match prev.1 {
                Some(b) => prev,
                None => (prev.0, Some((k - 1) as nat)),
            }
        }
    }
}

/// The whitespace-separated words of `s`, in order, as
/// `str::split_whitespace` gives them.
pub open spec fn words(s: Seq<char>) -> Seq<Seq<char>> {
    let st = scan_words(s, s.len());
    match st.1 {
        Some(b) => st.0.push(s.subrange(b as int, s.len() as int)),
        None => st.0,
    }
}

/// A word under way starts before the scan point.
proof fn lemma_scan_start(s: Seq<char>, k: nat)
    ensures
        scan_words(s, k).1 matches Some(b) ==> b < k,
    decreases k,
{
    if k > 0 {
        lemma_scan_start(s, (k - 1) as nat);
    }
}

/// The texts of a list of strings.
pub open spec fn string_texts(v: Seq<String>) -> Seq<Seq<char>> {
    v.map_values(|x: String| x@)
}

/// Splits `s` into its whitespace-separated words.
pub fn split_words(s: &str) -> (r: Vec<String>)
    ensures
        string_texts(r@) == words(s@),
{
    let n = s.unicode_len();
    let mut out: Vec<String> = Vec::new();
    let mut start: Option<usize> = None;
    let mut i: usize = 0;
    while i < n
        invariant
            n == s@.len(),
            i <= n,
            string_texts(out@) == scan_words(s@, i as nat).0,
            match start {
                Some(b) => scan_words(s@, i as nat).1 == Some(b as nat),
                None => scan_words(s@, i as nat).1 is None,
            },
        decreases n - i,
    {
        proof {
            lemma_scan_start(s@, i as nat);
        }
        let c = s.get_char(i);
        if is_whitespace(c) {
            match start {
                Some(b) => {
                    let ghost before = out@;
                    out.push(String::from_str(s.substring_char(b, i)));
                    assert(string_texts(out@) =~= string_texts(before).push(s@.subrange(b as int, i as int)));
                    start = None;
                },
                None => {},
            }
        } else {
            if start.is_none() {
                start = Some(i);
            }
        }
        i = i + 1;
    }
    proof {
        lemma_scan_start(s@, n as nat);
    }
    match start {
        Some(b) => {
            let ghost before = out@;
            out.push(String::from_str(s.substring_char(b, n)));
            assert(string_texts(out@) =~= string_texts(before).push(s@.subrange(b as int, n as int)));
        },
        None => {},
    }
    out
}

} // verus!
