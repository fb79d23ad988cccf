//! Character classes and small text helpers shared by the grammar and the extractor.

use vstd::prelude::*;

verus! {

/// Whether `c` is whitespace: the Unicode `White_Space` code points.
pub open spec fn is_whitespace(c: char) -> bool {
    ||| '\u{9}' <= c <= '\u{D}'
    ||| c == ' '
    ||| c == '\u{85}'
    ||| c == '\u{A0}'
    ||| c == '\u{1680}'
    ||| '\u{2000}' <= c <= '\u{200A}'
    ||| c == '\u{2028}'
    ||| c == '\u{2029}'
    ||| c == '\u{202F}'
    ||| c == '\u{205F}'
    ||| c == '\u{3000}'
}

/// Whether `c` opens a quoted string.
pub open spec fn is_quote(c: char) -> bool {
    c == '"' || c == '\''
}

/// The first index in `[lo, hi)` that holds no whitespace, or `hi` if there is none.
pub open spec fn skip_space(s: Seq<char>, lo: int, hi: int) -> int
    decreases hi - lo,
{
    if lo < hi && is_whitespace(s[lo]) {
        skip_space(s, lo + 1, hi)
    } else {
        lo
    }
}

/// One past the last index in `[lo, hi)` that holds no whitespace, or `lo` if there is none.
pub open spec fn skip_space_back(s: Seq<char>, lo: int, hi: int) -> int
    decreases hi - lo,
{
    if lo < hi && is_whitespace(s[hi - 1]) {
        skip_space_back(s, lo, hi - 1)
    } else {
        hi
    }
}

/// `s` without the whitespace at either end.
pub open spec fn trim(s: Seq<char>) -> Seq<char> {
    let a = skip_space(s, 0, s.len() as int);
    s.subrange(a, skip_space_back(s, a, s.len() as int))
}

/// The first index at or after `from` where `s` holds `c`.
pub open spec fn find_char(s: Seq<char>, c: char, from: int) -> Option<int>
    decreases s.len() - from,
{
    if from >= s.len() {
        None
    } else if s[from] == c {
        Some(from)
    } else {
        find_char(s, c, from + 1)
    }
}

/// `s` without one enclosing pair of equal quote characters, if it has one.
///
/// A lone quote character is no pair and stays as it is. What stands between the quotes is
/// not touched: a backslash stays a backslash.
pub open spec fn unquoted(s: Seq<char>) -> Seq<char> {
    if s.len() >= 2 && is_quote(s[0]) && s.last() == s[0] {
        s.subrange(1, s.len() - 1)
    } else {
        s
    }
}

/// A header line split at its first colon into name and value, both trimmed.
/// `None` if the line holds no colon.
pub open spec fn header_parts(s: Seq<char>) -> Option<(Seq<char>, Seq<char>)> {
    match find_char(s, ':', 0) {
        Some(i) => Some((trim(s.subrange(0, i)), trim(s.subrange(i + 1, s.len() as int)))),
        None => None,
    }
}

/// Whether `s` neither starts nor ends with whitespace.
pub open spec fn is_trimmed(s: Seq<char>) -> bool {
    s.len() > 0 ==> !is_whitespace(s[0]) && !is_whitespace(s.last())
}

/// The uppercase form of a text as `str::to_uppercase` gives it.
pub uninterp spec fn uppercase(s: Seq<char>) -> Seq<char>;

/// `str::to_uppercase` of the standard library: the result is a function of the characters
/// of the argument alone, which the library calls `uppercase`. Nothing else is claimed.
pub assume_specification[ str::to_uppercase ](s: &str) -> (r: String)
    ensures
        r@ == uppercase(s@),
;

/// `find_char` finds the first occurrence: nothing before it holds `c`.
pub proof fn lemma_find_char_first(s: Seq<char>, c: char, from: int)
    requires
        0 <= from,
    ensures
        match find_char(s, c, from) {
            Some(i) => from <= i < s.len() && s[i] == c && forall|j: int|
                from <= j < i ==> s[j] != c,
            None => forall|j: int| from <= j < s.len() ==> s[j] != c,
        },
    decreases s.len() - from,
{
    if from < s.len() && s[from] != c {
        lemma_find_char_first(s, c, from + 1);
    }
}

/// `skip_space` stays in its range, passes whitespace only and stops at the first character
/// that is none.
pub proof fn lemma_skip_space(s: Seq<char>, lo: int, hi: int)
    requires
        lo <= hi,
    ensures
        lo <= skip_space(s, lo, hi) <= hi,
        skip_space(s, lo, hi) < hi ==> !is_whitespace(s[skip_space(s, lo, hi)]),
        forall|j: int| lo <= j < skip_space(s, lo, hi) ==> is_whitespace(s[j]),
    decreases hi - lo,
{
    if lo < hi && is_whitespace(s[lo]) {
        lemma_skip_space(s, lo + 1, hi);
    }
}

/// `skip_space_back` stays in its range, passes whitespace only and stops behind the last
/// character that is none.
pub proof fn lemma_skip_space_back(s: Seq<char>, lo: int, hi: int)
    requires
        lo <= hi,
    ensures
        lo <= skip_space_back(s, lo, hi) <= hi,
        lo < skip_space_back(s, lo, hi) ==> !is_whitespace(s[skip_space_back(s, lo, hi) - 1]),
        forall|j: int| skip_space_back(s, lo, hi) <= j < hi ==> is_whitespace(s[j]),
    decreases hi - lo,
{
    if lo < hi && is_whitespace(s[hi - 1]) {
        lemma_skip_space_back(s, lo, hi - 1);
    }
}

/// What is left after trimming neither starts nor ends with whitespace.
pub proof fn lemma_trim(s: Seq<char>)
    ensures
        is_trimmed(trim(s)),
{
    let a = skip_space(s, 0, s.len() as int);
    lemma_skip_space(s, 0, s.len() as int);
    lemma_skip_space_back(s, a, s.len() as int);
}

/// Skipping whitespace forward in a part of a text is skipping it in the text, up to the
/// end of the part.
proof fn lemma_skip_space_forward_in_part(s: Seq<char>, lo: int, hi: int, i: int)
    requires
        0 <= lo <= i <= hi <= s.len(),
    ensures
        skip_space(s.subrange(lo, hi), i - lo, hi - lo) == skip_space(s, i, hi) - lo,
    decreases hi - i,
{
    if i < hi && is_whitespace(s[i]) {
        lemma_skip_space_forward_in_part(s, lo, hi, i + 1);
    }
}

/// Skipping whitespace backward in a part of a text is skipping it in the text, down to
/// the start of the part.
proof fn lemma_skip_space_back_in_part(s: Seq<char>, lo: int, hi: int, i: int)
    requires
        0 <= lo <= i <= hi <= s.len(),
    ensures
        skip_space_back(s.subrange(lo, hi), 0, i - lo) == skip_space_back(s, lo, i) - lo,
    decreases i - lo,
{
    if lo < i && is_whitespace(s[i - 1]) {
        lemma_skip_space_back_in_part(s, lo, hi, i - 1);
    }
}

/// Trimming a part of a text gives the characters between the whitespace at the two ends
/// of the part.
pub proof fn lemma_trim_part(s: Seq<char>, lo: int, hi: int)
    requires
        0 <= lo <= hi <= s.len(),
    ensures
        trim(s.subrange(lo, hi)) == s.subrange(
            skip_space(s, lo, hi),
            skip_space_back(s, skip_space(s, lo, hi), hi),
        ),
{
    let part = s.subrange(lo, hi);
    let a = skip_space(s, lo, hi);
    let b = skip_space_back(s, a, hi);
    lemma_skip_space(s, lo, hi);
    lemma_skip_space_back(s, a, hi);
    lemma_skip_space_forward_in_part(s, lo, hi, lo);
    lemma_skip_space_back_in_part(s, a, hi, hi);
    lemma_skip_space_back_in_part(part, a - lo, hi - lo, hi - lo);
    assert(part.subrange(a - lo, hi - lo) =~= s.subrange(a, hi));
}

/// Name and value of a header neither start nor end with whitespace.
pub proof fn lemma_header_parts_trimmed(s: Seq<char>)
    ensures
        header_parts(s) matches Some((name, value)) ==> is_trimmed(name) && is_trimmed(value),
{
    match find_char(s, ':', 0) {
        Some(i) => {
            lemma_trim(s.subrange(0, i));
            lemma_trim(s.subrange(i + 1, s.len() as int));
        },
        None => {},
    }
}

/// Tests a character for whitespace.
pub fn is_space(c: char) -> (r: bool)
    ensures
        r == is_whitespace(c),
{
    ('\u{9}' <= c && c <= '\u{D}') || c == ' ' || c == '\u{85}' || c == '\u{A0}' || c == '\u{1680}'
        || ('\u{2000}' <= c && c <= '\u{200A}') || c == '\u{2028}' || c == '\u{2029}' || c
        == '\u{202F}' || c == '\u{205F}' || c == '\u{3000}'
}

/// The characters of `s`, in order.
pub fn to_chars(s: &str) -> (v: Vec<char>)
    ensures
        v@ == s@,
{
    let mut v: Vec<char> = Vec::new();
    for c in it: s.chars()
        invariant
            v@ == it.seq().take(it.index() as int),
    {
        v.push(c);
    }
    v
}

/// Skips whitespace forward from `lo`, not going beyond `hi`.
pub(crate) fn skip_space_in(chars: &Vec<char>, lo: usize, hi: usize) -> (r: usize)
    requires
        lo <= hi <= chars@.len(),
    ensures
        r == skip_space(chars@, lo as int, hi as int),
        lo <= r <= hi,
{
    let mut i: usize = lo;
    while i < hi && is_space(chars[i])
        invariant
            lo <= i <= hi <= chars@.len(),
            skip_space(chars@, lo as int, hi as int) == skip_space(chars@, i as int, hi as int),
        decreases hi - i,
    {
        i += 1;
    }
    i
}

/// Skips whitespace backward from `hi`, not going below `lo`.
pub(crate) fn skip_space_back_in(chars: &Vec<char>, lo: usize, hi: usize) -> (r: usize)
    requires
        lo <= hi <= chars@.len(),
    ensures
        r == skip_space_back(chars@, lo as int, hi as int),
        lo <= r <= hi,
{
    let mut i: usize = hi;
    while lo < i && is_space(chars[i - 1])
        invariant
            lo <= i <= hi <= chars@.len(),
            skip_space_back(chars@, lo as int, hi as int) == skip_space_back(
                chars@,
                lo as int,
                i as int,
            ),
        decreases i - lo,
    {
        i -= 1;
    }
    i
}

/// Strips one enclosing pair of equal quote characters.
pub fn strip_quotes<'a>(s: &'a str) -> (r: &'a str)
    ensures
        r@ == unquoted(s@),
{
    let n = s.unicode_len();
    if n >= 2 {
        let first = s.get_char(0);
        let last = s.get_char(n - 1);
        if (first == '"' || first == '\'') && last == first {
            return s.substring_char(1, n - 1);
        }
    }
    s
}

/// Splits a header line at its first colon and trims name and value.
pub fn split_header(raw: &str) -> (r: Option<(String, String)>)
    ensures
        match r {
            Some((name, value)) => header_parts(raw@) == Some((name@, value@)),
            None => header_parts(raw@) is None,
        },
{
    let chars = to_chars(raw);
    let n = chars.len();
    let mut i: usize = 0;
    while i < n && chars[i] != ':'
        invariant
            i <= n == chars@.len(),
            find_char(chars@, ':', 0) == find_char(chars@, ':', i as int),
        decreases n - i,
    {
        i += 1;
    }
    if i == n {
        return None;
    }
    let a = skip_space_in(&chars, 0, i);
    let b = skip_space_back_in(&chars, a, i);
    let c = skip_space_in(&chars, i + 1, n);
    let d = skip_space_back_in(&chars, c, n);
    proof {
        lemma_trim_part(raw@, 0, i as int);
        lemma_trim_part(raw@, i + 1, n as int);
    }
    let name = raw.substring_char(a, b).to_owned();
    let value = raw.substring_char(c, d).to_owned();
    Some((name, value))
}

} // verus!
