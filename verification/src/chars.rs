use vstd::prelude::*;

verus! {

/// Whether `c` has the Unicode `White_Space` property: U+0009 to U+000D,
/// U+0020, U+0085, U+00A0, U+1680, U+2000 to U+200A, U+2028, U+2029, U+202F,
/// U+205F and U+3000.
pub open spec fn char_is_whitespace(c: char) -> bool {
    ||| ('\u{9}' <= c && c <= '\u{d}')
    ||| c == ' '
    ||| c == '\u{85}'
    ||| c == '\u{a0}'
    ||| c == '\u{1680}'
    ||| ('\u{2000}' <= c && c <= '\u{200a}')
    ||| c == '\u{2028}'
    ||| c == '\u{2029}'
    ||| c == '\u{202f}'
    ||| c == '\u{205f}'
    ||| c == '\u{3000}'
}

/// Tells whether `c` has the Unicode `White_Space` property (as
/// `char::is_whitespace`).
pub fn is_whitespace(c: char) -> (r: bool)
    ensures
        r == char_is_whitespace(c),
{
    ('\u{9}' <= c && c <= '\u{d}') || c == ' ' || c == '\u{85}' || c == '\u{a0}' || c
        == '\u{1680}' || ('\u{2000}' <= c && c <= '\u{200a}') || c == '\u{2028}' || c
        == '\u{2029}' || c == '\u{202f}' || c == '\u{205f}' || c == '\u{3000}'
}

/// `s` without its leading whitespace.
pub open spec fn trim_start(s: Seq<char>) -> Seq<char>
    decreases s.len(),
{
    if s.len() > 0 && char_is_whitespace(s[0]) {
        trim_start(s.drop_first())
    } else {
        s
    }
}

/// `s` without its trailing whitespace.
pub open spec fn trim_end(s: Seq<char>) -> Seq<char>
    decreases s.len(),
{
    if s.len() > 0 && char_is_whitespace(s.last()) {
        trim_end(s.drop_last())
    } else {
        s
    }
}

/// `s` without its leading and trailing whitespace.
pub open spec fn trim(s: Seq<char>) -> Seq<char> {
    trim_end(trim_start(s))
}

/// Calls `str::trim`, which returns the slice of `s` with leading and trailing
/// whitespace removed, whitespace being the characters with the Unicode
/// `White_Space` property (the characters of which `char::is_whitespace` holds).
#[verifier::external_body]
pub(crate) fn trim_str(s: &str) -> (r: &str)
    ensures
        r@ == trim(s@),
{
    s.trim()
}

/// Whether two string slices hold the same characters.
pub(crate) fn str_eq(a: &str, b: &str) -> (r: bool)
    ensures
        r == (a@ == b@),
{
    let n = a.unicode_len();
    if n != b.unicode_len() {
        return false;
    }
    let mut i: usize = 0;
    while i < n
        invariant
            n == a@.len(),
            n == b@.len(),
            i <= n,
            forall|j: int| 0 <= j < i ==> a@[j] == b@[j],
        decreases n - i,
    {
        if a.get_char(i) != b.get_char(i) {
            return false;
        }
        i += 1;
    }
    assert(a@ =~= b@);
    true
}

/// Calls `String::push`, which appends `c` to the end of `s`.
#[verifier::external_body]
pub(crate) fn push_char(s: &mut String, c: char)
    ensures
        final(s)@ == old(s)@.push(c),
{
    s.push(c)
}

/// Calls `String::pop`, which removes the last character of `s` and returns
/// it, or returns `None` and leaves `s` as it is where `s` is empty.
#[verifier::external_body]
pub(crate) fn pop_char(s: &mut String) -> (r: Option<char>)
    ensures
        old(s)@.len() == 0 ==> r is None && final(s)@ == old(s)@,
        old(s)@.len() > 0 ==> r == Some(old(s)@.last()) && final(s)@ == old(s)@.drop_last(),
{
    s.pop()
}

/// ASCII lowercase letters `a..=z`.
pub open spec fn spec_is_lower(c: char) -> bool {
    'a' <= c && c <= 'z'
}

/// ASCII uppercase letters `A..=Z`.
pub open spec fn spec_is_upper(c: char) -> bool {
    'A' <= c && c <= 'Z'
}

/// ASCII digits `0..=9`.
pub open spec fn spec_is_digit(c: char) -> bool {
    '0' <= c && c <= '9'
}

/// ASCII letters.
pub open spec fn spec_is_alphabetic(c: char) -> bool {
    spec_is_lower(c) || spec_is_upper(c)
}

/// ASCII letters and digits.
pub open spec fn spec_is_alphanumeric(c: char) -> bool {
    spec_is_alphabetic(c) || spec_is_digit(c)
}

/// ASCII punctuation: `!"#$%&'()*+,-./`, `:;<=>?@`, `` [\]^_` `` and `{|}~`.
pub open spec fn spec_is_punctuation(c: char) -> bool {
    ('!' <= c && c <= '/') || (':' <= c && c <= '@') || ('[' <= c && c <= '`') || ('{' <= c
        && c <= '~')
}

/// Tells whether `c` is an ASCII lowercase letter (as `char::is_ascii_lowercase`).
pub(crate) fn is_ascii_lowercase(c: char) -> (r: bool)
    ensures
        r == spec_is_lower(c),
{
    'a' <= c && c <= 'z'
}

/// Tells whether `c` is an ASCII uppercase letter (as `char::is_ascii_uppercase`).
pub(crate) fn is_ascii_uppercase(c: char) -> (r: bool)
    ensures
        r == spec_is_upper(c),
{
    'A' <= c && c <= 'Z'
}

/// Tells whether `c` is an ASCII letter (as `char::is_ascii_alphabetic`).
pub(crate) fn is_ascii_alphabetic(c: char) -> (r: bool)
    ensures
        r == spec_is_alphabetic(c),
{
    is_ascii_lowercase(c) || is_ascii_uppercase(c)
}

/// Tells whether `c` is an ASCII letter or digit (as `char::is_ascii_alphanumeric`).
pub(crate) fn is_ascii_alphanumeric(c: char) -> (r: bool)
    ensures
        r == spec_is_alphanumeric(c),
{
    is_ascii_alphabetic(c) || ('0' <= c && c <= '9')
}

/// Tells whether `c` is ASCII punctuation (as `char::is_ascii_punctuation`).
pub(crate) fn is_ascii_punctuation(c: char) -> (r: bool)
    ensures
        r == spec_is_punctuation(c),
{
    ('!' <= c && c <= '/') || (':' <= c && c <= '@') || ('[' <= c && c <= '`') || ('{' <= c
        && c <= '~')
}

/// The characters of `s`, in order.
pub(crate) fn str_chars(s: &str) -> (r: std::collections::VecDeque<char>)
    ensures
        r@ == s@,
{
    let mut out: std::collections::VecDeque<char> = std::collections::VecDeque::new();
    for c in it: s.chars()
        invariant
            out@ == it.seq().take(it.index() as int),
    {
        out.push_back(c);
    }
    out
}

} // verus!
