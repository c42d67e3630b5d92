//! Character classes of the SMTP command grammar.
//!
//! The grammar is defined over ASCII. Specifications speak of `char`s (the
//! view of a `str`); executable code inspects the bytes of an ASCII string,
//! where byte `i` is character `i`.

use vstd::prelude::*;

verus! {

pub open spec fn is_alpha(c: char) -> bool {
    ('a' <= c && c <= 'z') || ('A' <= c && c <= 'Z')
}

pub open spec fn is_digit(c: char) -> bool {
    '0' <= c && c <= '9'
}

/// `Let-dig`: a letter or a digit.
pub open spec fn is_let_dig(c: char) -> bool {
    is_alpha(c) || is_digit(c)
}

pub open spec fn is_hex_digit(c: char) -> bool {
    is_digit(c) || ('a' <= c && c <= 'f') || ('A' <= c && c <= 'F')
}

/// `atext`: the characters of an atom.
pub open spec fn is_atext(c: char) -> bool {
    is_let_dig(c) || c == '!' || c == '#' || c == '$' || c == '%' || c == '&' || c == '\''
        || c == '*' || c == '+' || c == '-' || c == '/' || c == '=' || c == '?' || c == '^'
        || c == '_' || c == '`' || c == '{' || c == '|' || c == '}' || c == '~'
}

/// `qtextSMTP`: printable ASCII and space, without `"` and `\`.
pub open spec fn is_qtext(c: char) -> bool {
    (' ' <= c && c <= '!') || ('#' <= c && c <= '[') || (']' <= c && c <= '~')
}

/// What may follow a backslash inside a quoted string: printable ASCII or space.
pub open spec fn is_quotable(c: char) -> bool {
    ' ' <= c && c <= '~'
}

/// `dcontent`: printable ASCII without `[`, `\` and `]`.
pub open spec fn is_dcontent(c: char) -> bool {
    ('!' <= c && c <= 'Z') || ('^' <= c && c <= '~')
}

/// The characters of an `esmtp-value`: printable ASCII without `=`.
pub open spec fn is_value_char(c: char) -> bool {
    ('!' <= c && c <= '<') || ('>' <= c && c <= '~')
}

/// Two characters that are equal up to the case of an ASCII letter.
pub open spec fn same_letter(a: char, b: char) -> bool {
    a == b || (is_alpha(a) && is_alpha(b) && (a as int == b as int + 32 || b as int == a as int
        + 32))
}

/// Equality of two texts up to the case of ASCII letters.
pub open spec fn eq_ignore_case(a: Seq<char>, b: Seq<char>) -> bool {
    a.len() == b.len() && forall|i: int| 0 <= i < a.len() ==> same_letter(#[trigger] a[i], b[i])
}

/// The sets of characters that a maximal run is taken over.
#[derive(Clone, Copy, Debug, PartialEq, Eq)]
pub enum CharClass {
    /// Decimal digits.
    Digit,
    /// Hexadecimal digits.
    Hex,
    /// Letters and digits.
    LetDig,
    /// Letters, digits and `-`.
    Ldh,
    /// Letters, digits, `-` and `.`: the characters of a domain name.
    Domain,
    /// `atext`: the characters of an atom.
    Atext,
    /// `atext` and `.`: the characters of a dot-string.
    DotString,
    /// The characters of an address literal's content.
    Dcontent,
    /// The characters of an ESMTP parameter's value.
    Value,
}

pub open spec fn in_class(k: CharClass, c: char) -> bool {
    match k {
        CharClass::Digit => is_digit(c),
        CharClass::Hex => is_hex_digit(c),
        CharClass::LetDig => is_let_dig(c),
        CharClass::Ldh => is_let_dig(c) || c == '-',
        CharClass::Domain => is_let_dig(c) || c == '-' || c == '.',
        CharClass::Atext => is_atext(c),
        CharClass::DotString => is_atext(c) || c == '.',
        CharClass::Dcontent => is_dcontent(c),
        CharClass::Value => is_value_char(c),
    }
}

/// Every character of `s` is in class `k`.
pub open spec fn all_in_class(s: Seq<char>, k: CharClass) -> bool {
    forall|i: int| 0 <= i < s.len() ==> in_class(k, #[trigger] s[i])
}

/// The length of the longest prefix of `s` whose characters are all in class `k`.
pub open spec fn run_len(s: Seq<char>, k: CharClass) -> nat
    decreases s.len(),
{
    if s.len() > 0 && in_class(k, s[0]) {
        1 + run_len(s.drop_first(), k)
    } else {
        0
    }
}

/// A run is pinned down by its two ends: `n` characters in the class, then
/// the end of the text or a character outside the class.
pub proof fn lemma_run_len_is(s: Seq<char>, k: CharClass, n: nat)
    requires
        n <= s.len(),
        forall|i: int| 0 <= i < n ==> in_class(k, #[trigger] s[i]),
        n == s.len() || !in_class(k, s[n as int]),
    ensures
        run_len(s, k) == n,
    decreases n,
{
    if n > 0 {
        let t = s.drop_first();
        assert forall|i: int| 0 <= i < n - 1 implies in_class(k, #[trigger] t[i]) by {
            assert(t[i] == s[i + 1]);
        }
        lemma_run_len_is(t, k, (n - 1) as nat);
    }
}

/// What a run's length says of the text.
pub proof fn lemma_run_len_bounds(s: Seq<char>, k: CharClass)
    ensures
        run_len(s, k) <= s.len(),
        forall|i: int| 0 <= i < run_len(s, k) ==> in_class(k, #[trigger] s[i]),
        run_len(s, k) == s.len() || !in_class(k, s[run_len(s, k) as int]),
    decreases s.len(),
{
    if s.len() > 0 && in_class(k, s[0]) {
        let t = s.drop_first();
        lemma_run_len_bounds(t, k);
        assert forall|i: int| 0 <= i < run_len(s, k) implies in_class(k, #[trigger] s[i]) by {
            if i > 0 {
                assert(s[i] == t[i - 1]);
            }
        }
        if run_len(t, k) < t.len() {
            assert(t[run_len(t, k) as int] == s[run_len(s, k) as int]);
        }
    }
}

pub fn byte_is_alpha(b: u8) -> (r: bool)
    ensures
        r == is_alpha(b as char),
{
    (b >= 97 && b <= 122) || (b >= 65 && b <= 90)
}

pub fn byte_is_digit(b: u8) -> (r: bool)
    ensures
        r == is_digit(b as char),
{
    b >= 48 && b <= 57
}

pub fn byte_is_let_dig(b: u8) -> (r: bool)
    ensures
        r == is_let_dig(b as char),
{
    byte_is_alpha(b) || byte_is_digit(b)
}

pub fn byte_is_hex_digit(b: u8) -> (r: bool)
    ensures
        r == is_hex_digit(b as char),
{
    byte_is_digit(b) || (b >= 97 && b <= 102) || (b >= 65 && b <= 70)
}

pub fn byte_is_atext(b: u8) -> (r: bool)
    ensures
        r == is_atext(b as char),
{
    byte_is_let_dig(b) || b == 33 || (b >= 35 && b <= 39) || b == 42 || b == 43 || b == 45 || b
        == 47 || b == 61 || b == 63 || (b >= 94 && b <= 96) || (b >= 123 && b <= 126)
}

pub fn byte_is_qtext(b: u8) -> (r: bool)
    ensures
        r == is_qtext(b as char),
{
    (b >= 32 && b <= 33) || (b >= 35 && b <= 91) || (b >= 93 && b <= 126)
}

pub fn byte_is_quotable(b: u8) -> (r: bool)
    ensures
        r == is_quotable(b as char),
{
    b >= 32 && b <= 126
}

pub fn byte_in_class(k: CharClass, b: u8) -> (r: bool)
    ensures
        r == in_class(k, b as char),
{
    match k {
        CharClass::Digit => byte_is_digit(b),
        CharClass::Hex => byte_is_hex_digit(b),
        CharClass::LetDig => byte_is_let_dig(b),
        CharClass::Ldh => byte_is_let_dig(b) || b == 45,
        CharClass::Domain => byte_is_let_dig(b) || b == 45 || b == 46,
        CharClass::Atext => byte_is_atext(b),
        CharClass::DotString => byte_is_atext(b) || b == 46,
        CharClass::Dcontent => (b >= 33 && b <= 90) || (b >= 94 && b <= 126),
        CharClass::Value => (b >= 33 && b <= 60) || (b >= 62 && b <= 126),
    }
}

/// Two bytes that are equal up to the case of an ASCII letter.
pub fn byte_same_letter(a: u8, b: u8) -> (r: bool)
    ensures
        r == same_letter(a as char, b as char),
{
    a == b || (byte_is_alpha(a) && byte_is_alpha(b) && ((a >= 97 && a - 32 == b) || (b >= 97 && b
        - 32 == a)))
}

/// The end of the longest run of class `k` that starts at `start` and stays
/// before `end`.
pub fn scan_run(line: &str, start: usize, end: usize, k: CharClass) -> (stop: usize)
    requires
        line.is_ascii(),
        start <= end <= line@.len(),
    ensures
        start <= stop <= end,
        stop - start == run_len(line@.subrange(start as int, end as int), k),
{
    let ghost window = line@.subrange(start as int, end as int);
    let mut i = start;
    while i < end && byte_in_class(k, line.get_ascii(i))
        invariant
            line.is_ascii(),
            start <= i <= end <= line@.len(),
            window == line@.subrange(start as int, end as int),
            forall|j: int| 0 <= j < i - start ==> in_class(k, #[trigger] window[j]),
        decreases end - i,
    {
        assert(window[i - start] == line@[i as int]);
        i += 1;
    }
    proof {
        if i < end {
            assert(window[i - start] == line@[i as int]);
        }
        lemma_run_len_is(window, k, (i - start) as nat);
    }
    i
}

} // verus!
