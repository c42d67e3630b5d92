//! Executable recognisers for the tokens of the command grammar. Each works
//! on a window `[start, end)` of an ASCII line and is specified by the
//! grammar's function on the text of that window.

use vstd::prelude::*;
use crate::charset::{
    CharClass, byte_in_class, byte_is_qtext, byte_is_quotable, byte_same_letter, eq_ignore_case,
    in_class, lemma_run_len_bounds, same_letter, scan_run, all_in_class,
};
use crate::grammar::{
    at_most_groups, double_colon, field_count, group_count, groups_before_ipv4, is_dotted, is_ipv4,
    is_ipv6_addr, last_index_of, quoted_len, quoted_tail_len,
};

verus! {

/// The byte at index `i` of an ASCII text, which is its character there.
pub fn byte_at(line: &str, i: usize) -> (c: u8)
    requires
        line.is_ascii(),
        i < line@.len(),
    ensures
        c as char == line@[i as int],
        c < 128,
{
    line.get_ascii(i)
}

/// The length of an ASCII text in characters.
pub fn ascii_len(line: &str) -> (n: usize)
    requires
        line.is_ascii(),
    ensures
        n == line@.len(),
{
    broadcast use vstd::string::is_ascii_spec_bytes;

    line.as_bytes().len()
}

/// Whether every character of the window is in class `k`.
pub fn check_all(line: &str, start: usize, end: usize, k: CharClass) -> (r: bool)
    requires
        line.is_ascii(),
        start <= end <= line@.len(),
    ensures
        r == all_in_class(line@.subrange(start as int, end as int), k),
{
    let stop = scan_run(line, start, end, k);
    proof {
        lemma_run_len_bounds(line@.subrange(start as int, end as int), k);
    }
    stop == end
}

/// Whether the window is parts of class `body` separated by single dots,
/// each beginning with a character of class `head`.
pub fn check_dotted(line: &str, start: usize, end: usize, body: CharClass, head: CharClass) -> (r:
    bool)
    requires
        line.is_ascii(),
        start <= end <= line@.len(),
    ensures
        r == is_dotted(line@.subrange(start as int, end as int), body, head),
{
    reveal(is_dotted);
    if start == end {
        return false;
    }
    let ghost w = line@.subrange(start as int, end as int);
    let mut i = start;
    let mut at_head = true;
    while i < end
        invariant
            line.is_ascii(),
            start <= i <= end <= line@.len(),
            w == line@.subrange(start as int, end as int),
            forall|j: int| 0 <= j < i - start ==> in_class(body, #[trigger] w[j]),
            forall|j: int|
                0 <= j < i - start && (j == 0 || w[j - 1] == '.') ==> in_class(
                    head,
                    #[trigger] w[j],
                ),
            at_head == (i == start || w[i - start - 1] == '.'),
        decreases end - i,
    {
        reveal(is_dotted);
        let c = byte_at(line, i);
        assert(w[i - start] == line@[i as int]);
        if !byte_in_class(body, c) || (at_head && !byte_in_class(head, c)) {
            return false;
        }
        at_head = c == 46;
        i += 1;
    }
    !at_head
}

/// The end of the quoted string that the window begins with.
pub fn scan_quoted(line: &str, start: usize, end: usize) -> (r: Option<usize>)
    requires
        line.is_ascii(),
        start <= end <= line@.len(),
    ensures
        match r {
            Some(stop) => start < stop <= end && quoted_len(
                line@.subrange(start as int, end as int),
            ) == Some(stop - start),
            None => quoted_len(line@.subrange(start as int, end as int)) is None,
        },
{
    let ghost w = line@.subrange(start as int, end as int);
    if start >= end {
        return None;
    }
    assert(w[0] == line@[start as int]);
    if byte_at(line, start) != 34 {
        return None;
    }
    let mut i = start + 1;
    loop
        invariant
            line.is_ascii(),
            start < i <= end <= line@.len(),
            w == line@.subrange(start as int, end as int),
            w[0] == '"',
            quoted_tail_len(w.skip(1)) == match quoted_tail_len(w.skip(i - start)) {
                Some(n) => Some(n + (i - start - 1)),
                None => None,
            },
        decreases end - i,
    {
        let ghost rest = w.skip(i - start);
        if i >= end {
            return None;
        }
        assert(rest[0] == line@[i as int]);
        let c = byte_at(line, i);
        if c == 34 {
            return Some(i + 1);
        } else if c == 92 {
            if i + 1 < end {
                assert(rest[1] == line@[i + 1]);
                if byte_is_quotable(byte_at(line, i + 1)) {
                    assert(rest.skip(2) =~= w.skip(i + 2 - start));
                    i += 2;
                } else {
                    return None;
                }
            } else {
                return None;
            }
        } else if byte_is_qtext(c) {
            assert(rest.skip(1) =~= w.skip(i + 1 - start));
            i += 1;
        } else {
            return None;
        }
    }
}

/// The number of fields of the window, where it is fields of one to `max`
/// characters of class `k` joined by `sep`.
pub fn count_fields(line: &str, start: usize, end: usize, k: CharClass, max: usize, sep: u8) -> (r:
    Option<usize>)
    requires
        line.is_ascii(),
        start <= end <= line@.len(),
        sep < 128,
    ensures
        match r {
            Some(c) => field_count(
                line@.subrange(start as int, end as int),
                k,
                max as nat,
                sep as char,
            ) == Some(c as nat),
            None => field_count(
                line@.subrange(start as int, end as int),
                k,
                max as nat,
                sep as char,
            ) is None,
        },
{
    let ghost w = line@.subrange(start as int, end as int);
    let mut i = start;
    let mut count: usize = 0;
    assert(w.skip(0) =~= w);
    loop
        invariant
            line.is_ascii(),
            start <= i <= end <= line@.len(),
            sep < 128,
            count <= i - start,
            w == line@.subrange(start as int, end as int),
            field_count(w, k, max as nat, sep as char) == match field_count(
                w.skip(i - start),
                k,
                max as nat,
                sep as char,
            ) {
                Some(c) => Some((c + count) as nat),
                None => None,
            },
        decreases end - i,
    {
        let ghost rest = w.skip(i - start);
        assert(rest =~= line@.subrange(i as int, end as int));
        let stop = scan_run(line, i, end, k);
        let n = stop - i;
        if n < 1 || n > max {
            return None;
        }
        if stop >= end {
            return Some(count + 1);
        }
        assert(rest[n as int] == line@[stop as int]);
        if byte_at(line, stop) != sep {
            return None;
        }
        assert(rest.skip(n + 1) =~= w.skip(stop + 1 - start));
        count += 1;
        i = stop + 1;
    }
}

/// The first `::` is where two colons meet and none met before.
pub proof fn lemma_double_colon_is(t: Seq<char>, k: int)
    requires
        0 <= k,
        k + 1 < t.len(),
        t[k] == ':',
        t[k + 1] == ':',
        forall|j: int| 0 <= j < k ==> !(#[trigger] t[j] == ':' && t[j + 1] == ':'),
    ensures
        double_colon(t) == Some(k),
    decreases k,
{
    if k > 0 {
        let u = t.drop_first();
        assert(!(t[0] == ':' && t[1] == ':'));
        assert forall|j: int| 0 <= j < k - 1 implies !(#[trigger] u[j] == ':' && u[j + 1]
            == ':') by {
            assert(u[j] == t[j + 1]);
            assert(!(t[j + 1] == ':' && t[j + 2] == ':'));
        }
        lemma_double_colon_is(u, k - 1);
    }
}

/// A text in which no two colons meet has no `::`.
pub proof fn lemma_double_colon_none(t: Seq<char>)
    requires
        forall|j: int| 0 <= j && j + 1 < t.len() ==> !(#[trigger] t[j] == ':' && t[j + 1] == ':'),
    ensures
        double_colon(t) is None,
    decreases t.len(),
{
    if t.len() >= 2 {
        let u = t.drop_first();
        assert(!(t[0] == ':' && t[1] == ':'));
        assert forall|j: int| 0 <= j && j + 1 < u.len() implies !(#[trigger] u[j] == ':' && u[j
            + 1] == ':') by {
            assert(u[j] == t[j + 1]);
            assert(!(t[j + 1] == ':' && t[j + 2] == ':'));
        }
        lemma_double_colon_none(u);
    }
}

/// The index of the first `::` of the window, from the window's start.
pub fn find_double_colon(line: &str, start: usize, end: usize) -> (r: Option<usize>)
    requires
        line.is_ascii(),
        start <= end <= line@.len(),
    ensures
        match r {
            Some(k) => start <= k && k + 2 <= end && double_colon(
                line@.subrange(start as int, end as int),
            ) == Some(k - start),
            None => double_colon(line@.subrange(start as int, end as int)) is None,
        },
{
    let ghost w = line@.subrange(start as int, end as int);
    let mut i = start;
    while end - i >= 2
        invariant
            line.is_ascii(),
            start <= i <= end <= line@.len(),
            w == line@.subrange(start as int, end as int),
            forall|j: int| 0 <= j < i - start ==> !(#[trigger] w[j] == ':' && w[j + 1] == ':'),
        decreases end - i,
    {
        assert(w[i - start] == line@[i as int]);
        assert(w[i - start + 1] == line@[i + 1]);
        if byte_at(line, i) == 58 && byte_at(line, i + 1) == 58 {
            proof {
                lemma_double_colon_is(w, i - start);
            }
            return Some(i);
        }
        i += 1;
    }
    proof {
        lemma_double_colon_none(w);
    }
    None
}

/// The last `c` is where `c` stands and does not stand again.
pub proof fn lemma_last_index_is(t: Seq<char>, c: char, k: int)
    requires
        0 <= k < t.len(),
        t[k] == c,
        forall|j: int| k < j < t.len() ==> #[trigger] t[j] != c,
    ensures
        last_index_of(t, c) == Some(k),
    decreases t.len(),
{
    if t.last() != c {
        let u = t.drop_last();
        assert forall|j: int| k < j < u.len() implies #[trigger] u[j] != c by {
            assert(u[j] == t[j]);
        }
        lemma_last_index_is(u, c, k);
    }
}

/// A text without `c` has no last `c`.
pub proof fn lemma_last_index_none(t: Seq<char>, c: char)
    requires
        forall|j: int| 0 <= j < t.len() ==> #[trigger] t[j] != c,
    ensures
        last_index_of(t, c) is None,
    decreases t.len(),
{
    if t.len() > 0 {
        let u = t.drop_last();
        assert forall|j: int| 0 <= j < u.len() implies #[trigger] u[j] != c by {
            assert(u[j] == t[j]);
        }
        lemma_last_index_none(u, c);
    }
}

/// The index of the last byte `c` of the window.
pub fn find_last(line: &str, start: usize, end: usize, c: u8) -> (r: Option<usize>)
    requires
        line.is_ascii(),
        start <= end <= line@.len(),
        c < 128,
    ensures
        match r {
            Some(k) => start <= k < end && last_index_of(
                line@.subrange(start as int, end as int),
                c as char,
            ) == Some(k - start),
            None => last_index_of(line@.subrange(start as int, end as int), c as char) is None,
        },
{
    let ghost w = line@.subrange(start as int, end as int);
    let mut i = end;
    while i > start
        invariant
            line.is_ascii(),
            start <= i <= end <= line@.len(),
            c < 128,
            w == line@.subrange(start as int, end as int),
            forall|j: int| i - start <= j < w.len() ==> #[trigger] w[j] != c as char,
        decreases i,
    {
        i -= 1;
        assert(w[i - start] == line@[i as int]);
        if byte_at(line, i) == c {
            proof {
                lemma_last_index_is(w, c as char, i - start);
            }
            return Some(i);
        }
    }
    proof {
        lemma_last_index_none(w, c as char);
    }
    None
}

/// Whether the window is an IPv4 address.
pub fn check_ipv4(line: &str, start: usize, end: usize) -> (r: bool)
    requires
        line.is_ascii(),
        start <= end <= line@.len(),
    ensures
        r == is_ipv4(line@.subrange(start as int, end as int)),
{
    match count_fields(line, start, end, CharClass::Digit, 3, 46) {
        Some(c) => c == 4,
        None => false,
    }
}

/// The number of colon-separated hexadecimal groups of the window.
pub fn count_groups(line: &str, start: usize, end: usize) -> (r: Option<usize>)
    requires
        line.is_ascii(),
        start <= end <= line@.len(),
    ensures
        match r {
            Some(c) => group_count(line@.subrange(start as int, end as int)) == Some(c as nat),
            None => group_count(line@.subrange(start as int, end as int)) is None,
        },
{
    count_fields(line, start, end, CharClass::Hex, 4, 58)
}

/// Whether the window is empty or at most `max` groups.
pub fn check_at_most_groups(line: &str, start: usize, end: usize, max: usize) -> (r: bool)
    requires
        line.is_ascii(),
        start <= end <= line@.len(),
    ensures
        r == at_most_groups(line@.subrange(start as int, end as int), max as nat),
{
    if start == end {
        return true;
    }
    match count_groups(line, start, end) {
        Some(c) => c <= max,
        None => false,
    }
}

/// The number of groups of the window, where it is groups, a colon and an
/// IPv4 address.
pub fn count_groups_before_ipv4(line: &str, start: usize, end: usize) -> (r: Option<usize>)
    requires
        line.is_ascii(),
        start <= end <= line@.len(),
    ensures
        match r {
            Some(c) => groups_before_ipv4(line@.subrange(start as int, end as int)) == Some(
                c as nat,
            ),
            None => groups_before_ipv4(line@.subrange(start as int, end as int)) is None,
        },
{
    let ghost w = line@.subrange(start as int, end as int);
    match find_last(line, start, end, 58) {
        Some(k) => {
            assert(w.skip(k - start + 1) =~= line@.subrange(k + 1, end as int));
            assert(w.take(k - start) =~= line@.subrange(start as int, k as int));
            if check_ipv4(line, k + 1, end) {
                count_groups(line, start, k)
            } else {
                None
            }
        },
        None => None,
    }
}

/// Whether the window is an IPv6 address.
pub fn check_ipv6(line: &str, start: usize, end: usize) -> (r: bool)
    requires
        line.is_ascii(),
        start <= end <= line@.len(),
    ensures
        r == is_ipv6_addr(line@.subrange(start as int, end as int)),
{
    let ghost w = line@.subrange(start as int, end as int);
    match find_double_colon(line, start, end) {
        None => {
            let full = match count_groups(line, start, end) {
                Some(c) => c == 8,
                None => false,
            };
            if full {
                return true;
            }
            match count_groups_before_ipv4(line, start, end) {
                Some(c) => c == 6,
                None => false,
            }
        },
        Some(k) => {
            assert(w.take(k - start) =~= line@.subrange(start as int, k as int));
            assert(w.skip(k - start + 2) =~= line@.subrange(k + 2, end as int));
            let left6 = check_at_most_groups(line, start, k, 6);
            if left6 && check_at_most_groups(line, k + 2, end, 6) {
                return true;
            }
            if !check_at_most_groups(line, start, k, 4) {
                return false;
            }
            if check_ipv4(line, k + 2, end) {
                return true;
            }
            match count_groups_before_ipv4(line, k + 2, end) {
                Some(c) => c <= 4,
                None => false,
            }
        },
    }
}

/// Whether the window equals `text` up to the case of letters.
pub fn matches_ignore_case(line: &str, start: usize, end: usize, text: &str) -> (r: bool)
    requires
        line.is_ascii(),
        text.is_ascii(),
        start <= end <= line@.len(),
    ensures
        r == eq_ignore_case(line@.subrange(start as int, end as int), text@),
{
    let ghost w = line@.subrange(start as int, end as int);
    let n = ascii_len(text);
    if end - start != n {
        return false;
    }
    let mut i: usize = 0;
    while i < n
        invariant
            line.is_ascii(),
            text.is_ascii(),
            start <= end <= line@.len(),
            n == text@.len(),
            end - start == n,
            i <= n,
            w == line@.subrange(start as int, end as int),
            forall|j: int| 0 <= j < i ==> same_letter(#[trigger] w[j], text@[j]),
        decreases n - i,
    {
        assert(w[i as int] == line@[start + i]);
        if !byte_same_letter(byte_at(line, start + i), byte_at(text, i)) {
            return false;
        }
        i += 1;
    }
    true
}

} // verus!
