//! The textual form of a spool identifier, and where a local-disk spool
//! keeps what it holds under an identifier.

use vstd::prelude::*;
use crate::message::SpoolId;
use crate::scan::{ascii_len, byte_at};

verus! {

/// The hexadecimal digit of a value below sixteen, in lower case.
pub open spec fn hex_char(n: u8) -> char {
    if n < 10 {
        (48 + n) as char
    } else {
        (87 + n) as char
    }
}

/// `x` without its `d` lowest groups of four bits.
pub open spec fn shifted(x: u128, d: nat) -> u128
    decreases d,
{
    if d == 0 {
        x
    } else {
        shifted(x >> 4, (d - 1) as nat)
    }
}

/// The group of four bits of `v` at position `k`, counted from the least
/// significant.
pub open spec fn nibble(v: u128, k: int) -> u8 {
    (shifted(v, k as nat) & 0xf) as u8
}

/// The hexadecimal digit of a value below sixteen, as a text.
pub fn hex_digit(n: u8) -> (r: &'static str)
    requires
        n < 16,
    ensures
        r@ == seq![hex_char(n)],
{
    proof {
        reveal_strlit("0");
        reveal_strlit("1");
        reveal_strlit("2");
        reveal_strlit("3");
        reveal_strlit("4");
        reveal_strlit("5");
        reveal_strlit("6");
        reveal_strlit("7");
        reveal_strlit("8");
        reveal_strlit("9");
        reveal_strlit("a");
        reveal_strlit("b");
        reveal_strlit("c");
        reveal_strlit("d");
        reveal_strlit("e");
        reveal_strlit("f");
    }
    let r = if n == 0 {
        "0"
    } else if n == 1 {
        "1"
    } else if n == 2 {
        "2"
    } else if n == 3 {
        "3"
    } else if n == 4 {
        "4"
    } else if n == 5 {
        "5"
    } else if n == 6 {
        "6"
    } else if n == 7 {
        "7"
    } else if n == 8 {
        "8"
    } else if n == 9 {
        "9"
    } else if n == 10 {
        "a"
    } else if n == 11 {
        "b"
    } else if n == 12 {
        "c"
    } else if n == 13 {
        "d"
    } else if n == 14 {
        "e"
    } else {
        "f"
    };
    assert(r@ =~= seq![hex_char(n)]);
    r
}

/// The group of four bits of `v` at position `k`.
pub fn nibble_at(v: u128, k: u8) -> (r: u8)
    requires
        k < 32,
    ensures
        r == nibble(v, k as int),
        r < 16,
{
    let mut x = v;
    let mut i: u8 = 0;
    while i < k
        invariant
            i <= k,
            shifted(v, k as nat) == shifted(x, (k - i) as nat),
        decreases k - i,
    {
        x = x >> 4;
        i += 1;
    }
    let low: u128 = x & 0xf;
    assert(low < 16) by (bit_vector)
        requires
            low == x & 0xf,
    ;
    low as u8
}

impl SpoolId {
    /// The textual form of the identifier: its 128 bits in 32 hexadecimal
    /// digits, the most significant first.
    pub open spec fn text(&self) -> Seq<char> {
        Seq::new(32, |i: int| hex_char(nibble(self.value, 31 - i)))
    }

    /// The textual form of the identifier.
    pub fn to_text(&self) -> (out: String)
        ensures
            out@ == self.text(),
    {
        let mut out = String::new();
        let mut i: u8 = 0;
        while i < 32
            invariant
                i <= 32,
                out@ == self.text().subrange(0, i as int),
            decreases 32 - i,
        {
            let n = nibble_at(self.value, 31 - i);
            out.append(hex_digit(n));
            assert(out@ =~= self.text().subrange(0, i + 1));
            i += 1;
        }
        assert(self.text().subrange(0, 32) =~= self.text());
        out
    }
}

/// Where a local-disk spool under `root` keeps what it holds under `id`:
/// `root/hh/hh/id`, where the two `hh` are the first two bytes of the
/// identifier's text.
pub open spec fn local_disk_path(root: Seq<char>, id: SpoolId) -> Seq<char> {
    root + seq!['/'] + id.text().subrange(0, 2) + seq!['/'] + id.text().subrange(2, 4) + seq!['/']
        + id.text()
}

/// Where a local-disk spool under `root` keeps what it holds under `id`.
pub fn spool_path(root: &str, id: SpoolId) -> (out: String)
    ensures
        out@ == local_disk_path(root@, id),
{
    proof {
        reveal_strlit("/");
    }
    let text = id.to_text();
    let mut out = String::from_str(root);
    out.append("/");
    out.append(hex_digit(nibble_at(id.value, 31)));
    out.append(hex_digit(nibble_at(id.value, 30)));
    out.append("/");
    out.append(hex_digit(nibble_at(id.value, 29)));
    out.append(hex_digit(nibble_at(id.value, 28)));
    out.append("/");
    out.append(text.as_str());
    assert(out@ =~= local_disk_path(root@, id));
    out
}

/// Whether `s` comes before `t` in the order of the dictionary: at the
/// first place where they differ, `s` has the smaller character.
pub open spec fn text_before(s: Seq<char>, t: Seq<char>) -> bool {
    exists|i: int| first_difference(s, t, i) && s[i] < t[i]
}

/// Whether `i` is the first place where `s` and `t` differ.
pub open spec fn first_difference(s: Seq<char>, t: Seq<char>, i: int) -> bool {
    &&& 0 <= i < s.len()
    &&& i < t.len()
    &&& s[i] != t[i]
    &&& forall|j: int| 0 <= j < i ==> s[j] == t[j]
}

/// To leave out groups in two steps is to leave them out in one.
pub proof fn lemma_shifted_add(x: u128, a: nat, b: nat)
    ensures
        shifted(x, a + b) == shifted(shifted(x, a), b),
    decreases a,
{
    if a > 0 {
        lemma_shifted_add(x >> 4, (a - 1) as nat, b);
    }
}

/// To leave out one, two, four, eight or sixteen groups is to shift by as
/// many times four bits.
pub proof fn lemma_shifted_powers()
    ensures
        forall|y: u128| #[trigger] shifted(y, 1) == y >> 4,
        forall|y: u128| #[trigger] shifted(y, 2) == y >> 8,
        forall|y: u128| #[trigger] shifted(y, 4) == y >> 16,
        forall|y: u128| #[trigger] shifted(y, 8) == y >> 32,
        forall|y: u128| #[trigger] shifted(y, 16) == y >> 64,
{
    assert forall|y: u128| #[trigger] shifted(y, 1) == y >> 4 by {
        assert(shifted(y >> 4, 0) == y >> 4);
    }
    assert forall|y: u128| #[trigger] shifted(y, 2) == y >> 8 by {
        lemma_shifted_add(y, 1, 1);
        assert((y >> 4) >> 4 == y >> 8) by (bit_vector);
    }
    assert forall|y: u128| #[trigger] shifted(y, 4) == y >> 16 by {
        lemma_shifted_add(y, 2, 2);
        assert((y >> 8) >> 8 == y >> 16) by (bit_vector);
    }
    assert forall|y: u128| #[trigger] shifted(y, 8) == y >> 32 by {
        lemma_shifted_add(y, 4, 4);
        assert((y >> 16) >> 16 == y >> 32) by (bit_vector);
    }
    assert forall|y: u128| #[trigger] shifted(y, 16) == y >> 64 by {
        lemma_shifted_add(y, 8, 8);
        assert((y >> 32) >> 32 == y >> 64) by (bit_vector);
    }
}

/// A value has thirty-two groups of four bits and no more.
pub proof fn lemma_shifted_all(x: u128)
    ensures
        shifted(x, 32) == 0,
{
    lemma_shifted_powers();
    lemma_shifted_add(x, 16, 16);
    assert((x >> 64) >> 64 == 0) by (bit_vector);
}

/// Nothing has no groups left, however many are left out.
pub proof fn lemma_shifted_zero(d: nat)
    ensures
        shifted(0, d) == 0,
    decreases d,
{
    if d > 0 {
        assert(0u128 >> 4 == 0) by (bit_vector);
        lemma_shifted_zero((d - 1) as nat);
    }
}

/// A value of at most thirty-one groups has room for one more.
pub proof fn lemma_room_for_a_group(x: u128, i: nat)
    requires
        i <= 31,
        shifted(x, i) == 0,
    ensures
        x >> 124 == 0,
{
    lemma_shifted_powers();
    lemma_shifted_add(x, i, (31 - i) as nat);
    lemma_shifted_zero((31 - i) as nat);
    assert(shifted(x, 31) == 0);
    lemma_shifted_add(x, 16, 15);
    lemma_shifted_add(x >> 64, 8, 7);
    lemma_shifted_add((x >> 64) >> 32, 4, 3);
    lemma_shifted_add(((x >> 64) >> 32) >> 16, 2, 1);
    assert(((((x >> 64) >> 32) >> 16) >> 8) >> 4 == x >> 124) by (bit_vector);
}

/// Two values of `d` groups compare as their highest differing groups do.
pub proof fn lemma_order_by_groups(x: u128, y: u128, d: nat)
    requires
        shifted(x, d) == 0,
        shifted(y, d) == 0,
    ensures
        x == y <==> forall|j: int| 0 <= j < d ==> #[trigger] nibble(x, j) == nibble(y, j),
        x < y <==> exists|j: int|
            0 <= j < d && #[trigger] nibble(x, j) < nibble(y, j) && forall|i: int|
                j < i < d ==> #[trigger] nibble(x, i) == nibble(y, i),
    decreases d,
{
    if d > 0 {
        let hx = x >> 4;
        let hy = y >> 4;
        let nx = x & 0xf;
        let ny = y & 0xf;
        let e = (d - 1) as nat;
        lemma_order_by_groups(hx, hy, e);
        assert((x < y) == (hx < hy || (hx == hy && nx < ny))) by (bit_vector)
            requires
                hx == x >> 4,
                hy == y >> 4,
                nx == x & 0xf,
                ny == y & 0xf,
        ;
        assert((x == y) == (hx == hy && nx == ny)) by (bit_vector)
            requires
                hx == x >> 4,
                hy == y >> 4,
                nx == x & 0xf,
                ny == y & 0xf,
        ;
        assert(nx < 16 && ny < 16) by (bit_vector)
            requires
                nx == x & 0xf,
                ny == y & 0xf,
        ;
        assert(nibble(x, 0) == nx as u8 && nibble(y, 0) == ny as u8);
        assert forall|j: int| 0 <= j < e implies #[trigger] nibble(hx, j) == nibble(x, j + 1)
            && nibble(hy, j) == nibble(y, j + 1) by {
            assert(shifted(x, (j + 1) as nat) == shifted(hx, j as nat));
            assert(shifted(y, (j + 1) as nat) == shifted(hy, j as nat));
        }
        let same_above = |j: int|
            forall|i: int| j < i < d ==> #[trigger] nibble(x, i) == nibble(y, i);
        let differs = |j: int| 0 <= j < d && nibble(x, j) < nibble(y, j) && same_above(j);
        // equality
        if hx == hy && nx == ny {
            assert forall|j: int| 0 <= j < d implies #[trigger] nibble(x, j) == nibble(y, j) by {
                if j > 0 {
                    assert(nibble(hx, j - 1) == nibble(hy, j - 1));
                }
            }
        }
        if forall|j: int| 0 <= j < d ==> #[trigger] nibble(x, j) == nibble(y, j) {
            assert(nibble(x, 0) == nibble(y, 0));
            assert forall|j: int| 0 <= j < e implies #[trigger] nibble(hx, j) == nibble(hy, j) by {
                assert(nibble(x, j + 1) == nibble(y, j + 1));
            }
        }
        // order
        if hx < hy {
            let j = choose|j: int|
                0 <= j < e && #[trigger] nibble(hx, j) < nibble(hy, j) && forall|i: int|
                    j < i < e ==> #[trigger] nibble(hx, i) == nibble(hy, i);
            assert forall|i: int| j + 1 < i < d implies #[trigger] nibble(x, i) == nibble(y, i) by {
                assert(nibble(hx, i - 1) == nibble(hy, i - 1));
            }
            assert(nibble(x, j + 1) < nibble(y, j + 1));
            assert(differs(j + 1));
        }
        if hx == hy && nx < ny {
            assert forall|i: int| 0 < i < d implies #[trigger] nibble(x, i) == nibble(y, i) by {
                assert(nibble(hx, i - 1) == nibble(hy, i - 1));
            }
            assert(differs(0));
        }
        if exists|j: int|
            0 <= j < d && #[trigger] nibble(x, j) < nibble(y, j) && forall|i: int|
                j < i < d ==> #[trigger] nibble(x, i) == nibble(y, i) {
            let j = choose|j: int|
                0 <= j < d && #[trigger] nibble(x, j) < nibble(y, j) && forall|i: int|
                    j < i < d ==> #[trigger] nibble(x, i) == nibble(y, i);
            if j == 0 {
                assert forall|i: int| 0 <= i < e implies #[trigger] nibble(hx, i) == nibble(
                    hy,
                    i,
                ) by {
                    assert(nibble(x, i + 1) == nibble(y, i + 1));
                }
                assert(hx == hy);
            } else {
                assert(nibble(hx, j - 1) == nibble(x, j) && nibble(hy, j - 1) == nibble(y, j));
                assert forall|i: int| j - 1 < i < e implies #[trigger] nibble(hx, i) == nibble(
                    hy,
                    i,
                ) by {
                    assert(nibble(x, i + 1) == nibble(y, i + 1));
                }
                assert(hx < hy);
            }
        }
    }
}

/// The order of the identifiers' texts in the dictionary is the order of
/// their values.
pub proof fn text_order_is_value_order(a: SpoolId, b: SpoolId)
    ensures
        a.value < b.value <==> text_before(a.text(), b.text()),
        a.value == b.value <==> a.text() == b.text(),
{
    let s = a.text();
    let t = b.text();
    let x = a.value;
    let y = b.value;
    lemma_shifted_all(x);
    lemma_shifted_all(y);
    lemma_order_by_groups(x, y, 32);
    assert forall|i: int| 0 <= i < 32 implies nibble(x, i) < 16 && nibble(y, i) < 16 by {
        let p = shifted(x, i as nat);
        let q = shifted(y, i as nat);
        assert(p & 0xf < 16 && q & 0xf < 16) by (bit_vector);
    }
    // the digit at place `i` of the text is the group `31 - i`
    assert forall|i: int| 0 <= i < 32 implies (s[i] == t[i] <==> nibble(x, 31 - i) == nibble(
        y,
        31 - i,
    )) && (s[i] < t[i] <==> nibble(x, 31 - i) < nibble(y, 31 - i)) by {
        assert(nibble(x, 31 - i) < 16 && nibble(y, 31 - i) < 16);
    }
    if x < y {
        let j = choose|j: int|
            0 <= j < 32 && #[trigger] nibble(x, j) < nibble(y, j) && forall|i: int|
                j < i < 32 ==> #[trigger] nibble(x, i) == nibble(y, i);
        let at = 31 - j;
        assert forall|p: int| 0 <= p < at implies s[p] == t[p] by {
            assert(nibble(x, 31 - p) == nibble(y, 31 - p));
        }
        assert(first_difference(s, t, at) && s[at] < t[at]);
    }
    if text_before(s, t) {
        let at = choose|i: int| first_difference(s, t, i) && s[i] < t[i];
        let j = 31 - at;
        assert forall|i: int| j < i < 32 implies #[trigger] nibble(x, i) == nibble(y, i) by {
            assert(s[31 - i] == t[31 - i]);
        }
        assert(0 <= j < 32 && nibble(x, j) < nibble(y, j));
    }
    if x == y {
        assert(s =~= t);
    }
    if s == t {
        assert forall|j: int| 0 <= j < 32 implies #[trigger] nibble(x, j) == nibble(y, j) by {
            assert(s[31 - j] == t[31 - j]);
        }
    }
}

/// The value of a hexadecimal digit in lower case.
pub open spec fn hex_value(c: char) -> Option<u8> {
    if '0' <= c && c <= '9' {
        Some((c as u8 - 48) as u8)
    } else if 'a' <= c && c <= 'f' {
        Some((c as u8 - 87) as u8)
    } else {
        None
    }
}

/// The identifier that a text stands for: the one whose textual form it is.
pub open spec fn id_of_text(t: Seq<char>) -> Option<SpoolId> {
    if exists|id: SpoolId| #[trigger] id.text() == t {
        Some(choose|id: SpoolId| #[trigger] id.text() == t)
    } else {
        None
    }
}

impl SpoolId {
    /// The identifier that `text` stands for: the one whose textual form
    /// `text` is, if it is the textual form of any.
    pub fn from_text(text: &str) -> (r: Option<SpoolId>)
        ensures
            r == id_of_text(text@),
            r is Some ==> r.unwrap().text() == text@,
    {
        let ghost t = text@;
        if !text.is_ascii() {
            proof {
                let i = choose|i: int| 0 <= i < t.len() && !('\0' <= #[trigger] t[i] <= '\u{7f}');
                assert forall|id: SpoolId| #[trigger] id.text() != t by {
                    if id.text() == t {
                        lemma_digit(id.value, 31 - i);
                        assert(id.text()[i] == t[i]);
                    }
                }
            }
            return None;
        }
        let n = ascii_len(text);
        if n != 32 {
            return None;
        }
        let mut x: u128 = 0;
        let mut i: usize = 0;
        proof {
            lemma_shifted_zero(0);
        }
        while i < 32
            invariant
                i <= 32,
                text.is_ascii(),
                t == text@,
                t.len() == 32,
                shifted(x, i as nat) == 0,
                forall|j: int| 0 <= j < i ==> hex_char(#[trigger] nibble(x, i - 1 - j)) == t[j],
                forall|j: int| 0 <= j < i ==> nibble(x, j) < 16,
            decreases 32 - i,
        {
            let b = byte_at(text, i);
            let d: u8 = if b >= 48 && b <= 57 {
                b - 48
            } else if b >= 97 && b <= 102 {
                b - 87
            } else {
                proof {
                    assert forall|id: SpoolId| #[trigger] id.text() != t by {
                        if id.text() == t {
                            lemma_digit(id.value, 31 - i);
                            assert(id.text()[i as int] == t[i as int]);
                        }
                    }
                }
                return None;
            };
            let ghost before = x;
            proof {
                if i > 0 {
                    lemma_room_for_a_group(x, i as nat);
                } else {
                    assert(0u128 >> 124 == 0) by (bit_vector);
                }
            }
            let low = d as u128;
            x = (x << 4) | low;
            proof {
                assert(x >> 4 == before && x & 0xf == low) by (bit_vector)
                    requires
                        x == (before << 4) | low,
                        before >> 124 == 0,
                        low < 16,
                ;
                assert(shifted(x, 0) == x);
                assert(nibble(x, 0) == d);
                assert forall|j: int| 0 <= j < i implies #[trigger] nibble(x, j + 1) == nibble(
                    before,
                    j,
                ) by {
                    assert(shifted(x, (j + 1) as nat) == shifted(before, j as nat));
                }
                assert forall|j: int| 0 <= j < i + 1 implies hex_char(#[trigger] nibble(x, i - j))
                    == t[j] by {
                    if j < i {
                        assert(nibble(x, (i - 1 - j) + 1) == nibble(before, i - 1 - j));
                    }
                }
                assert forall|j: int| 0 <= j < i + 1 implies nibble(x, j) < 16 by {
                    if j > 0 {
                        assert(nibble(x, (j - 1) + 1) == nibble(before, j - 1));
                    }
                }
            }
            i += 1;
        }
        let id = SpoolId { value: x };
        proof {
            assert(id.text() =~= t);
            let chosen = choose|c: SpoolId| #[trigger] c.text() == t;
            text_order_is_value_order(id, chosen);
        }
        Some(id)
    }
}

/// Every digit of an identifier's text is a hexadecimal digit in lower case.
pub proof fn lemma_digit(v: u128, k: int)
    requires
        0 <= k < 32,
    ensures
        hex_value(hex_char(nibble(v, k))) == Some(nibble(v, k)),
        nibble(v, k) < 16,
{
    let p = shifted(v, k as nat);
    assert(p & 0xf < 16) by (bit_vector);
}

/// The textual form of an identifier stands for that identifier, and for
/// no other.
pub proof fn text_round_trip(id: SpoolId)
    ensures
        id_of_text(id.text()) == Some(id),
{
    let chosen = choose|c: SpoolId| #[trigger] c.text() == id.text();
    text_order_is_value_order(id, chosen);
}

} // verus!
