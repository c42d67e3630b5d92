//! Replies of the server, and how they stand on the wire: for every line
//! the code in three digits, a hyphen before a further line or a space
//! before none, the text of the line, and CRLF.

use vstd::prelude::*;
use crate::logging::EnhancedStatusCode;
use crate::spool_path::{hex_char, hex_digit};

verus! {

/// The longest text of one reply line, in octets: with the code, the
/// separator and CRLF the line is a thousand octets long.
pub const MAX_REPLY_TEXT: usize = 994;

/// A reply: a code and one line of text or more.
#[derive(Debug, Clone, PartialEq, Eq)]
pub struct Reply {
    pub code: u16,
    pub lines: Vec<String>,
}

/// The decimal digit that stands for `d`.
pub open spec fn digit_byte(d: int) -> u8 {
    (48 + d) as u8
}

/// The code in decimal digits: three of them, more for a code above 999.
pub open spec fn code_bytes(code: u16) -> Seq<u8> {
    let tail = seq![
        digit_byte((code as int / 100) % 10),
        digit_byte((code as int / 10) % 10),
        digit_byte(code as int % 10),
    ];
    if code >= 10000 {
        seq![digit_byte(code as int / 10000), digit_byte((code as int / 1000) % 10)] + tail
    } else if code >= 1000 {
        seq![digit_byte(code as int / 1000)] + tail
    } else {
        tail
    }
}

/// A byte of text as it stands in a reply line: CR and LF give way to a
/// space, so that the text cannot end the line.
pub open spec fn framed_byte(b: u8) -> u8 {
    if b == 13 || b == 10 {
        32
    } else {
        b
    }
}

/// The text of a line as it stands on the wire: the first octets up to the
/// longest text there may be, none of them CR or LF.
pub open spec fn framed_text(text: Seq<u8>) -> Seq<u8> {
    let n = if text.len() <= MAX_REPLY_TEXT {
        text.len() as int
    } else {
        MAX_REPLY_TEXT as int
    };
    Seq::new(n as nat, |i: int| framed_byte(text[i]))
}

/// One line of a reply on the wire.
pub open spec fn reply_line(code: u16, last: bool, text: Seq<u8>) -> Seq<u8> {
    code_bytes(code) + seq![
        if last {
            32u8
        } else {
            45u8
        },
    ] + framed_text(text) + seq![13u8, 10u8]
}

/// The lines from index `from` on, on the wire.
pub open spec fn reply_lines(code: u16, lines: Seq<Seq<u8>>, from: int) -> Seq<u8>
    decreases lines.len() - from,
{
    if from < 0 || from >= lines.len() {
        Seq::empty()
    } else {
        reply_line(code, from + 1 == lines.len(), lines[from]) + reply_lines(code, lines, from + 1)
    }
}

/// The octets of each line of a reply.
pub open spec fn line_bytes(lines: Seq<String>) -> Seq<Seq<u8>> {
    lines.map_values(|l: String| vstd::utf8::encode_utf8(l@))
}

/// A number in decimal digits, without leading zeros.
pub open spec fn decimal(n: nat) -> Seq<char>
    decreases n,
{
    if n < 10 {
        seq![hex_char(n as u8)]
    } else {
        decimal(n / 10).push(hex_char((n % 10) as u8))
    }
}

/// An enhanced status code as it is written: `class.subject.detail`.
pub open spec fn enhanced_text(c: EnhancedStatusCode) -> Seq<char> {
    decimal(c.class as nat) + seq!['.'] + decimal(c.subject as nat) + seq!['.'] + decimal(
        c.detail as nat,
    )
}

/// Appends a number in decimal digits.
pub fn append_decimal(out: &mut String, n: u16)
    ensures
        final(out)@ == old(out)@ + decimal(n as nat),
    decreases n,
{
    let ghost start = out@;
    if n >= 10 {
        append_decimal(out, n / 10);
    }
    out.append(hex_digit((n % 10) as u8));
    assert(out@ =~= start + decimal(n as nat));
}

impl EnhancedStatusCode {
    /// The code as it is written: `class.subject.detail`.
    pub fn to_text(&self) -> (out: String)
        ensures
            out@ == enhanced_text(*self),
    {
        proof {
            reveal_strlit(".");
        }
        let mut out = String::new();
        append_decimal(&mut out, self.class as u16);
        out.append(".");
        append_decimal(&mut out, self.subject);
        out.append(".");
        append_decimal(&mut out, self.detail);
        assert(out@ =~= enhanced_text(*self));
        out
    }
}

impl Reply {
    /// Whether the reply is `code` with the one line `text`.
    pub open spec fn is(&self, code: u16, text: Seq<char>) -> bool {
        self.code == code && self.lines@.len() == 1 && self.lines@[0]@ == text
    }

    /// The reply on the wire.
    pub open spec fn wire(&self) -> Seq<u8> {
        reply_lines(self.code, line_bytes(self.lines@), 0)
    }

    /// A reply of one line.
    pub fn single(code: u16, text: &str) -> (r: Reply)
        ensures
            r.is(code, text@),
    {
        let mut lines: Vec<String> = Vec::new();
        lines.push(String::from_str(text));
        Reply { code, lines }
    }

    /// A reply of one line, made of two texts.
    pub fn joined(code: u16, first: &str, second: &str) -> (r: Reply)
        ensures
            r.is(code, first@ + second@),
    {
        let mut text = String::from_str(first);
        text.append(second);
        let mut lines: Vec<String> = Vec::new();
        lines.push(text);
        Reply { code, lines }
    }

    /// The reply as it is sent. A reply without a line sends nothing.
    pub fn render(&self) -> (out: Vec<u8>)
        ensures
            out@ == self.wire(),
    {
        let ghost lines = line_bytes(self.lines@);
        let mut out: Vec<u8> = Vec::new();
        let n = self.lines.len();
        let mut k: usize = 0;
        while k < n
            invariant
                k <= n,
                n == self.lines@.len(),
                lines == line_bytes(self.lines@),
                out@ + reply_lines(self.code, lines, k as int) == reply_lines(self.code, lines, 0),
            decreases n - k,
        {
            let ghost before = out@;
            let text = self.lines[k].as_str().as_bytes();
            assert(lines[k as int] == text@);
            append_code(&mut out, self.code);
            out.push(if k + 1 == n {
                32
            } else {
                45
            });
            append_framed(&mut out, text);
            out.push(13);
            out.push(10);
            assert(out@ =~= before + reply_line(self.code, k + 1 == n, text@));
            assert(out@ + reply_lines(self.code, lines, k + 1) =~= before + reply_lines(
                self.code,
                lines,
                k as int,
            ));
            k += 1;
        }
        assert(out@ + Seq::<u8>::empty() =~= out@);
        out
    }
}

/// Appends the code in decimal digits.
pub fn append_code(out: &mut Vec<u8>, code: u16)
    ensures
        final(out)@ == old(out)@ + code_bytes(code),
{
    let ghost start = out@;
    if code >= 10000 {
        out.push(48 + (code / 10000) as u8);
    }
    if code >= 1000 {
        out.push(48 + ((code / 1000) % 10) as u8);
    }
    out.push(48 + ((code / 100) % 10) as u8);
    out.push(48 + ((code / 10) % 10) as u8);
    out.push(48 + (code % 10) as u8);
    assert(out@ =~= start + code_bytes(code));
}

/// Appends the text of a line as it stands on the wire.
pub fn append_framed(out: &mut Vec<u8>, text: &[u8])
    ensures
        final(out)@ == old(out)@ + framed_text(text@),
{
    let ghost start = out@;
    let n = if text.len() <= MAX_REPLY_TEXT {
        text.len()
    } else {
        MAX_REPLY_TEXT
    };
    let mut i: usize = 0;
    while i < n
        invariant
            i <= n <= text@.len(),
            n == framed_text(text@).len(),
            out@.len() == start.len() + i,
            forall|j: int| 0 <= j < start.len() ==> out@[j] == start[j],
            forall|j: int| 0 <= j < i ==> out@[start.len() + j] == framed_byte(text@[j]),
        decreases n - i,
    {
        let b = text[i];
        out.push(if b == 13 || b == 10 {
            32
        } else {
            b
        });
        i += 1;
    }
    assert(out@ =~= start + framed_text(text@));
}

/// No line of a reply on the wire is longer than a thousand octets, for a
/// code of three digits.
pub proof fn reply_line_is_short(code: u16, last: bool, text: Seq<u8>)
    requires
        code < 1000,
    ensures
        reply_line(code, last, text).len() <= 1000,
{
}

/// The text of a line cannot end the line: no CR and no LF stands in it.
pub proof fn framed_text_has_no_line_end(text: Seq<u8>, i: int)
    requires
        0 <= i < framed_text(text).len(),
    ensures
        framed_text(text)[i] != 13,
        framed_text(text)[i] != 10,
{
}

} // verus!
