//! The command parser: one framed command line in, one typed command out.
//! It reads the line once from left to right, performs no I/O, and holds
//! nothing but pieces of the line.

use vstd::prelude::*;
use crate::charset::{CharClass, byte_is_let_dig, in_class, scan_run};
use crate::command::{
    Command, Domain, EsmtpParameter, ForwardPath, MailPath, Mailbox, ParseError, ReversePath,
    params_view, texts_of,
};
use crate::grammar::{
    CommandView, DomainView, EsmtpParameterView, command_of, ehlo_of, error_message,
    error_position, has_verb, host_prefix, is_domain, is_dotted, is_string, literal_of,
    local_part_len, mail_of, mail_stop, mailbox_prefix, param_prefix, param_tail, params_of,
    params_stop, path_prefix, rcpt_of, rcpt_stop, source_route_prefix, tail_stop,
};
use crate::scan::{
    ascii_len, byte_at, check_all, check_dotted, check_ipv4, check_ipv6, matches_ignore_case,
    scan_quoted,
};

verus! {

/// The text of a window of an ASCII line.
pub fn text_of(line: &str, start: usize, end: usize) -> (s: String)
    requires
        line.is_ascii(),
        start <= end <= line@.len(),
    ensures
        s@ == line@.subrange(start as int, end as int),
{
    String::from_str(line.substring_ascii(start, end))
}

/// An error at `position`.
pub fn syntax_error(message: &str, position: usize) -> (e: ParseError)
    ensures
        e.position == position,
        e.message@ == message@,
{
    ParseError { message: String::from_str(message), position }
}

/// Whether the line begins with `verb`, in any case.
pub fn starts_with_verb(line: &str, start: usize, end: usize, verb: &str) -> (r: bool)
    requires
        line.is_ascii(),
        verb.is_ascii(),
        start <= end <= line@.len(),
    ensures
        r == has_verb(line@.subrange(start as int, end as int), verb@),
{
    let n = ascii_len(verb);
    if end - start < n {
        return false;
    }
    assert(line@.subrange(start as int, end as int).take(n as int) =~= line@.subrange(
        start as int,
        start + n,
    ));
    matches_ignore_case(line, start, start + n, verb)
}

/// Whether the window is an atom or a quoted string.
pub fn check_string(line: &str, start: usize, end: usize) -> (r: bool)
    requires
        line.is_ascii(),
        start <= end <= line@.len(),
    ensures
        r == is_string(line@.subrange(start as int, end as int)),
{
    if start < end && check_all(line, start, end, CharClass::Atext) {
        return true;
    }
    match scan_quoted(line, start, end) {
        Some(stop) => stop == end,
        None => false,
    }
}

/// The parser of the command grammar.
pub struct Parser;

impl Parser {
    /// The value of an address literal, from the window between its brackets.
    pub fn parse_literal(line: &str, start: usize, end: usize) -> (r: Option<Domain>)
        requires
            line.is_ascii(),
            start <= end <= line@.len(),
        ensures
            match r {
                Some(d) => literal_of(line@.subrange(start as int, end as int)) == Some(d@),
                None => literal_of(line@.subrange(start as int, end as int)) is None,
            },
    {
        reveal(literal_of);
        let ghost w = line@.subrange(start as int, end as int);
        proof {
            reveal_strlit("IPv6:");
        }
        if check_ipv4(line, start, end) {
            return Some(Domain::V4(text_of(line, start, end)));
        }
        if end - start >= 5 {
            assert(w.take(5) =~= line@.subrange(start as int, start + 5));
            assert(w.skip(5) =~= line@.subrange(start + 5, end as int));
            if matches_ignore_case(line, start, start + 5, "IPv6:") && check_ipv6(
                line,
                start + 5,
                end,
            ) {
                return Some(Domain::V6(text_of(line, start + 5, end)));
            }
        }
        let colon = scan_run(line, start, end, CharClass::Ldh);
        if colon > start && colon < end {
            assert(w[colon - start] == line@[colon as int]);
            assert(w.skip(colon - start + 1) =~= line@.subrange(colon + 1, end as int));
            assert(w.take(colon - start) =~= line@.subrange(start as int, colon as int));
            if byte_at(line, colon) == 58 && colon + 1 < end && check_all(
                line,
                colon + 1,
                end,
                CharClass::Dcontent,
            ) {
                return Some(
                    Domain::Tagged {
                        tag: text_of(line, start, colon),
                        literal: text_of(line, colon + 1, end),
                    },
                );
            }
        }
        None
    }

    /// A domain or an address literal at the start of the window, and where
    /// it ends.
    pub fn parse_domain(line: &str, start: usize, end: usize) -> (r: Option<(Domain, usize)>)
        requires
            line.is_ascii(),
            start <= end <= line@.len(),
        ensures
            match r {
                Some((d, stop)) => start <= stop <= end && host_prefix(
                    line@.subrange(start as int, end as int),
                ) == Some((d@, stop - start)),
                None => host_prefix(line@.subrange(start as int, end as int)) is None,
            },
    {
        reveal(host_prefix);
        let ghost w = line@.subrange(start as int, end as int);
        if start < end {
            assert(w[0] == line@[start as int]);
        }
        if start < end && byte_at(line, start) == 91 {
            assert(w.skip(1) =~= line@.subrange(start + 1, end as int));
            let close = scan_run(line, start + 1, end, CharClass::Dcontent);
            if close >= end {
                return None;
            }
            assert(w[close - start] == line@[close as int]);
            if byte_at(line, close) != 93 {
                return None;
            }
            assert(w.subrange(1, close - start) =~= line@.subrange(start + 1, close as int));
            match Self::parse_literal(line, start + 1, close) {
                Some(d) => Some((d, close + 1)),
                None => None,
            }
        } else {
            let stop = scan_run(line, start, end, CharClass::Domain);
            assert(w.take(stop - start) =~= line@.subrange(start as int, stop as int));
            if check_dotted(line, start, stop, CharClass::Domain, CharClass::LetDig) {
                Some((Domain::Name(text_of(line, start, stop)), stop))
            } else {
                None
            }
        }
    }

    /// A mailbox at the start of the window, and where it ends.
    pub fn parse_mailbox(line: &str, start: usize, end: usize) -> (r: Option<(Mailbox, usize)>)
        requires
            line.is_ascii(),
            start <= end <= line@.len(),
        ensures
            match r {
                Some((m, stop)) => start <= stop <= end && mailbox_prefix(
                    line@.subrange(start as int, end as int),
                ) == Some((m@, stop - start)),
                None => mailbox_prefix(line@.subrange(start as int, end as int)) is None,
            },
    {
        reveal(mailbox_prefix);
        let ghost w = line@.subrange(start as int, end as int);
        if start < end {
            assert(w[0] == line@[start as int]);
        }
        let at: usize;
        if start < end && byte_at(line, start) == 34 {
            match scan_quoted(line, start, end) {
                Some(stop) => {
                    at = stop;
                },
                None => {
                    return None;
                },
            }
        } else {
            let stop = scan_run(line, start, end, CharClass::DotString);
            assert(w.take(stop - start) =~= line@.subrange(start as int, stop as int));
            if !check_dotted(line, start, stop, CharClass::DotString, CharClass::Atext) {
                return None;
            }
            at = stop;
        }
        assert(local_part_len(w) == Some(at - start));
        if at >= end {
            return None;
        }
        assert(w[at - start] == line@[at as int]);
        if byte_at(line, at) != 64 {
            return None;
        }
        assert(w.skip(at - start + 1) =~= line@.subrange(at + 1, end as int));
        assert(w.take(at - start) =~= line@.subrange(start as int, at as int));
        match Self::parse_domain(line, at + 1, end) {
            Some((domain, stop)) => Some(
                (Mailbox { local_part: text_of(line, start, at), domain }, stop),
            ),
            None => None,
        }
    }

    /// A source route with its closing colon at the start of the window, and
    /// where it ends.
    pub fn parse_source_route(line: &str, start: usize, end: usize) -> (r: Option<(Vec<String>, usize)>)
        requires
            line.is_ascii(),
            start <= end <= line@.len(),
        ensures
            match r {
                Some((v, stop)) => start <= stop <= end && source_route_prefix(
                    line@.subrange(start as int, end as int),
                ) == Some((texts_of(v@), stop - start)),
                None => source_route_prefix(line@.subrange(start as int, end as int)) is None,
            },
    {
        let ghost w = line@.subrange(start as int, end as int);
        let mut v: Vec<String> = Vec::new();
        let mut i = start;
        assert(w.skip(0) =~= w);
        assert(texts_of(v@) =~= Seq::<Seq<char>>::empty());
        loop
            invariant
                line.is_ascii(),
                start <= i <= end <= line@.len(),
                w == line@.subrange(start as int, end as int),
                source_route_prefix(w) == match source_route_prefix(w.skip(i - start)) {
                    Some((ds, n)) => Some((texts_of(v@) + ds, n + (i - start))),
                    None => None,
                },
            decreases end - i,
        {
            let ghost rest = w.skip(i - start);
            assert(rest =~= line@.subrange(i as int, end as int));
            if i >= end {
                return None;
            }
            assert(rest[0] == line@[i as int]);
            if byte_at(line, i) != 64 {
                return None;
            }
            assert(rest.skip(1) =~= line@.subrange(i + 1, end as int));
            let stop = scan_run(line, i + 1, end, CharClass::Domain);
            assert(rest.subrange(1, stop - i) =~= line@.subrange(i + 1, stop as int));
            if stop >= end || !check_dotted(
                line,
                i + 1,
                stop,
                CharClass::Domain,
                CharClass::LetDig,
            ) {
                return None;
            }
            assert(rest[stop - i] == line@[stop as int]);
            let c = byte_at(line, stop);
            let ghost before = texts_of(v@);
            let d = text_of(line, i + 1, stop);
            v.push(d);
            assert(texts_of(v@) =~= before + seq![d@]);
            if c == 58 {
                return Some((v, stop + 1));
            } else if c == 44 {
                assert(rest.skip(stop - i + 1) =~= w.skip(stop + 1 - start));
                proof {
                    match source_route_prefix(w.skip(stop + 1 - start)) {
                        Some((ds, n)) => {
                            assert(before + (seq![d@] + ds) =~= texts_of(v@) + ds);
                        },
                        None => {},
                    }
                }
                i = stop + 1;
            } else {
                return None;
            }
        }
    }

    /// A path at the start of the window, and where it ends.
    pub fn parse_path(line: &str, start: usize, end: usize) -> (r: Option<(MailPath, usize)>)
        requires
            line.is_ascii(),
            start <= end <= line@.len(),
        ensures
            match r {
                Some((p, stop)) => start <= stop <= end && path_prefix(
                    line@.subrange(start as int, end as int),
                ) == Some((p@, stop - start)),
                None => path_prefix(line@.subrange(start as int, end as int)) is None,
            },
    {
        reveal(path_prefix);
        let ghost w = line@.subrange(start as int, end as int);
        if start >= end {
            return None;
        }
        assert(w[0] == line@[start as int]);
        if byte_at(line, start) != 60 {
            return None;
        }
        let mut at_domain_list: Vec<String> = Vec::new();
        let mut i = start + 1;
        assert(texts_of(at_domain_list@) =~= Seq::<Seq<char>>::empty());
        if i < end {
            assert(w[1] == line@[i as int]);
        }
        if i < end && byte_at(line, i) == 64 {
            assert(w.skip(1) =~= line@.subrange(i as int, end as int));
            match Self::parse_source_route(line, i, end) {
                Some((v, stop)) => {
                    at_domain_list = v;
                    i = stop;
                },
                None => {
                    return None;
                },
            }
        }
        assert(w.skip(i - start) =~= line@.subrange(i as int, end as int));
        match Self::parse_mailbox(line, i, end) {
            Some((mailbox, stop)) => {
                if stop >= end {
                    return None;
                }
                assert(w[stop - start] == line@[stop as int]);
                if byte_at(line, stop) != 62 {
                    return None;
                }
                Some((MailPath { at_domain_list, mailbox }, stop + 1))
            },
            None => None,
        }
    }

    /// One ESMTP parameter at the start of the window, and where it ends.
    pub fn parse_param(line: &str, start: usize, end: usize) -> (r: Option<(EsmtpParameter, usize)>)
        requires
            line.is_ascii(),
            start <= end <= line@.len(),
        ensures
            match r {
                Some((p, stop)) => start < stop <= end && param_prefix(
                    line@.subrange(start as int, end as int),
                ) == Some((p@, stop - start)),
                None => param_prefix(line@.subrange(start as int, end as int)) is None,
            },
    {
        let ghost w = line@.subrange(start as int, end as int);
        let stop = scan_run(line, start, end, CharClass::Ldh);
        if stop == start {
            return None;
        }
        assert(w[0] == line@[start as int]);
        if !byte_is_let_dig(byte_at(line, start)) {
            return None;
        }
        assert(w.take(stop - start) =~= line@.subrange(start as int, stop as int));
        let name = text_of(line, start, stop);
        if stop < end {
            assert(w[stop - start] == line@[stop as int]);
        }
        if stop < end && byte_at(line, stop) == 61 {
            assert(w.skip(stop - start + 1) =~= line@.subrange(stop + 1, end as int));
            let value_end = scan_run(line, stop + 1, end, CharClass::Value);
            if value_end == stop + 1 {
                return None;
            }
            assert(w.subrange(stop - start + 1, value_end - start) =~= line@.subrange(
                stop + 1,
                value_end as int,
            ));
            let value = text_of(line, stop + 1, value_end);
            Some((EsmtpParameter { name, value: Some(value) }, value_end))
        } else {
            Some((EsmtpParameter { name, value: None }, stop))
        }
    }

    /// What may follow a path, to the end of the window: nothing, or a space
    /// and parameters separated by single spaces. If it is neither, where
    /// it stops being well formed.
    pub fn parse_params(line: &str, start: usize, end: usize) -> (r: Result<
        Vec<EsmtpParameter>,
        usize,
    >)
        requires
            line.is_ascii(),
            start <= end <= line@.len(),
        ensures
            match r {
                Ok(v) => param_tail(line@.subrange(start as int, end as int)) == Some(
                    params_view(v@),
                ),
                Err(stop) => param_tail(line@.subrange(start as int, end as int)) is None
                    && start <= stop <= end && stop == start + tail_stop(
                    line@.subrange(start as int, end as int),
                ),
            },
    {
        reveal(param_tail);
        let ghost w = line@.subrange(start as int, end as int);
        let mut v: Vec<EsmtpParameter> = Vec::new();
        assert(params_view(v@) =~= Seq::<EsmtpParameterView>::empty());
        if start >= end {
            return Ok(v);
        }
        assert(w[0] == line@[start as int]);
        if byte_at(line, start) != 32 {
            return Err(start);
        }
        let mut i = start + 1;
        loop
            invariant
                line.is_ascii(),
                start < i <= end <= line@.len(),
                w == line@.subrange(start as int, end as int),
                w[0] == ' ',
                params_of(w.skip(1)) == match params_of(w.skip(i - start)) {
                    Some(ps) => Some(params_view(v@) + ps),
                    None => None,
                },
                params_stop(w.skip(1)) == (i - start - 1) + params_stop(w.skip(i - start)),
            decreases end - i,
        {
            reveal(param_tail);
            let ghost rest = w.skip(i - start);
            assert(rest =~= line@.subrange(i as int, end as int));
            match Self::parse_param(line, i, end) {
                Some((p, stop)) => {
                    let ghost before = params_view(v@);
                    let ghost pv = p@;
                    v.push(p);
                    assert(params_view(v@) =~= before + seq![pv]);
                    if stop >= end {
                        return Ok(v);
                    }
                    assert(rest[stop - i] == line@[stop as int]);
                    if byte_at(line, stop) != 32 {
                        return Err(stop);
                    }
                    assert(rest.skip(stop - i + 1) =~= w.skip(stop + 1 - start));
                    proof {
                        match params_of(w.skip(stop + 1 - start)) {
                            Some(ps) => {
                                assert(before + (seq![pv] + ps) =~= params_view(v@) + ps);
                            },
                            None => {},
                        }
                    }
                    i = stop + 1;
                },
                None => {
                    return Err(i);
                },
            }
        }
    }

    /// What follows `MAIL FROM:`: the command, or where it stops being
    /// well formed.
    pub fn parse_mail(line: &str, start: usize, end: usize) -> (r: Result<Command, usize>)
        requires
            line.is_ascii(),
            start <= end <= line@.len(),
        ensures
            match r {
                Ok(c) => mail_of(line@.subrange(start as int, end as int)) == Some(c@),
                Err(stop) => mail_of(line@.subrange(start as int, end as int)) is None && stop
                    == start + mail_stop(line@.subrange(start as int, end as int)) && start
                    <= stop <= end,
            },
    {
        let ghost w = line@.subrange(start as int, end as int);
        if end - start >= 2 {
            assert(w[0] == line@[start as int]);
            assert(w[1] == line@[start + 1]);
            if byte_at(line, start) == 60 && byte_at(line, start + 1) == 62 {
                assert(w.skip(2) =~= line@.subrange(start + 2, end as int));
                return match Self::parse_params(line, start + 2, end) {
                    Ok(parameters) => Ok(
                        Command::MailFrom { address: ReversePath::NullSender, parameters },
                    ),
                    Err(stop) => Err(stop),
                };
            }
        }
        match Self::parse_path(line, start, end) {
            Some((path, stop)) => {
                assert(w.skip(stop - start) =~= line@.subrange(stop as int, end as int));
                match Self::parse_params(line, stop, end) {
                    Ok(parameters) => Ok(
                        Command::MailFrom { address: ReversePath::Path(path), parameters },
                    ),
                    Err(at) => Err(at),
                }
            },
            None => Err(start),
        }
    }

    /// What follows `RCPT TO:`: the command, or where it stops being well
    /// formed.
    pub fn parse_rcpt(line: &str, start: usize, end: usize) -> (r: Result<Command, usize>)
        requires
            line.is_ascii(),
            start <= end <= line@.len(),
        ensures
            match r {
                Ok(c) => rcpt_of(line@.subrange(start as int, end as int)) == Some(c@),
                Err(stop) => rcpt_of(line@.subrange(start as int, end as int)) is None && stop
                    == start + rcpt_stop(line@.subrange(start as int, end as int)) && start
                    <= stop <= end,
            },
    {
        let ghost w = line@.subrange(start as int, end as int);
        proof {
            reveal_strlit("<postmaster>");
        }
        if starts_with_verb(line, start, end, "<postmaster>") {
            assert(w.skip(12) =~= line@.subrange(start + 12, end as int));
            return match Self::parse_params(line, start + 12, end) {
                Ok(parameters) => Ok(
                    Command::RcptTo { address: ForwardPath::Postmaster, parameters },
                ),
                Err(stop) => Err(stop),
            };
        }
        match Self::parse_path(line, start, end) {
            Some((path, stop)) => {
                assert(w.skip(stop - start) =~= line@.subrange(stop as int, end as int));
                match Self::parse_params(line, stop, end) {
                    Ok(parameters) => Ok(
                        Command::RcptTo { address: ForwardPath::Path(path), parameters },
                    ),
                    Err(at) => Err(at),
                }
            },
            None => Err(start),
        }
    }

    /// What follows `EHLO `.
    pub fn parse_ehlo(line: &str, start: usize, end: usize) -> (r: Option<Command>)
        requires
            line.is_ascii(),
            start <= end <= line@.len(),
        ensures
            match r {
                Some(c) => ehlo_of(line@.subrange(start as int, end as int)) == Some(c@),
                None => ehlo_of(line@.subrange(start as int, end as int)) is None,
            },
    {
        match Self::parse_domain(line, start, end) {
            Some((d, stop)) => if stop == end {
                Some(Command::Ehlo(d))
            } else {
                None
            },
            None => None,
        }
    }

    /// What follows `HELO `: a domain name, and no address literal.
    pub fn parse_helo(line: &str, start: usize, end: usize) -> (r: Option<Command>)
        requires
            line.is_ascii(),
            start <= end <= line@.len(),
        ensures
            match r {
                Some(c) => is_domain(line@.subrange(start as int, end as int)) && c@
                    == CommandView::Helo(
                    DomainView::Name(line@.subrange(start as int, end as int)),
                ),
                None => !is_domain(line@.subrange(start as int, end as int)),
            },
    {
        if check_dotted(line, start, end, CharClass::Domain, CharClass::LetDig) {
            Some(Command::Helo(Domain::Name(text_of(line, start, end))))
        } else {
            None
        }
    }

    /// The argument of `VRFY`, `EXPN`, `HELP` or `NOOP`.
    pub fn parse_string(line: &str, start: usize, end: usize) -> (r: Option<String>)
        requires
            line.is_ascii(),
            start <= end <= line@.len(),
        ensures
            match r {
                Some(s) => is_string(line@.subrange(start as int, end as int)) && s@
                    == line@.subrange(start as int, end as int),
                None => !is_string(line@.subrange(start as int, end as int)),
            },
    {
        if check_string(line, start, end) {
            Some(text_of(line, start, end))
        } else {
            None
        }
    }

    /// What follows `VRFY `.
    pub fn parse_vrfy(line: &str, start: usize, end: usize) -> (r: Option<Command>)
        requires
            line.is_ascii(),
            start <= end <= line@.len(),
        ensures
            match r {
                Some(c) => is_string(line@.subrange(start as int, end as int)) && c@
                    == CommandView::Vrfy(line@.subrange(start as int, end as int)),
                None => !is_string(line@.subrange(start as int, end as int)),
            },
    {
        match Self::parse_string(line, start, end) {
            Some(s) => Some(Command::Vrfy(s)),
            None => None,
        }
    }

    /// What follows `EXPN `.
    pub fn parse_expn(line: &str, start: usize, end: usize) -> (r: Option<Command>)
        requires
            line.is_ascii(),
            start <= end <= line@.len(),
        ensures
            match r {
                Some(c) => is_string(line@.subrange(start as int, end as int)) && c@
                    == CommandView::Expn(line@.subrange(start as int, end as int)),
                None => !is_string(line@.subrange(start as int, end as int)),
            },
    {
        match Self::parse_string(line, start, end) {
            Some(s) => Some(Command::Expn(s)),
            None => None,
        }
    }

    /// What follows `HELP `.
    pub fn parse_help(line: &str, start: usize, end: usize) -> (r: Option<Command>)
        requires
            line.is_ascii(),
            start <= end <= line@.len(),
        ensures
            match r {
                Some(c) => is_string(line@.subrange(start as int, end as int)) && c@
                    == CommandView::Help(Some(line@.subrange(start as int, end as int))),
                None => !is_string(line@.subrange(start as int, end as int)),
            },
    {
        match Self::parse_string(line, start, end) {
            Some(s) => Some(Command::Help(Some(s))),
            None => None,
        }
    }

    /// What follows `NOOP `.
    pub fn parse_noop(line: &str, start: usize, end: usize) -> (r: Option<Command>)
        requires
            line.is_ascii(),
            start <= end <= line@.len(),
        ensures
            match r {
                Some(c) => is_string(line@.subrange(start as int, end as int)) && c@
                    == CommandView::Noop(Some(line@.subrange(start as int, end as int))),
                None => !is_string(line@.subrange(start as int, end as int)),
            },
    {
        match Self::parse_string(line, start, end) {
            Some(s) => Some(Command::Noop(Some(s))),
            None => None,
        }
    }

    /// Parses one command line, without its CRLF. The result is the command
    /// that the grammar assigns to the line, and an error exactly when the
    /// grammar assigns none; the error says where the line begins to offend
    /// and what is wrong there.
    pub fn parse_command(text: &str) -> (r: Result<Command, ParseError>)
        ensures
            match r {
                Ok(c) => command_of(text@) == Some(c@),
                Err(e) => command_of(text@) is None && e.position == error_position(text@)
                    && e.message@ == error_message(text@) && e.position <= text@.len(),
            },
    {
        if !text.is_ascii() {
            return Err(syntax_error("the line is not ASCII", 0));
        }
        let n = ascii_len(text);
        let ghost s = text@;
        assert(s.subrange(0, n as int) =~= s);
        proof {
            reveal_strlit("DATA");
            reveal_strlit("RSET");
            reveal_strlit("QUIT");
            reveal_strlit("HELP");
            reveal_strlit("NOOP");
            reveal_strlit("EHLO ");
            reveal_strlit("HELO ");
            reveal_strlit("VRFY ");
            reveal_strlit("EXPN ");
            reveal_strlit("HELP ");
            reveal_strlit("NOOP ");
            reveal_strlit("MAIL FROM:");
            reveal_strlit("RCPT TO:");
        }
        if matches_ignore_case(text, 0, n, "DATA") {
            return Ok(Command::Data);
        }
        if matches_ignore_case(text, 0, n, "RSET") {
            return Ok(Command::Rset);
        }
        if matches_ignore_case(text, 0, n, "QUIT") {
            return Ok(Command::Quit);
        }
        if matches_ignore_case(text, 0, n, "HELP") {
            return Ok(Command::Help(None));
        }
        if matches_ignore_case(text, 0, n, "NOOP") {
            return Ok(Command::Noop(None));
        }
        let ehlo = starts_with_verb(text, 0, n, "EHLO ");
        let helo = starts_with_verb(text, 0, n, "HELO ");
        let vrfy = starts_with_verb(text, 0, n, "VRFY ");
        let expn = starts_with_verb(text, 0, n, "EXPN ");
        let help = starts_with_verb(text, 0, n, "HELP ");
        let noop = starts_with_verb(text, 0, n, "NOOP ");
        if ehlo || helo || vrfy || expn || help || noop {
            assert(s.skip(5) =~= s.subrange(5, n as int));
            let parsed = if ehlo {
                Self::parse_ehlo(text, 5, n)
            } else if helo {
                Self::parse_helo(text, 5, n)
            } else if vrfy {
                Self::parse_vrfy(text, 5, n)
            } else if expn {
                Self::parse_expn(text, 5, n)
            } else if help {
                Self::parse_help(text, 5, n)
            } else {
                Self::parse_noop(text, 5, n)
            };
            return match parsed {
                Some(c) => Ok(c),
                None => Err(syntax_error("malformed argument", 5)),
            };
        }
        if starts_with_verb(text, 0, n, "MAIL FROM:") {
            assert(s.skip(10) =~= s.subrange(10, n as int));
            return match Self::parse_mail(text, 10, n) {
                Ok(c) => Ok(c),
                Err(stop) => Err(Self::argument_error(10, stop)),
            };
        }
        if starts_with_verb(text, 0, n, "RCPT TO:") {
            assert(s.skip(8) =~= s.subrange(8, n as int));
            return match Self::parse_rcpt(text, 8, n) {
                Ok(c) => Ok(c),
                Err(stop) => Err(Self::argument_error(8, stop)),
            };
        }
        Err(syntax_error("unknown command", 0))
    }

    /// The error for a line whose argument begins at `start` and stops
    /// being well formed at `stop`.
    fn argument_error(start: usize, stop: usize) -> (e: ParseError)
        requires
            0 < start <= stop,
        ensures
            e.position == stop,
            e.message@ == if stop > start {
                "malformed parameters"@
            } else {
                "malformed argument"@
            },
    {
        if stop > start {
            syntax_error("malformed parameters", stop)
        } else {
            syntax_error("malformed argument", stop)
        }
    }
}

impl Command {
    /// Parses one command line, without its CRLF. The result is the command
    /// that the grammar assigns to the line, and an error exactly when the
    /// grammar assigns none; the error says where the line begins to offend
    /// and what is wrong there.
    pub fn parse(line: &str) -> (r: Result<Command, ParseError>)
        ensures
            match r {
                Ok(c) => command_of(line@) == Some(c@),
                Err(e) => command_of(line@) is None && e.position == error_position(line@)
                    && e.message@ == error_message(line@) && e.position <= line@.len(),
            },
    {
        Parser::parse_command(line)
    }
}

/// Whether `text` is a domain name, and nothing else.
pub fn is_valid_domain(text: &str) -> (r: bool)
    ensures
        r == is_domain(text@),
{
    if !text.is_ascii() {
        proof {
            reveal(is_dotted);
            let i = choose|i: int| 0 <= i < text@.len() && !('\0' <= #[trigger] text@[i] <= '\u{7f}');
            assert(!in_class(CharClass::Domain, text@[i]));
        }
        return false;
    }
    let n = ascii_len(text);
    assert(text@.subrange(0, n as int) =~= text@);
    check_dotted(text, 0, n, CharClass::Domain, CharClass::LetDig)
}

} // verus!
