//! A command that the grammar reads from a line is read back from its own
//! wire form.

use vstd::prelude::*;
use vstd::utf8::is_ascii_chars;
use crate::charset::{
    CharClass, all_in_class, eq_ignore_case, in_class, lemma_run_len_bounds, run_len, same_letter,
};
use crate::grammar::{
    CommandView, DomainView, EsmtpParameterView, ForwardPathView, MailPathView, ReversePathView,
    command_of, ehlo_of, has_verb, is_atom, is_domain, is_dot_string, is_keyword, is_quoted_string,
    is_string, is_value, mail_of, param_prefix, param_tail, params_of, path_prefix,
    quoted_tail_len, rcpt_of,
};
use crate::laws::{
    lemma_dotted_facts, lemma_host_valid, lemma_host_wire, lemma_path_valid, lemma_path_wire,
    lemma_run_len_concat, valid_domain, valid_path,
};
use crate::wire::{
    command_wire, domain_wire, forward_path_wire, mailbox_wire, param_wire, params_wire, path_wire,
    reverse_path_wire, route_wire,
};

verus! {

/// The parameters that the grammar produces.
pub open spec fn valid_param(p: EsmtpParameterView) -> bool {
    is_keyword(p.name) && match p.value {
        Some(v) => is_value(v),
        None => true,
    }
}

/// Every parameter is one that the grammar produces.
pub open spec fn valid_params(ps: Seq<EsmtpParameterView>) -> bool {
    forall|i: int| 0 <= i < ps.len() ==> valid_param(#[trigger] ps[i])
}

/// The commands that the grammar produces.
pub open spec fn valid_command(c: CommandView) -> bool {
    match c {
        CommandView::Ehlo(d) => valid_domain(d),
        CommandView::Helo(d) => d is Name && valid_domain(d),
        CommandView::MailFrom { address, parameters } => valid_params(parameters) && match address {
            ReversePathView::Path(p) => valid_path(p),
            ReversePathView::NullSender => true,
        },
        CommandView::RcptTo { address, parameters } => valid_params(parameters) && match address {
            ForwardPathView::Path(p) => valid_path(p),
            ForwardPathView::Postmaster => true,
        },
        CommandView::Data => true,
        CommandView::Rset => true,
        CommandView::Quit => true,
        CommandView::Vrfy(t) => is_string(t),
        CommandView::Expn(t) => is_string(t),
        CommandView::Help(o) => match o {
            Some(t) => is_string(t),
            None => true,
        },
        CommandView::Noop(o) => match o {
            Some(t) => is_string(t),
            None => true,
        },
    }
}

/// The wire form of a well-formed parameter is read back as that parameter
/// before the end of the text and before a space.
pub proof fn lemma_param_wire(p: EsmtpParameterView, tail: Seq<char>)
    requires
        valid_param(p),
        tail.len() == 0 || tail[0] == ' ',
    ensures
        param_prefix(param_wire(p) + tail) == Some((p, param_wire(p).len() as int)),
{
    let s = param_wire(p) + tail;
    let k = p.name.len() as int;
    assert(s[0] == p.name[0]);
    match p.value {
        Some(v) => {
            let after = seq!['='] + (v + tail);
            assert(s =~= p.name + after);
            lemma_run_len_concat(p.name, after, CharClass::Ldh);
            assert(s[k] == '=');
            assert(s.skip(k + 1) =~= v + tail);
            lemma_run_len_concat(v, tail, CharClass::Value);
            assert(s.take(k) =~= p.name);
            assert(s.subrange(k + 1, k + 1 + v.len()) =~= v);
        },
        None => {
            lemma_run_len_concat(p.name, tail, CharClass::Ldh);
            if tail.len() > 0 {
                assert(s[k] == tail[0]);
            }
            assert(s.take(k) =~= p.name);
        },
    }
}

/// What the grammar reads as a parameter is well formed and lies within the text.
pub proof fn lemma_param_valid(s: Seq<char>)
    requires
        param_prefix(s) is Some,
    ensures
        valid_param(param_prefix(s).unwrap().0),
        0 < param_prefix(s).unwrap().1 <= s.len(),
{
    lemma_run_len_bounds(s, CharClass::Ldh);
    let k = run_len(s, CharClass::Ldh) as int;
    let name = s.take(k);
    assert(name[0] == s[0]);
    assert forall|i: int| 0 <= i < name.len() implies in_class(CharClass::Ldh, #[trigger] name[i]) by {
        assert(name[i] == s[i]);
    }
    if k < s.len() && s[k] == '=' {
        let rest = s.skip(k + 1);
        lemma_run_len_bounds(rest, CharClass::Value);
        let v = run_len(rest, CharClass::Value) as int;
        let value = s.subrange(k + 1, k + 1 + v);
        assert forall|i: int| 0 <= i < value.len() implies in_class(
            CharClass::Value,
            #[trigger] value[i],
        ) by {
            assert(value[i] == rest[i]);
        }
    }
}

/// The wire form of well-formed parameters is read back as those parameters.
pub proof fn lemma_params_wire(ps: Seq<EsmtpParameterView>)
    requires
        valid_params(ps),
    ensures
        param_tail(params_wire(ps)) == Some(ps),
        ps.len() > 0 ==> params_wire(ps)[0] == ' ',
    decreases ps.len(),
{
    reveal(param_tail);
    let w = params_wire(ps);
    if ps.len() == 0 {
        assert(ps =~= Seq::<EsmtpParameterView>::empty());
    } else {
        let p = ps[0];
        let rest = ps.drop_first();
        let tail = params_wire(rest);
        assert forall|i: int| 0 <= i < rest.len() implies valid_param(#[trigger] rest[i]) by {
            assert(rest[i] == ps[i + 1]);
        }
        lemma_params_wire(rest);
        assert(w[0] == ' ');
        let s = w.skip(1);
        assert(s =~= param_wire(p) + tail);
        lemma_param_wire(p, tail);
        let n = param_wire(p).len() as int;
        if rest.len() == 0 {
            assert(tail.len() == 0);
            assert(ps =~= seq![p]);
        } else {
            assert(s[n] == tail[0]);
            assert(s.skip(n + 1) =~= tail.skip(1));
            assert(ps =~= seq![p] + rest);
        }
    }
}

/// What the grammar reads as parameters is well formed.
pub proof fn lemma_params_valid(s: Seq<char>)
    requires
        params_of(s) is Some,
    ensures
        valid_params(params_of(s).unwrap()),
    decreases s.len(),
{
    lemma_param_valid(s);
    let p = param_prefix(s).unwrap().0;
    let n = param_prefix(s).unwrap().1;
    if n < s.len() {
        lemma_params_valid(s.skip(n + 1));
        let rest = params_of(s.skip(n + 1)).unwrap();
        let ps = seq![p] + rest;
        assert forall|i: int| 0 <= i < ps.len() implies valid_param(#[trigger] ps[i]) by {
            if i > 0 {
                assert(ps[i] == rest[i - 1]);
            }
        }
    }
}

/// What the grammar reads after a path is well formed.
pub proof fn lemma_param_tail_valid(s: Seq<char>)
    requires
        param_tail(s) is Some,
    ensures
        valid_params(param_tail(s).unwrap()),
{
    reveal(param_tail);
    if s.len() > 0 {
        lemma_params_valid(s.skip(1));
    }
}

/// A text that differs from `verb` in the letter at `i` neither is nor
/// begins with `verb`.
pub proof fn lemma_other_verb(s: Seq<char>, verb: Seq<char>, i: int)
    requires
        0 <= i < verb.len(),
        i < s.len() ==> !same_letter(s[i], verb[i]),
    ensures
        !has_verb(s, verb),
        !eq_ignore_case(s, verb),
{
    if s.len() >= verb.len() {
        let head = s.take(verb.len() as int);
        assert(head[i] == s[i]);
    }
}

/// A text that begins with `verb` in its own case begins with `verb`.
pub proof fn lemma_same_verb(verb: Seq<char>, rest: Seq<char>)
    ensures
        has_verb(verb + rest, verb),
        (verb + rest).skip(verb.len() as int) == rest,
        rest.len() == 0 ==> eq_ignore_case(verb + rest, verb),
{
    let s = verb + rest;
    assert(s.take(verb.len() as int) =~= verb);
    assert(s.skip(verb.len() as int) =~= rest);
    if rest.len() == 0 {
        assert(s =~= verb);
    }
}

/// Texts of a character class are ASCII.
pub proof fn lemma_class_ascii(t: Seq<char>, k: CharClass)
    requires
        all_in_class(t, k),
    ensures
        is_ascii_chars(t),
{
    assert forall|i: int| 0 <= i < t.len() implies '\0' <= #[trigger] t[i] <= '\u{7f}' by {
        assert(in_class(k, t[i]));
    }
}

/// Two ASCII texts, one after the other, are ASCII.
pub proof fn lemma_ascii_concat(a: Seq<char>, b: Seq<char>)
    requires
        is_ascii_chars(a),
        is_ascii_chars(b),
    ensures
        is_ascii_chars(a + b),
{
    let s = a + b;
    assert forall|i: int| 0 <= i < s.len() implies '\0' <= #[trigger] s[i] <= '\u{7f}' by {
        if i < a.len() {
            assert(s[i] == a[i]);
        } else {
            assert(s[i] == b[i - a.len()]);
        }
    }
}

/// What follows the opening quote of a quoted string is ASCII.
pub proof fn lemma_quoted_tail_ascii(t: Seq<char>)
    requires
        quoted_tail_len(t) == Some(t.len() as int),
    ensures
        is_ascii_chars(t),
    decreases t.len(),
{
    if t[0] == '"' {
        assert(t.len() == 1);
    } else if t[0] == '\\' {
        let r = t.skip(2);
        lemma_quoted_tail_ascii(r);
        assert forall|i: int| 0 <= i < t.len() implies '\0' <= #[trigger] t[i] <= '\u{7f}' by {
            if i >= 2 {
                assert(t[i] == r[i - 2]);
            }
        }
    } else {
        let r = t.skip(1);
        lemma_quoted_tail_ascii(r);
        assert forall|i: int| 0 <= i < t.len() implies '\0' <= #[trigger] t[i] <= '\u{7f}' by {
            if i >= 1 {
                assert(t[i] == r[i - 1]);
            }
        }
    }
}

/// Atoms, dot-strings and quoted strings are ASCII.
pub proof fn lemma_string_ascii(t: Seq<char>)
    requires
        is_string(t) || is_dot_string(t) || is_quoted_string(t),
    ensures
        is_ascii_chars(t),
{
    if is_atom(t) {
        lemma_class_ascii(t, CharClass::Atext);
    } else if is_dot_string(t) {
        lemma_dotted_facts(t, CharClass::DotString, CharClass::Atext);
        lemma_class_ascii(t, CharClass::DotString);
    } else {
        let r = t.skip(1);
        lemma_quoted_tail_ascii(r);
        assert forall|i: int| 0 <= i < t.len() implies '\0' <= #[trigger] t[i] <= '\u{7f}' by {
            if i >= 1 {
                assert(t[i] == r[i - 1]);
            }
        }
    }
}

/// The wire form of a well-formed domain is ASCII.
pub proof fn lemma_domain_ascii(d: DomainView)
    requires
        valid_domain(d),
    ensures
        is_ascii_chars(domain_wire(d)),
{
    reveal_strlit("IPv6:");
    let open = seq!['['];
    let close = seq![']'];
    match d {
        DomainView::Name(t) => {
            lemma_dotted_facts(t, CharClass::Domain, CharClass::LetDig);
            lemma_class_ascii(t, CharClass::Domain);
        },
        DomainView::V4(t) => {
            lemma_class_ascii(t, CharClass::Dcontent);
            lemma_ascii_concat(open, t);
            lemma_ascii_concat(open + t, close);
        },
        DomainView::V6(t) => {
            lemma_class_ascii(t, CharClass::Dcontent);
            lemma_ascii_concat(open, "IPv6:"@);
            lemma_ascii_concat(open + "IPv6:"@, t);
            lemma_ascii_concat(open + "IPv6:"@ + t, close);
        },
        DomainView::Tagged { tag, literal } => {
            lemma_class_ascii(tag, CharClass::Ldh);
            lemma_class_ascii(literal, CharClass::Dcontent);
            lemma_ascii_concat(open, tag);
            lemma_ascii_concat(open + tag, seq![':']);
            lemma_ascii_concat(open + tag + seq![':'], literal);
            lemma_ascii_concat(open + tag + seq![':'] + literal, close);
        },
    }
}

/// The wire form of a route of domains is ASCII.
pub proof fn lemma_route_ascii(ds: Seq<Seq<char>>)
    requires
        forall|i: int| 0 <= i < ds.len() ==> is_domain(#[trigger] ds[i]),
    ensures
        is_ascii_chars(route_wire(ds)),
    decreases ds.len(),
{
    if ds.len() > 0 {
        let d = ds[0];
        lemma_dotted_facts(d, CharClass::Domain, CharClass::LetDig);
        lemma_class_ascii(d, CharClass::Domain);
        lemma_ascii_concat(seq!['@'], d);
        if ds.len() == 1 {
            lemma_ascii_concat(seq!['@'] + d, seq![':']);
        } else {
            let rest = ds.drop_first();
            assert forall|i: int| 0 <= i < rest.len() implies is_domain(#[trigger] rest[i]) by {
                assert(rest[i] == ds[i + 1]);
            }
            lemma_route_ascii(rest);
            lemma_ascii_concat(seq!['@'] + d, seq![',']);
            lemma_ascii_concat(seq!['@'] + d + seq![','], route_wire(rest));
        }
    }
}

/// The wire form of a well-formed path is ASCII.
pub proof fn lemma_path_ascii(p: MailPathView)
    requires
        valid_path(p),
    ensures
        is_ascii_chars(path_wire(p)),
{
    let route = route_wire(p.at_domain_list);
    let local = p.mailbox.local_part;
    let host = domain_wire(p.mailbox.domain);
    lemma_route_ascii(p.at_domain_list);
    lemma_string_ascii(local);
    lemma_domain_ascii(p.mailbox.domain);
    lemma_ascii_concat(local, seq!['@']);
    lemma_ascii_concat(local + seq!['@'], host);
    lemma_ascii_concat(seq!['<'], route);
    lemma_ascii_concat(seq!['<'] + route, mailbox_wire(p.mailbox));
    lemma_ascii_concat(seq!['<'] + route + mailbox_wire(p.mailbox), seq!['>']);
}

/// The wire form of well-formed parameters is ASCII.
pub proof fn lemma_params_ascii(ps: Seq<EsmtpParameterView>)
    requires
        valid_params(ps),
    ensures
        is_ascii_chars(params_wire(ps)),
    decreases ps.len(),
{
    if ps.len() > 0 {
        let p = ps[0];
        let rest = ps.drop_first();
        assert forall|i: int| 0 <= i < rest.len() implies valid_param(#[trigger] rest[i]) by {
            assert(rest[i] == ps[i + 1]);
        }
        lemma_params_ascii(rest);
        lemma_class_ascii(p.name, CharClass::Ldh);
        match p.value {
            Some(v) => {
                lemma_class_ascii(v, CharClass::Value);
                lemma_ascii_concat(p.name, seq!['=']);
                lemma_ascii_concat(p.name + seq!['='], v);
            },
            None => {},
        }
        lemma_ascii_concat(seq![' '], param_wire(p));
        lemma_ascii_concat(seq![' '] + param_wire(p), params_wire(rest));
    }
}

/// What the grammar reads after `MAIL FROM:` is well formed.
pub proof fn lemma_mail_valid(a: Seq<char>)
    requires
        mail_of(a) is Some,
    ensures
        valid_command(mail_of(a).unwrap()),
{
    if a.len() >= 2 && a[0] == '<' && a[1] == '>' {
        lemma_param_tail_valid(a.skip(2));
    } else {
        lemma_path_valid(a);
        lemma_param_tail_valid(a.skip(path_prefix(a).unwrap().1));
    }
}

/// What the grammar reads after `RCPT TO:` is well formed.
pub proof fn lemma_rcpt_valid(a: Seq<char>)
    requires
        rcpt_of(a) is Some,
    ensures
        valid_command(rcpt_of(a).unwrap()),
{
    if has_verb(a, "<postmaster>"@) {
        lemma_param_tail_valid(a.skip(12));
    } else {
        lemma_path_valid(a);
        lemma_param_tail_valid(a.skip(path_prefix(a).unwrap().1));
    }
}

/// What the grammar reads as a command is well formed.
pub proof fn lemma_command_valid(s: Seq<char>)
    requires
        command_of(s) is Some,
    ensures
        valid_command(command_of(s).unwrap()),
{
    if ehlo_of(s.skip(5)) is Some {
        lemma_host_valid(s.skip(5));
    }
    if mail_of(s.skip(10)) is Some {
        lemma_mail_valid(s.skip(10));
    }
    if rcpt_of(s.skip(8)) is Some {
        lemma_rcpt_valid(s.skip(8));
    }
}

/// A text whose first letter is not that of a verb neither is nor begins
/// with that verb.
pub proof fn lemma_first_letter(w: Seq<char>)
    requires
        w.len() > 0,
    ensures
        !same_letter(w[0], 'D') ==> !eq_ignore_case(w, "DATA"@),
        !same_letter(w[0], 'R') ==> !eq_ignore_case(w, "RSET"@) && !has_verb(w, "RCPT TO:"@),
        !same_letter(w[0], 'Q') ==> !eq_ignore_case(w, "QUIT"@),
        !same_letter(w[0], 'H') ==> !eq_ignore_case(w, "HELP"@) && !has_verb(w, "HELO "@)
            && !has_verb(w, "HELP "@),
        !same_letter(w[0], 'N') ==> !eq_ignore_case(w, "NOOP"@) && !has_verb(w, "NOOP "@),
        !same_letter(w[0], 'E') ==> !has_verb(w, "EHLO "@) && !has_verb(w, "EXPN "@),
        !same_letter(w[0], 'V') ==> !has_verb(w, "VRFY "@),
        !same_letter(w[0], 'M') ==> !has_verb(w, "MAIL FROM:"@),
{
    reveal_strlit("DATA");
    reveal_strlit("RSET");
    reveal_strlit("QUIT");
    reveal_strlit("HELP");
    reveal_strlit("NOOP");
    reveal_strlit("EHLO ");
    reveal_strlit("HELO ");
    reveal_strlit("VRFY ");
    reveal_strlit("EXPN ");
    reveal_strlit("HELP ");
    reveal_strlit("NOOP ");
    reveal_strlit("MAIL FROM:");
    reveal_strlit("RCPT TO:");
    if !same_letter(w[0], 'D') {
        lemma_other_verb(w, "DATA"@, 0);
    }
    if !same_letter(w[0], 'R') {
        lemma_other_verb(w, "RSET"@, 0);
        lemma_other_verb(w, "RCPT TO:"@, 0);
    }
    if !same_letter(w[0], 'Q') {
        lemma_other_verb(w, "QUIT"@, 0);
    }
    if !same_letter(w[0], 'H') {
        lemma_other_verb(w, "HELP"@, 0);
        lemma_other_verb(w, "HELO "@, 0);
        lemma_other_verb(w, "HELP "@, 0);
    }
    if !same_letter(w[0], 'N') {
        lemma_other_verb(w, "NOOP"@, 0);
        lemma_other_verb(w, "NOOP "@, 0);
    }
    if !same_letter(w[0], 'E') {
        lemma_other_verb(w, "EHLO "@, 0);
        lemma_other_verb(w, "EXPN "@, 0);
    }
    if !same_letter(w[0], 'V') {
        lemma_other_verb(w, "VRFY "@, 0);
    }
    if !same_letter(w[0], 'M') {
        lemma_other_verb(w, "MAIL FROM:"@, 0);
    }
}

/// The verbs without an argument are read back.
pub proof fn lemma_bare_wire(c: CommandView)
    requires
        c is Data || c is Rset || c is Quit || c == CommandView::Help(None) || c
            == CommandView::Noop(None),
    ensures
        command_of(command_wire(c)) == Some(c),
{
    reveal_strlit("DATA");
    reveal_strlit("RSET");
    reveal_strlit("QUIT");
    reveal_strlit("HELP");
    reveal_strlit("NOOP");
    let w = command_wire(c);
    assert(w.len() == 4);
    lemma_first_letter(w);
    lemma_same_verb(w, Seq::empty());
    assert(w + Seq::<char>::empty() =~= w);
}

/// A verb with a string for its argument is read back.
pub proof fn lemma_string_wire(c: CommandView)
    requires
        valid_command(c),
        c is Vrfy || c is Expn || (c is Help && c != CommandView::Help(None)) || (c is Noop && c
            != CommandView::Noop(None)),
    ensures
        command_of(command_wire(c)) == Some(c),
{
    reveal_strlit("HELP");
    reveal_strlit("NOOP");
    reveal_strlit("EHLO ");
    reveal_strlit("HELO ");
    reveal_strlit("VRFY ");
    reveal_strlit("EXPN ");
    reveal_strlit("HELP ");
    reveal_strlit("NOOP ");
    let w = command_wire(c);
    let verb = w.take(5);
    let t = w.skip(5);
    assert(w =~= verb + t);
    assert(w[0] == verb[0]);
    lemma_first_letter(w);
    lemma_same_verb(verb, t);
    match c {
        CommandView::Vrfy(a) => {
            assert(verb =~= "VRFY "@);
            assert(t =~= a);
        },
        CommandView::Expn(a) => {
            assert(verb =~= "EXPN "@);
            assert(t =~= a);
            lemma_other_verb(w, "EHLO "@, 1);
        },
        CommandView::Help(o) => {
            assert(verb =~= "HELP "@);
            assert(t =~= o.unwrap());
            lemma_other_verb(w, "HELO "@, 3);
        },
        CommandView::Noop(o) => {
            assert(verb =~= "NOOP "@);
            assert(t =~= o.unwrap());
        },
        _ => {},
    }
    lemma_string_ascii(t);
    lemma_ascii_concat(verb, t);
}

/// `EHLO` and `HELO` with a well-formed argument are read back.
pub proof fn lemma_hello_wire(c: CommandView)
    requires
        valid_command(c),
        c is Ehlo || c is Helo,
    ensures
        command_of(command_wire(c)) == Some(c),
{
    reveal_strlit("HELP");
    reveal_strlit("EHLO ");
    reveal_strlit("HELO ");
    let w = command_wire(c);
    let verb = w.take(5);
    let t = w.skip(5);
    assert(w =~= verb + t);
    assert(w[0] == verb[0]);
    lemma_first_letter(w);
    lemma_same_verb(verb, t);
    match c {
        CommandView::Ehlo(d) => {
            assert(verb =~= "EHLO "@);
            assert(t =~= domain_wire(d));
            lemma_domain_ascii(d);
            lemma_ascii_concat(verb, t);
            lemma_host_wire(d, Seq::empty());
            assert(domain_wire(d) + Seq::<char>::empty() =~= domain_wire(d));
        },
        CommandView::Helo(d) => {
            assert(verb =~= "HELO "@);
            assert(t =~= domain_wire(d));
            lemma_domain_ascii(d);
            lemma_ascii_concat(verb, t);
            lemma_other_verb(w, "HELP"@, 3);
        },
        _ => {},
    }
}

/// A well-formed path begins neither `<>` nor `<postmaster>`.
pub proof fn lemma_path_is_no_keyword(p: MailPathView, tail: Seq<char>)
    requires
        valid_path(p),
    ensures
        (path_wire(p) + tail).len() >= 2,
        (path_wire(p) + tail)[1] != '>',
        !has_verb(path_wire(p) + tail, "<postmaster>"@),
{
    reveal_strlit("<postmaster>");
    let s = path_wire(p) + tail;
    let route = route_wire(p.at_domain_list);
    let local = p.mailbox.local_part;
    let host = domain_wire(p.mailbox.domain);
    let n = local.len() as int;
    assert(path_wire(p) =~= seq!['<'] + (route + (local + (seq!['@'] + (host + seq!['>'])))));
    if p.at_domain_list.len() > 0 {
        assert(route[0] == '@');
        assert(s[1] == '@');
        lemma_other_verb(s, "<postmaster>"@, 1);
    } else {
        assert(route.len() == 0);
        if is_dot_string(local) {
            lemma_dotted_facts(local, CharClass::DotString, CharClass::Atext);
            assert(s[1] == local[0]);
            assert(s[1 + n] == '@');
            if n < 10 {
                lemma_other_verb(s, "<postmaster>"@, 1 + n);
            } else if n == 10 {
                lemma_other_verb(s, "<postmaster>"@, 11);
            } else {
                assert(s[11] == local[10]);
                assert(in_class(CharClass::DotString, local[10]));
                lemma_other_verb(s, "<postmaster>"@, 11);
            }
        } else {
            assert(local[0] == '"');
            assert(s[1] == local[0]);
            lemma_other_verb(s, "<postmaster>"@, 1);
        }
    }
}

/// `MAIL FROM:` with a well-formed path and parameters is read back.
pub proof fn lemma_mail_wire(c: CommandView)
    requires
        valid_command(c),
        c is MailFrom,
    ensures
        command_of(command_wire(c)) == Some(c),
{
    reveal_strlit("MAIL FROM:");
    let w = command_wire(c);
    let verb = "MAIL FROM:"@;
    let a = w.skip(10);
    match c {
        CommandView::MailFrom { address, parameters } => {
            let tail = params_wire(parameters);
            let front = reverse_path_wire(address);
            assert(w =~= verb + (front + tail));
            assert(w[0] == 'M');
            lemma_first_letter(w);
            lemma_same_verb(verb, front + tail);
            lemma_params_ascii(parameters);
            lemma_params_wire(parameters);
            match address {
                ReversePathView::NullSender => {
                    lemma_ascii_concat(front, tail);
                    lemma_ascii_concat(verb, front + tail);
                    assert(a =~= front + tail);
                    assert(a[0] == '<' && a[1] == '>');
                    assert(a.skip(2) =~= tail);
                },
                ReversePathView::Path(p) => {
                    lemma_path_ascii(p);
                    lemma_ascii_concat(front, tail);
                    lemma_ascii_concat(verb, front + tail);
                    lemma_path_is_no_keyword(p, tail);
                    lemma_path_wire(p, tail);
                    assert(a.skip(front.len() as int) =~= tail);
                },
            }
        },
        _ => {},
    }
}

/// `RCPT TO:` with a well-formed path and parameters is read back.
pub proof fn lemma_rcpt_wire(c: CommandView)
    requires
        valid_command(c),
        c is RcptTo,
    ensures
        command_of(command_wire(c)) == Some(c),
{
    reveal_strlit("RSET");
    reveal_strlit("RCPT TO:");
    reveal_strlit("<Postmaster>");
    reveal_strlit("<postmaster>");
    let w = command_wire(c);
    let verb = "RCPT TO:"@;
    let a = w.skip(8);
    match c {
        CommandView::RcptTo { address, parameters } => {
            let tail = params_wire(parameters);
            let front = forward_path_wire(address);
            assert(w =~= verb + (front + tail));
            assert(w[0] == 'R');
            assert(w[1] == 'C');
            lemma_first_letter(w);
            lemma_other_verb(w, "RSET"@, 1);
            lemma_same_verb(verb, front + tail);
            lemma_params_ascii(parameters);
            lemma_params_wire(parameters);
            match address {
                ForwardPathView::Postmaster => {
                    lemma_ascii_concat(front, tail);
                    lemma_ascii_concat(verb, front + tail);
                    assert(a =~= front + tail);
                    assert(a.take(12) =~= front);
                    assert(eq_ignore_case(front, "<postmaster>"@));
                    assert(a.skip(12) =~= tail);
                },
                ForwardPathView::Path(p) => {
                    lemma_path_ascii(p);
                    lemma_ascii_concat(front, tail);
                    lemma_ascii_concat(verb, front + tail);
                    lemma_path_is_no_keyword(p, tail);
                    lemma_path_wire(p, tail);
                    assert(a.skip(front.len() as int) =~= tail);
                },
            }
        },
        _ => {},
    }
}

/// The wire form of a well-formed command is read back as that command.
pub proof fn lemma_command_wire(c: CommandView)
    requires
        valid_command(c),
    ensures
        command_of(command_wire(c)) == Some(c),
{
    match c {
        CommandView::Ehlo(_) => lemma_hello_wire(c),
        CommandView::Helo(_) => lemma_hello_wire(c),
        CommandView::MailFrom { .. } => lemma_mail_wire(c),
        CommandView::RcptTo { .. } => lemma_rcpt_wire(c),
        CommandView::Data => lemma_bare_wire(c),
        CommandView::Rset => lemma_bare_wire(c),
        CommandView::Quit => lemma_bare_wire(c),
        CommandView::Vrfy(_) => lemma_string_wire(c),
        CommandView::Expn(_) => lemma_string_wire(c),
        CommandView::Help(None) => lemma_bare_wire(c),
        CommandView::Help(Some(_)) => lemma_string_wire(c),
        CommandView::Noop(None) => lemma_bare_wire(c),
        CommandView::Noop(Some(_)) => lemma_string_wire(c),
    }
}

/// Parsing is idempotent on canonical forms: the wire form of the command
/// that a line stands for stands for the same command.
pub proof fn parse_wire_parse(s: Seq<char>)
    requires
        command_of(s) is Some,
    ensures
        command_of(command_wire(command_of(s).unwrap())) == command_of(s),
{
    lemma_command_valid(s);
    lemma_command_wire(command_of(s).unwrap());
}


/// The verbs that take an argument, with the separator that follows them.
pub open spec fn takes_argument(v: Seq<char>) -> bool {
    v == "EHLO "@ || v == "HELO "@ || v == "VRFY "@ || v == "EXPN "@ || v == "HELP "@ || v
        == "NOOP "@ || v == "MAIL FROM:"@ || v == "RCPT TO:"@
}

/// A text that begins with a verb in some case has the verb's letters.
pub proof fn lemma_head(w: Seq<char>, v: Seq<char>, i: int)
    requires
        has_verb(w, v),
        0 <= i < v.len(),
    ensures
        i < w.len(),
        same_letter(w[i], v[i]),
{
    let head = w.take(v.len() as int);
    assert(same_letter(head[i], v[i]));
    assert(head[i] == w[i]);
}

/// A line that begins with a verb in some case is read by the rule of
/// that verb and no other.
pub proof fn lemma_one_verb(w: Seq<char>, v: Seq<char>)
    requires
        takes_argument(v),
        has_verb(w, v),
    ensures
        !eq_ignore_case(w, "DATA"@),
        !eq_ignore_case(w, "RSET"@),
        !eq_ignore_case(w, "QUIT"@),
        !eq_ignore_case(w, "HELP"@),
        !eq_ignore_case(w, "NOOP"@),
        v != "EHLO "@ ==> !has_verb(w, "EHLO "@),
        v != "HELO "@ ==> !has_verb(w, "HELO "@),
        v != "VRFY "@ ==> !has_verb(w, "VRFY "@),
        v != "EXPN "@ ==> !has_verb(w, "EXPN "@),
        v != "HELP "@ ==> !has_verb(w, "HELP "@),
        v != "NOOP "@ ==> !has_verb(w, "NOOP "@),
        v != "MAIL FROM:"@ ==> !has_verb(w, "MAIL FROM:"@),
        v != "RCPT TO:"@ ==> !has_verb(w, "RCPT TO:"@),
{
    reveal_strlit("DATA");
    reveal_strlit("RSET");
    reveal_strlit("QUIT");
    reveal_strlit("HELP");
    reveal_strlit("NOOP");
    reveal_strlit("EHLO ");
    reveal_strlit("HELO ");
    reveal_strlit("VRFY ");
    reveal_strlit("EXPN ");
    reveal_strlit("HELP ");
    reveal_strlit("NOOP ");
    reveal_strlit("MAIL FROM:");
    reveal_strlit("RCPT TO:");
    lemma_head(w, v, 0);
    lemma_head(w, v, 1);
    lemma_head(w, v, 3);
    lemma_first_letter(w);
    if v == "EHLO "@ {
        lemma_other_verb(w, "EXPN "@, 1);
    } else if v == "EXPN "@ {
        lemma_other_verb(w, "EHLO "@, 1);
    } else if v == "HELO "@ {
        lemma_other_verb(w, "HELP"@, 3);
        lemma_other_verb(w, "HELP "@, 3);
    } else if v == "HELP "@ {
        lemma_other_verb(w, "HELO "@, 3);
    } else if v == "RCPT TO:"@ {
        lemma_other_verb(w, "RSET"@, 1);
    }
}

/// Verbs are read in any case: a line that begins with a verb in some
/// case stands for what the line with the verb in its canonical case
/// stands for.
pub proof fn verbs_in_any_case(s: Seq<char>, v: Seq<char>)
    requires
        takes_argument(v),
        has_verb(s, v),
    ensures
        command_of(s) == command_of(v + s.skip(v.len() as int)),
{
    let n = v.len() as int;
    let rest = s.skip(n);
    let t = v + rest;
    reveal_strlit("EHLO ");
    reveal_strlit("HELO ");
    reveal_strlit("VRFY ");
    reveal_strlit("EXPN ");
    reveal_strlit("HELP ");
    reveal_strlit("NOOP ");
    reveal_strlit("MAIL FROM:");
    reveal_strlit("RCPT TO:");
    lemma_same_verb(v, rest);
    lemma_one_verb(s, v);
    lemma_one_verb(t, v);
    // one is ASCII if the other is
    assert(is_ascii_chars(s) == is_ascii_chars(t)) by {
        assert(t.len() == s.len());
        assert forall|i: int| 0 <= i < s.len() implies (('\0' <= #[trigger] s[i] <= '\u{7f}') <==> (
        '\0' <= t[i] <= '\u{7f}')) by {
            if i < n {
                lemma_head(s, v, i);
                assert(t[i] == v[i]);
            } else {
                assert(t[i] == rest[i - n]);
                assert(s[i] == rest[i - n]);
            }
        }
        if is_ascii_chars(s) {
            assert forall|i: int| 0 <= i < t.len() implies '\0' <= #[trigger] t[i] <= '\u{7f}' by {
                assert('\0' <= s[i] <= '\u{7f}');
            }
        }
        if is_ascii_chars(t) {
            assert forall|i: int| 0 <= i < s.len() implies '\0' <= #[trigger] s[i] <= '\u{7f}' by {
                assert('\0' <= t[i] <= '\u{7f}');
            }
        }
    }
}

/// The verbs without an argument are read in any case.
pub proof fn bare_verbs_in_any_case(s: Seq<char>)
    ensures
        eq_ignore_case(s, "DATA"@) ==> command_of(s) == Some(CommandView::Data),
        eq_ignore_case(s, "RSET"@) ==> command_of(s) == Some(CommandView::Rset),
        eq_ignore_case(s, "QUIT"@) ==> command_of(s) == Some(CommandView::Quit),
        eq_ignore_case(s, "HELP"@) ==> command_of(s) == Some(CommandView::Help(None)),
        eq_ignore_case(s, "NOOP"@) ==> command_of(s) == Some(CommandView::Noop(None)),
{
    reveal_strlit("DATA");
    reveal_strlit("RSET");
    reveal_strlit("QUIT");
    reveal_strlit("HELP");
    reveal_strlit("NOOP");
    if s.len() == 4 {
        lemma_first_letter(s);
        if eq_ignore_case(s, "DATA"@) || eq_ignore_case(s, "RSET"@) || eq_ignore_case(s, "QUIT"@)
            || eq_ignore_case(s, "HELP"@) || eq_ignore_case(s, "NOOP"@) {
            assert forall|i: int| 0 <= i < s.len() implies '\0' <= #[trigger] s[i] <= '\u{7f}' by {
                assert(same_letter(s[i], "DATA"@[i]) || same_letter(s[i], "RSET"@[i])
                    || same_letter(s[i], "QUIT"@[i]) || same_letter(s[i], "HELP"@[i])
                    || same_letter(s[i], "NOOP"@[i]));
            }
            assert(same_letter(s[0], "DATA"@[0]) || same_letter(s[0], "RSET"@[0]) || same_letter(
                s[0],
                "QUIT"@[0],
            ) || same_letter(s[0], "HELP"@[0]) || same_letter(s[0], "NOOP"@[0]));
        }
    }
}

} // verus!
