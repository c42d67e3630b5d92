//! The SMTP command grammar (RFC 5321, section 4.1), as specification
//! functions over the characters of one command line without its CRLF.
//!
//! Tokens are taken greedily: a token is the longest run of the characters
//! its rule admits, and the text of the run must then satisfy the rule. The
//! functions whose name ends in `_prefix` recognise a construct at the start
//! of a text and give its value with the number of characters it takes.
//!
//! The grammar is lexical. Literal strings of the grammar are read in any
//! case: the verbs, the `IPv6:` tag and `<Postmaster>`. Between a verb and
//! its argument, and between parameters, stands exactly one space. The
//! numbers of an IPv4 address are one to three digits each, whatever their
//! value. A label of a domain may end in a hyphen.

use vstd::prelude::*;
use vstd::utf8::is_ascii_chars;
use crate::charset::{
    CharClass, all_in_class, eq_ignore_case, in_class, is_let_dig, is_qtext, is_quotable, run_len,
};

verus! {

/// What a domain is: a name, or the text of an address literal.
pub enum DomainView {
    Name(Seq<char>),
    V4(Seq<char>),
    V6(Seq<char>),
    Tagged { tag: Seq<char>, literal: Seq<char> },
}

/// What a mailbox is: the texts of its local part and its domain.
pub struct MailboxView {
    pub local_part: Seq<char>,
    pub domain: DomainView,
}

/// What a path is: the domains of its source route, and its mailbox.
pub struct MailPathView {
    pub at_domain_list: Seq<Seq<char>>,
    pub mailbox: MailboxView,
}

/// What the sender of an envelope is.
pub enum ReversePathView {
    Path(MailPathView),
    NullSender,
}

/// What a recipient of an envelope is.
pub enum ForwardPathView {
    Path(MailPathView),
    Postmaster,
}

/// What an ESMTP parameter is: a keyword, and a value if it has one.
pub struct EsmtpParameterView {
    pub name: Seq<char>,
    pub value: Option<Seq<char>>,
}

/// What a command is.
#[allow(inconsistent_fields)]
pub enum CommandView {
    Ehlo(DomainView),
    Helo(DomainView),
    MailFrom { address: ReversePathView, parameters: Seq<EsmtpParameterView> },
    RcptTo { address: ForwardPathView, parameters: Seq<EsmtpParameterView> },
    Data,
    Rset,
    Quit,
    Vrfy(Seq<char>),
    Expn(Seq<char>),
    Help(Option<Seq<char>>),
    Noop(Option<Seq<char>>),
}

/// Parts separated by single dots: every character is in `body`, and each
/// part is non-empty and begins with a character of `head`.
#[verifier::opaque]
pub open spec fn is_dotted(t: Seq<char>, body: CharClass, head: CharClass) -> bool {
    &&& t.len() > 0
    &&& all_in_class(t, body)
    &&& t.last() != '.'
    &&& forall|i: int|
        0 <= i < t.len() && (i == 0 || t[i - 1] == '.') ==> in_class(head, #[trigger] t[i])
}

/// `Domain = sub-domain *("." sub-domain)`, `sub-domain = Let-dig [Ldh-str]`.
/// A label may end in a hyphen: the grammar is read leniently there.
pub open spec fn is_domain(t: Seq<char>) -> bool {
    is_dotted(t, CharClass::Domain, CharClass::LetDig)
}

/// `Dot-string = Atom *("." Atom)`.
pub open spec fn is_dot_string(t: Seq<char>) -> bool {
    is_dotted(t, CharClass::DotString, CharClass::Atext)
}

/// `Atom = 1*atext`.
pub open spec fn is_atom(t: Seq<char>) -> bool {
    t.len() > 0 && all_in_class(t, CharClass::Atext)
}

/// `esmtp-keyword = (ALPHA / DIGIT) *(ALPHA / DIGIT / "-")`.
pub open spec fn is_keyword(t: Seq<char>) -> bool {
    t.len() > 0 && is_let_dig(t[0]) && all_in_class(t, CharClass::Ldh)
}

/// `esmtp-value`: one or more printable characters other than `=`.
pub open spec fn is_value(t: Seq<char>) -> bool {
    t.len() > 0 && all_in_class(t, CharClass::Value)
}

/// The tag of a general address literal: one or more letters, digits and hyphens.
pub open spec fn is_tag(t: Seq<char>) -> bool {
    t.len() > 0 && all_in_class(t, CharClass::Ldh)
}

/// `1*dcontent`.
pub open spec fn is_literal_text(t: Seq<char>) -> bool {
    t.len() > 0 && all_in_class(t, CharClass::Dcontent)
}

/// The length of what follows the opening quote of a quoted string, the
/// closing quote included: `*QcontentSMTP DQUOTE`.
pub open spec fn quoted_tail_len(s: Seq<char>) -> Option<int>
    decreases s.len(),
{
    if s.len() == 0 {
        None
    } else if s[0] == '"' {
        Some(1int)
    } else if s[0] == '\\' {
        if s.len() >= 2 && is_quotable(s[1]) {
            match quoted_tail_len(s.skip(2)) {
                Some(n) => Some(n + 2),
                None => None,
            }
        } else {
            None
        }
    } else if is_qtext(s[0]) {
        match quoted_tail_len(s.skip(1)) {
            Some(n) => Some(n + 1),
            None => None,
        }
    } else {
        None
    }
}

/// The length of the quoted string that `s` begins with.
pub open spec fn quoted_len(s: Seq<char>) -> Option<int> {
    if s.len() > 0 && s[0] == '"' {
        match quoted_tail_len(s.skip(1)) {
            Some(n) => Some(n + 1),
            None => None,
        }
    } else {
        None
    }
}

/// `Quoted-string = DQUOTE *QcontentSMTP DQUOTE`.
pub open spec fn is_quoted_string(t: Seq<char>) -> bool {
    quoted_len(t) == Some(t.len() as int)
}

/// `String = Atom / Quoted-string`.
pub open spec fn is_string(t: Seq<char>) -> bool {
    is_atom(t) || is_quoted_string(t)
}

/// `Local-part = Dot-string / Quoted-string`.
pub open spec fn is_local_part(t: Seq<char>) -> bool {
    is_dot_string(t) || is_quoted_string(t)
}

/// The length of the local part that `s` begins with.
pub open spec fn local_part_len(s: Seq<char>) -> Option<int> {
    if s.len() > 0 && s[0] == '"' {
        quoted_len(s)
    } else {
        let n = run_len(s, CharClass::DotString) as int;
        if is_dot_string(s.take(n as int)) {
            Some(n)
        } else {
            None
        }
    }
}

/// The number of fields of `t`, where `t` is fields of one to `max`
/// characters of class `k` each, joined by `sep`.
pub open spec fn field_count(t: Seq<char>, k: CharClass, max: nat, sep: char) -> Option<nat>
    decreases t.len(),
{
    let n = run_len(t, k) as int;
    if n < 1 || n > max {
        None
    } else if n >= t.len() {
        Some(1nat)
    } else if t[n as int] == sep {
        match field_count(t.skip(n + 1), k, max, sep) {
            Some(c) => Some(c + 1),
            None => None,
        }
    } else {
        None
    }
}

/// `IPv4-address-literal = Snum 3("." Snum)`, `Snum = 1*3DIGIT`.
pub open spec fn is_ipv4(t: Seq<char>) -> bool {
    field_count(t, CharClass::Digit, 3, '.') == Some(4nat)
}

/// The number of groups of `t`, where `t` is groups of one to four
/// hexadecimal digits joined by colons.
pub open spec fn group_count(t: Seq<char>) -> Option<nat> {
    field_count(t, CharClass::Hex, 4, ':')
}

/// Nothing, or at most `max` groups.
pub open spec fn at_most_groups(t: Seq<char>, max: nat) -> bool {
    t.len() == 0 || match group_count(t) {
        Some(c) => c <= max,
        None => false,
    }
}

/// The index of the first `::` in `t`.
pub open spec fn double_colon(t: Seq<char>) -> Option<int>
    decreases t.len(),
{
    if t.len() < 2 {
        None
    } else if t[0] == ':' && t[1] == ':' {
        Some(0int)
    } else {
        match double_colon(t.drop_first()) {
            Some(i) => Some(i + 1),
            None => None,
        }
    }
}

/// The index of the last `c` in `t`.
pub open spec fn last_index_of(t: Seq<char>, c: char) -> Option<int>
    decreases t.len(),
{
    if t.len() == 0 {
        None
    } else if t.last() == c {
        Some(t.len() - 1)
    } else {
        last_index_of(t.drop_last(), c)
    }
}

/// The number of groups of `t`, where `t` is groups, a colon and an IPv4 address.
pub open spec fn groups_before_ipv4(t: Seq<char>) -> Option<nat> {
    match last_index_of(t, ':') {
        Some(k) => if is_ipv4(t.skip(k + 1)) {
            group_count(t.take(k as int))
        } else {
            None
        },
        None => None,
    }
}

/// `IPv6-addr = IPv6-full / IPv6-comp / IPv6v4-full / IPv6v4-comp`.
///
/// Without `::` the address is eight groups, or six groups and an IPv4
/// address. Around the first `::` stand at most six groups on either side,
/// or at most four on the left and, on the right, an IPv4 address that at
/// most four groups may precede.
pub open spec fn is_ipv6_addr(t: Seq<char>) -> bool {
    match double_colon(t) {
        None => group_count(t) == Some(8nat) || groups_before_ipv4(t) == Some(6nat),
        Some(k) => {
            let left = t.take(k as int);
            let right = t.skip(k + 2);
            ||| (at_most_groups(left, 6) && at_most_groups(right, 6))
            ||| (at_most_groups(left, 4) && (is_ipv4(right) || match groups_before_ipv4(right) {
                Some(c) => c <= 4,
                None => false,
            }))
        },
    }
}

/// `t` begins with `IPv6:`, in any case.
pub open spec fn has_ipv6_tag(t: Seq<char>) -> bool {
    t.len() >= 5 && eq_ignore_case(t.take(5), "IPv6:"@)
}

/// The tag and the text of a general address literal:
/// `Standardized-tag ":" 1*dcontent`.
pub open spec fn general_literal_of(t: Seq<char>) -> Option<DomainView> {
    let k = run_len(t, CharClass::Ldh) as int;
    if k > 0 && k < t.len() && t[k as int] == ':' && is_literal_text(t.skip(k + 1)) {
        Some(DomainView::Tagged { tag: t.take(k as int), literal: t.skip(k + 1) })
    } else {
        None
    }
}

/// The value of an address literal, from the text between its brackets: an
/// IPv4 address, else a tagged IPv6 address, else a general literal.
#[verifier::opaque]
pub open spec fn literal_of(t: Seq<char>) -> Option<DomainView> {
    if is_ipv4(t) {
        Some(DomainView::V4(t))
    } else if has_ipv6_tag(t) && is_ipv6_addr(t.skip(5)) {
        Some(DomainView::V6(t.skip(5)))
    } else {
        general_literal_of(t)
    }
}

/// `Domain / address-literal` at the start of `s`.
#[verifier::opaque]
pub open spec fn host_prefix(s: Seq<char>) -> Option<(DomainView, int)> {
    if s.len() > 0 && s[0] == '[' {
        let m = run_len(s.skip(1), CharClass::Dcontent) as int;
        if m + 1 < s.len() && s[m + 1] == ']' {
            match literal_of(s.subrange(1, m + 1)) {
                Some(d) => Some((d, m + 2)),
                None => None,
            }
        } else {
            None
        }
    } else {
        let m = run_len(s, CharClass::Domain) as int;
        if is_domain(s.take(m as int)) {
            Some((DomainView::Name(s.take(m as int)), m))
        } else {
            None
        }
    }
}

/// `Mailbox = Local-part "@" ( Domain / address-literal )` at the start of `s`.
#[verifier::opaque]
pub open spec fn mailbox_prefix(s: Seq<char>) -> Option<(MailboxView, int)> {
    match local_part_len(s) {
        Some(n) => if n < s.len() && s[n as int] == '@' {
            match host_prefix(s.skip(n + 1)) {
                Some((d, m)) => Some(
                    (MailboxView { local_part: s.take(n as int), domain: d }, n + 1 + m),
                ),
                None => None,
            }
        } else {
            None
        },
        None => None,
    }
}

/// A source route with its closing colon at the start of `s`:
/// `At-domain *( "," At-domain ) ":"`, `At-domain = "@" Domain`.
pub open spec fn source_route_prefix(s: Seq<char>) -> Option<(Seq<Seq<char>>, int)>
    decreases s.len(),
{
    if s.len() > 0 && s[0] == '@' {
        let m = run_len(s.skip(1), CharClass::Domain) as int;
        let d = s.subrange(1, m + 1);
        if m + 1 >= s.len() || !is_domain(d) {
            None
        } else if s[m + 1] == ':' {
            Some((seq![d], m + 2))
        } else if s[m + 1] == ',' {
            match source_route_prefix(s.skip(m + 2)) {
                Some((ds, n)) => Some((seq![d] + ds, m + 2 + n)),
                None => None,
            }
        } else {
            None
        }
    } else {
        None
    }
}

/// `Path = "<" [ A-d-l ":" ] Mailbox ">"` at the start of `s`.
#[verifier::opaque]
pub open spec fn path_prefix(s: Seq<char>) -> Option<(MailPathView, int)> {
    if s.len() > 0 && s[0] == '<' {
        let route = if s.len() > 1 && s[1] == '@' {
            source_route_prefix(s.skip(1))
        } else {
            Some((Seq::<Seq<char>>::empty(), 0int))
        };
        match route {
            Some((ds, a)) => match mailbox_prefix(s.skip(1 + a)) {
                Some((mb, m)) => if 1 + a + m < s.len() && s[1 + a + m] == '>' {
                    Some((MailPathView { at_domain_list: ds, mailbox: mb }, 1 + a + m + 1))
                } else {
                    None
                },
                None => None,
            },
            None => None,
        }
    } else {
        None
    }
}

/// `esmtp-param = esmtp-keyword ["=" esmtp-value]` at the start of `s`.
pub open spec fn param_prefix(s: Seq<char>) -> Option<(EsmtpParameterView, int)> {
    let k = run_len(s, CharClass::Ldh) as int;
    if k > 0 && is_let_dig(s[0]) {
        if k < s.len() && s[k as int] == '=' {
            let v = run_len(s.skip(k + 1), CharClass::Value) as int;
            if v > 0 {
                Some(
                    (
                        EsmtpParameterView {
                            name: s.take(k as int),
                            value: Some(s.subrange(k + 1, k + 1 + v)),
                        },
                        k + 1 + v,
                    ),
                )
            } else {
                None
            }
        } else {
            Some((EsmtpParameterView { name: s.take(k as int), value: None }, k))
        }
    } else {
        None
    }
}

/// `esmtp-param *(SP esmtp-param)`: the whole of `s`.
pub open spec fn params_of(s: Seq<char>) -> Option<Seq<EsmtpParameterView>>
    decreases s.len(),
{
    match param_prefix(s) {
        Some((p, n)) => if n >= s.len() {
            Some(seq![p])
        } else if s[n as int] == ' ' {
            match params_of(s.skip(n + 1)) {
                Some(ps) => Some(seq![p] + ps),
                None => None,
            }
        } else {
            None
        },
        None => None,
    }
}

/// What may follow a path: nothing, or a space and parameters.
#[verifier::opaque]
pub open spec fn param_tail(s: Seq<char>) -> Option<Seq<EsmtpParameterView>> {
    if s.len() == 0 {
        Some(Seq::empty())
    } else if s[0] == ' ' {
        params_of(s.skip(1))
    } else {
        None
    }
}

/// `s` begins with `verb`, in any case.
pub open spec fn has_verb(s: Seq<char>, verb: Seq<char>) -> bool {
    s.len() >= verb.len() && eq_ignore_case(s.take(verb.len() as int), verb)
}

/// What follows `MAIL FROM:`: `Reverse-path [SP Mail-parameters]`,
/// `Reverse-path = Path / "<>"`.
pub open spec fn mail_of(a: Seq<char>) -> Option<CommandView> {
    if a.len() >= 2 && a[0] == '<' && a[1] == '>' {
        match param_tail(a.skip(2)) {
            Some(ps) => Some(
                CommandView::MailFrom { address: ReversePathView::NullSender, parameters: ps },
            ),
            None => None,
        }
    } else {
        match path_prefix(a) {
            Some((p, n)) => match param_tail(a.skip(n as int)) {
                Some(ps) => Some(
                    CommandView::MailFrom { address: ReversePathView::Path(p), parameters: ps },
                ),
                None => None,
            },
            None => None,
        }
    }
}

/// What follows `RCPT TO:`: `( "<Postmaster>" / Path ) [SP Rcpt-parameters]`,
/// where `Postmaster` is read in any case. `<Postmaster@domain>` is a path.
pub open spec fn rcpt_of(a: Seq<char>) -> Option<CommandView> {
    if has_verb(a, "<postmaster>"@) {
        match param_tail(a.skip(12)) {
            Some(ps) => Some(
                CommandView::RcptTo { address: ForwardPathView::Postmaster, parameters: ps },
            ),
            None => None,
        }
    } else {
        match path_prefix(a) {
            Some((p, n)) => match param_tail(a.skip(n as int)) {
                Some(ps) => Some(
                    CommandView::RcptTo { address: ForwardPathView::Path(p), parameters: ps },
                ),
                None => None,
            },
            None => None,
        }
    }
}

/// What follows `EHLO `: a domain or an address literal, and nothing else.
pub open spec fn ehlo_of(a: Seq<char>) -> Option<CommandView> {
    match host_prefix(a) {
        Some((d, n)) => if n == a.len() {
            Some(CommandView::Ehlo(d))
        } else {
            None
        },
        None => None,
    }
}

/// The command that the line `s` stands for, if it is one. Verbs are read in
/// any case; a line with a character outside ASCII is no command.
pub open spec fn command_of(s: Seq<char>) -> Option<CommandView> {
    if !is_ascii_chars(s) {
        None
    } else if eq_ignore_case(s, "DATA"@) {
        Some(CommandView::Data)
    } else if eq_ignore_case(s, "RSET"@) {
        Some(CommandView::Rset)
    } else if eq_ignore_case(s, "QUIT"@) {
        Some(CommandView::Quit)
    } else if eq_ignore_case(s, "HELP"@) {
        Some(CommandView::Help(None))
    } else if eq_ignore_case(s, "NOOP"@) {
        Some(CommandView::Noop(None))
    } else if has_verb(s, "EHLO "@) {
        ehlo_of(s.skip(5))
    } else if has_verb(s, "HELO "@) {
        if is_domain(s.skip(5)) {
            Some(CommandView::Helo(DomainView::Name(s.skip(5))))
        } else {
            None
        }
    } else if has_verb(s, "VRFY "@) {
        if is_string(s.skip(5)) {
            Some(CommandView::Vrfy(s.skip(5)))
        } else {
            None
        }
    } else if has_verb(s, "EXPN "@) {
        if is_string(s.skip(5)) {
            Some(CommandView::Expn(s.skip(5)))
        } else {
            None
        }
    } else if has_verb(s, "HELP "@) {
        if is_string(s.skip(5)) {
            Some(CommandView::Help(Some(s.skip(5))))
        } else {
            None
        }
    } else if has_verb(s, "NOOP "@) {
        if is_string(s.skip(5)) {
            Some(CommandView::Noop(Some(s.skip(5))))
        } else {
            None
        }
    } else if has_verb(s, "MAIL FROM:"@) {
        mail_of(s.skip(10))
    } else if has_verb(s, "RCPT TO:"@) {
        rcpt_of(s.skip(8))
    } else {
        None
    }
}

/// Where parameters stop being well formed: at the first of them that is
/// none, or behind one that something other than a space follows.
pub open spec fn params_stop(s: Seq<char>) -> int
    decreases s.len(),
{
    match param_prefix(s) {
        Some((_, n)) => if 0 < n < s.len() && s[n] == ' ' {
            n + 1 + params_stop(s.skip(n + 1))
        } else {
            n
        },
        None => 0,
    }
}

/// Where what follows a path stops being well formed: at its start if that
/// is no space, else in the parameters behind the space.
pub open spec fn tail_stop(t: Seq<char>) -> int {
    if t.len() > 0 && t[0] == ' ' {
        1 + params_stop(t.skip(1))
    } else {
        0
    }
}

/// Where what follows `MAIL FROM:` stops being well formed: at its start
/// if no reverse path stands there, else behind the reverse path, where
/// the parameters stop being well formed.
pub open spec fn mail_stop(a: Seq<char>) -> int {
    if a.len() >= 2 && a[0] == '<' && a[1] == '>' {
        2 + tail_stop(a.skip(2))
    } else {
        match path_prefix(a) {
            Some((_, n)) => n + tail_stop(a.skip(n)),
            None => 0,
        }
    }
}

/// Where what follows `RCPT TO:` stops being well formed: at its start if
/// no forward path stands there, else behind the forward path, where the
/// parameters stop being well formed.
pub open spec fn rcpt_stop(a: Seq<char>) -> int {
    if has_verb(a, "<postmaster>"@) {
        12 + tail_stop(a.skip(12))
    } else {
        match path_prefix(a) {
            Some((_, n)) => n + tail_stop(a.skip(n)),
            None => 0,
        }
    }
}

/// Where a line that is no command begins to offend: at its start if it
/// is not ASCII or begins with no verb, else where the verb's argument
/// begins, or, if the argument is a path and it is the parameters that
/// offend, at the first parameter that is none.
pub open spec fn error_position(s: Seq<char>) -> int {
    if !is_ascii_chars(s) {
        0
    } else if has_verb(s, "EHLO "@) || has_verb(s, "HELO "@) || has_verb(s, "VRFY "@) || has_verb(
        s,
        "EXPN "@,
    ) || has_verb(s, "HELP "@) || has_verb(s, "NOOP "@) {
        5
    } else if has_verb(s, "MAIL FROM:"@) {
        10 + mail_stop(s.skip(10))
    } else if has_verb(s, "RCPT TO:"@) {
        8 + rcpt_stop(s.skip(8))
    } else {
        0
    }
}

/// What is wrong with a line that is no command.
pub open spec fn error_message(s: Seq<char>) -> Seq<char> {
    if !is_ascii_chars(s) {
        "the line is not ASCII"@
    } else if has_verb(s, "EHLO "@) || has_verb(s, "HELO "@) || has_verb(s, "VRFY "@) || has_verb(
        s,
        "EXPN "@,
    ) || has_verb(s, "HELP "@) || has_verb(s, "NOOP "@) {
        "malformed argument"@
    } else if has_verb(s, "MAIL FROM:"@) {
        if mail_stop(s.skip(10)) > 0 {
            "malformed parameters"@
        } else {
            "malformed argument"@
        }
    } else if has_verb(s, "RCPT TO:"@) {
        if rcpt_stop(s.skip(8)) > 0 {
            "malformed parameters"@
        } else {
            "malformed argument"@
        }
    } else {
        "unknown command"@
    }
}

} // verus!
