//! What holds between the grammar and the wire form: the values that the
//! grammar produces are well formed, and the wire form of a well-formed value
//! is read back as that value.

use vstd::prelude::*;
use crate::charset::{
    CharClass, all_in_class, eq_ignore_case, in_class, lemma_run_len_bounds, lemma_run_len_is,
    run_len, same_letter,
};
use crate::grammar::{
    DomainView, MailPathView, MailboxView, has_ipv6_tag, host_prefix, is_domain, is_dot_string,
    is_dotted, is_ipv4, is_ipv6_addr, is_literal_text, is_local_part, is_tag, literal_of,
    local_part_len, mailbox_prefix, path_prefix, quoted_tail_len, source_route_prefix,
};
use crate::wire::{domain_wire, mailbox_wire, path_wire, route_wire};

verus! {

/// The domains that the grammar produces.
pub open spec fn valid_domain(d: DomainView) -> bool {
    match d {
        DomainView::Name(t) => is_domain(t),
        DomainView::V4(t) => is_ipv4(t) && is_literal_text(t),
        DomainView::V6(t) => is_ipv6_addr(t) && all_in_class(t, CharClass::Dcontent),
        DomainView::Tagged { tag, literal } => is_tag(tag) && is_literal_text(literal) && !(
        eq_ignore_case(tag, "IPv6"@) && is_ipv6_addr(literal)),
    }
}

/// The mailboxes that the grammar produces.
pub open spec fn valid_mailbox(m: MailboxView) -> bool {
    is_local_part(m.local_part) && valid_domain(m.domain)
}

/// The paths that the grammar produces.
pub open spec fn valid_path(p: MailPathView) -> bool {
    &&& forall|i: int| 0 <= i < p.at_domain_list.len() ==> is_domain(#[trigger] p.at_domain_list[i])
    &&& valid_mailbox(p.mailbox)
}

/// A run ends where the text of its class ends.
pub proof fn lemma_run_len_concat(a: Seq<char>, b: Seq<char>, k: CharClass)
    requires
        all_in_class(a, k),
        b.len() == 0 || !in_class(k, b[0]),
    ensures
        run_len(a + b, k) == a.len(),
{
    let s = a + b;
    assert forall|i: int| 0 <= i < a.len() implies in_class(k, #[trigger] s[i]) by {
        assert(s[i] == a[i]);
    }
    if b.len() > 0 {
        assert(s[a.len() as int] == b[0]);
    }
    lemma_run_len_is(s, k, a.len());
}

/// A quoted string is read the same whatever follows it.
pub proof fn lemma_quoted_extend(a: Seq<char>, b: Seq<char>)
    requires
        quoted_tail_len(a) == Some(a.len() as int),
    ensures
        quoted_tail_len(a + b) == Some(a.len() as int),
    decreases a.len(),
{
    let s = a + b;
    assert(a.len() > 0);
    assert(s[0] == a[0]);
    if a[0] == '"' {
    } else if a[0] == '\\' {
        assert(s[1] == a[1]);
        assert(s.skip(2) =~= a.skip(2) + b);
        lemma_quoted_extend(a.skip(2), b);
    } else {
        assert(s.skip(1) =~= a.skip(1) + b);
        lemma_quoted_extend(a.skip(1), b);
    }
}

/// What a quoted string's length says: the string stands at the start of
/// the text, and is a quoted string by itself.
pub proof fn lemma_quoted_take(s: Seq<char>, n: int)
    requires
        quoted_tail_len(s) == Some(n),
    ensures
        1 <= n <= s.len(),
        quoted_tail_len(s.take(n)) == Some(n),
    decreases s.len(),
{
    let t = s.take(n);
    if s[0] == '"' {
        assert(t[0] == s[0]);
    } else if s[0] == '\\' {
        lemma_quoted_take(s.skip(2), n - 2);
        assert(t[0] == s[0]);
        assert(t[1] == s[1]);
        assert(t.skip(2) =~= s.skip(2).take(n - 2));
    } else {
        lemma_quoted_take(s.skip(1), n - 1);
        assert(t[0] == s[0]);
        assert(t.skip(1) =~= s.skip(1).take(n - 1));
    }
}

/// What a dotted text is made of.
pub proof fn lemma_dotted_facts(t: Seq<char>, body: CharClass, head: CharClass)
    requires
        is_dotted(t, body, head),
    ensures
        t.len() > 0,
        all_in_class(t, body),
        in_class(head, t[0]),
{
    reveal(is_dotted);
}

/// Between brackets, the content of an address literal is read up to the
/// closing bracket.
pub proof fn lemma_bracket(content: Seq<char>, tail: Seq<char>)
    requires
        all_in_class(content, CharClass::Dcontent),
    ensures
        host_prefix(seq!['['] + content + seq![']'] + tail) == match literal_of(content) {
            Some(d) => Some((d, content.len() as int + 2)),
            None => None,
        },
{
    reveal(host_prefix);
    let s = seq!['['] + content + seq![']'] + tail;
    let after = seq![']'] + tail;
    assert(s[0] == '[');
    assert(s.skip(1) =~= content + after);
    lemma_run_len_concat(content, after, CharClass::Dcontent);
    assert(s[content.len() as int + 1] == ']');
    assert(s.subrange(1, content.len() as int + 1) =~= content);
}

/// A general literal is no IPv4 address: its first character that is no
/// digit is no dot.
pub proof fn lemma_tagged_not_ipv4(tag: Seq<char>, literal: Seq<char>)
    requires
        is_tag(tag),
    ensures
        !is_ipv4(tag + seq![':'] + literal),
{
    let content = tag + seq![':'] + literal;
    let k = tag.len() as int;
    assert(content[k] == ':');
    lemma_run_len_bounds(content, CharClass::Digit);
    let n = run_len(content, CharClass::Digit) as int;
    if n > k {
        assert(in_class(CharClass::Digit, content[k]));
    }
    if n < k {
        assert(content[n] == tag[n]);
        assert(in_class(CharClass::Ldh, tag[n]));
    }
    assert(content[n] != '.');
}

/// A general literal that begins with the IPv6 tag has `IPv6` for its tag.
pub proof fn lemma_tagged_ipv6(tag: Seq<char>, literal: Seq<char>)
    requires
        is_tag(tag),
        has_ipv6_tag(tag + seq![':'] + literal),
    ensures
        eq_ignore_case(tag, "IPv6"@),
        (tag + seq![':'] + literal).skip(5) == literal,
{
    reveal_strlit("IPv6:");
    reveal_strlit("IPv6");
    let content = tag + seq![':'] + literal;
    let k = tag.len() as int;
    let five = content.take(5);
    assert(content[k] == ':');
    assert(same_letter(five[4], "IPv6:"@[4]) && five[4] == content[4]);
    assert(same_letter(five[0], "IPv6:"@[0]) && five[0] == content[0]);
    assert(same_letter(five[1], "IPv6:"@[1]) && five[1] == content[1]);
    assert(same_letter(five[2], "IPv6:"@[2]) && five[2] == content[2]);
    assert(same_letter(five[3], "IPv6:"@[3]) && five[3] == content[3]);
    if k > 4 {
        assert(content[4] == tag[4]);
        assert(in_class(CharClass::Ldh, tag[4]));
    }
    assert(k == 4);
    assert forall|i: int| 0 <= i < 4 implies same_letter(#[trigger] tag[i], "IPv6"@[i]) by {
        assert(tag[i] == five[i]);
        assert(same_letter(five[i], "IPv6:"@[i]));
    }
    assert(content.skip(5) =~= literal);
}

/// The content of a well-formed address literal is read back as that literal.
pub proof fn lemma_literal_wire(d: DomainView)
    requires
        valid_domain(d),
        !(d is Name),
    ensures
        domain_wire(d).len() >= 2,
        all_in_class(domain_wire(d).subrange(1, domain_wire(d).len() - 1), CharClass::Dcontent),
        domain_wire(d) == seq!['['] + domain_wire(d).subrange(1, domain_wire(d).len() - 1) + seq![
            ']',
        ],
        literal_of(domain_wire(d).subrange(1, domain_wire(d).len() - 1)) == Some(d),
{
    reveal(literal_of);
    reveal_strlit("IPv6:");
    let w = domain_wire(d);
    let content = w.subrange(1, w.len() - 1);
    match d {
        DomainView::Name(t) => {},
        DomainView::V4(t) => {
            assert(content =~= t);
            assert(w =~= seq!['['] + content + seq![']']);
        },
        DomainView::V6(t) => {
            assert(content =~= "IPv6:"@ + t);
            assert(w =~= seq!['['] + content + seq![']']);
            assert forall|i: int| 0 <= i < content.len() implies in_class(
                CharClass::Dcontent,
                #[trigger] content[i],
            ) by {
                if i >= 5 {
                    assert(content[i] == t[i - 5]);
                }
            }
            assert(content[0] == 'I');
            lemma_run_len_is(content, CharClass::Digit, 0);
            assert(content.take(5) =~= "IPv6:"@);
            assert(content.skip(5) =~= t);
        },
        DomainView::Tagged { tag, literal } => {
            let k = tag.len() as int;
            assert(content =~= tag + seq![':'] + literal);
            assert(w =~= seq!['['] + content + seq![']']);
            assert forall|i: int| 0 <= i < content.len() implies in_class(
                CharClass::Dcontent,
                #[trigger] content[i],
            ) by {
                if i < k {
                    assert(content[i] == tag[i]);
                    assert(in_class(CharClass::Ldh, tag[i]));
                } else if i > k {
                    assert(content[i] == literal[i - k - 1]);
                }
            }
            lemma_tagged_not_ipv4(tag, literal);
            if has_ipv6_tag(content) {
                lemma_tagged_ipv6(tag, literal);
            }
            assert(content =~= tag + (seq![':'] + literal));
            lemma_run_len_concat(tag, seq![':'] + literal, CharClass::Ldh);
            assert(content[k] == ':');
            assert(content.take(k) =~= tag);
            assert(content.skip(k + 1) =~= literal);
        },
    }
}

/// The wire form of a well-formed domain is read back as that domain,
/// whatever follows it; after a name, what follows is no part of a name.
pub proof fn lemma_host_wire(d: DomainView, tail: Seq<char>)
    requires
        valid_domain(d),
        d is Name ==> tail.len() == 0 || !in_class(CharClass::Domain, tail[0]),
    ensures
        host_prefix(domain_wire(d) + tail) == Some((d, domain_wire(d).len() as int)),
{
    let s = domain_wire(d) + tail;
    match d {
        DomainView::Name(t) => {
            reveal(host_prefix);
            lemma_dotted_facts(t, CharClass::Domain, CharClass::LetDig);
            assert(s[0] == t[0]);
            lemma_run_len_concat(t, tail, CharClass::Domain);
            assert(s.take(t.len() as int) =~= t);
        },
        _ => {
            lemma_literal_wire(d);
            let w = domain_wire(d);
            let content = w.subrange(1, w.len() - 1);
            lemma_bracket(content, tail);
        },
    }
}

/// What the grammar reads as a domain is well formed and lies within the text.
pub proof fn lemma_host_valid(s: Seq<char>)
    requires
        host_prefix(s) is Some,
    ensures
        valid_domain(host_prefix(s).unwrap().0),
        0 < host_prefix(s).unwrap().1 <= s.len(),
{
    reveal(host_prefix);
    reveal(literal_of);
    reveal(is_dotted);
    reveal_strlit("IPv6:");
    reveal_strlit("IPv6");
    if s.len() > 0 && s[0] == '[' {
        let rest = s.skip(1);
        lemma_run_len_bounds(rest, CharClass::Dcontent);
        let m = run_len(rest, CharClass::Dcontent) as int;
        let content = s.subrange(1, m + 1);
        assert forall|i: int| 0 <= i < content.len() implies in_class(
            CharClass::Dcontent,
            #[trigger] content[i],
        ) by {
            assert(content[i] == rest[i]);
        }
        if is_ipv4(content) {
            lemma_run_len_bounds(content, CharClass::Digit);
        } else if has_ipv6_tag(content) && is_ipv6_addr(content.skip(5)) {
            let t = content.skip(5);
            assert forall|i: int| 0 <= i < t.len() implies in_class(
                CharClass::Dcontent,
                #[trigger] t[i],
            ) by {
                assert(t[i] == content[i + 5]);
            }
        } else {
            lemma_run_len_bounds(content, CharClass::Ldh);
            let k = run_len(content, CharClass::Ldh) as int;
            let tag = content.take(k);
            let literal = content.skip(k + 1);
            assert forall|i: int| 0 <= i < tag.len() implies in_class(
                CharClass::Ldh,
                #[trigger] tag[i],
            ) by {
                assert(tag[i] == content[i]);
            }
            if eq_ignore_case(tag, "IPv6"@) && is_ipv6_addr(literal) {
                let five = content.take(5);
                assert(k == 4);
                assert(content[4] == ':');
                assert forall|i: int| 0 <= i < 5 implies same_letter(
                    #[trigger] five[i],
                    "IPv6:"@[i],
                ) by {
                    if i < 4 {
                        assert(five[i] == tag[i]);
                        assert(same_letter(tag[i], "IPv6"@[i]));
                    }
                }
                assert(content.skip(5) =~= literal);
                assert(false);
            }
        }
    } else {
        lemma_run_len_bounds(s, CharClass::Domain);
    }
}

/// The wire form of a well-formed mailbox is read back as that mailbox,
/// whatever follows it; after a domain name, what follows is no part of a name.
pub proof fn lemma_mailbox_wire(m: MailboxView, tail: Seq<char>)
    requires
        valid_mailbox(m),
        m.domain is Name ==> tail.len() == 0 || !in_class(CharClass::Domain, tail[0]),
    ensures
        mailbox_prefix(mailbox_wire(m) + tail) == Some((m, mailbox_wire(m).len() as int)),
{
    reveal(mailbox_prefix);
    let local = m.local_part;
    let host = domain_wire(m.domain);
    let s = mailbox_wire(m) + tail;
    let n = local.len() as int;
    let after = seq!['@'] + host + tail;
    assert(s =~= local + after);
    if is_dot_string(local) {
        lemma_dotted_facts(local, CharClass::DotString, CharClass::Atext);
        assert(s[0] == local[0]);
        lemma_run_len_concat(local, after, CharClass::DotString);
        assert(s.take(n) =~= local);
    } else {
        assert(local[0] == '"');
        assert(s[0] == '"');
        assert(s.skip(1) =~= local.skip(1) + after);
        lemma_quoted_extend(local.skip(1), after);
    }
    assert(local_part_len(s) == Some(n));
    assert(s[n] == '@');
    assert(s.skip(n + 1) =~= host + tail);
    assert(s.take(n) =~= local);
    lemma_host_wire(m.domain, tail);
}

/// What the grammar reads as a mailbox is well formed and lies within the text.
pub proof fn lemma_mailbox_valid(s: Seq<char>)
    requires
        mailbox_prefix(s) is Some,
    ensures
        valid_mailbox(mailbox_prefix(s).unwrap().0),
        0 < mailbox_prefix(s).unwrap().1 <= s.len(),
{
    reveal(mailbox_prefix);
    let n = local_part_len(s)->0;
    if s.len() > 0 && s[0] == '"' {
        lemma_quoted_take(s.skip(1), n - 1);
        let local = s.take(n);
        assert(local[0] == '"');
        assert(local.skip(1) =~= s.skip(1).take(n - 1));
    } else {
        lemma_run_len_bounds(s, CharClass::DotString);
    }
    lemma_host_valid(s.skip(n + 1));
}

/// The wire form of a source route of domains is read back as that route,
/// whatever follows it.
pub proof fn lemma_route_wire(ds: Seq<Seq<char>>, tail: Seq<char>)
    requires
        ds.len() > 0,
        forall|i: int| 0 <= i < ds.len() ==> is_domain(#[trigger] ds[i]),
    ensures
        source_route_prefix(route_wire(ds) + tail) == Some((ds, route_wire(ds).len() as int)),
    decreases ds.len(),
{
    let d = ds[0];
    let m = d.len() as int;
    let s = route_wire(ds) + tail;
    lemma_dotted_facts(d, CharClass::Domain, CharClass::LetDig);
    if ds.len() == 1 {
        let after = seq![':'] + tail;
        assert(s =~= seq!['@'] + (d + after));
        assert(s.skip(1) =~= d + after);
        lemma_run_len_concat(d, after, CharClass::Domain);
        assert(s.subrange(1, m + 1) =~= d);
        assert(s[m + 1] == ':');
        assert(ds =~= seq![d]);
    } else {
        let rest = ds.drop_first();
        let after = seq![','] + (route_wire(rest) + tail);
        assert(s =~= seq!['@'] + (d + after));
        assert(s.skip(1) =~= d + after);
        lemma_run_len_concat(d, after, CharClass::Domain);
        assert(s.subrange(1, m + 1) =~= d);
        assert(s[m + 1] == ',');
        assert(s.skip(m + 2) =~= route_wire(rest) + tail);
        assert forall|i: int| 0 <= i < rest.len() implies is_domain(#[trigger] rest[i]) by {
            assert(rest[i] == ds[i + 1]);
        }
        lemma_route_wire(rest, tail);
        assert(ds =~= seq![d] + rest);
    }
}

/// What the grammar reads as a source route is domains and lies within the text.
pub proof fn lemma_route_valid(s: Seq<char>)
    requires
        source_route_prefix(s) is Some,
    ensures
        source_route_prefix(s).unwrap().0.len() > 0,
        forall|i: int|
            0 <= i < source_route_prefix(s).unwrap().0.len() ==> is_domain(
                #[trigger] source_route_prefix(s).unwrap().0[i],
            ),
        0 < source_route_prefix(s).unwrap().1 <= s.len(),
    decreases s.len(),
{
    lemma_run_len_bounds(s.skip(1), CharClass::Domain);
    let m = run_len(s.skip(1), CharClass::Domain) as int;
    if s[m + 1] == ',' {
        lemma_route_valid(s.skip(m + 2));
    }
}

/// The wire form of a well-formed path is read back as that path, whatever
/// follows it.
pub proof fn lemma_path_wire(p: MailPathView, tail: Seq<char>)
    requires
        valid_path(p),
    ensures
        path_prefix(path_wire(p) + tail) == Some((p, path_wire(p).len() as int)),
{
    reveal(path_prefix);
    let route = route_wire(p.at_domain_list);
    let mb = mailbox_wire(p.mailbox);
    let s = path_wire(p) + tail;
    let after = seq!['>'] + tail;
    assert(s[0] == '<');
    assert(s.skip(1) =~= route + (mb + after));
    let a = route.len() as int;
    if p.at_domain_list.len() > 0 {
        assert(route[0] == '@');
        assert(s[1] == route[0]);
        lemma_route_wire(p.at_domain_list, mb + after);
    } else {
        assert(route.len() == 0);
        assert(p.at_domain_list =~= Seq::<Seq<char>>::empty());
        let local = p.mailbox.local_part;
        if is_dot_string(local) {
            lemma_dotted_facts(local, CharClass::DotString, CharClass::Atext);
        }
        assert(mb[0] == local[0]);
        assert(s[1] == mb[0]);
        assert(local[0] != '@');
    }
    assert(s.skip(1 + a) =~= mb + after);
    lemma_mailbox_wire(p.mailbox, after);
    assert(mailbox_prefix(s.skip(1 + a)) == Some((p.mailbox, mb.len() as int)));
    assert(s.len() == 1 + a + mb.len() + 1 + tail.len());
    assert(s[1 + a + mb.len() as int] == '>');
    assert(path_wire(p).len() == 1 + a + mb.len() + 1);
}

/// What the grammar reads as a path is well formed and lies within the text.
pub proof fn lemma_path_valid(s: Seq<char>)
    requires
        path_prefix(s) is Some,
    ensures
        valid_path(path_prefix(s).unwrap().0),
        0 < path_prefix(s).unwrap().1 <= s.len(),
{
    reveal(path_prefix);
    if s.len() > 1 && s[1] == '@' {
        lemma_route_valid(s.skip(1));
        let a = source_route_prefix(s.skip(1)).unwrap().1;
        lemma_mailbox_valid(s.skip(1 + a));
    } else {
        lemma_mailbox_valid(s.skip(1));
    }
}

/// A domain or address literal that the grammar reads from any text is read
/// back from its own wire form.
pub proof fn domain_round_trip(s: Seq<char>)
    requires
        host_prefix(s) is Some,
    ensures
        host_prefix(domain_wire(host_prefix(s).unwrap().0)) == Some(
            (host_prefix(s).unwrap().0, domain_wire(host_prefix(s).unwrap().0).len() as int),
        ),
{
    let d = host_prefix(s).unwrap().0;
    lemma_host_valid(s);
    lemma_host_wire(d, Seq::empty());
    assert(domain_wire(d) + Seq::<char>::empty() =~= domain_wire(d));
}

/// A path that the grammar reads from any text is read back from its own
/// wire form, source route included.
pub proof fn path_round_trip(s: Seq<char>)
    requires
        path_prefix(s) is Some,
    ensures
        path_prefix(path_wire(path_prefix(s).unwrap().0)) == Some(
            (path_prefix(s).unwrap().0, path_wire(path_prefix(s).unwrap().0).len() as int),
        ),
{
    let p = path_prefix(s).unwrap().0;
    lemma_path_valid(s);
    lemma_path_wire(p, Seq::empty());
    assert(path_wire(p) + Seq::<char>::empty() =~= path_wire(p));
}

} // verus!
