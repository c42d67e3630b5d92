//! The wire form of the parsed values: the text that stands for a value in a
//! command line, with verbs and tags in their canonical case.

use vstd::prelude::*;
use crate::command::{
    Command, Domain, EsmtpParameter, ForwardPath, MailPath, Mailbox, ReversePath, params_view,
    texts_of,
};
use crate::grammar::{
    CommandView, DomainView, EsmtpParameterView, ForwardPathView, MailPathView, MailboxView,
    ReversePathView,
};

verus! {

/// A domain name as it is, an address literal between brackets.
pub open spec fn domain_wire(d: DomainView) -> Seq<char> {
    match d {
        DomainView::Name(t) => t,
        DomainView::V4(t) => seq!['['] + t + seq![']'],
        DomainView::V6(t) => seq!['['] + "IPv6:"@ + t + seq![']'],
        DomainView::Tagged { tag, literal } => seq!['['] + tag + seq![':'] + literal + seq![']'],
    }
}

/// `local-part@domain`.
pub open spec fn mailbox_wire(m: MailboxView) -> Seq<char> {
    m.local_part + seq!['@'] + domain_wire(m.domain)
}

/// The source route with its closing colon: `@a,@b:`; nothing for no route.
pub open spec fn route_wire(ds: Seq<Seq<char>>) -> Seq<char>
    decreases ds.len(),
{
    if ds.len() == 0 {
        Seq::empty()
    } else if ds.len() == 1 {
        seq!['@'] + ds[0] + seq![':']
    } else {
        seq!['@'] + ds[0] + seq![','] + route_wire(ds.drop_first())
    }
}

/// `<route mailbox>`.
pub open spec fn path_wire(p: MailPathView) -> Seq<char> {
    seq!['<'] + route_wire(p.at_domain_list) + mailbox_wire(p.mailbox) + seq!['>']
}

/// `keyword` or `keyword=value`.
pub open spec fn param_wire(p: EsmtpParameterView) -> Seq<char> {
    match p.value {
        Some(v) => p.name + seq!['='] + v,
        None => p.name,
    }
}

/// The parameters, a space before each.
pub open spec fn params_wire(ps: Seq<EsmtpParameterView>) -> Seq<char>
    decreases ps.len(),
{
    if ps.len() == 0 {
        Seq::empty()
    } else {
        seq![' '] + param_wire(ps[0]) + params_wire(ps.drop_first())
    }
}

/// A path, or `<>` for the null sender.
pub open spec fn reverse_path_wire(p: ReversePathView) -> Seq<char> {
    match p {
        ReversePathView::Path(p) => path_wire(p),
        ReversePathView::NullSender => seq!['<', '>'],
    }
}

/// A path, or `<Postmaster>`.
pub open spec fn forward_path_wire(p: ForwardPathView) -> Seq<char> {
    match p {
        ForwardPathView::Path(p) => path_wire(p),
        ForwardPathView::Postmaster => "<Postmaster>"@,
    }
}

/// The command line that stands for a command.
pub open spec fn command_wire(c: CommandView) -> Seq<char> {
    match c {
        CommandView::Ehlo(d) => "EHLO "@ + domain_wire(d),
        CommandView::Helo(d) => "HELO "@ + domain_wire(d),
        CommandView::MailFrom { address, parameters } => "MAIL FROM:"@ + reverse_path_wire(address)
            + params_wire(parameters),
        CommandView::RcptTo { address, parameters } => "RCPT TO:"@ + forward_path_wire(address)
            + params_wire(parameters),
        CommandView::Data => "DATA"@,
        CommandView::Rset => "RSET"@,
        CommandView::Quit => "QUIT"@,
        CommandView::Vrfy(t) => "VRFY "@ + t,
        CommandView::Expn(t) => "EXPN "@ + t,
        CommandView::Help(None) => "HELP"@,
        CommandView::Help(Some(t)) => "HELP "@ + t,
        CommandView::Noop(None) => "NOOP"@,
        CommandView::Noop(Some(t)) => "NOOP "@ + t,
    }
}

impl Domain {
    /// The text that stands for this domain in a command line.
    pub fn to_wire(&self) -> (out: String)
        ensures
            out@ == domain_wire(self@),
    {
        proof {
            reveal_strlit("[");
            reveal_strlit("]");
            reveal_strlit(":");
            reveal_strlit("[IPv6:");
            reveal_strlit("IPv6:");
        }
        match self {
            Domain::Name(t) => t.clone(),
            Domain::V4(t) => {
                let mut out = String::from_str("[");
                out.append(t.as_str());
                out.append("]");
                assert(out@ =~= domain_wire(self@));
                out
            },
            Domain::V6(t) => {
                let mut out = String::from_str("[IPv6:");
                out.append(t.as_str());
                out.append("]");
                assert(out@ =~= domain_wire(self@));
                out
            },
            Domain::Tagged { tag, literal } => {
                let mut out = String::from_str("[");
                out.append(tag.as_str());
                out.append(":");
                out.append(literal.as_str());
                out.append("]");
                assert(out@ =~= domain_wire(self@));
                out
            },
        }
    }
}

impl Mailbox {
    /// The text that stands for this mailbox in a command line.
    pub fn to_wire(&self) -> (out: String)
        ensures
            out@ == mailbox_wire(self@),
    {
        proof {
            reveal_strlit("@");
        }
        let mut out = self.local_part.clone();
        out.append("@");
        let d = self.domain.to_wire();
        out.append(d.as_str());
        assert(out@ =~= mailbox_wire(self@));
        out
    }
}

/// The tail of a route is the route of the tail.
pub proof fn lemma_route_wire_step(ds: Seq<Seq<char>>, i: int)
    requires
        0 <= i < ds.len(),
    ensures
        route_wire(ds.skip(i)) == seq!['@'] + ds[i] + (if i + 1 == ds.len() {
            seq![':']
        } else {
            seq![','] + route_wire(ds.skip(i + 1))
        }),
{
    let t = ds.skip(i);
    assert(t[0] == ds[i]);
    assert(t.drop_first() =~= ds.skip(i + 1));
    if t.len() == 1 {
        assert(route_wire(t) =~= seq!['@'] + ds[i] + seq![':']);
    } else {
        assert(route_wire(t) =~= seq!['@'] + ds[i] + (seq![','] + route_wire(ds.skip(i + 1))));
    }
}

impl MailPath {
    /// The text that stands for this path in a command line.
    pub fn to_wire(&self) -> (out: String)
        ensures
            out@ == path_wire(self@),
    {
        proof {
            reveal_strlit("<");
            reveal_strlit(">");
            reveal_strlit("@");
            reveal_strlit(",");
            reveal_strlit(":");
        }
        let mut out = String::from_str("<");
        let ghost ds = texts_of(self.at_domain_list@);
        let n = self.at_domain_list.len();
        let mut i: usize = 0;
        assert(ds.skip(0) =~= ds);
        assert(out@ + route_wire(ds.skip(0)) =~= seq!['<'] + route_wire(ds));
        while i < n
            invariant
                i <= n,
                n == self.at_domain_list@.len(),
                ds == texts_of(self.at_domain_list@),
                out@ + route_wire(ds.skip(i as int)) == seq!['<'] + route_wire(ds),
            decreases n - i,
        {
            let ghost before = out@;
            proof {
                reveal_strlit("@");
                reveal_strlit(",");
                reveal_strlit(":");
                lemma_route_wire_step(ds, i as int);
                assert(ds[i as int] == self.at_domain_list@[i as int]@);
            }
            out.append("@");
            out.append(self.at_domain_list[i].as_str());
            if i + 1 == n {
                out.append(":");
                assert(ds.skip(i + 1) =~= Seq::<Seq<char>>::empty());
                assert(out@ + route_wire(ds.skip(i + 1)) =~= before + route_wire(
                    ds.skip(i as int),
                ));
            } else {
                out.append(",");
                assert(out@ + route_wire(ds.skip(i + 1)) =~= before + route_wire(
                    ds.skip(i as int),
                ));
            }
            i += 1;
        }
        assert(ds.skip(n as int) =~= Seq::<Seq<char>>::empty());
        assert(out@ =~= seq!['<'] + route_wire(ds));
        let m = self.mailbox.to_wire();
        out.append(m.as_str());
        out.append(">");
        assert(out@ =~= path_wire(self@));
        out
    }
}

impl MailPath {
    /// What a message to this path is routed by: the domain of the
    /// mailbox. The source route plays no part.
    pub fn routing_key(&self) -> (out: String)
        ensures
            out@ == domain_wire(self@.mailbox.domain),
    {
        self.mailbox.domain.to_wire()
    }
}

impl EsmtpParameter {
    /// The text that stands for this parameter in a command line.
    pub fn to_wire(&self) -> (out: String)
        ensures
            out@ == param_wire(self@),
    {
        proof {
            reveal_strlit("=");
        }
        let mut out = self.name.clone();
        match &self.value {
            Some(v) => {
                out.append("=");
                out.append(v.as_str());
                assert(out@ =~= param_wire(self@));
            },
            None => {},
        }
        out
    }
}

/// Appends the parameters to `out`, a space before each.
pub fn append_params(out: &mut String, parameters: &Vec<EsmtpParameter>)
    ensures
        final(out)@ == old(out)@ + params_wire(params_view(parameters@)),
{
    proof {
        reveal_strlit(" ");
    }
    let ghost ps = params_view(parameters@);
    let ghost start = out@;
    let n = parameters.len();
    let mut i: usize = 0;
    assert(ps.skip(0) =~= ps);
    assert(out@ + params_wire(ps.skip(0)) =~= start + params_wire(ps));
    while i < n
        invariant
            i <= n,
            n == parameters@.len(),
            ps == params_view(parameters@),
            out@ + params_wire(ps.skip(i as int)) == start + params_wire(ps),
        decreases n - i,
    {
        let ghost before = out@;
        let ghost t = ps.skip(i as int);
        proof {
            reveal_strlit(" ");
        }
        assert(t[0] == parameters@[i as int]@);
        assert(t.drop_first() =~= ps.skip(i + 1));
        out.append(" ");
        let p = parameters[i].to_wire();
        out.append(p.as_str());
        assert(out@ + params_wire(ps.skip(i + 1)) =~= before + params_wire(t));
        i += 1;
    }
    assert(ps.skip(n as int) =~= Seq::<EsmtpParameterView>::empty());
    assert(out@ =~= start + params_wire(ps));
}

impl ReversePath {
    /// The text that stands for this reverse path in a command line.
    pub fn to_wire(&self) -> (out: String)
        ensures
            out@ == reverse_path_wire(self@),
    {
        match self {
            ReversePath::Path(p) => p.to_wire(),
            ReversePath::NullSender => {
                proof {
                    reveal_strlit("<>");
                }
                let out = String::from_str("<>");
                assert(out@ =~= seq!['<', '>']);
                out
            },
        }
    }
}

impl ForwardPath {
    /// The text that stands for this forward path in a command line.
    pub fn to_wire(&self) -> (out: String)
        ensures
            out@ == forward_path_wire(self@),
    {
        match self {
            ForwardPath::Path(p) => p.to_wire(),
            ForwardPath::Postmaster => String::from_str("<Postmaster>"),
        }
    }
}

/// `verb` and then `rest`.
pub fn verb_and(verb: &str, rest: &str) -> (out: String)
    ensures
        out@ == verb@ + rest@,
{
    let mut out = String::from_str(verb);
    out.append(rest);
    out
}

impl Command {
    /// The command line that stands for this command, without CRLF.
    pub fn serialize(&self) -> (out: String)
        ensures
            out@ == command_wire(self@),
    {
        match self {
            Command::Ehlo(d) => verb_and("EHLO ", d.to_wire().as_str()),
            Command::Helo(d) => verb_and("HELO ", d.to_wire().as_str()),
            Command::MailFrom { address, parameters } => {
                let mut out = verb_and("MAIL FROM:", address.to_wire().as_str());
                append_params(&mut out, parameters);
                out
            },
            Command::RcptTo { address, parameters } => {
                let mut out = verb_and("RCPT TO:", address.to_wire().as_str());
                append_params(&mut out, parameters);
                out
            },
            Command::Data => String::from_str("DATA"),
            Command::Rset => String::from_str("RSET"),
            Command::Quit => String::from_str("QUIT"),
            Command::Vrfy(t) => verb_and("VRFY ", t.as_str()),
            Command::Expn(t) => verb_and("EXPN ", t.as_str()),
            Command::Help(None) => String::from_str("HELP"),
            Command::Help(Some(t)) => verb_and("HELP ", t.as_str()),
            Command::Noop(None) => String::from_str("NOOP"),
            Command::Noop(Some(t)) => verb_and("NOOP ", t.as_str()),
        }
    }
}

} // verus!
