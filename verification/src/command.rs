//! The typed values that a command line is parsed into.

use vstd::prelude::*;
use crate::grammar::{
    CommandView, DomainView, EsmtpParameterView, ForwardPathView, MailPathView, MailboxView,
    ReversePathView,
};

verus! {

/// What went wrong in a command line, and where.
#[derive(Debug, Clone, PartialEq, Eq)]
pub struct ParseError {
    /// What is wrong.
    pub message: String,
    /// The index of the character at which the line begins to offend.
    pub position: usize,
}

/// The sender of an envelope: a path, or nobody, as for a notification.
#[derive(Debug, Clone, PartialEq, Eq)]
pub enum ReversePath {
    Path(MailPath),
    NullSender,
}

/// A recipient of an envelope: a path, or the postmaster of this host.
#[derive(Debug, Clone, PartialEq, Eq)]
pub enum ForwardPath {
    Path(MailPath),
    Postmaster,
}

/// A path: a mailbox, and the source route that led to it.
#[derive(Debug, Clone, PartialEq, Eq)]
pub struct MailPath {
    /// The source route. It is kept for logging and plays no part in routing.
    pub at_domain_list: Vec<String>,
    pub mailbox: Mailbox,
}

/// A mailbox: `local-part@domain`. A quoted local part keeps its quotes.
#[derive(Debug, Clone, PartialEq, Eq)]
pub struct Mailbox {
    pub local_part: String,
    pub domain: Domain,
}

/// A domain name, or an address literal without its brackets and tag.
#[derive(Debug, Clone, PartialEq, Eq)]
pub enum Domain {
    Name(String),
    V4(String),
    V6(String),
    Tagged { tag: String, literal: String },
}

/// An ESMTP parameter, as it was written.
#[derive(Debug, Clone, PartialEq, Eq)]
pub struct EsmtpParameter {
    pub name: String,
    pub value: Option<String>,
}

/// One SMTP command.
#[derive(Debug, Clone, PartialEq, Eq)]
#[allow(inconsistent_fields)]
pub enum Command {
    Ehlo(Domain),
    Helo(Domain),
    MailFrom { address: ReversePath, parameters: Vec<EsmtpParameter> },
    RcptTo { address: ForwardPath, parameters: Vec<EsmtpParameter> },
    Data,
    Rset,
    Quit,
    Vrfy(String),
    Expn(String),
    Help(Option<String>),
    Noop(Option<String>),
}

/// The texts of a list of strings.
pub open spec fn texts_of(v: Seq<String>) -> Seq<Seq<char>> {
    v.map_values(|s: String| s@)
}

/// The text of an optional string.
pub open spec fn text_of_option(o: Option<String>) -> Option<Seq<char>> {
    match o {
        Some(s) => Some(s@),
        None => None,
    }
}

/// The values of a list of parameters.
pub open spec fn params_view(v: Seq<EsmtpParameter>) -> Seq<EsmtpParameterView> {
    v.map_values(|p: EsmtpParameter| p@)
}

impl View for Domain {
    type V = DomainView;

    open spec fn view(&self) -> DomainView {
        match self {
            Domain::Name(s) => DomainView::Name(s@),
            Domain::V4(s) => DomainView::V4(s@),
            Domain::V6(s) => DomainView::V6(s@),
            Domain::Tagged { tag, literal } => DomainView::Tagged {
                tag: tag@,
                literal: literal@,
            },
        }
    }
}

impl View for Mailbox {
    type V = MailboxView;

    open spec fn view(&self) -> MailboxView {
        MailboxView { local_part: self.local_part@, domain: self.domain@ }
    }
}

impl View for MailPath {
    type V = MailPathView;

    open spec fn view(&self) -> MailPathView {
        MailPathView { at_domain_list: texts_of(self.at_domain_list@), mailbox: self.mailbox@ }
    }
}

impl View for ReversePath {
    type V = ReversePathView;

    open spec fn view(&self) -> ReversePathView {
        match self {
            ReversePath::Path(p) => ReversePathView::Path(p@),
            ReversePath::NullSender => ReversePathView::NullSender,
        }
    }
}

impl View for ForwardPath {
    type V = ForwardPathView;

    open spec fn view(&self) -> ForwardPathView {
        match self {
            ForwardPath::Path(p) => ForwardPathView::Path(p@),
            ForwardPath::Postmaster => ForwardPathView::Postmaster,
        }
    }
}

impl View for EsmtpParameter {
    type V = EsmtpParameterView;

    open spec fn view(&self) -> EsmtpParameterView {
        EsmtpParameterView { name: self.name@, value: text_of_option(self.value) }
    }
}

impl View for Command {
    type V = CommandView;

    open spec fn view(&self) -> CommandView {
        match self {
            Command::Ehlo(d) => CommandView::Ehlo(d@),
            Command::Helo(d) => CommandView::Helo(d@),
            Command::MailFrom { address, parameters } => CommandView::MailFrom {
                address: address@,
                parameters: params_view(parameters@),
            },
            Command::RcptTo { address, parameters } => CommandView::RcptTo {
                address: address@,
                parameters: params_view(parameters@),
            },
            Command::Data => CommandView::Data,
            Command::Rset => CommandView::Rset,
            Command::Quit => CommandView::Quit,
            Command::Vrfy(s) => CommandView::Vrfy(s@),
            Command::Expn(s) => CommandView::Expn(s@),
            Command::Help(o) => CommandView::Help(text_of_option(*o)),
            Command::Noop(o) => CommandView::Noop(text_of_option(*o)),
        }
    }
}

} // verus!
