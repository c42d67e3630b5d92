use mta_core::command::{
    Command, Domain, EsmtpParameter, ForwardPath, MailPath, Mailbox, ReversePath,
};
use mta_core::parser::{is_valid_domain, Parser};

#[test]
fn parse_single_verbs() {
    assert_eq!(Parser::parse_command("data").unwrap(), Command::Data,);
    assert_eq!(Parser::parse_command("Quit").unwrap(), Command::Quit,);
    assert_eq!(Parser::parse_command("rset").unwrap(), Command::Rset,);
}

#[test]
fn parse_vrfy() {
    assert_eq!(
        Parser::parse_command("VRFY someone").unwrap(),
        Command::Vrfy("someone".to_string())
    );
}

#[test]
fn parse_expn() {
    assert_eq!(
        Parser::parse_command("expn someone").unwrap(),
        Command::Expn("someone".to_string())
    );
}

#[test]
fn parse_help() {
    assert_eq!(Parser::parse_command("help").unwrap(), Command::Help(None),);
    assert_eq!(
        Parser::parse_command("help me").unwrap(),
        Command::Help(Some("me".to_string())),
    );
}

#[test]
fn parse_noop() {
    assert_eq!(Parser::parse_command("noop").unwrap(), Command::Noop(None),);
    assert_eq!(
        Parser::parse_command("noop param").unwrap(),
        Command::Noop(Some("param".to_string())),
    );
}

#[test]
fn parse_ehlo() {
    assert_eq!(
        Parser::parse_command("EHLO there").unwrap(),
        Command::Ehlo(Domain::Name("there".to_string()))
    );
    assert_eq!(
        Parser::parse_command("EHLO [127.0.0.1]").unwrap(),
        Command::Ehlo(Domain::V4("127.0.0.1".to_string()))
    );
}

#[test]
fn parse_helo() {
    assert_eq!(
        Parser::parse_command("HELO there").unwrap(),
        Command::Helo(Domain::Name("there".to_string()))
    );
    // Cannot use address literals with HELO
    assert!(Parser::parse_command("HELO [127.0.0.1]").is_err(),);
}

#[test]
fn parse_rcpt_to() {
    assert_eq!(
        Parser::parse_command("Rcpt To:<user@host>").unwrap(),
        Command::RcptTo {
            address: ForwardPath::Path(MailPath {
                at_domain_list: vec![],
                mailbox: Mailbox {
                    local_part: "user".to_string(),
                    domain: Domain::Name("host".to_string())
                }
            }),
            parameters: vec![],
        }
    );

    assert_eq!(
        Parser::parse_command("Rcpt To:<\"asking for trouble\"@host.name>").unwrap(),
        Command::RcptTo {
            address: ForwardPath::Path(MailPath {
                at_domain_list: vec![],
                mailbox: Mailbox {
                    local_part: "\"asking for trouble\"".to_string(),
                    domain: Domain::Name("host.name".to_string())
                }
            }),
            parameters: vec![],
        }
    );

    assert_eq!(
        Parser::parse_command("Rcpt To:<PostMastER>").unwrap(),
        Command::RcptTo {
            address: ForwardPath::Postmaster,
            parameters: vec![],
        }
    );

    assert_eq!(
        Parser::parse_command("Rcpt To:<user@host> woot").unwrap(),
        Command::RcptTo {
            address: ForwardPath::Path(MailPath {
                at_domain_list: vec![],
                mailbox: Mailbox {
                    local_part: "user".to_string(),
                    domain: Domain::Name("host".to_string())
                }
            }),
            parameters: vec![EsmtpParameter {
                name: "woot".to_string(),
                value: None
            }],
        }
    );
}

#[test]
fn parse_mail_from() {
    assert_eq!(
        Parser::parse_command("Mail FROM:<user@host>").unwrap(),
        Command::MailFrom {
            address: ReversePath::Path(MailPath {
                at_domain_list: vec![],
                mailbox: Mailbox {
                    local_part: "user".to_string(),
                    domain: Domain::Name("host".to_string())
                }
            }),
            parameters: vec![],
        }
    );

    assert_eq!(
        Parser::parse_command("Mail FROM:<user@host> foo bar=baz").unwrap(),
        Command::MailFrom {
            address: ReversePath::Path(MailPath {
                at_domain_list: vec![],
                mailbox: Mailbox {
                    local_part: "user".to_string(),
                    domain: Domain::Name("host".to_string())
                }
            }),
            parameters: vec![
                EsmtpParameter {
                    name: "foo".to_string(),
                    value: None,
                },
                EsmtpParameter {
                    name: "bar".to_string(),
                    value: Some("baz".to_string()),
                }
            ],
        }
    );

    assert_eq!(
        Parser::parse_command("mail from:<user@[10.0.0.1]>").unwrap(),
        Command::MailFrom {
            address: ReversePath::Path(MailPath {
                at_domain_list: vec![],
                mailbox: Mailbox {
                    local_part: "user".to_string(),
                    domain: Domain::V4("10.0.0.1".to_string())
                }
            }),
            parameters: vec![],
        }
    );

    assert_eq!(
        Parser::parse_command("mail from:<user@[IPv6:::1]>").unwrap(),
        Command::MailFrom {
            address: ReversePath::Path(MailPath {
                at_domain_list: vec![],
                mailbox: Mailbox {
                    local_part: "user".to_string(),
                    domain: Domain::V6("::1".to_string())
                }
            }),
            parameters: vec![],
        }
    );

    assert_eq!(
        Parser::parse_command("mail from:<user@[future:something]>").unwrap(),
        Command::MailFrom {
            address: ReversePath::Path(MailPath {
                at_domain_list: vec![],
                mailbox: Mailbox {
                    local_part: "user".to_string(),
                    domain: Domain::Tagged {
                        tag: "future".to_string(),
                        literal: "something".to_string()
                    }
                }
            }),
            parameters: vec![],
        }
    );

    assert_eq!(
        Parser::parse_command("MAIL FROM:<@hosta.int,@jkl.org:userc@d.bar.org>").unwrap(),
        Command::MailFrom {
            address: ReversePath::Path(MailPath {
                at_domain_list: vec!["hosta.int".to_string(), "jkl.org".to_string()],
                mailbox: Mailbox {
                    local_part: "userc".to_string(),
                    domain: Domain::Name("d.bar.org".to_string())
                }
            }),
            parameters: vec![],
        }
    );
}

#[test]
fn parse_domain() {
    assert!(is_valid_domain("hello"));
    assert!(is_valid_domain("he-llo"));
    assert!(is_valid_domain("he.llo"));
    assert!(is_valid_domain("he.llo-"));
}
