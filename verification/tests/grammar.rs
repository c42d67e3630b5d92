use mta_core::command::{
    Command, Domain, EsmtpParameter, ForwardPath, MailPath, Mailbox, ReversePath,
};
use mta_core::parser::{is_valid_domain, Parser};

fn name(s: &str) -> Domain {
    Domain::Name(s.to_string())
}

fn path(route: &[&str], local: &str, domain: Domain) -> MailPath {
    MailPath {
        at_domain_list: route.iter().map(|s| s.to_string()).collect(),
        mailbox: Mailbox { local_part: local.to_string(), domain },
    }
}

#[test]
fn verbs_match_in_any_case() {
    for line in ["QUIT", "quit", "Quit", "qUiT"] {
        assert_eq!(Command::parse(line).unwrap(), Command::Quit);
    }
    for line in ["DATA", "data", "Data"] {
        assert_eq!(Command::parse(line).unwrap(), Command::Data);
    }
    assert_eq!(
        Command::parse("ehlo Example.ORG").unwrap(),
        Command::Ehlo(name("Example.ORG"))
    );
    assert_eq!(
        Command::parse("mAiL fRoM:<>").unwrap(),
        Command::MailFrom { address: ReversePath::NullSender, parameters: vec![] }
    );
}

#[test]
fn helo_takes_no_address_literal_and_ehlo_does() {
    assert!(Command::parse("HELO [127.0.0.1]").is_err());
    assert_eq!(
        Command::parse("EHLO [127.0.0.1]").unwrap(),
        Command::Ehlo(Domain::V4("127.0.0.1".to_string()))
    );
    assert_eq!(
        Command::parse("EHLO [IPv6:2001:db8::1]").unwrap(),
        Command::Ehlo(Domain::V6("2001:db8::1".to_string()))
    );
    assert_eq!(
        Command::parse("EHLO [x400:some-thing]").unwrap(),
        Command::Ehlo(Domain::Tagged { tag: "x400".to_string(), literal: "some-thing".to_string() })
    );
}

#[test]
fn source_route_is_kept_and_routing_ignores_it() {
    let cmd = Command::parse("MAIL FROM:<@h1,@h2:u@d>").unwrap();
    let expected = path(&["h1", "h2"], "u", name("d"));
    assert_eq!(
        cmd,
        Command::MailFrom { address: ReversePath::Path(expected.clone()), parameters: vec![] }
    );
    assert_eq!(expected.routing_key(), "d");
    assert_eq!(path(&[], "u", name("d")).routing_key(), "d");
}

#[test]
fn postmaster_is_a_recipient_of_its_own() {
    for line in ["RCPT TO:<PostMastER>", "rcpt to:<postmaster>", "RCPT TO:<POSTMASTER>"] {
        assert_eq!(
            Command::parse(line).unwrap(),
            Command::RcptTo { address: ForwardPath::Postmaster, parameters: vec![] }
        );
    }
    // with a domain it is a mailbox like any other
    assert_eq!(
        Command::parse("RCPT TO:<Postmaster@example.com>").unwrap(),
        Command::RcptTo {
            address: ForwardPath::Path(path(&[], "Postmaster", name("example.com"))),
            parameters: vec![],
        }
    );
    assert_eq!(
        Command::parse("RCPT TO:<postmaster> NOTIFY=NEVER").unwrap(),
        Command::RcptTo {
            address: ForwardPath::Postmaster,
            parameters: vec![EsmtpParameter {
                name: "NOTIFY".to_string(),
                value: Some("NEVER".to_string())
            }],
        }
    );
}

#[test]
fn null_sender_is_accepted() {
    assert_eq!(
        Command::parse("MAIL FROM:<>").unwrap(),
        Command::MailFrom { address: ReversePath::NullSender, parameters: vec![] }
    );
    assert_eq!(
        Command::parse("MAIL FROM:<> SIZE=100").unwrap(),
        Command::MailFrom {
            address: ReversePath::NullSender,
            parameters: vec![EsmtpParameter {
                name: "SIZE".to_string(),
                value: Some("100".to_string())
            }],
        }
    );
    // the null path is no recipient
    assert!(Command::parse("RCPT TO:<>").is_err());
}

#[test]
fn malformed_lines_are_rejected() {
    for line in [
        "",
        " ",
        "DATA ",
        " DATA",
        "DATAX",
        "QUIT now",
        "EHLO",
        "EHLO ",
        "EHLO  there",
        "EHLO there ",
        "EHLO -there",
        "EHLO the..re",
        "EHLO there.",
        "EHLO [127.0.0]",
        "EHLO [127.0.0.1",
        "EHLO [1234.0.0.1]",
        "EHLO []",
        "HELO",
        "VRFY",
        "VRFY ",
        "VRFY two words",
        "VRFY \"open",
        "HELP ",
        "NOOP  x",
        "MAIL FROM:",
        "MAIL FROM:user@host",
        "MAIL FROM:<user@host",
        "MAIL FROM:<user>",
        "MAIL FROM:<@host>",
        "MAIL FROM:<user@>",
        "MAIL FROM:<.user@host>",
        "MAIL FROM:<us..er@host>",
        "MAIL FROM:<user.@host>",
        "MAIL FROM:<user@host>  x",
        "MAIL FROM:<user@host> ",
        "MAIL FROM:<user@host> =x",
        "MAIL FROM:<user@host> -x",
        "MAIL FROM:<user@host> x=",
        "MAIL FROM:<user@host> x=a=b",
        "MAIL FROM:<user@host> x  y",
        "MAIL FROM: <user@host>",
        "MAIL  FROM:<user@host>",
        "MAIL FROM:<@a:@b:user@host>",
        "MAIL FROM:<@a,user@host>",
        "MAIL FROM:<@a,@b user@host>",
        "RCPT TO:<postmaster",
        "RCPT TO:<user@host>x",
        "MAIL FROM:<us\u{e9}r@host>",
        "EHLO h\u{f6}st",
        "VRFY caf\u{e9}",
    ] {
        assert!(Command::parse(line).is_err(), "{line:?} should be rejected");
    }
}

#[test]
fn an_error_says_where_the_line_begins_to_offend() {
    let error = |line: &str| {
        let e = Command::parse(line).unwrap_err();
        (e.position, e.message)
    };
    let unknown = "unknown command".to_string();
    let argument = "malformed argument".to_string();
    let parameters = "malformed parameters".to_string();
    assert_eq!(error(""), (0, unknown.clone()));
    assert_eq!(error("bogus"), (0, unknown.clone()));
    assert_eq!(error("DATAX"), (0, unknown.clone()));
    assert_eq!(error("MAIL FROM"), (0, unknown.clone()));
    assert_eq!(error("EHLO"), (0, unknown.clone()));
    assert_eq!(error("caf\u{e9}"), (0, "the line is not ASCII".to_string()));
    assert_eq!(error("EHLO h\u{f6}st"), (0, "the line is not ASCII".to_string()));
    assert_eq!(error("EHLO "), (5, argument.clone()));
    assert_eq!(error("ehlo -x"), (5, argument.clone()));
    assert_eq!(error("HELO [1.2.3.4]"), (5, argument.clone()));
    assert_eq!(error("VRFY a b"), (5, argument.clone()));
    assert_eq!(error("NOOP \"x"), (5, argument.clone()));
    assert_eq!(error("MAIL FROM:"), (10, argument.clone()));
    assert_eq!(error("MAIL FROM:<user@host"), (10, argument.clone()));
    assert_eq!(error("MAIL FROM:<@a:b>"), (10, argument.clone()));
    assert_eq!(error("RCPT TO:<>"), (8, argument.clone()));
    assert_eq!(error("RCPT TO:<postmaster"), (8, argument.clone()));
    assert_eq!(error("MAIL FROM:<user@host>x"), (21, parameters.clone()));
    assert_eq!(error("MAIL FROM:<user@host> x="), (22, parameters.clone()));
    assert_eq!(error("MAIL FROM:<>  x"), (13, parameters.clone()));
    assert_eq!(error("RCPT TO:<b@y> "), (14, parameters.clone()));
    assert_eq!(error("RCPT TO:<Postmaster> =x"), (21, parameters.clone()));
    assert_eq!(error("MAIL FROM:<a@b> good bad= x"), (21, parameters.clone()));
    assert_eq!(error("MAIL FROM:<a@b> k=v=w"), (19, parameters.clone()));
    assert_eq!(error("MAIL FROM:<a@b> one two three -four"), (30, parameters.clone()));
}

#[test]
fn quoted_local_parts() {
    assert_eq!(
        Command::parse("MAIL FROM:<\"a b\\\"c@d>e\"@host>").unwrap(),
        Command::MailFrom {
            address: ReversePath::Path(path(&[], "\"a b\\\"c@d>e\"", name("host"))),
            parameters: vec![],
        }
    );
    assert_eq!(
        Command::parse("MAIL FROM:<\"\"@host>").unwrap(),
        Command::MailFrom {
            address: ReversePath::Path(path(&[], "\"\"", name("host"))),
            parameters: vec![],
        }
    );
    assert!(Command::parse("MAIL FROM:<\"a\\\"@host>").is_err());
    assert!(Command::parse("MAIL FROM:<\"a\"b@host>").is_err());
    assert_eq!(
        Command::parse("VRFY \"some one\"").unwrap(),
        Command::Vrfy("\"some one\"".to_string())
    );
}

#[test]
fn ipv6_addresses() {
    let good = [
        "::",
        "::1",
        "1::",
        "1:2:3:4:5:6:7:8",
        "1:2:3:4:5:6::",
        "1:2:3::4:5:6",
        "abcd:EF01::1",
        "::1.2.3.4",
        "1:2:3:4:5:6:1.2.3.4",
        "::ffff:10.0.0.1",
        "1:2:3:4::10.0.0.1",
        "1:2:3:4::1:2:3:4:10.0.0.1",
    ];
    for a in good {
        let line = format!("EHLO [IPv6:{a}]");
        assert_eq!(
            Command::parse(&line).unwrap(),
            Command::Ehlo(Domain::V6(a.to_string())),
            "{a}"
        );
    }
    // what is no IPv6 address after the tag is a general literal
    let general = [
        "1:2:3:4:5:6:7",
        "1:2:3:4:5:6:7:8:9",
        "1:::2",
        "1::2::3",
        "12345::",
        "g::1",
        "1:2:3:4:5:1.2.3.4",
        "1:2:3:4:5::1.2.3.4",
        ":1",
        "1:",
    ];
    for a in general {
        let line = format!("EHLO [IPv6:{a}]");
        assert_eq!(
            Command::parse(&line).unwrap(),
            Command::Ehlo(Domain::Tagged { tag: "IPv6".to_string(), literal: a.to_string() }),
            "{a}"
        );
    }
    // the tag is read in any case
    assert_eq!(
        Command::parse("EHLO [ipv6:::1]").unwrap(),
        Command::Ehlo(Domain::V6("::1".to_string()))
    );
}

#[test]
fn domains() {
    for d in ["a", "a.b", "a-b.c", "1.2.3", "a-", "he.llo-", "x--y", "A.B.C"] {
        assert!(is_valid_domain(d), "{d}");
    }
    for d in ["", ".", "a.", ".a", "a..b", "-a", "a.-b", "a b", "a_b", "[1.2.3.4]", "h\u{f6}st"] {
        assert!(!is_valid_domain(d), "{d}");
    }
}

#[test]
fn wire_form_is_read_back() {
    let lines = [
        "DATA",
        "RSET",
        "QUIT",
        "HELP",
        "NOOP",
        "HELP topic",
        "NOOP \"x y\"",
        "VRFY someone",
        "EXPN list",
        "EHLO mail.example.org",
        "EHLO [10.0.0.1]",
        "EHLO [IPv6:::1]",
        "EHLO [tag:content]",
        "EHLO [IPv6:zzz]",
        "HELO mail.example.org",
        "MAIL FROM:<>",
        "MAIL FROM:<> BODY=8BITMIME",
        "MAIL FROM:<user@host>",
        "MAIL FROM:<@a.example,@b.example:user@host> SIZE=10 SMTPUTF8",
        "MAIL FROM:<\"quoted \\\" part\"@[IPv6:1::2]>",
        "RCPT TO:<Postmaster>",
        "RCPT TO:<Postmaster> NOTIFY=NEVER",
        "RCPT TO:<postmaster@example.com>",
        "RCPT TO:<user.name+tag@sub.example.com> ORCPT=rfc822;user@example.com",
    ];
    for line in lines {
        let cmd = Command::parse(line).unwrap();
        assert_eq!(cmd.serialize(), line, "canonical lines are their own wire form");
        assert_eq!(Command::parse(&cmd.serialize()).unwrap(), cmd);
    }
    // other cases of verbs and tags are brought to the canonical form
    for (line, canonical) in [
        ("quit", "QUIT"),
        ("mail from:<a@b>", "MAIL FROM:<a@b>"),
        ("Rcpt To:<PostMastER>", "RCPT TO:<Postmaster>"),
        ("ehlo [ipv6:::1]", "EHLO [IPv6:::1]"),
        ("help me", "HELP me"),
    ] {
        let cmd = Command::parse(line).unwrap();
        assert_eq!(cmd.serialize(), canonical);
        assert_eq!(Command::parse(canonical).unwrap(), cmd);
    }
}

#[test]
fn domains_and_paths_have_wire_forms() {
    assert_eq!(name("example.org").to_wire(), "example.org");
    assert_eq!(Domain::V4("1.2.3.4".to_string()).to_wire(), "[1.2.3.4]");
    assert_eq!(Domain::V6("::1".to_string()).to_wire(), "[IPv6:::1]");
    assert_eq!(
        Domain::Tagged { tag: "future".to_string(), literal: "something".to_string() }.to_wire(),
        "[future:something]"
    );
    assert_eq!(path(&[], "user", name("host")).to_wire(), "<user@host>");
    assert_eq!(
        path(&["hosta.int", "jkl.org"], "userc", name("d.bar.org")).to_wire(),
        "<@hosta.int,@jkl.org:userc@d.bar.org>"
    );
    assert_eq!(ReversePath::NullSender.to_wire(), "<>");
    assert_eq!(ForwardPath::Postmaster.to_wire(), "<Postmaster>");
    assert_eq!(
        EsmtpParameter { name: "SIZE".to_string(), value: Some("1".to_string()) }.to_wire(),
        "SIZE=1"
    );
    assert_eq!(EsmtpParameter { name: "SMTPUTF8".to_string(), value: None }.to_wire(), "SMTPUTF8");
}
