use squawkline::caps::{requested, Capability};
use squawkline::config::ServerConfig;
use squawkline::message::{CapKind, Command, Message};
use squawkline::negotiate::{Negotiation, Reaction};
use squawkline::sasl::sasl_plain;

fn text(s: &str) -> Option<String> {
    Some(s.to_owned())
}

fn message(command: Command, wire: &str) -> Message {
    Message { tags: None, prefix: None, command, wire: wire.to_owned() }
}

fn cap(sub: CapKind, first: Option<String>, second: Option<String>) -> Message {
    message(Command::Cap { sub, first, second }, "CAP")
}

fn reply(code: u16, args: &[&str]) -> Message {
    message(Command::Reply { code, args: args.iter().map(|a| (*a).to_owned()).collect() }, "reply")
}

fn challenge(data: &str) -> Message {
    message(Command::Authenticate { data: data.to_owned() }, "AUTHENTICATE")
}

fn begun(password: Option<&str>) -> Negotiation {
    let (negotiation, first) = Negotiation::begin(&config(Some("acc"), password));
    assert_eq!(first, Reaction::List);
    negotiation
}

fn config(account: Option<&str>, password: Option<&str>) -> ServerConfig {
    ServerConfig {
        name: "net".to_owned(),
        nickname: "me".to_owned(),
        server: "irc.example.org".to_owned(),
        port: None,
        use_tls: true,
        channels: Vec::new(),
        sasl_account: account.map(str::to_owned),
        sasl_password: password.map(str::to_owned),
    }
}

#[test]
fn an_empty_password_is_never_sent() {
    let mut n = begun(Some(""));
    assert_eq!(n.step(&cap(CapKind::Ls, text("sasl batch"), None)), Reaction::Request(vec![Capability::Batch]));
    assert_eq!(n.step(&cap(CapKind::Ack, text("batch sasl"), None)), Reaction::Nothing);
    assert!(n.is_finished());
}

#[test]
fn the_nickname_is_the_account_unless_one_is_given() {
    let (mut n, _) = Negotiation::begin(&config(None, Some("pw")));
    n.step(&cap(CapKind::Ls, text("sasl"), None));
    n.step(&cap(CapKind::Ack, text("sasl"), None));
    assert_eq!(n.step(&challenge("+")), Reaction::Authenticate("AG1lAHB3".to_owned()));
}

#[test]
fn capabilities_are_asked_for_once() {
    let mut n = begun(Some("pw"));
    let messages = [
        cap(CapKind::Ls, text("sasl batch"), None),
        cap(CapKind::Ls, text("server-time"), None),
        cap(CapKind::Ack, text("sasl batch"), None),
        cap(CapKind::Ls, text("echo-message"), None),
        challenge("+"),
        cap(CapKind::Ack, text("sasl"), None),
        reply(903, &["me"]),
        cap(CapKind::Ls, text("batch"), None),
        challenge("+"),
    ];
    let said: Vec<Reaction> = messages.iter().map(|m| n.step(m)).collect();
    assert_eq!(said.iter().filter(|r| matches!(r, Reaction::Request(_))).count(), 1);
    assert!(matches!(said[0], Reaction::Request(_)));
    assert_eq!(said[2], Reaction::Authenticate("PLAIN".to_owned()));
    assert_eq!(said.iter().filter(|r| matches!(r, Reaction::Authenticate(_))).count(), 2);
    assert!(n.is_finished());
}

#[test]
fn only_what_is_offered_is_asked_for() {
    let offered: Vec<String> = ["batch", "unheard-of", "multi-prefix", "sasl"].iter().map(|s| (*s).to_owned()).collect();
    assert_eq!(requested(&offered, false), vec![Capability::MultiPrefix, Capability::Batch]);
    assert_eq!(requested(&offered, true), vec![Capability::MultiPrefix, Capability::Batch, Capability::Sasl]);
    assert_eq!(requested(&Vec::new(), true), vec![]);
}

#[test]
fn every_wanted_capability_is_known_by_its_name() {
    let names = [
        "draft/multiline", "draft/chathistory", "message-tags", "extended-join", "batch", "userhost-in-names",
        "invite-notify", "cap-notify", "server-time", "echo-message", "chghost", "account-notify", "away-notify",
        "multi-prefix",
    ];
    let offered: Vec<String> = names.iter().map(|s| (*s).to_owned()).collect();
    assert_eq!(
        requested(&offered, false),
        vec![
            Capability::MultiPrefix,
            Capability::AwayNotify,
            Capability::AccountNotify,
            Capability::ChgHost,
            Capability::EchoMessage,
            Capability::ServerTime,
            Capability::CapNotify,
            Capability::InviteNotify,
            Capability::UserhostInNames,
            Capability::Batch,
            Capability::ExtendedJoin,
            Capability::Custom("message-tags"),
            Capability::Custom("draft/chathistory"),
            Capability::Custom("draft/multiline"),
        ]
    );
}

#[test]
fn a_long_list_comes_in_parts() {
    let mut n = begun(Some("pw"));
    assert_eq!(n.step(&cap(CapKind::Ls, text("*"), text("batch sasl=PLAIN,EXTERNAL"))), Reaction::Nothing);
    assert!(!n.is_finished());
    assert_eq!(
        n.step(&cap(CapKind::Ls, text("server-time"), None)),
        Reaction::Request(vec![Capability::ServerTime, Capability::Batch, Capability::Sasl])
    );
    assert!(!n.is_finished());
}

#[test]
fn nothing_wanted_ends_the_negotiation() {
    let mut n = begun(None);
    assert_eq!(n.step(&cap(CapKind::Ls, text("sasl unheard-of"), None)), Reaction::Nothing);
    assert!(n.is_finished());
    let mut m = begun(Some("pw"));
    assert_eq!(m.step(&cap(CapKind::Ls, text("x"), text("batch"))), Reaction::Nothing);
    assert!(m.is_finished());
    let mut k = begun(Some("pw"));
    assert_eq!(k.step(&cap(CapKind::Ls, None, None)), Reaction::Nothing);
    assert!(k.is_finished());
}

#[test]
fn sasl_runs_to_its_end() {
    let mut n = begun(Some("pw"));
    assert_eq!(n.step(&cap(CapKind::Ls, text("sasl batch"), None)), Reaction::Request(vec![Capability::Batch, Capability::Sasl]));
    assert_eq!(n.step(&cap(CapKind::Ack, text("batch sasl"), None)), Reaction::Authenticate("PLAIN".to_owned()));
    assert_eq!(n.granted(), vec!["batch", "sasl"]);
    assert_eq!(n.step(&challenge("+")), Reaction::Authenticate("AGFjYwBwdw==".to_owned()));
    assert!(!n.is_finished());
    assert_eq!(n.step(&reply(903, &["me", "ok"])), Reaction::Nothing);
    assert!(n.is_finished());
}

#[test]
fn the_list_may_be_the_last_of_two_parameters() {
    let mut n = begun(Some("pw"));
    n.step(&cap(CapKind::Ls, text("sasl"), None));
    assert_eq!(n.step(&cap(CapKind::Ack, text("*"), text("sasl"))), Reaction::Authenticate("PLAIN".to_owned()));
    assert_eq!(n.step(&reply(900, &["me"])), Reaction::Nothing);
    assert!(n.is_finished());
}

#[test]
fn a_refused_account_is_told() {
    for code in [902u16, 904, 905, 906, 907] {
        let mut n = begun(Some("pw"));
        n.step(&cap(CapKind::Ls, text("sasl"), None));
        n.step(&cap(CapKind::Ack, text("sasl"), None));
        assert_eq!(n.step(&reply(code, &["me", "no", "such account"])), Reaction::Log("SASL authentication failed: me no such account".to_owned()));
        assert!(n.is_finished());
    }
}

#[test]
fn a_refused_request_is_told() {
    let mut n = begun(None);
    n.step(&cap(CapKind::Ls, text("batch"), None));
    assert_eq!(n.step(&cap(CapKind::Nak, text("batch"), None)), Reaction::Log("server rejected capabilities: batch".to_owned()));
    assert!(n.is_finished());
    let mut m = begun(None);
    m.step(&cap(CapKind::Ls, text("batch"), None));
    assert_eq!(m.step(&cap(CapKind::Nak, None, None)), Reaction::Log("server rejected capabilities: (unknown)".to_owned()));
    assert!(m.is_finished());
}

#[test]
fn what_is_withdrawn_is_not_granted() {
    let mut n = begun(Some("pw"));
    n.step(&cap(CapKind::Ls, text("sasl batch"), None));
    assert_eq!(n.step(&cap(CapKind::Ack, text("batch -sasl"), None)), Reaction::Nothing);
    assert!(n.is_finished());
    assert_eq!(n.granted(), vec!["batch"]);
}

#[test]
fn without_a_grant_nothing_is_authenticated() {
    let mut n = begun(Some("pw"));
    n.step(&cap(CapKind::Ls, text("sasl batch"), None));
    assert_eq!(n.step(&cap(CapKind::Ack, text("batch"), None)), Reaction::Nothing);
    assert!(n.is_finished());
    let mut m = begun(None);
    m.step(&cap(CapKind::Ls, text("sasl batch"), None));
    assert_eq!(m.step(&cap(CapKind::Ack, text("batch sasl"), None)), Reaction::Nothing);
    assert!(m.is_finished());
}

#[test]
fn other_messages_are_shown() {
    let mut n = begun(Some("pw"));
    let notice = message(Command::Notice { target: "*".to_owned(), text: "*** Looking up".to_owned() }, "NOTICE * :*** Looking up");
    assert_eq!(n.step(&notice), Reaction::Log("NOTICE * :*** Looking up".to_owned()));
    assert_eq!(n.step(&challenge("+")), Reaction::Log("AUTHENTICATE".to_owned()));
    assert_eq!(n.step(&cap(CapKind::Ack, text("sasl"), None)), Reaction::Log("CAP".to_owned()));
    n.step(&cap(CapKind::Ls, text("sasl"), None));
    assert_eq!(n.step(&reply(1, &["me"])), Reaction::Log("reply".to_owned()));
    n.step(&cap(CapKind::Ack, text("sasl"), None));
    assert_eq!(n.step(&challenge("data")), Reaction::Log("AUTHENTICATE".to_owned()));
    assert_eq!(n.step(&reply(1, &["me"])), Reaction::Log("reply".to_owned()));
    assert!(!n.is_finished());
}

#[test]
fn a_lost_connection_ends_the_negotiation() {
    let mut n = begun(Some("pw"));
    n.give_up();
    assert!(n.is_finished());
}

#[test]
fn credentials_are_encoded() {
    assert_eq!(sasl_plain("jilles", "sesame").unwrap(), "AGppbGxlcwBzZXNhbWU=");
    assert_eq!(sasl_plain("", "").unwrap(), "AAA=");
    assert_eq!(sasl_plain("\u{e9}", "x").unwrap(), "AMOpAHg=");
}
