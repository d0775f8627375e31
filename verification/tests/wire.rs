use squawkline::events::{Action, IrcEvent, Request};
use squawkline::message::{CapKind, Command, Message, Prefix, Tag};
use squawkline::negotiate::{Negotiation, Reaction};
use squawkline::session::Session;

fn owned(list: &[&str]) -> Vec<String> {
    list.iter().map(|s| (*s).to_owned()).collect()
}

fn read(line: &str) -> Message {
    let outside: irc::proto::Message = line.parse().unwrap();
    let wire = String::from(&outside.command);
    Message {
        tags: outside.tags.map(|tags| tags.into_iter().map(|t| Tag { key: t.0, value: t.1 }).collect()),
        prefix: outside.prefix.map(|p| match p {
            irc::proto::Prefix::ServerName(s) => Prefix::ServerName(s),
            irc::proto::Prefix::Nickname(n, u, h) => Prefix::Nickname(n, u, h),
        }),
        command: match outside.command {
            irc::proto::Command::PRIVMSG(target, text) => Command::Privmsg { target, text },
            irc::proto::Command::JOIN(channel, account, realname) => Command::Join { channel, account, realname },
            irc::proto::Command::CAP(_, irc::proto::CapSubCommand::LS, first, second) => Command::Cap { sub: CapKind::Ls, first, second },
            irc::proto::Command::CAP(_, irc::proto::CapSubCommand::ACK, first, second) => Command::Cap { sub: CapKind::Ack, first, second },
            irc::proto::Command::BATCH(reference, kind, _) => {
                Command::Batch { reference, kind: kind.map(|k| k.to_str().to_owned()) }
            }
            irc::proto::Command::Response(code, args) => Command::Reply { code: code as u16, args },
            irc::proto::Command::Raw(name, args) => Command::Raw { name, args },
            _ => Command::Other,
        },
        wire,
    }
}

fn line(target: &str, text: &str) -> Action {
    Action::Show(IrcEvent::Line { server: "net".to_owned(), target: target.to_owned(), text: text.to_owned() })
}

fn names(channel: &str, nicks: &[&str], away: &[&str]) -> Action {
    Action::Show(IrcEvent::Names { server: "net".to_owned(), channel: channel.to_owned(), nicks: owned(nicks), away: owned(away) })
}

#[test]
fn capabilities_are_read_off_the_wire() {
    let config = squawkline::config::AppConfig::default();
    let (mut n, first) = Negotiation::begin(&config.servers[0]);
    assert_eq!(first, Reaction::List);
    assert_eq!(n.step(&read(":srv CAP * LS * :batch sasl=PLAIN\r\n")), Reaction::Nothing);
    assert!(matches!(n.step(&read(":srv CAP * LS :echo-message\r\n")), Reaction::Request(list) if list.len() == 2));
    assert_eq!(n.step(&read(":srv CAP * ACK :echo-message batch\r\n")), Reaction::Nothing);
    assert!(n.is_finished());
    assert_eq!(n.granted(), vec!["echo-message", "batch"]);
}

#[test]
fn a_session_is_read_off_the_wire() {
    let mut s = Session::new("net".to_owned(), owned(&["away-notify", "extended-join"]));
    let mut feed = |text: &str| s.route_at("me", &read(text), "noon");
    assert_eq!(feed(":srv 005 me CHANTYPES=# PREFIX=(ov)@+ WHOX :are supported\r\n"), vec![line("(server)", "me CHANTYPES=# PREFIX=(ov)@+ WHOX are supported")]);
    assert_eq!(feed(":srv 353 me = #c :@ada!al@h +bob!b@h\r\n"), vec![]);
    let who = Action::Send(Request::Raw { name: "WHO".to_owned(), args: owned(&["#c", "%nf"]) });
    assert_eq!(feed(":srv 366 me #c :End\r\n"), vec![names("#c", &["ada", "bob"], &[]), who]);
    assert_eq!(feed(":srv 354 me ada G@\r\n"), vec![line("(server)", ":srv 354 me ada G@")]);
    assert_eq!(feed(":srv 315 me #c :End\r\n"), vec![names("#c", &["ada", "bob"], &["ada"]), line("(server)", "me #c End")]);
    assert_eq!(
        feed("@time=1 :eve!e@h JOIN #c acc :Eve E.\r\n"),
        vec![names("#c", &["ada", "bob", "eve"], &["ada"]), line("#c", "eve [acc] (Eve E.) (e@h) has joined #c")]
    );
    assert_eq!(feed(":srv FAIL JOIN CODE #c :No way\r\n"), vec![line("(server)", ":srv FAIL JOIN CODE #c :No way")]);
}

#[test]
fn a_batch_is_read_off_the_wire() {
    let mut s = Session::new("net".to_owned(), Vec::new());
    let mut feed = |text: &str| s.route_at("me", &read(text), "noon");
    assert_eq!(feed(":ada!al@h BATCH +1 draft/multiline #c\r\n"), vec![]);
    assert_eq!(feed("@batch=1 :ada!al@h PRIVMSG #c :one\r\n"), vec![]);
    assert_eq!(feed("@batch=1;draft/multiline-concat :ada!al@h PRIVMSG #c :ly\r\n"), vec![]);
    assert_eq!(feed("@batch=1 :ada!al@h PRIVMSG #c :two\r\n"), vec![]);
    assert_eq!(feed(":ada!al@h BATCH -1\r\n"), vec![line("#c", "<ada> onely\ntwo")]);
    assert_eq!(feed(":ada!al@h BATCH +2 draft/multiline me\r\n"), vec![]);
    assert_eq!(feed("@batch=2 :ada!al@h PRIVMSG me :\u{1}PING a\r\n"), vec![]);
    assert_eq!(feed("@batch=2;draft/multiline-concat :ada!al@h PRIVMSG me :b\u{1}\r\n"), vec![]);
    let answer = Action::Send(Request::Notice { target: "ada".to_owned(), text: "\u{1}PING ab\u{1}".to_owned() });
    assert_eq!(feed(":ada!al@h BATCH -2\r\n"), vec![answer, line("(server)", "CTCP PING ab from ada")]);
}

#[test]
fn what_is_said_is_shown_once() {
    let echoes = Session::new("net".to_owned(), owned(&["echo-message"]));
    let typist = echoes.typist("me".to_owned(), "#c".to_owned());
    assert!(typist.server_echoes);
    assert_eq!((typist.server.as_str(), typist.nick.as_str(), typist.target.as_str()), ("net", "me", "#c"));
    assert_eq!(squawkline::outgoing::handle_outgoing(&typist, "hi").echo, None);
    let mut silent = Session::new("net".to_owned(), Vec::new());
    let typist = silent.typist("me".to_owned(), "#c".to_owned());
    let echo = squawkline::outgoing::handle_outgoing(&typist, "hi").echo.unwrap();
    assert_eq!(silent.route_at("me", &read(":me!m@h PRIVMSG #c :hi\r\n"), ""), vec![Action::Show(echo)]);
}
