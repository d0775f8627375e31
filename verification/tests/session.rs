use squawkline::caps::Capability;
use squawkline::events::{Action, IrcEvent, Request};
use squawkline::message::{CapKind, Command, Message, Prefix, Tag};
use squawkline::session::Session;

fn owned(list: &[&str]) -> Vec<String> {
    list.iter().map(|s| (*s).to_owned()).collect()
}

fn from(nick: &str, command: Command) -> Message {
    let prefix = Prefix::Nickname(nick.to_owned(), "user".to_owned(), "host".to_owned());
    Message { tags: None, prefix: Some(prefix), command, wire: "WIRE".to_owned() }
}

fn batched(nick: &str, command: Command, reference: &str, concat: bool) -> Message {
    let mut tags = vec![Tag { key: "batch".to_owned(), value: Some(reference.to_owned()) }];
    if concat {
        tags.push(Tag { key: "draft/multiline-concat".to_owned(), value: None });
    }
    let mut message = from(nick, command);
    message.tags = Some(tags);
    message
}

fn privmsg(nick: &str, target: &str, text: &str) -> Message {
    from(nick, Command::Privmsg { target: target.to_owned(), text: text.to_owned() })
}

fn notice(nick: &str, target: &str, text: &str) -> Message {
    from(nick, Command::Notice { target: target.to_owned(), text: text.to_owned() })
}

fn reply(code: u16, args: &[&str]) -> Message {
    from("srv", Command::Reply { code, args: owned(args) })
}

fn join(nick: &str, channel: &str) -> Message {
    from(nick, Command::Join { channel: channel.to_owned(), account: None, realname: None })
}

fn line(target: &str, text: &str) -> Action {
    Action::Show(IrcEvent::Line { server: "net".to_owned(), target: target.to_owned(), text: text.to_owned() })
}

fn names(channel: &str, nicks: &[&str]) -> Action {
    names_away(channel, nicks, &[])
}

fn names_away(channel: &str, nicks: &[&str], away: &[&str]) -> Action {
    Action::Show(IrcEvent::Names { server: "net".to_owned(), channel: channel.to_owned(), nicks: owned(nicks), away: owned(away) })
}

fn raw(name: &str, args: &[&str]) -> Action {
    Action::Send(Request::Raw { name: name.to_owned(), args: owned(args) })
}

fn session(granted: &[&str]) -> Session {
    Session::new("net".to_owned(), owned(granted))
}

fn feed(session: &mut Session, message: Message) -> Vec<Action> {
    session.route_at("me", &message, "noon")
}

#[test]
fn members_are_listed_once_and_in_order() {
    let mut s = session(&[]);
    assert_eq!(feed(&mut s, reply(353, &["me", "=", "#c", "zoe @adam +bob"])), vec![]);
    assert_eq!(feed(&mut s, reply(353, &["me", "=", "#c", "~&bob Zed eve!u@h"])), vec![]);
    assert_eq!(feed(&mut s, reply(353, &["me", "="])), vec![]);
    assert_eq!(feed(&mut s, reply(366, &["me", "#c", "End"])), vec![names("#c", &["Zed", "adam", "bob", "eve", "zoe"])]);
    assert_eq!(feed(&mut s, reply(366, &["me", "#c", "End"])), vec![names("#c", &[])]);
    assert_eq!(feed(&mut s, reply(366, &["me"])), vec![]);
}

#[test]
fn joins_are_shown_and_kept() {
    let mut s = session(&[]);
    assert_eq!(feed(&mut s, join("bob", "#c")), vec![names("#c", &["bob"]), line("#c", "bob (user@host) has joined #c")]);
    let message = from("eve", Command::Join { channel: "#c".to_owned(), account: Some("acc".to_owned()), realname: Some("Eve E.".to_owned()) });
    assert_eq!(
        feed(&mut s, message),
        vec![names("#c", &["bob", "eve"]), line("#c", "eve [acc] (Eve E.) (user@host) has joined #c")]
    );
    let message = from("al", Command::Join { channel: "#c".to_owned(), account: Some("*".to_owned()), realname: Some(String::new()) });
    assert_eq!(
        feed(&mut s, message),
        vec![names("#c", &["bob", "eve", "al"]), line("#c", "al (user@host) has joined #c")]
    );
    assert_eq!(feed(&mut s, join("me", "#c")), vec![line("#c", "me (user@host) has joined #c")]);
}

#[test]
fn history_is_asked_for_where_there_is_one() {
    let mut s = session(&["draft/chathistory"]);
    assert_eq!(
        feed(&mut s, join("me", "#c")),
        vec![raw("CHATHISTORY", &["LATEST", "#c", "*", "50"]), line("#c", "me (user@host) has joined #c")]
    );
    assert_eq!(feed(&mut s, join("bob", "#c")), vec![names("#c", &["bob"]), line("#c", "bob (user@host) has joined #c")]);
}

#[test]
fn who_leaves_is_not_listed() {
    let mut s = session(&[]);
    feed(&mut s, join("bob", "#c"));
    feed(&mut s, join("eve", "#c"));
    feed(&mut s, join("eve", "#d"));
    let part = from("bob", Command::Part { channel: "#c".to_owned(), reason: Some("bye".to_owned()) });
    assert_eq!(feed(&mut s, part), vec![names("#c", &["eve"]), line("#c", "bob left #c (bye)")]);
    let kick = from("op", Command::Kick { channel: "#c".to_owned(), nick: "eve".to_owned(), reason: None });
    assert_eq!(feed(&mut s, kick), vec![names("#c", &[]), line("#c", "op kicked eve")]);
    let part = from("eve", Command::Part { channel: "#other".to_owned(), reason: None });
    assert_eq!(feed(&mut s, part), vec![names("#other", &[]), line("#other", "eve left #other")]);
    let quit = from("eve", Command::Quit { reason: Some("gone".to_owned()) });
    assert_eq!(feed(&mut s, quit), vec![names("#d", &[]), line("(server)", "eve quit (gone)")]);
}

#[test]
fn quitting_and_renaming_touch_every_channel() {
    let mut s = session(&[]);
    for channel in ["#x", "#y", "#z"] {
        feed(&mut s, join("bob", channel));
    }
    feed(&mut s, join("eve", "#y"));
    feed(&mut s, join("eve", "#z"));
    let nick = from("eve", Command::Nick { nick: "eva".to_owned() });
    assert_eq!(
        feed(&mut s, nick),
        vec![names("#y", &["bob", "eva"]), names("#z", &["bob", "eva"]), line("(server)", "eve is now known as eva")]
    );
    let quit = from("bob", Command::Quit { reason: None });
    assert_eq!(
        feed(&mut s, quit),
        vec![names("#x", &[]), names("#y", &["eva"]), names("#z", &["eva"]), line("(server)", "bob quit")]
    );
    let stranger = from("nobody", Command::Quit { reason: None });
    assert_eq!(feed(&mut s, stranger), vec![line("(server)", "nobody quit")]);
}

#[test]
fn chat_is_shown_where_it_belongs() {
    let mut s = session(&[]);
    assert_eq!(feed(&mut s, privmsg("bob", "#c", "hi all")), vec![line("#c", "<bob> hi all")]);
    assert_eq!(feed(&mut s, privmsg("bob", "me", "hi you")), vec![line("bob", "<bob> hi you")]);
    let nameless = Message {
        tags: None,
        prefix: None,
        command: Command::Privmsg { target: "me".to_owned(), text: "x".to_owned() },
        wire: String::new(),
    };
    assert_eq!(feed(&mut s, nameless), vec![line("?", "<?> x")]);
}

#[test]
fn requests_are_answered_and_shown_by_the_server() {
    let mut s = session(&[]);
    let answer = |text: &str| Action::Send(Request::Notice { target: "bob".to_owned(), text: text.to_owned() });
    assert_eq!(
        feed(&mut s, privmsg("bob", "me", "\u{1}PING 1\u{1}2\u{1}")),
        vec![answer("\u{1}PING 1 2\u{1}"), line("(server)", "CTCP PING 1\u{1}2 from bob")]
    );
    assert_eq!(
        feed(&mut s, privmsg("bob", "#c", "\u{1}TIME\u{1}")),
        vec![answer("\u{1}TIME noon\u{1}"), line("(server)", "CTCP TIME from bob")]
    );
    assert_eq!(feed(&mut s, privmsg("bob", "me", "\u{1}FINGER\u{1}")), vec![line("(server)", "CTCP FINGER from bob")]);
    assert_eq!(feed(&mut s, privmsg("bob", "me", "\u{1}")), vec![line("(server)", "CTCP  from bob")]);
    assert_eq!(feed(&mut s, privmsg("bob", "me", "\u{1}half")), vec![line("bob", "<bob> \u{1}half")]);
}

#[test]
fn the_time_is_told_by_the_clock() {
    let mut s = session(&[]);
    let out = s.route_incoming("me", &privmsg("bob", "me", "\u{1}TIME\u{1}"));
    assert_eq!(out.len(), 2);
    match &out[0] {
        Action::Send(Request::Notice { target, text }) => {
            assert_eq!(target, "bob");
            assert!(text.starts_with("\u{1}TIME ") && text.ends_with('\u{1}'));
            assert!(chrono::DateTime::parse_from_rfc2822(&text[6..text.len() - 1]).is_ok());
        }
        _ => panic!("no answer"),
    }
    assert_eq!(s.route_incoming("me", &privmsg("bob", "#c", "hi")), vec![line("#c", "<bob> hi")]);
}

#[test]
fn notices_open_no_buffers() {
    let mut s = session(&[]);
    assert_eq!(feed(&mut s, notice("NickServ", "me", "identify")), vec![line("(server)", "-NickServ- identify")]);
    assert_eq!(feed(&mut s, notice("srv", "AUTH", "looking up")), vec![line("(server)", "-srv- looking up")]);
    for channel in ["#c", "&c", "!c", "+c"] {
        assert_eq!(feed(&mut s, notice("bob", channel, "x")), vec![line(channel, "-bob- x")]);
    }
    assert_eq!(feed(&mut s, notice("bob", "", "x")), vec![line("(server)", "-bob- x")]);
}

#[test]
fn the_server_says_what_it_supports() {
    let mut s = session(&["away-notify"]);
    assert_eq!(
        feed(&mut s, reply(5, &["me", "CHANTYPES=%", "PREFIX=(ov)$+", "WHOX", "are supported"])),
        vec![line("(server)", "me CHANTYPES=% PREFIX=(ov)$+ WHOX are supported")]
    );
    assert_eq!(feed(&mut s, notice("bob", "%c", "x")), vec![line("%c", "-bob- x")]);
    assert_eq!(feed(&mut s, notice("bob", "#c", "x")), vec![line("(server)", "-bob- x")]);
    feed(&mut s, reply(353, &["me", "=", "%c", "$+bob @eve"]));
    assert_eq!(
        feed(&mut s, reply(366, &["me", "%c"])),
        vec![names("%c", &["@eve", "bob"]), raw("WHO", &["%c", "%nf"])]
    );
}

#[test]
fn who_is_away_is_known() {
    let mut s = session(&["away-notify"]);
    feed(&mut s, reply(5, &["me", "WHOX"]));
    feed(&mut s, reply(353, &["me", "=", "#c", "bob eve"]));
    feed(&mut s, reply(366, &["me", "#c"]));
    let who = |nick: &str, flags: &str| from("srv", Command::Raw { name: "354".to_owned(), args: owned(&["me", nick, flags]) });
    assert_eq!(feed(&mut s, who("bob", "G@")), vec![line("(server)", ":srv!user@host WIRE")]);
    assert_eq!(feed(&mut s, who("eve", "H")), vec![line("(server)", ":srv!user@host WIRE")]);
    assert_eq!(
        feed(&mut s, reply(315, &["me", "#c", "End"])),
        vec![names_away("#c", &["bob", "eve"], &["bob"]), line("(server)", "me #c End")]
    );
    let away = from("eve", Command::Away { reason: Some("lunch".to_owned()) });
    assert_eq!(feed(&mut s, away), vec![names_away("#c", &["bob", "eve"], &["bob", "eve"]), line("(server)", ":eve!user@host WIRE")]);
    let nick = from("eve", Command::Nick { nick: "eva".to_owned() });
    assert_eq!(feed(&mut s, nick), vec![names_away("#c", &["bob", "eva"], &["bob", "eva"]), line("(server)", "eve is now known as eva")]);
    let back = from("bob", Command::Away { reason: None });
    assert_eq!(feed(&mut s, back), vec![names_away("#c", &["bob", "eva"], &["eva"]), line("(server)", ":bob!user@host WIRE")]);
}

#[test]
fn replies_that_nobody_asked_for_are_only_shown() {
    let mut s = session(&["away-notify"]);
    let who = |nick: &str, flags: &str| from("srv", Command::Raw { name: "354".to_owned(), args: owned(&["me", nick, flags]) });
    let shown = || vec![line("(server)", ":srv!user@host WIRE")];
    feed(&mut s, reply(5, &["me", "WHOX"]));
    feed(&mut s, join("bob", "#c"));
    assert_eq!(feed(&mut s, who("bob", "G")), shown());
    assert_eq!(feed(&mut s, reply(315, &["me", "*.net", "End"])), vec![line("(server)", "me *.net End")]);
    assert_eq!(feed(&mut s, join("eve", "#c"))[0], names_away("#c", &["bob", "eve"], &[]));
    feed(&mut s, reply(353, &["me", "=", "#c", "bob eve"]));
    feed(&mut s, reply(366, &["me", "#c"]));
    assert_eq!(feed(&mut s, who("bob", "bobs-account")), shown());
    assert_eq!(feed(&mut s, who("bob", "")), shown());
    assert_eq!(feed(&mut s, who("eve", "G")), shown());
    assert_eq!(feed(&mut s, reply(315, &["me", "#other", "End"])), vec![line("(server)", "me #other End")]);
    assert_eq!(
        feed(&mut s, reply(315, &["me", "#c", "End"])),
        vec![names_away("#c", &["bob", "eve"], &["eve"]), line("(server)", "me #c End")]
    );
    assert_eq!(feed(&mut s, who("bob", "G")), shown());
    assert_eq!(feed(&mut s, reply(315, &["me", "#c", "End"])), vec![line("(server)", "me #c End")]);
    assert_eq!(feed(&mut s, join("al", "#c"))[0], names_away("#c", &["bob", "eve", "al"], &["eve"]));
}

#[test]
fn a_minus_withdraws_a_capability() {
    let mut s = session(&["echo-message", "batch"]);
    let ack = |list: &str| from("srv", Command::Cap { sub: CapKind::Ack, first: Some(list.to_owned()), second: None });
    feed(&mut s, ack("-echo-message chghost"));
    assert!(!s.has_capability("echo-message") && !s.has_capability("-echo-message"));
    assert!(s.has_capability("batch") && s.has_capability("chghost"));
    assert!(!s.typist("me".to_owned(), "#c".to_owned()).server_echoes);
    feed(&mut s, ack("echo-message"));
    assert!(s.typist("me".to_owned(), "#c".to_owned()).server_echoes);
}

#[test]
fn without_away_notify_nobody_is_asked() {
    let mut s = session(&[]);
    feed(&mut s, reply(5, &["me", "WHOX"]));
    assert_eq!(feed(&mut s, reply(366, &["me", "#c"])), vec![names("#c", &[])]);
    let who = from("srv", Command::Raw { name: "354".to_owned(), args: owned(&["me", "bob", "G"]) });
    assert_eq!(feed(&mut s, who), vec![line("(server)", ":srv!user@host WIRE")]);
}

#[test]
fn replies_are_shown() {
    let mut s = session(&[]);
    assert_eq!(feed(&mut s, reply(332, &["me", "#c", "all about c"])), vec![line("#c", "topic: all about c")]);
    assert_eq!(feed(&mut s, reply(332, &["me"])), vec![line("(server)", "topic: ")]);
    assert_eq!(feed(&mut s, reply(1, &["me", "Welcome", "to it"])), vec![line("(server)", "me Welcome to it")]);
    assert_eq!(feed(&mut s, from("bob", Command::Other)), vec![line("(server)", ":bob!user@host WIRE")]);
}

#[test]
fn capabilities_come_and_go() {
    let mut s = session(&["batch"]);
    let cap = |sub: CapKind, list: &str| from("srv", Command::Cap { sub, first: Some(list.to_owned()), second: None });
    let shown = line("(server)", ":srv!user@host WIRE");
    assert_eq!(
        feed(&mut s, cap(CapKind::New, "sasl=PLAIN echo-message unheard-of")),
        vec![Action::Send(Request::Capabilities(vec![Capability::EchoMessage])), line("(server)", ":srv!user@host WIRE")]
    );
    assert!(!s.has_capability("echo-message"));
    assert_eq!(feed(&mut s, cap(CapKind::Ack, "echo-message chghost")), vec![shown]);
    assert!(s.has_capability("echo-message"));
    feed(&mut s, cap(CapKind::Del, "echo-message"));
    assert!(!s.has_capability("echo-message"));
    assert!(s.has_capability("batch") && s.has_capability("chghost"));
    assert_eq!(feed(&mut s, cap(CapKind::New, "sasl")), vec![line("(server)", ":srv!user@host WIRE")]);
}

#[test]
fn lines_make_one_message() {
    let mut s = session(&[]);
    let batch = |reference: &str, kind: Option<&str>| from("bob", Command::Batch { reference: reference.to_owned(), kind: kind.map(str::to_owned) });
    let said = |text: &str| Command::Privmsg { target: "#c".to_owned(), text: text.to_owned() };
    assert_eq!(feed(&mut s, batch("+1", Some("draft/multiline"))), vec![]);
    assert_eq!(feed(&mut s, batched("bob", said("hello"), "1", false)), vec![]);
    assert_eq!(feed(&mut s, privmsg("eve", "#c", "between")), vec![line("#c", "<eve> between")]);
    assert_eq!(feed(&mut s, batched("bob", said("how is"), "1", false)), vec![]);
    assert_eq!(feed(&mut s, batched("bob", said(" everyone?"), "1", true)), vec![]);
    assert_eq!(feed(&mut s, batched("bob", said("other"), "2", false)), vec![line("#c", "<bob> other")]);
    assert_eq!(feed(&mut s, batch("-1", None)), vec![line("#c", "<bob> hello\nhow is everyone?")]);
    assert_eq!(feed(&mut s, batch("-1", None)), vec![line("(server)", ":bob!user@host WIRE")]);
}

#[test]
fn other_batches_are_shown() {
    let mut s = session(&[]);
    let batch = |reference: &str, kind: Option<&str>| from("bob", Command::Batch { reference: reference.to_owned(), kind: kind.map(str::to_owned) });
    assert_eq!(feed(&mut s, batch("+1", Some("chathistory"))), vec![line("(server)", ":bob!user@host WIRE")]);
    assert_eq!(feed(&mut s, batch("+2", Some("draft/multiline"))), vec![]);
    let told = Command::Notice { target: "me".to_owned(), text: "note".to_owned() };
    assert_eq!(feed(&mut s, batched("bob", told, "2", false)), vec![]);
    assert_eq!(feed(&mut s, batch("-2", None)), vec![line("(server)", "-bob- note")]);
    assert_eq!(feed(&mut s, batch("+3", Some("draft/multiline"))), vec![]);
    assert_eq!(feed(&mut s, batch("-3", None)), vec![]);
}
