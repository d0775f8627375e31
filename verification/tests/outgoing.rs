use squawkline::events::{server_line, IrcEvent, Request};
use squawkline::outgoing::{failure, finish_outgoing, handle_outgoing, pack, run_command, unpack, Outgoing, Typist};

fn typist(server_echoes: bool) -> Typist {
    Typist { server: "net".to_owned(), nick: "me".to_owned(), target: "#here".to_owned(), server_echoes }
}

fn line(target: &str, text: &str) -> IrcEvent {
    IrcEvent::Line { server: "net".to_owned(), target: target.to_owned(), text: text.to_owned() }
}

fn privmsg(target: &str, text: &str) -> Request {
    Request::Privmsg { target: target.to_owned(), text: text.to_owned() }
}

fn sent(request: Request) -> Outgoing {
    Outgoing { request: Some(request), echo: None }
}

#[test]
fn plain_text_is_said_and_shown() {
    let out = handle_outgoing(&typist(false), "hello  world");
    assert_eq!(out, Outgoing { request: Some(privmsg("#here", "hello  world")), echo: Some(line("#here", "<me> hello  world")) });
    let empty = handle_outgoing(&typist(false), "");
    assert_eq!(empty, Outgoing { request: Some(privmsg("#here", "")), echo: Some(line("#here", "<me> ")) });
}

#[test]
fn what_the_server_sends_back_is_not_shown_twice() {
    assert_eq!(handle_outgoing(&typist(true), "hello"), sent(privmsg("#here", "hello")));
    assert_eq!(handle_outgoing(&typist(true), "/msg bob hi"), sent(privmsg("bob", "hi")));
}

#[test]
fn channels_are_joined_and_left() {
    assert_eq!(handle_outgoing(&typist(false), "/join  #a,#b key "), sent(Request::Join { channel: "#a,#b key".to_owned() }));
    assert_eq!(handle_outgoing(&typist(false), "/JOIN #a"), sent(Request::Join { channel: "#a".to_owned() }));
    assert_eq!(handle_outgoing(&typist(false), "/part"), sent(Request::Part { channel: "#here".to_owned() }));
    assert_eq!(handle_outgoing(&typist(false), "/part #there"), sent(Request::Part { channel: "#there".to_owned() }));
}

#[test]
fn nicknames_are_changed_and_invited() {
    assert_eq!(handle_outgoing(&typist(false), "/nick you"), sent(Request::Nick { nick: "you".to_owned() }));
    assert_eq!(
        handle_outgoing(&typist(false), "/invite bob"),
        sent(Request::Invite { nick: "bob".to_owned(), channel: "#here".to_owned() })
    );
    assert_eq!(
        handle_outgoing(&typist(false), "/invite bob  #there "),
        sent(Request::Invite { nick: "bob".to_owned(), channel: "#there".to_owned() })
    );
}

#[test]
fn private_messages_need_a_text() {
    assert_eq!(
        handle_outgoing(&typist(false), "/msg bob hi there"),
        Outgoing { request: Some(privmsg("bob", "hi there")), echo: Some(line("bob", "<me> hi there")) }
    );
    assert_eq!(handle_outgoing(&typist(false), "/msg bob"), Outgoing { request: None, echo: None });
}

#[test]
fn raw_lines_are_sent_as_they_are() {
    assert_eq!(handle_outgoing(&typist(false), "/raw WHOIS bob"), sent(Request::Line("WHOIS bob".to_owned())));
    assert_eq!(handle_outgoing(&typist(false), "/quote WHOIS bob"), sent(Request::Line("WHOIS bob".to_owned())));
}

#[test]
fn other_commands_are_told() {
    assert_eq!(handle_outgoing(&typist(false), "/Dance now"), sent(privmsg("#here", "(unknown command /dance, sent as text)")));
    assert_eq!(handle_outgoing(&typist(false), "/join"), sent(privmsg("#here", "(unknown command /join, sent as text)")));
    assert_eq!(handle_outgoing(&typist(false), "/nick  "), sent(privmsg("#here", "(unknown command /nick, sent as text)")));
    assert_eq!(handle_outgoing(&typist(false), "/"), sent(privmsg("#here", "(unknown command /, sent as text)")));
    assert_eq!(run_command(&typist(false), "JOIN", "#a"), sent(privmsg("#here", "(unknown command /JOIN, sent as text)")));
}

#[test]
fn a_failed_request_is_told_in_the_place_of_its_echo() {
    let out = handle_outgoing(&typist(false), "hello");
    assert_eq!(finish_outgoing("net", out, Some("broken pipe".to_owned())), Some(line("(server)", "error: broken pipe")));
    let out = handle_outgoing(&typist(false), "hello");
    assert_eq!(finish_outgoing("net", out, None), Some(line("#here", "<me> hello")));
    assert_eq!(server_line("net", "hello".to_owned()), line("(server)", "hello"));
    assert_eq!(failure("net", "connect", "refused"), line("(server)", "connect error: refused"));
}

#[test]
fn packing_loses_nothing() {
    let packed = pack("#here", "a\u{1}b");
    assert_eq!(packed, "#here\u{1}a\u{1}b");
    assert_eq!(unpack(&packed), ("#here".to_owned(), "a\u{1}b".to_owned()));
    assert_eq!(unpack("no separator"), ("no separator".to_owned(), String::new()));
}
