use squawkline::message::{display_raw, strip_tags, Command, Message, Prefix, Tag};

fn tag(key: &str, value: Option<&str>) -> Tag {
    Tag { key: key.to_owned(), value: value.map(str::to_owned) }
}

fn nick() -> Option<Prefix> {
    Some(Prefix::Nickname("ada".to_owned(), "al".to_owned(), "host".to_owned()))
}

fn message(tags: Option<Vec<Tag>>, prefix: Option<Prefix>, wire: &str) -> Message {
    Message { tags, prefix, command: Command::Other, wire: wire.to_owned() }
}

#[test]
fn tags_are_not_shown() {
    let tags = vec![tag("time", Some("2026-01-01T00:00:00Z")), tag("note", Some("a b;c")), tag("solo", None)];
    let with = message(Some(tags), nick(), "MODE #rust +o bob");
    assert_eq!(display_raw(&with), ":ada!al@host MODE #rust +o bob");
    let without = message(None, nick(), "MODE #rust +o bob");
    assert_eq!(display_raw(&without), display_raw(&with));
    assert_eq!(display_raw(&message(Some(Vec::new()), None, "PONG x")), "PONG x");
}

#[test]
fn prefixes_are_shown_as_they_came() {
    let server = Some(Prefix::ServerName("irc.example.org".to_owned()));
    assert_eq!(display_raw(&message(None, server, "NOTICE * :hello there")), ":irc.example.org NOTICE * :hello there");
    let no_user = Some(Prefix::Nickname("ada".to_owned(), String::new(), "host".to_owned()));
    assert_eq!(display_raw(&message(None, no_user, "AWAY")), ":ada@host AWAY");
    let no_host = Some(Prefix::Nickname("ada".to_owned(), "al".to_owned(), String::new()));
    assert_eq!(display_raw(&message(None, no_host, "AWAY")), ":ada!al AWAY");
    assert_eq!(display_raw(&message(None, None, "PING x  ")), "PING x");
}

#[test]
fn a_message_off_the_wire_is_shown_as_it_came() {
    let line = "@time=12:00;x=a\\sb :ada!al@host PRIVMSG #rust :hi there\r\n";
    let outside: irc::proto::Message = line.parse().unwrap();
    assert_eq!(outside.to_string(), line);
    let tags = vec![tag("time", Some("12:00")), tag("x", Some("a b"))];
    let wire = String::from(&outside.command);
    assert_eq!(display_raw(&message(Some(tags), nick(), &wire)), ":ada!al@host PRIVMSG #rust :hi there");
}

#[test]
fn tags_are_not_shown_before_blanks() {
    let tags = || Some(vec![tag("time", Some("12:00"))]);
    assert_eq!(display_raw(&message(tags(), None, " PING x")), " PING x");
    assert_eq!(display_raw(&message(None, None, " PING x")), " PING x");
    assert_eq!(display_raw(&message(tags(), None, " @odd x ")), " @odd x");
    assert_eq!(display_raw(&message(tags(), None, " ")), "@time=12:00");
    let outside: irc::proto::Message = "@a=b  PING x\r\n".parse().unwrap();
    let shown = display_raw(&message(Some(vec![tag("a", Some("b"))]), None, &String::from(&outside.command)));
    assert!(!shown.contains("a=b"));
    assert!(outside.to_string().trim_end().ends_with(&shown));
}

#[test]
fn only_a_whole_section_of_tags_is_stripped() {
    assert_eq!(strip_tags("@a=b PING x\r\n"), "PING x");
    assert_eq!(strip_tags("@a=b"), "@a=b");
    assert_eq!(strip_tags("PING @x y"), "PING @x y");
    assert_eq!(strip_tags(""), "");
    assert_eq!(strip_tags("@ x"), "x");
}

#[test]
fn the_source_is_a_nickname() {
    assert_eq!(message(None, nick(), "X").source_nickname().unwrap(), "ada");
    assert_eq!(message(None, nick(), "X").sender(), "ada");
    let server = Some(Prefix::ServerName("irc.example.org".to_owned()));
    assert_eq!(message(None, server, "X").source_nickname(), None);
    assert_eq!(message(None, None, "X").sender(), "?");
}
