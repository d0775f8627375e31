use squawkline::ctcp::{asks_for_time, ctcp_reply, enclose, reply, reply_at, VERSION};

#[test]
fn ping_gives_the_payload_back() {
    assert_eq!(reply_at("PING 1234 5678", "").unwrap(), "PING 1234 5678");
    assert_eq!(reply_at("PING", "").unwrap(), "PING");
    assert_eq!(reply_at("PING  ", "").unwrap(), "PING");
    assert_eq!(reply_at("PING a b \t", "").unwrap(), "PING a b");
}

#[test]
fn commands_are_known_in_any_case() {
    assert_eq!(reply_at("ping x", "").unwrap(), "PING x");
    assert_eq!(reply_at("Version", "").unwrap(), format!("VERSION squawkline {}", VERSION));
    assert_eq!(reply_at("clientinfo", "").unwrap(), "CLIENTINFO PING VERSION TIME CLIENTINFO SOURCE");
    // The long s has the capital S as its upper case.
    assert_eq!(reply_at("\u{17f}ource", "").unwrap(), "SOURCE https://github.com/example/squawkline");
}

#[test]
fn time_is_the_time_that_is_given() {
    assert_eq!(reply_at("TIME", "noon").unwrap(), "TIME noon");
    assert_eq!(reply("TIME", "ignored", "noon").unwrap(), "TIME noon");
}

#[test]
fn time_is_told_by_the_clock() {
    let body = ctcp_reply("time").unwrap();
    assert!(body.starts_with("TIME "));
    assert!(body.len() == 35 || body.len() == 36);
    assert!(chrono::DateTime::parse_from_rfc2822(&body[5..]).is_ok());
    assert!(asks_for_time("Time now") && !asks_for_time("TIMES") && !asks_for_time(" TIME"));
    assert_eq!(ctcp_reply("PING 7").unwrap(), "PING 7");
    assert_eq!(ctcp_reply("DCC SEND x"), None);
}

#[test]
fn unknown_requests_have_no_answer() {
    assert_eq!(reply_at("FINGER", "now"), None);
    assert_eq!(reply_at("", "now"), None);
    assert_eq!(reply_at(" PING", "now"), None);
    assert_eq!(reply("ping", "x", "now"), None);
}

#[test]
fn delimiters_stand_only_at_the_ends() {
    assert_eq!(enclose("PING a\u{1}b\u{1}"), "\u{1}PING a b \u{1}");
    assert_eq!(enclose(""), "\u{1}\u{1}");
}
