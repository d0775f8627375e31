use squawkline::config::{AppConfig, ServerConfig};
use squawkline::events::IrcEvent;
use squawkline::workspace::{key, split_key, NewRow, Update, Workspace};

fn config(names: &[&str]) -> AppConfig {
    let server = |name: &&str| ServerConfig {
        name: (*name).to_owned(),
        nickname: "me".to_owned(),
        server: "irc.example.org".to_owned(),
        port: None,
        use_tls: true,
        channels: Vec::new(),
        sasl_account: None,
        sasl_password: None,
    };
    AppConfig { servers: names.iter().map(server).collect() }
}

fn row(server: &str, target: &str, label: &str, position: i32) -> NewRow {
    NewRow { key: key(server, target), label: label.to_owned(), position }
}

fn line(server: &str, target: &str, text: &str) -> IrcEvent {
    IrcEvent::Line { server: server.to_owned(), target: target.to_owned(), text: text.to_owned() }
}

fn names(channel: &str, nicks: &[&str], away: &[&str]) -> IrcEvent {
    IrcEvent::Names {
        server: "a".to_owned(),
        channel: channel.to_owned(),
        nicks: nicks.iter().map(|n| (*n).to_owned()).collect(),
        away: away.iter().map(|n| (*n).to_owned()).collect(),
    }
}

#[test]
fn keys_split_into_their_parts() {
    assert_eq!(key("libera", "#rust"), "libera\u{2}#rust");
    assert_eq!(split_key("libera\u{2}#rust"), ("libera".to_owned(), "#rust".to_owned()));
    assert_eq!(split_key(&key("a", "b\u{2}c")), ("a".to_owned(), "b\u{2}c".to_owned()));
    assert_eq!(split_key("libera"), ("libera".to_owned(), String::new()));
}

#[test]
fn each_server_starts_with_its_row() {
    let (workspace, rows) = Workspace::start(&config(&["a", "b", "a"]));
    assert_eq!(rows, vec![row("a", "(server)", "\u{25be} a", 0), row("b", "(server)", "\u{25be} b", 1)]);
    assert_eq!(workspace.selected(), ("a".to_owned(), "(server)".to_owned()));
    assert_eq!(workspace.row_count(), 2);
    let (empty, none) = Workspace::start(&config(&[]));
    assert_eq!(none, vec![]);
    assert_eq!(empty.selected(), (String::new(), String::new()));
}

#[test]
fn rows_stand_with_their_server() {
    let (mut workspace, _) = Workspace::start(&config(&["a", "b"]));
    assert_eq!(workspace.open("a", "#one"), Some(row("a", "#one", "    #one", 1)));
    assert_eq!(workspace.open("b", "#two"), Some(row("b", "#two", "    #two", 3)));
    assert_eq!(workspace.open("a", "#three"), Some(row("a", "#three", "    #three", 2)));
    assert_eq!(workspace.open("c", "#four"), Some(row("c", "#four", "    #four", 5)));
    assert_eq!(workspace.open("b", "#five"), Some(row("b", "#five", "    #five", 5)));
    assert_eq!(workspace.open("a", "#one"), None);
    assert_eq!(workspace.row_count(), 7);
}

#[test]
fn lines_open_buffers_and_scroll_what_is_in_sight() {
    let (mut workspace, _) = Workspace::start(&config(&["a"]));
    assert_eq!(
        workspace.apply(line("a", "(server)", "hello"), "10:00"),
        Update::Append { row: None, key: key("a", "(server)"), text: "[10:00] hello\n".to_owned(), scroll: true }
    );
    assert_eq!(
        workspace.apply(line("a", "#one", "<x> hi"), "10:01"),
        Update::Append { row: Some(row("a", "#one", "    #one", 1)), key: key("a", "#one"), text: "[10:01] <x> hi\n".to_owned(), scroll: false }
    );
    workspace.select(&key("a", "#one"));
    assert_eq!(
        workspace.apply(line("a", "#one", "<x> ho"), "10:02"),
        Update::Append { row: None, key: key("a", "#one"), text: "[10:02] <x> ho\n".to_owned(), scroll: true }
    );
}

#[test]
fn members_are_listed_for_what_is_selected() {
    let (mut workspace, _) = Workspace::start(&config(&["a"]));
    workspace.select(&key("a", "#one"));
    assert_eq!(workspace.members_in_sight(), (vec![], vec![]));
    assert_eq!(workspace.apply(names("#one", &["x", "y"], &["y"]), ""), Update::Members { refresh: true });
    assert_eq!(workspace.apply(names("#two", &["z"], &[]), ""), Update::Members { refresh: false });
    assert_eq!(workspace.members_in_sight(), (vec!["x".to_owned(), "y".to_owned()], vec!["y".to_owned()]));
    assert_eq!(workspace.apply(names("#one", &["x"], &[]), ""), Update::Members { refresh: true });
    assert_eq!(workspace.members_in_sight(), (vec!["x".to_owned()], vec![]));
    workspace.select(&key("a", "#two"));
    assert_eq!(workspace.members_in_sight(), (vec!["z".to_owned()], vec![]));
}

#[test]
fn text_goes_to_what_is_selected() {
    let (mut workspace, _) = Workspace::start(&config(&["a"]));
    assert_eq!(workspace.submit(""), None);
    assert_eq!(workspace.submit("hi"), Some(("a".to_owned(), "(server)\u{1}hi".to_owned())));
    workspace.select(&key("a", "#one"));
    assert_eq!(workspace.submit("/part"), Some(("a".to_owned(), "#one\u{1}/part".to_owned())));
    workspace.select(&key("b", "#one"));
    assert_eq!(workspace.submit("hi"), None);
    assert_eq!(Workspace::new().submit("x"), None);
}

#[test]
fn rows_stay_grouped_over_a_run() {
    let (mut workspace, first) = Workspace::start(&config(&["b", "a"]));
    let mut sidebar: Vec<String> = Vec::new();
    for row in first {
        sidebar.insert(row.position as usize, row.key);
    }
    let events = vec![
        line("a", "#x", "1"),
        line("b", "#y", "2"),
        names("#z", &["n"], &[]),
        line("a", "#w", "3"),
        line("b", "(server)", "4"),
        line("a", "#x", "5"),
        line("b", "#v", "6"),
    ];
    for event in events {
        if let Update::Append { row: Some(row), .. } = workspace.apply(event, "") {
            sidebar.insert(row.position as usize, row.key);
        }
        workspace.select(&key("b", "#y"));
    }
    let expected = vec![
        key("b", "(server)"),
        key("b", "#y"),
        key("b", "#v"),
        key("a", "(server)"),
        key("a", "#x"),
        key("a", "#w"),
    ];
    assert_eq!(sidebar, expected);
    assert_eq!(workspace.row_count(), 6);
}

#[test]
fn the_last_list_is_in_sight() {
    let (mut workspace, _) = Workspace::start(&config(&["a"]));
    assert_eq!(workspace.apply(names("#x", &["p", "q"], &[]), ""), Update::Members { refresh: false });
    workspace.select(&key("a", "#x"));
    assert_eq!(workspace.members_in_sight().0, vec!["p", "q"]);
    assert_eq!(workspace.apply(names("#y", &["r"], &[]), ""), Update::Members { refresh: false });
    assert_eq!(workspace.members_in_sight().0, vec!["p", "q"]);
    assert_eq!(workspace.apply(names("#x", &["q"], &["q"]), ""), Update::Members { refresh: true });
    assert_eq!(workspace.members_in_sight(), (vec!["q".to_owned()], vec!["q".to_owned()]));
    workspace.select(&key("a", "#nowhere"));
    assert_eq!(workspace.members_in_sight(), (vec![], vec![]));
}
