use squawkline::config::{invalid_file_warning, load_or_init, AppConfig, ConfigFile, ServerConfig, CONFIG_FILE};

fn server(account: Option<&str>, password: Option<&str>) -> ServerConfig {
    ServerConfig {
        name: "net".to_owned(),
        nickname: "me".to_owned(),
        server: "irc.example.org".to_owned(),
        port: Some(6697),
        use_tls: true,
        channels: vec!["#a".to_owned()],
        sasl_account: account.map(str::to_owned),
        sasl_password: password.map(str::to_owned),
    }
}

fn check_default(config: &AppConfig) {
    assert_eq!(config.servers.len(), 1);
    let only = &config.servers[0];
    assert_eq!(only.name, "libera");
    assert_eq!(only.nickname, "squawkline");
    assert_eq!(only.server, "irc.libera.chat");
    assert_eq!(only.port, None);
    assert!(only.use_tls);
    assert_eq!(only.channels, vec!["##squawkline-test"]);
    assert_eq!(only.sasl_account, None);
    assert_eq!(only.sasl_password, None);
}

#[test]
fn the_default_is_one_server() {
    check_default(&AppConfig::default());
}

#[test]
fn a_file_that_was_read_is_used() {
    let start = load_or_init(ConfigFile::Parsed(AppConfig { servers: vec![server(None, None)] }));
    assert_eq!(start.config.servers[0].name, "net");
    assert!(!start.write);
    assert!(!start.warn);
}

#[test]
fn the_default_is_written_only_where_nothing_was_read() {
    let missing = load_or_init(ConfigFile::Unreadable);
    check_default(&missing.config);
    assert!(missing.write && !missing.warn);
    let invalid = load_or_init(ConfigFile::Invalid);
    check_default(&invalid.config);
    assert!(!invalid.write && invalid.warn);
    let homeless = load_or_init(ConfigFile::NoHome);
    check_default(&homeless.config);
    assert!(!homeless.write && !homeless.warn);
}

#[test]
fn the_user_is_told_of_an_invalid_file() {
    assert_eq!(
        invalid_file_warning("/home/me/.config/squawkline/config.toml", "no such key"),
        "warning: /home/me/.config/squawkline/config.toml is invalid (no such key), using defaults"
    );
    assert_eq!(CONFIG_FILE, ".config/squawkline/config.toml");
}

#[test]
fn the_account_is_the_nickname_unless_given() {
    assert_eq!(server(None, None).account(), "me");
    assert_eq!(server(Some("acc"), None).account(), "acc");
}

#[test]
fn an_empty_password_is_none() {
    assert_eq!(server(None, None).password(), None);
    assert_eq!(server(None, Some("")).password(), None);
    assert_eq!(server(None, Some("pw")).password().unwrap(), "pw");
}

#[test]
fn loading_twice_is_loading_once() {
    let first = load_or_init(ConfigFile::Unreadable);
    assert!(first.write);
    let second = load_or_init(ConfigFile::Parsed(first.config));
    check_default(&second.config);
    assert!(!second.write && !second.warn);
}
