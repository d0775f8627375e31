//! The client's configuration, and what it starts with.

use crate::message::optional;
use crate::text::{cat3, texts};
use vstd::prelude::*;

verus! {

/// Where the configuration file is kept, below the user's home directory.
pub const CONFIG_FILE: &'static str = ".config/squawkline/config.toml";

/// One network to connect to.
#[derive(Debug, Clone)]
pub struct ServerConfig {
    pub name: String,
    pub nickname: String,
    pub server: String,
    pub port: Option<u16>,
    pub use_tls: bool,
    pub channels: Vec<String>,
    /// The account of SASL PLAIN: the nickname where it is not given.
    pub sasl_account: Option<String>,
    /// The password of SASL PLAIN, which is not attempted where it is not given or empty.
    pub sasl_password: Option<String>,
}

/// All networks to connect to.
#[derive(Debug, Clone)]
pub struct AppConfig {
    pub servers: Vec<ServerConfig>,
}

/// The account by which `config` authenticates.
pub open spec fn account_of(config: ServerConfig) -> Seq<char> {
    match config.sasl_account {
        Some(account) => account@,
        None => config.nickname@,
    }
}

/// The password by which `config` authenticates, where it does.
pub open spec fn password_of(config: ServerConfig) -> Option<Seq<char>> {
    match config.sasl_password {
        Some(password) if password@.len() > 0 => Some(password@),
        _ => None,
    }
}

impl ServerConfig {
    /// The account for SASL PLAIN.
    pub fn account(&self) -> (account: String)
        ensures
            account@ == account_of(*self),
    {
        match &self.sasl_account {
            Some(account) => account.clone(),
            None => self.nickname.clone(),
        }
    }

    /// The password for SASL PLAIN, where it is to be attempted.
    pub fn password(&self) -> (password: Option<String>)
        ensures
            optional(password) == password_of(*self),
    {
        match &self.sasl_password {
            Some(password) => if password.as_str().is_empty() {
                None
            } else {
                Some(password.clone())
            },
            None => None,
        }
    }
}

/// The configuration of a client that was not configured.
pub open spec fn is_default(config: AppConfig) -> bool {
    &&& config.servers@.len() == 1
    &&& {
        let server = config.servers@[0];
        &&& server.name@ == "libera"@
        &&& server.nickname@ == "squawkline"@
        &&& server.server@ == "irc.libera.chat"@
        &&& server.port is None
        &&& server.use_tls
        &&& texts(server.channels@) == seq!["##squawkline-test"@]
        &&& server.sasl_account is None
        &&& server.sasl_password is None
    }
}

impl Default for AppConfig {
    fn default() -> (config: Self)
        ensures
            is_default(config),
    {
        let channels = vec!["##squawkline-test".to_owned()];
        assert(texts(channels@) =~= seq!["##squawkline-test"@]);
        AppConfig {
            servers: vec![
                ServerConfig {
                    name: "libera".to_owned(),
                    nickname: "squawkline".to_owned(),
                    server: "irc.libera.chat".to_owned(),
                    port: None,
                    use_tls: true,
                    channels,
                    sasl_account: None,
                    sasl_password: None,
                },
            ],
        }
    }
}

/// What became of the attempt to read the configuration file.
pub enum ConfigFile {
    /// There is no home directory to look for it in.
    NoHome,
    /// It could not be read.
    Unreadable,
    /// It was read and is no configuration.
    Invalid,
    /// It was read.
    Parsed(AppConfig),
}

/// What the client starts with.
pub struct Startup {
    pub config: AppConfig,
    /// Whether this configuration is to be written out, for the user to edit.
    pub write: bool,
    /// Whether the user is to be told that the file is not in use.
    pub warn: bool,
}

/// Whether the client starts with `start` where the configuration file is `file`: with the
/// configuration of the file where it could be read, and with the default one in every other
/// case. The default is written out exactly where the file could not be read, so a file that
/// the user made is never overwritten because of what it says; a file that was read and is not
/// in use is told of.
pub open spec fn starts_with(file: ConfigFile, start: Startup) -> bool {
    &&& match file {
        ConfigFile::Parsed(config) => start.config == config,
        _ => is_default(start.config),
    }
    &&& start.write <==> file is Unreadable
    &&& start.warn <==> file is Invalid
}

/// What the client starts with.
pub fn load_or_init(file: ConfigFile) -> (start: Startup)
    ensures
        starts_with(file, start),
{
    match file {
        ConfigFile::NoHome => Startup { config: AppConfig::default(), write: false, warn: false },
        ConfigFile::Unreadable => Startup {
            config: AppConfig::default(),
            write: true,
            warn: false,
        },
        ConfigFile::Invalid => Startup { config: AppConfig::default(), write: false, warn: true },
        ConfigFile::Parsed(config) => Startup { config, write: false, warn: false },
    }
}

/// Whether two networks are configured alike.
pub open spec fn same_server(a: ServerConfig, b: ServerConfig) -> bool {
    &&& a.name@ == b.name@
    &&& a.nickname@ == b.nickname@
    &&& a.server@ == b.server@
    &&& a.port == b.port
    &&& a.use_tls == b.use_tls
    &&& texts(a.channels@) == texts(b.channels@)
    &&& optional(a.sasl_account) == optional(b.sasl_account)
    &&& optional(a.sasl_password) == optional(b.sasl_password)
}

/// Whether two configurations say the same.
pub open spec fn same_config(a: AppConfig, b: AppConfig) -> bool {
    &&& a.servers@.len() == b.servers@.len()
    &&& forall|i: int|
        0 <= i < a.servers@.len() ==> same_server(#[trigger] a.servers@[i], b.servers@[i])
}

/// Whether a start from `file` leaves `later` behind: the file as it was, or what was written
/// out, where that is read back as it was written.
pub open spec fn leaves(file: ConfigFile, start: Startup, later: ConfigFile) -> bool {
    if start.write {
        later is Unreadable || (later matches ConfigFile::Parsed(config) && same_config(
            config,
            start.config,
        ))
    } else {
        later == file
    }
}

/// A second start gives the configuration that the first one gave. What the first one wrote,
/// or found in the file, is not written again.
pub proof fn law_loading_twice_is_loading_once(
    file: ConfigFile,
    first: Startup,
    later: ConfigFile,
    second: Startup,
)
    requires
        starts_with(file, first),
        leaves(file, first, later),
        starts_with(later, second),
    ensures
        same_config(second.config, first.config),
        second.write ==> later is Unreadable,
        !first.write ==> !second.write,
{
}

/// What a client starts with is what it starts with again where the file says so, and the file
/// is left alone.
pub proof fn law_what_is_used_stays(file: ConfigFile, first: Startup, second: Startup)
    requires
        starts_with(file, first),
        starts_with(ConfigFile::Parsed(first.config), second),
    ensures
        second.config == first.config,
        !second.write,
        !second.warn,
{
}

/// What the user is told of a configuration file that is not in use.
pub fn invalid_file_warning(path: &str, error: &str) -> (warning: String)
    ensures
        warning@ == "warning: "@ + path@ + " is invalid ("@ + error@ + "), using defaults"@,
{
    let mut warning = cat3("warning: ", path, " is invalid (");
    warning.append(error);
    warning.append("), using defaults");
    warning
}

/// The account that is given is used, and else the nickname. A password that is given is used as
/// it is, and one that is empty or not given is none.
pub proof fn law_credentials_are_those_of_the_file(config: ServerConfig)
    ensures
        config.sasl_account matches Some(account) ==> account_of(config) == account@,
        config.sasl_account is None ==> account_of(config) == config.nickname@,
        config.sasl_password is None ==> password_of(config) is None,
        config.sasl_password matches Some(password) ==> (password_of(config) is Some
            <==> password@.len() > 0) && (password_of(config) is Some ==> password_of(config)
            == Some(password@)),
{
}

/// What the client starts with, and what it does about it, for each thing that can become of
/// the file.
pub proof fn law_files_decide_the_start(file: ConfigFile, start: Startup)
    requires
        starts_with(file, start),
    ensures
        file matches ConfigFile::Parsed(config) ==> start.config == config && !start.write
            && !start.warn,
        file is NoHome ==> is_default(start.config) && !start.write && !start.warn,
        file is Unreadable ==> is_default(start.config) && start.write && !start.warn,
        file is Invalid ==> is_default(start.config) && !start.write && start.warn,
{
}

} // verus!
