//! Settings.

use vstd::prelude::*;

use crate::text::case::to_lowercase;
use crate::text::number::to_decimal;

verus! {

/// Why there are no usable settings.
#[derive(Debug)]
pub enum ConfigError {
    /// The settings file does not hold settings.
    ParseError(String),
    /// A setting has a value that cannot be used.
    InvalidConfig(String),
    /// The settings file could not be loaded, for this reason.
    ConfigLibError(String),
}

/// The settings.
#[derive(Debug, Clone)]
pub struct Config {
    pub listen_address: String,
    /// Names and passwords.
    pub users: Vec<(String, String)>,
    pub log: LoggerConfig,
    pub buffer_size: usize,
    pub max_connections: usize,
    /// Timeout in seconds for connecting to target servers.
    pub connect_timeout: u64,
    pub base_path: Option<String>,
}

/// The settings of the log.
#[derive(Debug, Clone)]
pub struct LoggerConfig {
    pub level: String,
    pub path: String,
    pub archive_pattern: String,
    pub file_count: u32,
    /// Max file size in MB.
    pub file_size: u64,
}

impl Default for LoggerConfig {
    fn default() -> (r: Self)
        ensures
            r.level@ == "Info"@,
            r.path@ == "logs/rust-proxy.log"@,
            r.archive_pattern@ == "logs/archive/rust-proxy-{}.log"@,
            r.file_count == 5,
            r.file_size == 10,
    {
        LoggerConfig {
            level: default_log_level(),
            path: default_log_path(),
            archive_pattern: default_archive_pattern(),
            file_count: default_file_count(),
            file_size: default_file_size(),
        }
    }
}

impl Default for Config {
    /// Empty settings: every text empty and every number zero, but for the log.
    fn default() -> (r: Self)
        ensures
            r.listen_address@ == Seq::<char>::empty(),
            r.users@ == Seq::<(String, String)>::empty(),
            r.log.level@ == "Info"@,
            r.log.path@ == "logs/rust-proxy.log"@,
            r.log.archive_pattern@ == "logs/archive/rust-proxy-{}.log"@,
            r.log.file_count == 5,
            r.log.file_size == 10,
            r.buffer_size == 0,
            r.max_connections == 0,
            r.connect_timeout == 0,
            r.base_path is None,
    {
        Config {
            listen_address: String::new(),
            users: Vec::new(),
            log: LoggerConfig::default(),
            buffer_size: 0,
            max_connections: 0,
            connect_timeout: 0,
            base_path: None,
        }
    }
}

pub fn default_listen_address() -> (r: String)
    ensures
        r@ == "127.0.0.1:1080"@,
{
    "127.0.0.1:1080".to_owned()
}

pub fn default_log_level() -> (r: String)
    ensures
        r@ == "Info"@,
{
    "Info".to_owned()
}

pub fn default_log_path() -> (r: String)
    ensures
        r@ == "logs/rust-proxy.log"@,
{
    "logs/rust-proxy.log".to_owned()
}

pub fn default_archive_pattern() -> (r: String)
    ensures
        r@ == "logs/archive/rust-proxy-{}.log"@,
{
    "logs/archive/rust-proxy-{}.log".to_owned()
}

pub fn default_file_count() -> (r: u32)
    ensures
        r == 5,
{
    5
}

pub fn default_file_size() -> (r: u64)
    ensures
        r == 10,
{
    10
}

pub fn default_buffer_size() -> (r: usize)
    ensures
        r == 4096,
{
    4096
}

pub fn default_max_connections() -> (r: usize)
    ensures
        r == 1024,
{
    1024
}

pub fn default_connect_timeout() -> (r: u64)
    ensures
        r == 10,
{
    10
}

/// What became of loading the settings file.
pub enum Loaded {
    /// The file could not be loaded, for this reason.
    Missing(String),
    /// The file was loaded and does not hold settings, for this reason.
    Unreadable(String),
    /// The file holds these settings.
    Read(Config),
}

/// What was asked for on the command line; it goes before the settings file.
pub struct Overrides {
    pub listen_address: Option<String>,
    pub log_level: String,
    pub buffer_size: Option<usize>,
    pub max_connections: Option<usize>,
    pub connect_timeout: Option<u64>,
    pub base_path: Option<String>,
}

/// The value asked for, or else the one there was.
pub open spec fn pick<T>(asked: Option<T>, there: T) -> T {
    match asked {
        Some(value) => value,
        None => there,
    }
}

/// The first thing that is wrong with `config`, in the words of the message; nothing where it can
/// be used. `address_parses` says whether the listen address is a socket address.
pub open spec fn fault(config: &Config, address_parses: bool) -> Option<Seq<char>> {
    if config.listen_address@.len() == 0 {
        Some("Listen address cannot be empty"@)
    } else if !address_parses {
        Some("Invalid listen address format: "@ + config.listen_address@)
    } else if config.buffer_size == 0 || config.buffer_size > 65536 {
        Some(
            "Invalid buffer size: "@ + crate::text::number::decimal(config.buffer_size as nat)
                + ". Must be between 1 and 65536"@,
        )
    } else if config.max_connections == 0 {
        Some("max_connections must be greater than 0"@)
    } else if config.connect_timeout == 0 {
        Some("connect_timeout must be greater than 0"@)
    } else {
        None
    }
}

/// The settings that can be used: a listen address that is one, between 1 and 65536 bytes of
/// buffer, at least one client at a time and at least a second to connect to a target.
pub proof fn law_usable_settings(config: &Config, address_parses: bool)
    ensures
        fault(config, address_parses) is None <==> {
            &&& config.listen_address@.len() > 0
            &&& address_parses
            &&& 1 <= config.buffer_size <= 65536
            &&& config.max_connections >= 1
            &&& config.connect_timeout >= 1
        },
{
}

fn invalid(message: &str) -> (r: Result<(), ConfigError>)
    ensures
        r matches Err(ConfigError::InvalidConfig(text)) && text@ == message@,
{
    Err(ConfigError::InvalidConfig(message.to_owned()))
}

impl Config {
    /// The settings of a file, out of what became of loading it.
    pub fn from_file(loaded: Loaded) -> (r: Result<Self, ConfigError>)
        ensures
            r == match loaded {
                Loaded::Missing(reason) => Err(ConfigError::ConfigLibError(reason)),
                Loaded::Unreadable(reason) => Err(ConfigError::ParseError(reason)),
                Loaded::Read(config) => Ok(config),
            },
    {
        match loaded {
            Loaded::Missing(reason) => Err(ConfigError::ConfigLibError(reason)),
            Loaded::Unreadable(reason) => Err(ConfigError::ParseError(reason)),
            Loaded::Read(config) => Ok(config),
        }
    }

    /// Puts what was asked for in place of what the file says. The log level is replaced where
    /// the two differ in more than case.
    pub fn apply(&mut self, asked: Overrides)
        ensures
            final(self).listen_address == pick(asked.listen_address, old(self).listen_address),
            final(self).users == old(self).users,
            final(self).log == (LoggerConfig {
                level: if crate::text::case::lowercase(asked.log_level@)
                    == crate::text::case::lowercase(old(self).log.level@) {
                    old(self).log.level
                } else {
                    asked.log_level
                },
                ..old(self).log
            }),
            final(self).buffer_size == pick(asked.buffer_size, old(self).buffer_size),
            final(self).max_connections == pick(asked.max_connections, old(self).max_connections),
            final(self).connect_timeout == pick(asked.connect_timeout, old(self).connect_timeout),
            final(self).base_path == match asked.base_path {
                Some(path) => Some(path),
                None => old(self).base_path,
            },
    {
        if let Some(listen_address) = asked.listen_address {
            self.listen_address = listen_address;
        }
        let wanted = to_lowercase(asked.log_level.as_str());
        let there = to_lowercase(self.log.level.as_str());
        if wanted != there {
            self.log.level = asked.log_level;
        }
        if let Some(buffer_size) = asked.buffer_size {
            self.buffer_size = buffer_size;
        }
        if let Some(max_connections) = asked.max_connections {
            self.max_connections = max_connections;
        }
        if let Some(connect_timeout) = asked.connect_timeout {
            self.connect_timeout = connect_timeout;
        }
        if let Some(base_path) = asked.base_path {
            self.base_path = Some(base_path);
        }
    }

    /// Whether the settings can be used; where not, the first reason. `address_parses` says
    /// whether the listen address is a socket address. The caller, who binds the address, finds
    /// that out; which texts are socket addresses is not stated here.
    pub fn validate(&self, address_parses: bool) -> (r: Result<(), ConfigError>)
        ensures
            match fault(self, address_parses) {
                None => r is Ok,
                Some(message) => r matches Err(ConfigError::InvalidConfig(text)) && text@
                    == message,
            },
    {
        if self.listen_address.as_str().is_empty() {
            return invalid("Listen address cannot be empty");
        }
        if !address_parses {
            let mut message = "Invalid listen address format: ".to_owned();
            message.append(self.listen_address.as_str());
            return invalid(message.as_str());
        }
        if self.buffer_size == 0 || self.buffer_size > 65536 {
            let mut message = "Invalid buffer size: ".to_owned();
            let size = to_decimal(self.buffer_size as u64);
            message.append(size.as_str());
            message.append(". Must be between 1 and 65536");
            return invalid(message.as_str());
        }
        if self.max_connections == 0 {
            return invalid("max_connections must be greater than 0");
        }
        if self.connect_timeout == 0 {
            return invalid("connect_timeout must be greater than 0");
        }
        Ok(())
    }
}

/// The first fault counts, in this order: no address, one that is no socket address, a buffer of a
/// size that cannot be used, no clients, no time to connect.
pub proof fn law_first_fault_counts(config: &Config, address_parses: bool)
    ensures
        config.listen_address@ == Seq::<char>::empty() ==> fault(config, address_parses) == Some(
            "Listen address cannot be empty"@,
        ),
        config.listen_address@.len() > 0 && !address_parses ==> fault(config, address_parses)
            == Some("Invalid listen address format: "@ + config.listen_address@),
        config.listen_address@.len() > 0 && address_parses && !(1 <= config.buffer_size <= 65536)
            ==> fault(config, address_parses) == Some(
            "Invalid buffer size: "@ + crate::text::number::decimal(config.buffer_size as nat)
                + ". Must be between 1 and 65536"@,
        ),
        config.listen_address@.len() > 0 && address_parses && 1 <= config.buffer_size <= 65536
            && config.max_connections == 0 ==> fault(config, address_parses) == Some(
            "max_connections must be greater than 0"@,
        ),
        config.listen_address@.len() > 0 && address_parses && 1 <= config.buffer_size <= 65536
            && config.max_connections > 0 && config.connect_timeout == 0 ==> fault(
            config,
            address_parses,
        ) == Some("connect_timeout must be greater than 0"@),
{
}

/// What is asked for goes first, and what is not asked for stays.
pub proof fn law_what_is_asked_for_goes_first<T>(asked: T, there: T)
    ensures
        pick(Some(asked), there) == asked,
        pick(None, there) == there,
{
}

} // verus!
