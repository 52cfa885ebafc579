use vstd::prelude::*;

verus! {

/// Number of failed authorizations tolerated before the schedule starts over.
pub fn default_max_attempts() -> (n: u32)
    ensures
        n == 5,
{
    5
}

/// Delay in milliseconds before the first authorization attempt.
pub fn default_base_delay() -> (ms: u64)
    ensures
        ms == 1000,
{
    1000
}

/// The log level used when the configuration names none.
pub fn default_log_level() -> (level: String)
    ensures
        level@ == "info"@,
{
    "info".to_owned()
}

/// How authorization is retried.
#[derive(Clone, Copy, Debug, PartialEq, Eq, Structural)]
pub struct ReconnectConfig {
    pub max_attempts: u32,
    pub base_delay_ms: u64,
}

impl Default for ReconnectConfig {
    fn default() -> (r: Self)
        ensures
            r.max_attempts == 5,
            r.base_delay_ms == 1000,
    {
        ReconnectConfig { max_attempts: default_max_attempts(), base_delay_ms: default_base_delay() }
    }
}

/// The client's configuration.
pub struct Config {
    pub server: String,
    pub interface: String,
    pub provision_code: Option<String>,
    pub auto_route: bool,
    pub log_level: String,
    pub reconnect_config: ReconnectConfig,
}

/// The configuration as plain values.
pub ghost struct ConfigView {
    pub server: Seq<char>,
    pub interface: Seq<char>,
    pub provision_code: Option<Seq<char>>,
    pub auto_route: bool,
    pub log_level: Seq<char>,
    pub reconnect_config: ReconnectConfig,
}

pub open spec fn text_option(o: Option<String>) -> Option<Seq<char>> {
    match o {
        Some(s) => Some(s@),
        None => None,
    }
}

impl View for Config {
    type V = ConfigView;

    open spec fn view(&self) -> ConfigView {
        ConfigView {
            server: self.server@,
            interface: self.interface@,
            provision_code: text_option(self.provision_code),
            auto_route: self.auto_route,
            log_level: self.log_level@,
            reconnect_config: self.reconnect_config,
        }
    }
}

/// The settings given on the command line, each optional.
pub struct CliOverrides {
    pub server: Option<String>,
    pub interface: Option<String>,
    pub provision: Option<String>,
    pub route: Option<bool>,
}

/// Why no configuration could be formed.
#[derive(Clone, Copy, Debug, PartialEq, Eq, Structural)]
pub enum ConfigError {
    /// Neither the command line nor the configuration file names an interface.
    MissingInterface,
}

/// The configuration used when there is no configuration file.
pub open spec fn fallback_view() -> ConfigView {
    ConfigView {
        server: "https://sitepi.cn"@,
        interface: Seq::<char>::empty(),
        provision_code: None,
        auto_route: false,
        log_level: "info"@,
        reconnect_config: ReconnectConfig { max_attempts: 5, base_delay_ms: 1000 },
    }
}

/// The configuration file's settings (or the fallback), each replaced by the
/// command line's where it gives one; the log level and the reconnect settings
/// come from the file alone.
pub open spec fn merged_view(file: Option<ConfigView>, cli: CliOverrides) -> ConfigView {
    let base = match file {
        Some(f) => f,
        None => fallback_view(),
    };
    ConfigView {
        server: match cli.server {
            Some(s) => s@,
            None => base.server,
        },
        interface: match cli.interface {
            Some(s) => s@,
            None => base.interface,
        },
        provision_code: match cli.provision {
            Some(s) => Some(s@),
            None => base.provision_code,
        },
        auto_route: match cli.route {
            Some(b) => b,
            None => base.auto_route,
        },
        log_level: base.log_level,
        reconnect_config: base.reconnect_config,
    }
}

/// The configuration used when there is no configuration file.
pub fn fallback_config() -> (c: Config)
    ensures
        c@ == fallback_view(),
{
    Config {
        server: "https://sitepi.cn".to_owned(),
        interface: String::new(),
        provision_code: None,
        auto_route: false,
        log_level: default_log_level(),
        reconnect_config: ReconnectConfig::default(),
    }
}

/// Forms the configuration from the configuration file (where there is one)
/// and the command line, and refuses it where it names no interface.
pub fn resolve_config(file: Option<Config>, cli: CliOverrides) -> (r: Result<Config, ConfigError>)
    ensures
        ({
            let m = merged_view(
                match file {
                    Some(f) => Some(f@),
                    None => None,
                },
                cli,
            );
            match r {
                Ok(c) => c@ == m && m.interface.len() > 0,
                Err(e) => e == ConfigError::MissingInterface && m.interface.len() == 0,
            }
        }),
{
    let base = match file {
        Some(f) => f,
        None => fallback_config(),
    };
    let server = match cli.server {
        Some(s) => s,
        None => base.server,
    };
    let interface = match cli.interface {
        Some(s) => s,
        None => base.interface,
    };
    let provision_code = match cli.provision {
        Some(s) => Some(s),
        None => base.provision_code,
    };
    let auto_route = match cli.route {
        Some(b) => b,
        None => base.auto_route,
    };
    if interface.as_str().is_empty() {
        return Err(ConfigError::MissingInterface);
    }
    Ok(
        Config {
            server,
            interface,
            provision_code,
            auto_route,
            log_level: base.log_level,
            reconnect_config: base.reconnect_config,
        },
    )
}


/// Each setting the command line gives wins over the configuration file and
/// the fallback, whatever they say; a setting it leaves out is taken from the
/// file (or the fallback). The log level and the reconnect settings always
/// come from the file (or the fallback).
pub proof fn lemma_command_line_wins(file: Option<ConfigView>, cli: CliOverrides)
    ensures
        ({
            let m = merged_view(file, cli);
            let base = match file {
                Some(f) => f,
                None => fallback_view(),
            };
            &&& forall|b: bool| cli.route == Some(b) ==> m.auto_route == b
            &&& cli.route is None ==> m.auto_route == base.auto_route
            &&& forall|s: String| cli.server == Some(s) ==> m.server == s@
            &&& cli.server is None ==> m.server == base.server
            &&& forall|s: String| cli.interface == Some(s) ==> m.interface == s@
            &&& cli.interface is None ==> m.interface == base.interface
            &&& forall|s: String| cli.provision == Some(s) ==> m.provision_code == Some(s@)
            &&& cli.provision is None ==> m.provision_code == base.provision_code
            &&& m.log_level == base.log_level
            &&& m.reconnect_config == base.reconnect_config
        }),
{
}

} // verus!
