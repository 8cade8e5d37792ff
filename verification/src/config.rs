//! Configuration from environment variables.

use vstd::prelude::*;
use vstd::string::*;

use crate::seating::text_view;
use crate::text::{digits_value, number_value, parse_number};

verus! {

/// The environment variables that the service reads; `None` where one is not
/// set.
#[derive(Debug)]
pub struct Environment {
    /// `PORT`
    pub port: Option<String>,
    /// `LOG_LEVEL`
    pub log_level: Option<String>,
    /// `LOG_FORMAT`
    pub log_format: Option<String>,
    /// `DATABASE_PATH`
    pub database_path: Option<String>,
    /// `DASHBOARD_SECRET`
    pub dashboard_secret: Option<String>,
    /// `TICKET_SECRET`
    pub ticket_secret: Option<String>,
    /// `BEN_URL`
    pub ben_url: Option<String>,
    /// `BBA_URL`
    pub bba_url: Option<String>,
    /// `BOT_TIMEOUT_MS`
    pub bot_timeout_ms: Option<String>,
}

/// How the service is set up.
#[derive(Debug)]
pub struct Config {
    /// HTTP listen port.
    pub port: u16,
    /// `debug` / `info` / `warn` / `error`
    pub log_level: String,
    /// `json` for prod, `pretty` for local dev.
    pub log_format: String,
    /// SQLite file path (observability events).
    pub database_path: String,
    /// Gate for the dashboard.
    pub dashboard_secret: String,
    /// HMAC key for join tickets, shared with the bridge-classroom API.
    pub ticket_secret: String,
    /// BEN cardplay engine. On the droplet set `BEN_URL=http://ben:8085`
    /// (same bridge-net docker network) instead of the public hostname.
    pub ben_url: String,
    /// BBA bidding engine (Windows-VM-hosted, public URL only).
    pub bba_url: String,
    /// Per-call budget for BEN cardplay requests, in milliseconds.
    pub bot_timeout_ms: u64,
}

/// What is wrong with the environment.
#[derive(Clone, Copy, Debug, PartialEq, Eq, Structural)]
pub enum ConfigError {
    Port,
    DashboardSecret,
    TicketSecret,
    BotTimeout,
}

impl ConfigError {
    pub open spec fn words(self) -> Seq<char> {
        match self {
            ConfigError::Port => "PORT"@,
            ConfigError::DashboardSecret => "DASHBOARD_SECRET is required"@,
            ConfigError::TicketSecret => "TICKET_SECRET is required"@,
            ConfigError::BotTimeout => "BOT_TIMEOUT_MS"@,
        }
    }

    /// What the operator is told.
    pub fn message(&self) -> (r: &'static str)
        ensures
            r@ == self.words(),
    {
        match self {
            ConfigError::Port => "PORT",
            ConfigError::DashboardSecret => "DASHBOARD_SECRET is required",
            ConfigError::TicketSecret => "TICKET_SECRET is required",
            ConfigError::BotTimeout => "BOT_TIMEOUT_MS",
        }
    }
}

/// The value of a variable, or what stands for it.
pub open spec fn or_default(value: Option<String>, default: Seq<char>) -> Seq<char> {
    match value {
        Some(v) => v@,
        None => default,
    }
}

/// The value of a variable, or what stands for it.
fn env_or(value: Option<String>, default: &str) -> (r: String)
    ensures
        r@ == or_default(value, default@),
{
    match value {
        Some(v) => v,
        None => default.to_owned(),
    }
}

/// The number that a variable gives, if it is one and not above a limit.
pub open spec fn number_in(value: Option<String>, default: Seq<char>, max: int) -> Option<nat> {
    match number_value(or_default(value, default)) {
        Some(n) => if n <= max {
            Some(n)
        } else {
            None
        },
        None => None,
    }
}

/// The first thing that is wrong with an environment.
pub open spec fn fault(env: Environment) -> Option<ConfigError> {
    if number_in(env.port, "8004"@, 65535) is None {
        Some(ConfigError::Port)
    } else if env.dashboard_secret is None {
        Some(ConfigError::DashboardSecret)
    } else if env.ticket_secret is None {
        Some(ConfigError::TicketSecret)
    } else if number_in(env.bot_timeout_ms, "20000"@, u64::MAX as int) is None {
        Some(ConfigError::BotTimeout)
    } else {
        None
    }
}

/// Whether a configuration is the one that an environment gives.
pub open spec fn configured(env: Environment, c: Config) -> bool {
    &&& number_in(env.port, "8004"@, 65535) == Some(c.port as nat)
    &&& c.log_level@ == or_default(env.log_level, "info"@)
    &&& c.log_format@ == or_default(env.log_format, "json"@)
    &&& c.database_path@ == or_default(env.database_path, "./data/bridge-table-service.db"@)
    &&& text_view(env.dashboard_secret) == Some(c.dashboard_secret@)
    &&& text_view(env.ticket_secret) == Some(c.ticket_secret@)
    &&& c.ben_url@ == or_default(env.ben_url, "https://ben.bridge-craftwork.com"@)
    &&& c.bba_url@ == or_default(env.bba_url, "https://bba.harmonicsystems.com"@)
    &&& number_in(env.bot_timeout_ms, "20000"@, u64::MAX as int) == Some(c.bot_timeout_ms as nat)
}

impl Config {
    /// Reads the configuration. The two secrets are required, and the numbers
    /// must be numbers; all else has a default.
    pub fn from_env(env: Environment) -> (r: Result<Config, ConfigError>)
        ensures
            match r {
                Err(e) => fault(env) == Some(e),
                Ok(c) => {
                    &&& fault(env) is None
                    &&& number_in(env.port, "8004"@, 65535) == Some(c.port as nat)
                    &&& c.log_level@ == or_default(env.log_level, "info"@)
                    &&& c.log_format@ == or_default(env.log_format, "json"@)
                    &&& c.database_path@ == or_default(
                        env.database_path,
                        "./data/bridge-table-service.db"@,
                    )
                    &&& text_view(env.dashboard_secret) == Some(c.dashboard_secret@)
                    &&& text_view(env.ticket_secret) == Some(c.ticket_secret@)
                    &&& c.ben_url@ == or_default(env.ben_url, "https://ben.bridge-craftwork.com"@)
                    &&& c.bba_url@ == or_default(env.bba_url, "https://bba.harmonicsystems.com"@)
                    &&& number_in(env.bot_timeout_ms, "20000"@, u64::MAX as int) == Some(
                        c.bot_timeout_ms as nat,
                    )
                    &&& configured(env, c)
                },
            },
    {
        let port: u64 = match parse_number(env_or(env.port, "8004").as_str(), 65535) {
            Some(port) => port,
            None => {
                return Err(ConfigError::Port);
            },
        };
        let dashboard_secret = match env.dashboard_secret {
            Some(secret) => secret,
            None => {
                return Err(ConfigError::DashboardSecret);
            },
        };
        let ticket_secret = match env.ticket_secret {
            Some(secret) => secret,
            None => {
                return Err(ConfigError::TicketSecret);
            },
        };
        let timeout = env_or(env.bot_timeout_ms, "20000");
        let bot_timeout_ms: u64 = match parse_number(timeout.as_str(), u64::MAX) {
            Some(ms) => ms,
            None => {
                return Err(ConfigError::BotTimeout);
            },
        };
        Ok(
            Config {
                port: port as u16,
                log_level: env_or(env.log_level, "info"),
                log_format: env_or(env.log_format, "json"),
                database_path: env_or(env.database_path, "./data/bridge-table-service.db"),
                dashboard_secret,
                ticket_secret,
                ben_url: env_or(env.ben_url, "https://ben.bridge-craftwork.com"),
                bba_url: env_or(env.bba_url, "https://bba.harmonicsystems.com"),
                bot_timeout_ms,
            },
        )
    }
}

/// A variable that is not set counts as its default. What it says is taken if it
/// is a number and not above the limit.
pub proof fn law_number_in(value: String, default: Seq<char>, max: int)
    ensures
        number_in(Some(value), default, max) == number_in(Some(value), value@, max),
        number_in(None, value@, max) == number_in(Some(value), default, max),
        number_in(Some(value), default, max) matches Some(n) ==> n <= max && number_value(value@)
            == Some(n),
        number_value(value@) matches Some(n) ==> (number_in(Some(value), default, max) is Some <==> n
            <= max),
        number_value(value@) is None ==> number_in(Some(value), default, max) is None,
{
}

/// What is wrong with an environment is told in the order of the variables; the
/// operator is told which one it is.
pub proof fn law_faults(env: Environment)
    ensures
        env.dashboard_secret is None || env.ticket_secret is None ==> fault(env) is Some,
        fault(env) == Some(ConfigError::DashboardSecret) ==> env.dashboard_secret is None,
        fault(env) == Some(ConfigError::TicketSecret) ==> env.ticket_secret is None
            && env.dashboard_secret is Some,
        fault(env) == Some(ConfigError::Port) <==> number_in(env.port, "8004"@, 65535) is None,
        fault(env) is None <==> env.dashboard_secret is Some && env.ticket_secret is Some
            && number_in(env.port, "8004"@, 65535) is Some && number_in(
            env.bot_timeout_ms,
            "20000"@,
            u64::MAX as int,
        ) is Some,
        ConfigError::Port.words() == "PORT"@ && ConfigError::BotTimeout.words()
            == "BOT_TIMEOUT_MS"@,
        ConfigError::DashboardSecret.words() == "DASHBOARD_SECRET is required"@,
        ConfigError::TicketSecret.words() == "TICKET_SECRET is required"@,
{
}

/// Each variable that is set sets what goes by its name.
pub proof fn law_settings(env: Environment, c: Config)
    requires
        configured(env, c),
    ensures
        env.port matches Some(v) ==> number_value(v@) == Some(c.port as nat),
        env.log_level matches Some(v) ==> c.log_level@ == v@,
        env.log_format matches Some(v) ==> c.log_format@ == v@,
        env.database_path matches Some(v) ==> c.database_path@ == v@,
        env.dashboard_secret matches Some(v) ==> c.dashboard_secret@ == v@,
        env.ticket_secret matches Some(v) ==> c.ticket_secret@ == v@,
        env.ben_url matches Some(v) ==> c.ben_url@ == v@,
        env.bba_url matches Some(v) ==> c.bba_url@ == v@,
        env.bot_timeout_ms matches Some(v) ==> number_value(v@) == Some(c.bot_timeout_ms as nat),
{
}

/// What holds of a variable that is not set, whatever the others say.
pub proof fn law_defaults(env: Environment, c: Config)
    requires
        configured(env, c),
    ensures
        env.port is None ==> c.port == 8004,
        env.log_level is None ==> c.log_level@ == "info"@,
        env.log_format is None ==> c.log_format@ == "json"@,
        env.database_path is None ==> c.database_path@ == "./data/bridge-table-service.db"@,
        env.ben_url is None ==> c.ben_url@ == "https://ben.bridge-craftwork.com"@,
        env.bba_url is None ==> c.bba_url@ == "https://bba.harmonicsystems.com"@,
        env.bot_timeout_ms is None ==> c.bot_timeout_ms == 20_000,
{
    lemma_port_and_timeout();
}

/// A digit behind a number counts once, and the number ten times.
proof fn lemma_digit_behind(s: Seq<char>, n: nat, c: char)
    requires
        digits_value(s) == Some(n),
        '0' <= c <= '9',
    ensures
        digits_value(s.push(c)) == Some((10 * n + (c as u32 - '0' as u32)) as nat),
{
    assert(s.push(c).drop_last() =~= s);
}

/// What the default numbers spell.
proof fn lemma_port_and_timeout()
    ensures
        number_value("8004"@) == Some(8004nat),
        number_value("20000"@) == Some(20000nat),
{
    reveal_strlit("8004");
    reveal_strlit("20000");
    let none = Seq::<char>::empty();
    assert(digits_value(none) == Some(0nat));
    lemma_digit_behind(none, 0, '8');
    lemma_digit_behind(none.push('8'), 8, '0');
    lemma_digit_behind(none.push('8').push('0'), 80, '0');
    lemma_digit_behind(none.push('8').push('0').push('0'), 800, '4');
    assert("8004"@ =~= none.push('8').push('0').push('0').push('4'));
    lemma_digit_behind(none, 0, '2');
    lemma_digit_behind(none.push('2'), 2, '0');
    lemma_digit_behind(none.push('2').push('0'), 20, '0');
    lemma_digit_behind(none.push('2').push('0').push('0'), 200, '0');
    lemma_digit_behind(none.push('2').push('0').push('0').push('0'), 2000, '0');
    assert("20000"@ =~= none.push('2').push('0').push('0').push('0').push('0'));
}

} // verus!
