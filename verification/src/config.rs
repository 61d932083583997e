//! Service configuration: the checks made on the configured values, the log
//! level, and the MQTT broker connection settings derived from them.

use vstd::prelude::*;
use crate::text::{chars_of, str_equal};

verus! {

/// The configuration of the service.
#[derive(Debug, Clone)]
pub struct AppConfig {
    pub mqtt_broker_url: String,
    pub mqtt_username: Option<String>,
    pub mqtt_password: Option<String>,
    pub mqtt_check_cert: bool,
}

/// Why a configuration was refused.
#[derive(Debug, Clone, Copy, PartialEq, Eq)]
pub enum ConfigError {
    /// No broker URL was configured.
    MissingBrokerUrl,
    /// The broker URL does not start with `mqtt://` or `mqtts://`.
    InvalidBrokerScheme,
    /// A password was configured without a username.
    PasswordWithoutUsername,
    /// The broker URL could not be parsed.
    InvalidBrokerUrl,
    /// The broker URL names no host.
    MissingBrokerHost,
    /// The log level is none of trace, debug, info, warn, error.
    InvalidLogLevel,
}

/// Log verbosity.
#[derive(Debug, Clone, Copy, PartialEq, Eq)]
pub enum LogLevel {
    Trace,
    Debug,
    Info,
    Warn,
    Error,
}

/// `c` with ASCII upper-case letters lowered.
pub open spec fn ascii_lower(c: char) -> char {
    if 'A' <= c && c <= 'Z' { ((c as int) + 32) as char } else { c }
}

/// `s` with ASCII upper-case letters lowered.
pub open spec fn ascii_lowercase(s: Seq<char>) -> Seq<char> {
    Seq::new(s.len(), |i: int| ascii_lower(s[i]))
}

/// `a` and `b` are equal when ASCII case is ignored.
pub open spec fn eq_ignore_ascii_case(a: Seq<char>, b: Seq<char>) -> bool {
    ascii_lowercase(a) == ascii_lowercase(b)
}

/// `s` begins with `prefix`.
pub open spec fn starts_with(s: Seq<char>, prefix: Seq<char>) -> bool {
    prefix.len() <= s.len() && s.take(prefix.len() as int) == prefix
}

/// The value, when it is present and not empty.
pub open spec fn non_empty_value(v: Option<String>) -> Option<String> {
    match v {
        Some(s) => if s@.len() > 0 { Some(s) } else { None },
        None => None,
    }
}

/// The log level that a value names, ignoring ASCII case.
pub open spec fn spec_log_level(value: Seq<char>) -> Option<LogLevel> {
    let l = ascii_lowercase(value);
    if l == "trace"@ {
        Some(LogLevel::Trace)
    } else if l == "debug"@ {
        Some(LogLevel::Debug)
    } else if l == "info"@ {
        Some(LogLevel::Info)
    } else if l == "warn"@ {
        Some(LogLevel::Warn)
    } else if l == "error"@ {
        Some(LogLevel::Error)
    } else {
        None
    }
}

fn lower_char(c: char) -> (res: char)
    ensures
        res == ascii_lower(c),
{
    if 'A' <= c && c <= 'Z' {
        ((c as u32) + 32) as u8 as char
    } else {
        c
    }
}

fn lowercase_chars(s: &str) -> (res: Vec<char>)
    ensures
        res@ == ascii_lowercase(s@),
{
    let cs = chars_of(s);
    let mut res: Vec<char> = Vec::new();
    let mut i: usize = 0;
    while i < cs.len()
        invariant
            cs@ == s@,
            i <= cs@.len(),
            res@ == ascii_lowercase(s@).take(i as int),
        decreases cs@.len() - i,
    {
        res.push(lower_char(cs[i]));
        i = i + 1;
        assert(res@ =~= ascii_lowercase(s@).take(i as int));
    }
    assert(res@ =~= ascii_lowercase(s@));
    res
}

fn chars_equal(a: &Vec<char>, b: &Vec<char>) -> (res: bool)
    ensures
        res == (a@ == b@),
{
    if a.len() != b.len() {
        return false;
    }
    let mut i: usize = 0;
    while i < a.len()
        invariant
            a@.len() == b@.len(),
            i <= a@.len(),
            forall|j: int| 0 <= j < i ==> a@[j] == b@[j],
        decreases a@.len() - i,
    {
        if a[i] != b[i] {
            return false;
        }
        i = i + 1;
    }
    assert(a@ =~= b@);
    true
}

fn str_starts_with(s: &str, prefix: &str) -> (res: bool)
    ensures
        res == starts_with(s@, prefix@),
{
    let cs = chars_of(s);
    let ps = chars_of(prefix);
    if ps.len() > cs.len() {
        return false;
    }
    let mut i: usize = 0;
    while i < ps.len()
        invariant
            cs@ == s@,
            ps@ == prefix@,
            ps@.len() <= cs@.len(),
            i <= ps@.len(),
            forall|j: int| 0 <= j < i ==> cs@[j] == ps@[j],
        decreases ps@.len() - i,
    {
        if cs[i] != ps[i] {
            assert(s@.take(prefix@.len() as int)[i as int] != prefix@[i as int]);
            return false;
        }
        i = i + 1;
    }
    assert(s@.take(prefix@.len() as int) =~= prefix@);
    true
}

/// Reads a log level name, ignoring ASCII case.
pub fn parse_log_level(value: &str) -> (res: Result<LogLevel, ConfigError>)
    ensures
        match spec_log_level(value@) {
            Some(l) => res == Ok::<LogLevel, ConfigError>(l),
            None => res == Err::<LogLevel, ConfigError>(ConfigError::InvalidLogLevel),
        },
{
    let l = lowercase_chars(value);
    if chars_equal(&l, &chars_of("trace")) {
        Ok(LogLevel::Trace)
    } else if chars_equal(&l, &chars_of("debug")) {
        Ok(LogLevel::Debug)
    } else if chars_equal(&l, &chars_of("info")) {
        Ok(LogLevel::Info)
    } else if chars_equal(&l, &chars_of("warn")) {
        Ok(LogLevel::Warn)
    } else if chars_equal(&l, &chars_of("error")) {
        Ok(LogLevel::Error)
    } else {
        Err(ConfigError::InvalidLogLevel)
    }
}

fn non_empty(value: Option<String>) -> (res: Option<String>)
    ensures
        res == non_empty_value(value),
{
    match value {
        Some(s) => {
            if s.as_str().is_empty() {
                None
            } else {
                Some(s)
            }
        },
        None => None,
    }
}

impl AppConfig {
    /// Checks and assembles the configuration from the configured values
    /// (`None` for a value that is not set): the broker URL is required and
    /// must use the `mqtt` or `mqtts` scheme, empty credentials count as
    /// unset, a password needs a username, and certificates are checked
    /// unless the check setting reads `false` in any ASCII case.
    pub fn from_values(
        mqtt_broker_url: Option<String>,
        mqtt_username: Option<String>,
        mqtt_password: Option<String>,
        mqtt_check_cert: Option<String>,
    ) -> (res: Result<AppConfig, ConfigError>)
        ensures
            match mqtt_broker_url {
                None => res == Err::<AppConfig, ConfigError>(ConfigError::MissingBrokerUrl),
                Some(url) => if !(starts_with(url@, "mqtt://"@) || starts_with(url@, "mqtts://"@)) {
                    res == Err::<AppConfig, ConfigError>(ConfigError::InvalidBrokerScheme)
                } else if non_empty_value(mqtt_password) is Some && non_empty_value(mqtt_username) is None {
                    res == Err::<AppConfig, ConfigError>(ConfigError::PasswordWithoutUsername)
                } else {
                    res matches Ok(c) && {
                        &&& c.mqtt_broker_url == url
                        &&& c.mqtt_username == non_empty_value(mqtt_username)
                        &&& c.mqtt_password == non_empty_value(mqtt_password)
                        &&& c.mqtt_check_cert == match mqtt_check_cert {
                            Some(v) => !eq_ignore_ascii_case(v@, "false"@),
                            None => true,
                        }
                    }
                },
            },
    {
        let url = match mqtt_broker_url {
            Some(url) => url,
            None => return Err(ConfigError::MissingBrokerUrl),
        };
        if !str_starts_with(url.as_str(), "mqtt://") && !str_starts_with(url.as_str(), "mqtts://") {
            return Err(ConfigError::InvalidBrokerScheme);
        }
        let username = non_empty(mqtt_username);
        let password = non_empty(mqtt_password);
        if password.is_some() && username.is_none() {
            return Err(ConfigError::PasswordWithoutUsername);
        }
        let check_cert = match &mqtt_check_cert {
            Some(v) => {
                let lowered = lowercase_chars(v.as_str());
                let expected = lowercase_chars("false");
                !chars_equal(&lowered, &expected)
            },
            None => true,
        };
        Ok(AppConfig {
            mqtt_broker_url: url,
            mqtt_username: username,
            mqtt_password: password,
            mqtt_check_cert: check_cert,
        })
    }
}


/// How the broker connection is secured.
#[derive(Debug, Clone, Copy, PartialEq, Eq)]
pub enum TlsMode {
    /// Plain TCP (`mqtt://`).
    Plain,
    /// TLS with certificate and host name checks (`mqtts://`).
    Verified,
    /// TLS accepting any certificate and host name (`mqtts://` with the
    /// certificate check switched off).
    AcceptInvalidCerts,
}

/// Everything the MQTT client needs to reach the broker.
#[derive(Debug, Clone)]
pub struct BrokerSettings {
    pub host: String,
    pub port: u16,
    /// Username and password; the password is empty when only a username is set.
    pub credentials: Option<(String, String)>,
    pub tls: TlsMode,
    /// Seconds between keep-alive pings to the broker.
    pub keep_alive_secs: u64,
}

/// Keep-alive interval of the broker connection, in seconds.
pub const MQTT_KEEP_ALIVE_SECS: u64 = 30;

/// The parts of a parsed broker URL that the connection needs.
#[derive(Debug, Clone)]
pub struct UrlParts {
    pub scheme: String,
    pub host: Option<String>,
    pub port: Option<u16>,
}

/// `url::ParseError`, carried as an opaque value.
#[verifier::external_type_specification]
#[verifier::external_body]
pub struct ExUrlParseError(url::ParseError);

/// Whether `url::Url::parse` accepts the input.
pub uninterp spec fn url_parses(input: Seq<char>) -> bool;

/// `Url::scheme` of the URL that `url::Url::parse` makes of the input.
pub uninterp spec fn url_scheme(input: Seq<char>) -> Seq<char>;

/// `Url::host_str` of the URL that `url::Url::parse` makes of the input.
pub uninterp spec fn url_host(input: Seq<char>) -> Option<Seq<char>>;

/// `Url::port` of the URL that `url::Url::parse` makes of the input.
pub uninterp spec fn url_port(input: Seq<char>) -> Option<u16>;

/// Parses a URL with `url::Url::parse` and reads its scheme (`Url::scheme`),
/// host (`Url::host_str`) and explicit port (`Url::port`). Claimed: success
/// and the three parts are the named functions of the input, and the scheme
/// is lower-case ASCII, as `Url::scheme` documents. Which inputs parse, and
/// into what, is left to the names.
#[verifier::external_body]
fn parse_broker_url(input: &str) -> (res: Result<UrlParts, url::ParseError>)
    ensures
        res is Ok <==> url_parses(input@),
        res matches Ok(p) ==> {
            &&& p.scheme@ == url_scheme(input@)
            &&& ascii_lowercase(p.scheme@) == p.scheme@
            &&& (p.host is Some <==> url_host(input@) is Some)
            &&& (p.host matches Some(h) ==> url_host(input@) == Some(h@))
            &&& p.port == url_port(input@)
        },
{
    let url = url::Url::parse(input)?;
    Ok(UrlParts {
        scheme: url.scheme().to_owned(),
        host: url.host_str().map(|h| h.to_owned()),
        port: url.port(),
    })
}

/// `res` is the broker settings for `config` given the scheme, host and port
/// of its URL.
pub open spec fn broker_settings_for(
    config: AppConfig,
    scheme: Seq<char>,
    host: Option<Seq<char>>,
    port: Option<u16>,
    res: Result<BrokerSettings, ConfigError>,
) -> bool {
    if scheme != "mqtt"@ && scheme != "mqtts"@ {
        res == Err::<BrokerSettings, ConfigError>(ConfigError::InvalidBrokerScheme)
    } else if host is None {
        res == Err::<BrokerSettings, ConfigError>(ConfigError::MissingBrokerHost)
    } else {
        res matches Ok(b) && {
            &&& Some(b.host@) == host
            &&& b.port == match port {
                Some(p) => p,
                None => if scheme == "mqtt"@ { 1883u16 } else { 8883u16 },
            }
            &&& b.keep_alive_secs == MQTT_KEEP_ALIVE_SECS
            &&& b.tls == if scheme == "mqtt"@ {
                TlsMode::Plain
            } else if config.mqtt_check_cert {
                TlsMode::Verified
            } else {
                TlsMode::AcceptInvalidCerts
            }
            &&& match config.mqtt_username {
                Some(u) => b.credentials matches Some(c) && c.0@ == u@ && c.1@ == match config.mqtt_password {
                    Some(p) => p@,
                    None => Seq::<char>::empty(),
                },
                None => b.credentials is None,
            }
        }
    }
}


/// Broker settings from the configuration and the parsed broker URL: the
/// scheme decides the default port (1883 for `mqtt`, 8883 for `mqtts`) and
/// the transport, the URL must name a host, an explicit port wins, and a
/// username brings its password (empty when none is set); the connection
/// keeps alive every 30 seconds. `None` stands
/// for a URL that could not be parsed.
pub fn broker_settings_from_url(
    config: &AppConfig,
    parsed: Option<UrlParts>,
) -> (res: Result<BrokerSettings, ConfigError>)
    ensures
        match parsed {
            None => res == Err::<BrokerSettings, ConfigError>(ConfigError::InvalidBrokerUrl),
            Some(p) => broker_settings_for(
                *config,
                p.scheme@,
                match p.host {
                    Some(h) => Some(h@),
                    None => None,
                },
                p.port,
                res,
            ),
        },
{
    let parts = match parsed {
        Some(parts) => parts,
        None => return Err(ConfigError::InvalidBrokerUrl),
    };
    let is_plain = str_equal(parts.scheme.as_str(), "mqtt");
    let is_tls = str_equal(parts.scheme.as_str(), "mqtts");
    let default_port: u16 = if is_plain {
        1883
    } else if is_tls {
        8883
    } else {
        return Err(ConfigError::InvalidBrokerScheme);
    };
    let host = match parts.host {
        Some(h) => h,
        None => return Err(ConfigError::MissingBrokerHost),
    };
    let port = match parts.port {
        Some(p) => p,
        None => default_port,
    };
    let credentials = match &config.mqtt_username {
        Some(u) => {
            let password = match &config.mqtt_password {
                Some(p) => p.clone(),
                None => String::new(),
            };
            Some((u.clone(), password))
        },
        None => None,
    };
    let tls = if is_plain {
        TlsMode::Plain
    } else if config.mqtt_check_cert {
        TlsMode::Verified
    } else {
        TlsMode::AcceptInvalidCerts
    };
    Ok(BrokerSettings { host, port, credentials, tls, keep_alive_secs: MQTT_KEEP_ALIVE_SECS })
}

/// Broker settings for a configuration: its URL parsed with the `url` crate,
/// then `broker_settings_from_url`.
pub fn broker_settings(config: &AppConfig) -> (res: Result<BrokerSettings, ConfigError>)
    ensures
        ({
            let u = config.mqtt_broker_url@;
            if url_parses(u) {
                broker_settings_for(*config, url_scheme(u), url_host(u), url_port(u), res)
            } else {
                res == Err::<BrokerSettings, ConfigError>(ConfigError::InvalidBrokerUrl)
            }
        }),
{
    let parsed = match parse_broker_url(config.mqtt_broker_url.as_str()) {
        Ok(parts) => Some(parts),
        Err(_) => None,
    };
    broker_settings_from_url(config, parsed)
}

/// A broker URL with an `mqtt` or `mqtts` scheme and a host always gives
/// settings for that host. Without an explicit port, `mqtt` is reached on
/// port 1883 and `mqtts` on 8883; an explicit port is kept. `mqtt` is plain
/// TCP and `mqtts` is TLS, checking certificates unless the check is off.
pub proof fn lemma_broker_ports(
    config: AppConfig,
    scheme: Seq<char>,
    host: Seq<char>,
    port: Option<u16>,
    res: Result<BrokerSettings, ConfigError>,
)
    requires
        broker_settings_for(config, scheme, Some(host), port, res),
        scheme == "mqtt"@ || scheme == "mqtts"@,
    ensures
        res is Ok,
        res->Ok_0.host@ == host,
        res->Ok_0.keep_alive_secs == 30,
        port matches Some(p) ==> res->Ok_0.port == p,
        scheme == "mqtt"@ && port is None ==> res->Ok_0.port == 1883,
        scheme == "mqtts"@ && port is None ==> res->Ok_0.port == 8883,
        scheme == "mqtt"@ ==> res->Ok_0.tls == TlsMode::Plain,
        scheme == "mqtts"@ ==> res->Ok_0.tls == (if config.mqtt_check_cert { TlsMode::Verified } else { TlsMode::AcceptInvalidCerts }),
{
    reveal_strlit("mqtt");
    reveal_strlit("mqtts");
    assert("mqtt"@ != "mqtts"@) by {
        assert("mqtt"@.len() != "mqtts"@.len());
    }
}

} // verus!
