//! The relay's configuration, read from environment variables.
use crate::chars::{chars_of, decimal, optional_text, parse_decimal, same_text, text_of};
use crate::codec::{lowercase, to_lowercase, to_uppercase, uppercase};
use crate::map::Variables;
use crate::text::{join, joined, views};
use vstd::prelude::*;
use vstd::string::StringExecFns;

verus! {

/// The relay's configuration.
#[derive(Debug, Clone)]
pub struct Config {
    pub relay_host: String,
    pub relay_port: u16,
    pub relay_username: Option<String>,
    pub relay_password: Option<String>,
    pub tls_enabled: bool,
    pub tls_cert: String,
    pub tls_key: String,
    pub sl_api_url: String,
    pub sl_api_key: Option<String>,
    pub upstream_host: String,
    pub upstream_port: u16,
    pub upstream_username: Option<String>,
    pub upstream_password: Option<String>,
    pub upstream_starttls: bool,
    pub data_timeout: u64,
    pub upstream_timeout: u64,
    pub log_level: String,
}

/// What a [`Config`] holds.
#[verifier::ext_equal]
pub struct ConfigView {
    pub relay_host: Seq<char>,
    pub relay_port: u16,
    pub relay_username: Option<Seq<char>>,
    pub relay_password: Option<Seq<char>>,
    pub tls_enabled: bool,
    pub tls_cert: Seq<char>,
    pub tls_key: Seq<char>,
    pub sl_api_url: Seq<char>,
    pub sl_api_key: Option<Seq<char>>,
    pub upstream_host: Seq<char>,
    pub upstream_port: u16,
    pub upstream_username: Option<Seq<char>>,
    pub upstream_password: Option<Seq<char>>,
    pub upstream_starttls: bool,
    pub data_timeout: u64,
    pub upstream_timeout: u64,
    pub log_level: Seq<char>,
}

impl View for Config {
    type V = ConfigView;

    open spec fn view(&self) -> ConfigView {
        ConfigView {
            relay_host: self.relay_host@,
            relay_port: self.relay_port,
            relay_username: optional_text(self.relay_username),
            relay_password: optional_text(self.relay_password),
            tls_enabled: self.tls_enabled,
            tls_cert: self.tls_cert@,
            tls_key: self.tls_key@,
            sl_api_url: self.sl_api_url@,
            sl_api_key: optional_text(self.sl_api_key),
            upstream_host: self.upstream_host@,
            upstream_port: self.upstream_port,
            upstream_username: optional_text(self.upstream_username),
            upstream_password: optional_text(self.upstream_password),
            upstream_starttls: self.upstream_starttls,
            data_timeout: self.data_timeout,
            upstream_timeout: self.upstream_timeout,
            log_level: self.log_level@,
        }
    }
}

/// The value of a variable, or the default where it is not set.
pub open spec fn text_or(
    vars: Map<Seq<char>, Seq<char>>,
    key: Seq<char>,
    default: Seq<char>,
) -> Seq<char> {
    if vars.contains_key(key) {
        vars[key]
    } else {
        default
    }
}

/// The value of a variable that is set to a text that is not empty.
pub open spec fn text_if_set(vars: Map<Seq<char>, Seq<char>>, key: Seq<char>) -> Option<
    Seq<char>,
> {
    if vars.contains_key(key) && vars[key].len() > 0 {
        Some(vars[key])
    } else {
        None
    }
}

/// Whether a variable is set to `true`, in any letter case, or the default where it is not set.
pub open spec fn flag_or(
    vars: Map<Seq<char>, Seq<char>>,
    key: Seq<char>,
    default: bool,
) -> bool {
    if vars.contains_key(key) {
        lowercase(vars[key]) == "true"@
    } else {
        default
    }
}

/// The number that a variable is set to, or the default where it is not set to a number from zero
/// to `max`.
pub open spec fn number_or(
    vars: Map<Seq<char>, Seq<char>>,
    key: Seq<char>,
    max: nat,
    default: nat,
) -> nat {
    if vars.contains_key(key) && decimal(vars[key], max) is Some {
        decimal(vars[key], max)->0
    } else {
        default
    }
}

/// The configuration that the environment variables give.
pub open spec fn config_of(vars: Map<Seq<char>, Seq<char>>) -> ConfigView {
    ConfigView {
        relay_host: text_or(vars, "RELAY_HOST"@, "0.0.0.0"@),
        relay_port: number_or(vars, "RELAY_PORT"@, u16::MAX as nat, 8025) as u16,
        relay_username: text_if_set(vars, "RELAY_USERNAME"@),
        relay_password: text_if_set(vars, "RELAY_PASSWORD"@),
        tls_enabled: flag_or(vars, "TLS_ENABLED"@, false),
        tls_cert: text_or(vars, "TLS_CERT"@, ""@),
        tls_key: text_or(vars, "TLS_KEY"@, ""@),
        sl_api_url: text_or(vars, "SL_API_URL"@, "https://app.simplelogin.io"@),
        sl_api_key: text_if_set(vars, "SL_API_KEY"@),
        upstream_host: text_or(vars, "UPSTREAM_HOST"@, "smtp.gmail.com"@),
        upstream_port: number_or(vars, "UPSTREAM_PORT"@, u16::MAX as nat, 587) as u16,
        upstream_username: text_if_set(vars, "UPSTREAM_USERNAME"@),
        upstream_password: text_if_set(vars, "UPSTREAM_PASSWORD"@),
        upstream_starttls: flag_or(vars, "UPSTREAM_STARTTLS"@, true),
        data_timeout: number_or(vars, "DATA_TIMEOUT"@, u64::MAX as nat, 30) as u64,
        upstream_timeout: number_or(vars, "UPSTREAM_TIMEOUT"@, u64::MAX as nat, 15) as u64,
        log_level: uppercase(text_or(vars, "LOG_LEVEL"@, "INFO"@)),
    }
}

impl ConfigView {
    /// The name, if the variable is missing.
    pub open spec fn name_if_missing(value: Option<Seq<char>>, name: Seq<char>) -> Seq<Seq<char>> {
        if value is None {
            seq![name]
        } else {
            Seq::empty()
        }
    }

    /// The names of the required variables that are missing, in a fixed order.
    pub open spec fn missing(self) -> Seq<Seq<char>> {
        Self::name_if_missing(self.relay_username, "RELAY_USERNAME"@) + Self::name_if_missing(
            self.relay_password,
            "RELAY_PASSWORD"@,
        ) + Self::name_if_missing(self.sl_api_key, "SL_API_KEY"@) + Self::name_if_missing(
            self.upstream_username,
            "UPSTREAM_USERNAME"@,
        ) + Self::name_if_missing(self.upstream_password, "UPSTREAM_PASSWORD"@)
    }

    /// TLS is enabled without a certificate or without a key.
    pub open spec fn lacks_tls_files(self) -> bool {
        self.tls_enabled && (self.tls_cert.len() == 0 || self.tls_key.len() == 0)
    }

    /// The relay can run with this configuration.
    pub open spec fn is_valid(self) -> bool {
        &&& self.relay_username is Some
        &&& self.relay_password is Some
        &&& self.sl_api_key is Some
        &&& self.upstream_username is Some
        &&& self.upstream_password is Some
        &&& !self.lacks_tls_files()
    }
}

/// The texts of string slices.
pub open spec fn slice_texts(v: Seq<&'static str>) -> Seq<Seq<char>> {
    v.map_values(|s: &'static str| s@)
}

/// Whether a variable is set to `true`, in any letter case, or the default where it is not set.
fn env_bool(vars: &Variables, key: &str, default: bool) -> (r: bool)
    ensures
        r == flag_or(vars@, key@, default),
{
    match vars.get(key) {
        Some(v) => same_text(to_lowercase(v.as_str()).as_str(), "true"),
        None => default,
    }
}

/// The value of a variable, or the default where it is not set.
fn env_string(vars: &Variables, key: &str, default: &str) -> (r: String)
    ensures
        r@ == text_or(vars@, key@, default@),
{
    match vars.get(key) {
        Some(v) => v.clone(),
        None => default.to_owned(),
    }
}

/// The value of a variable that is set to a text that is not empty.
fn env_opt(vars: &Variables, key: &str) -> (r: Option<String>)
    ensures
        optional_text(r) == text_if_set(vars@, key@),
{
    match vars.get(key) {
        Some(v) => if v.as_str().is_empty() {
            None
        } else {
            Some(v.clone())
        },
        None => None,
    }
}

/// The port that a variable is set to, or the default.
fn env_u16(vars: &Variables, key: &str, default: u16) -> (r: u16)
    ensures
        r == number_or(vars@, key@, u16::MAX as nat, default as nat),
{
    match vars.get(key) {
        Some(v) => match parse_decimal(v.as_str(), u16::MAX as u64) {
            Some(n) => n as u16,
            None => default,
        },
        None => default,
    }
}

/// The number that a variable is set to, or the default.
fn env_u64(vars: &Variables, key: &str, default: u64) -> (r: u64)
    ensures
        r == number_or(vars@, key@, u64::MAX as nat, default as nat),
{
    match vars.get(key) {
        Some(v) => match parse_decimal(v.as_str(), u64::MAX) {
            Some(n) => n,
            None => default,
        },
        None => default,
    }
}

impl Config {
    /// Reads the configuration from environment variables.
    pub fn from_env(vars: &Variables) -> (r: Config)
        ensures
            r@ == config_of(vars@),
    {
        Config {
            relay_host: env_string(vars, "RELAY_HOST", "0.0.0.0"),
            relay_port: env_u16(vars, "RELAY_PORT", 8025),
            relay_username: env_opt(vars, "RELAY_USERNAME"),
            relay_password: env_opt(vars, "RELAY_PASSWORD"),
            tls_enabled: env_bool(vars, "TLS_ENABLED", false),
            tls_cert: env_string(vars, "TLS_CERT", ""),
            tls_key: env_string(vars, "TLS_KEY", ""),
            sl_api_url: env_string(vars, "SL_API_URL", "https://app.simplelogin.io"),
            sl_api_key: env_opt(vars, "SL_API_KEY"),
            upstream_host: env_string(vars, "UPSTREAM_HOST", "smtp.gmail.com"),
            upstream_port: env_u16(vars, "UPSTREAM_PORT", 587),
            upstream_username: env_opt(vars, "UPSTREAM_USERNAME"),
            upstream_password: env_opt(vars, "UPSTREAM_PASSWORD"),
            upstream_starttls: env_bool(vars, "UPSTREAM_STARTTLS", true),
            data_timeout: env_u64(vars, "DATA_TIMEOUT", 30),
            upstream_timeout: env_u64(vars, "UPSTREAM_TIMEOUT", 15),
            log_level: to_uppercase(env_string(vars, "LOG_LEVEL", "INFO").as_str()),
        }
    }

    /// Checks that the required variables are set, and that TLS, where it is enabled, has its
    /// certificate and its key. The error names what is missing.
    pub fn validate(&self) -> (r: Result<(), Vec<&'static str>>)
        ensures
            r is Ok <==> self@.is_valid(),
            r matches Err(names) ==> slice_texts(names@) == if self@.missing().len() > 0 {
                self@.missing()
            } else {
                seq!["TLS_CERT_OR_KEY"@]
            },
    {
        let mut missing: Vec<&'static str> = Vec::new();
        if self.relay_username.is_none() {
            missing.push("RELAY_USERNAME");
        }
        if self.relay_password.is_none() {
            missing.push("RELAY_PASSWORD");
        }
        if self.sl_api_key.is_none() {
            missing.push("SL_API_KEY");
        }
        if self.upstream_username.is_none() {
            missing.push("UPSTREAM_USERNAME");
        }
        if self.upstream_password.is_none() {
            missing.push("UPSTREAM_PASSWORD");
        }
        assert(slice_texts(missing@) =~= self@.missing());
        if missing.len() > 0 {
            return Err(missing);
        }
        if self.tls_enabled && (self.tls_cert.as_str().is_empty()
            || self.tls_key.as_str().is_empty()) {
            let mut names: Vec<&'static str> = Vec::new();
            names.push("TLS_CERT_OR_KEY");
            assert(slice_texts(names@) =~= seq!["TLS_CERT_OR_KEY"@]);
            return Err(names);
        }
        Ok(())
    }
}

/// What is wrong with a configuration, in words, given the names that its check came back with.
pub open spec fn problem_text(names: Seq<Seq<char>>) -> Seq<char> {
    if names == seq!["TLS_CERT_OR_KEY"@] {
        "TLS_ENABLED=true but TLS_CERT or TLS_KEY not set"@
    } else {
        "Missing required env vars: "@ + joined(names, ", "@)
    }
}

/// What is wrong with a configuration, in words.
pub fn startup_error(names: &Vec<&'static str>) -> (r: String)
    ensures
        r@ == problem_text(slice_texts(names@)),
{
    let ghost all = slice_texts(names@);
    if names.len() == 1 && same_text(names[0], "TLS_CERT_OR_KEY") {
        assert(all =~= seq!["TLS_CERT_OR_KEY"@]);
        return "TLS_ENABLED=true but TLS_CERT or TLS_KEY not set".to_owned();
    }
    assert(all != seq!["TLS_CERT_OR_KEY"@]) by {
        if all == seq!["TLS_CERT_OR_KEY"@] {
            assert(all.len() == 1 && all[0] == names@[0]@);
        }
    }
    let mut parts: Vec<Vec<char>> = Vec::new();
    let mut i: usize = 0;
    while i < names.len()
        invariant
            i <= names.len(),
            all == slice_texts(names@),
            views(parts@) == all.take(i as int),
        decreases names.len() - i,
    {
        let ghost before = parts@;
        let part = chars_of(names[i]);
        let ghost v = part@;
        parts.push(part);
        assert(views(parts@) =~= views(before).push(v));
        assert(views(parts@) =~= all.take(i + 1));
        i += 1;
    }
    assert(all.take(i as int) =~= all);
    let list = join(&parts, chars_of(", ").as_slice());
    let mut r: String = "Missing required env vars: ".to_owned();
    r.append(text_of(list.as_slice()).as_str());
    r
}

} // verus!
