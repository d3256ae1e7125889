//! Configuration data the surrounding layers hand to the server, and the
//! logging middleware's decisions.

use vstd::prelude::*;

use crate::status::{spec_is_client_error, spec_is_server_error};

verus! {

/// Keys whose values must be sanitized before they are shown.
pub struct ConfigurationProperties {
    pub keys_sanitize: Vec<String>,
    pub additional_keys_sanitize: Vec<String>,
}

impl ConfigurationProperties {
    /// No keys registered.
    pub fn new() -> (r: ConfigurationProperties)
        ensures
            r.keys_sanitize@.len() == 0,
            r.additional_keys_sanitize@.len() == 0,
    {
        ConfigurationProperties { keys_sanitize: Vec::new(), additional_keys_sanitize: Vec::new() }
    }

    /// The keys to sanitize.
    pub fn get_keys_sanitize(&self) -> (r: &Vec<String>)
        ensures
            r == &self.keys_sanitize,
    {
        &self.keys_sanitize
    }

    /// Replace the keys to sanitize.
    pub fn set_keys_sanitize(&mut self, keys_sanitize: Vec<String>)
        ensures
            final(self).keys_sanitize == keys_sanitize,
            final(self).additional_keys_sanitize == old(self).additional_keys_sanitize,
    {
        self.keys_sanitize = keys_sanitize;
    }

    /// The additional keys to sanitize.
    pub fn get_additional_keys_sanitize(&self) -> (r: &Vec<String>)
        ensures
            r == &self.additional_keys_sanitize,
    {
        &self.additional_keys_sanitize
    }

    /// Replace the additional keys to sanitize.
    pub fn set_additional_keys_sanitize(&mut self, additional_keys_sanitize: Vec<String>)
        ensures
            final(self).additional_keys_sanitize == additional_keys_sanitize,
            final(self).keys_sanitize == old(self).keys_sanitize,
    {
        self.additional_keys_sanitize = additional_keys_sanitize;
    }
}

/// How strongly a server asks clients to authenticate.
#[derive(Debug, Copy, Clone, Eq, PartialEq, Structural)]
pub enum ClientAuth {
    /// Client authentication is not wanted.
    NONE,
    /// Client authentication is wanted but not mandatory.
    WANT,
    /// Client authentication is needed and mandatory.
    NEED,
}

/// TLS settings as the configuration layer provides them.
#[derive(Debug)]
pub struct Ssl {
    pub enabled: Option<bool>,
    pub ciphers: Vec<String>,
    pub client_auth: ClientAuth,
    pub enabled_protocols: Vec<String>,
    pub key_alias: Option<String>,
    pub key_passowrd: Option<String>,
    pub key_store: Option<String>,
    pub key_store_password: Option<String>,
    pub key_store_type: Option<String>,
    pub trust_store: Option<String>,
    pub trust_store_password: Option<String>,
    pub trust_store_type: Option<String>,
    pub trust_store_provider: Option<String>,
    pub certificate: Option<String>,
    pub certificate_private_key: Option<String>,
    pub trust_certificate: Option<String>,
    pub trust_certificate_private_key: Option<String>,
    pub protocol: Option<String>,
}

impl Ssl {
    /// Adopt a configuration, forcing the settings this server always
    /// applies: TLS enabled and the protocol name fixed.
    pub fn new(ssl_config: Ssl) -> (r: Ssl)
        ensures
            r.enabled == Some(true),
            r.protocol matches Some(p) && p@ == "TLS"@,
            r.ciphers == ssl_config.ciphers,
            r.client_auth == ssl_config.client_auth,
            r.enabled_protocols == ssl_config.enabled_protocols,
            r.key_alias == ssl_config.key_alias,
            r.key_passowrd == ssl_config.key_passowrd,
            r.key_store == ssl_config.key_store,
            r.key_store_password == ssl_config.key_store_password,
            r.key_store_type == ssl_config.key_store_type,
            r.trust_store == ssl_config.trust_store,
            r.trust_store_password == ssl_config.trust_store_password,
            r.trust_store_type == ssl_config.trust_store_type,
            r.trust_store_provider == ssl_config.trust_store_provider,
            r.certificate == ssl_config.certificate,
            r.certificate_private_key == ssl_config.certificate_private_key,
            r.trust_certificate == ssl_config.trust_certificate,
            r.trust_certificate_private_key == ssl_config.trust_certificate_private_key,
    {
        Ssl {
            enabled: Some(true),
            protocol: Some(String::from_str("TLS")),
            ciphers: ssl_config.ciphers,
            client_auth: ssl_config.client_auth,
            enabled_protocols: ssl_config.enabled_protocols,
            key_alias: ssl_config.key_alias,
            key_passowrd: ssl_config.key_passowrd,
            key_store: ssl_config.key_store,
            key_store_password: ssl_config.key_store_password,
            key_store_type: ssl_config.key_store_type,
            trust_store: ssl_config.trust_store,
            trust_store_password: ssl_config.trust_store_password,
            trust_store_type: ssl_config.trust_store_type,
            trust_store_provider: ssl_config.trust_store_provider,
            certificate: ssl_config.certificate,
            certificate_private_key: ssl_config.certificate_private_key,
            trust_certificate: ssl_config.trust_certificate,
            trust_certificate_private_key: ssl_config.trust_certificate_private_key,
        }
    }
}

/// The level a logged response line carries.
#[derive(Debug, Copy, Clone, Eq, PartialEq, Structural)]
pub enum LogLevel {
    Info,
    Warn,
    Error,
}

/// The middleware that logs every request and response pair.
#[derive(Debug, Copy, Clone)]
pub struct LoggingSystem {
    pub seen: bool,
}

impl LoggingSystem {
    /// A fresh instance.
    pub fn new() -> (r: LoggingSystem)
        ensures
            !r.seen,
    {
        LoggingSystem { seen: false }
    }

    /// The level a response's log line carries: server errors are errors,
    /// client errors are warnings, everything else is informational.
    pub fn level_for_status(&self, status: u16) -> (r: LogLevel)
        ensures
            spec_is_server_error(status) ==> r == LogLevel::Error,
            spec_is_client_error(status) ==> r == LogLevel::Warn,
            (!spec_is_server_error(status) && !spec_is_client_error(status)) ==> r
                == LogLevel::Info,
    {
        if 500 <= status && status <= 599 {
            LogLevel::Error
        } else if 400 <= status && status <= 499 {
            LogLevel::Warn
        } else {
            LogLevel::Info
        }
    }
}

} // verus!
