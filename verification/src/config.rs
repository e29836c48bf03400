//! Broker configuration and its defaults.

use std::time::Duration;
use vstd::prelude::*;

verus! {

/// The storage backend.
#[derive(Debug, Clone, Copy, PartialEq, Eq, Structural, Default)]
pub enum StorageBackend {
    #[default]
    Memory,
    Sqlite,
}

/// The authentication backend.
#[derive(Debug, Clone, Copy, PartialEq, Eq, Structural, Default)]
pub enum AuthBackend {
    #[default]
    AllowAll,
    PasswordFile,
}

/// The authorization backend.
#[derive(Debug, Clone, Copy, PartialEq, Eq, Structural, Default)]
pub enum AclBackend {
    #[default]
    AllowAll,
    AclFile,
}

/// Where and for how long sessions are kept.
#[derive(Debug, Clone)]
pub struct PersistenceConfig {
    pub backend: StorageBackend,
    /// Path of the SQLite database (sqlite backend only).
    pub database_path: String,
    /// Seconds a stored session is kept; 0 keeps it forever.
    pub session_expiry_seconds: u64,
}

/// How clients are authenticated.
#[derive(Debug, Clone)]
pub struct AuthConfig {
    pub backend: AuthBackend,
    /// Path of the password file (password-file backend only).
    pub password_file: String,
}

/// How topics are authorized.
#[derive(Debug, Clone)]
pub struct AclConfig {
    pub backend: AclBackend,
    /// Path of the ACL file (ACL-file backend only).
    pub acl_file: String,
}

/// The certificate and key of the TLS listeners.
#[derive(Debug, Clone)]
pub struct TlsConfig {
    pub cert_file: String,
    pub key_file: String,
}

/// The broker configuration.
#[derive(Debug, Clone)]
pub struct Config {
    /// Listen addresses: `tcp://addr:port`, `tls://addr:port`, or a bare
    /// `addr:port` (TCP).
    pub listen: Vec<String>,
    /// Maximum number of retained messages.
    pub retained_message_limit: usize,
    /// Maximum number of retransmissions of an unacknowledged message.
    pub max_retransmission_limit: u32,
    /// Retransmission interval in milliseconds; 0 turns retransmission off.
    pub retransmission_interval_ms: u64,
    pub persistence: PersistenceConfig,
    pub auth: AuthConfig,
    pub acl: AclConfig,
    /// Required when a listen address uses `tls://`.
    pub tls: Option<TlsConfig>,
}

/// `Duration::from_millis`.
pub uninterp spec fn duration_from_millis(ms: u64) -> Duration;

/// `Duration::from_millis`: the duration of `ms` milliseconds.
#[verifier::external_body]
fn millis(ms: u64) -> (d: Duration)
    ensures
        d == duration_from_millis(ms),
{
    Duration::from_millis(ms)
}

/// The default listen addresses: `127.0.0.1:1883` alone.
pub fn default_listen() -> (r: Vec<String>)
    ensures
        r@.len() == 1,
        r@[0]@ == "127.0.0.1:1883"@,
{
    vec!["127.0.0.1:1883".to_owned()]
}

/// The default limit of retained messages: 10000.
pub fn default_retained_message_limit() -> (r: usize)
    ensures
        r == 10000,
{
    10000
}

/// The default limit of retransmissions: 10.
pub fn default_max_retransmission_limit() -> (r: u32)
    ensures
        r == 10,
{
    10
}

/// The default retransmission interval: 5000 ms.
pub fn default_retransmission_interval_ms() -> (r: u64)
    ensures
        r == 5000,
{
    5000
}

/// The default database path: `iotd.db`.
pub fn default_database_path() -> (r: String)
    ensures
        r@ == "iotd.db"@,
{
    "iotd.db".to_owned()
}

/// The default session expiry: 86400 seconds (a day).
pub fn default_session_expiry_seconds() -> (r: u64)
    ensures
        r == 86400,
{
    86400
}

/// The default password file path: `passwd`.
pub fn default_password_file_path() -> (r: String)
    ensures
        r@ == "passwd"@,
{
    "passwd".to_owned()
}

/// The default ACL file path: `acl.conf`.
pub fn default_acl_file_path() -> (r: String)
    ensures
        r@ == "acl.conf"@,
{
    "acl.conf".to_owned()
}

impl Default for PersistenceConfig {
    fn default() -> (r: Self)
        ensures
            r.backend == StorageBackend::Memory,
            r.database_path@ == "iotd.db"@,
            r.session_expiry_seconds == 86400,
    {
        PersistenceConfig {
            backend: StorageBackend::Memory,
            database_path: default_database_path(),
            session_expiry_seconds: default_session_expiry_seconds(),
        }
    }
}

impl Default for AuthConfig {
    fn default() -> (r: Self)
        ensures
            r.backend == AuthBackend::AllowAll,
            r.password_file@ == "passwd"@,
    {
        AuthConfig { backend: AuthBackend::AllowAll, password_file: default_password_file_path() }
    }
}

impl Default for AclConfig {
    fn default() -> (r: Self)
        ensures
            r.backend == AclBackend::AllowAll,
            r.acl_file@ == "acl.conf"@,
    {
        AclConfig { backend: AclBackend::AllowAll, acl_file: default_acl_file_path() }
    }
}

impl Default for Config {
    fn default() -> (r: Self)
        ensures
            r.listen@.len() == 1,
            r.listen@[0]@ == "127.0.0.1:1883"@,
            r.retained_message_limit == 10000,
            r.max_retransmission_limit == 10,
            r.retransmission_interval_ms == 5000,
            r.persistence.backend == StorageBackend::Memory,
            r.persistence.database_path@ == "iotd.db"@,
            r.persistence.session_expiry_seconds == 86400,
            r.auth.backend == AuthBackend::AllowAll,
            r.auth.password_file@ == "passwd"@,
            r.acl.backend == AclBackend::AllowAll,
            r.acl.acl_file@ == "acl.conf"@,
            r.tls is None,
    {
        Config {
            listen: default_listen(),
            retained_message_limit: default_retained_message_limit(),
            max_retransmission_limit: default_max_retransmission_limit(),
            retransmission_interval_ms: default_retransmission_interval_ms(),
            persistence: PersistenceConfig::default(),
            auth: AuthConfig::default(),
            acl: AclConfig::default(),
            tls: None,
        }
    }
}

/// The effective retransmission interval: 0 (off) stays 0, any other value is
/// raised to at least 500 ms.
pub open spec fn effective_retransmission_ms(ms: u64) -> u64 {
    if ms == 0 {
        0
    } else if ms < 500 {
        500
    } else {
        ms
    }
}

impl Config {
    /// The configured retransmission interval as a duration.
    pub fn retransmission_interval(&self) -> (d: Duration)
        ensures
            d == duration_from_millis(self.retransmission_interval_ms),
    {
        millis(self.retransmission_interval_ms)
    }

    /// The retransmission interval in use; see `effective_retransmission_ms`.
    pub fn get_retransmission_interval_ms(&self) -> (r: u64)
        ensures
            r == effective_retransmission_ms(self.retransmission_interval_ms),
    {
        if self.retransmission_interval_ms == 0 {
            0
        } else if self.retransmission_interval_ms < 500 {
            500
        } else {
            self.retransmission_interval_ms
        }
    }
}


/// The retransmission interval in use is 0 (off) exactly when the configured
/// one is 0; otherwise it is the configured one, raised to 500 ms when lower.
pub proof fn lemma_effective_retransmission(ms: u64)
    ensures
        effective_retransmission_ms(ms) == 0 <==> ms == 0,
        ms > 0 ==> effective_retransmission_ms(ms) >= 500 && effective_retransmission_ms(ms) >= ms,
        ms >= 500 ==> effective_retransmission_ms(ms) == ms,
        0 < ms < 500 ==> effective_retransmission_ms(ms) == 500,
{
}
} // verus!
