use iotd::config::{
    default_acl_file_path, default_database_path, default_max_retransmission_limit,
    default_password_file_path, default_retained_message_limit,
    default_retransmission_interval_ms, default_session_expiry_seconds, AclBackend, AuthBackend,
    Config, StorageBackend,
};
use std::time::Duration;

#[test]
fn test_default_listen() {
    let config = Config::default();
    assert_eq!(config.listen, vec!["127.0.0.1:1883"]);
}

#[test]
fn defaults_match_the_documented_values() {
    let config = Config::default();
    assert_eq!(config.retained_message_limit, 10000);
    assert_eq!(config.max_retransmission_limit, 10);
    assert_eq!(config.retransmission_interval_ms, 5000);
    assert_eq!(config.persistence.backend, StorageBackend::Memory);
    assert_eq!(config.persistence.database_path, "iotd.db");
    assert_eq!(config.persistence.session_expiry_seconds, 86400);
    assert_eq!(config.auth.backend, AuthBackend::AllowAll);
    assert_eq!(config.auth.password_file, "passwd");
    assert_eq!(config.acl.backend, AclBackend::AllowAll);
    assert_eq!(config.acl.acl_file, "acl.conf");
    assert!(config.tls.is_none());
    assert_eq!(default_retained_message_limit(), 10000);
    assert_eq!(default_max_retransmission_limit(), 10);
    assert_eq!(default_retransmission_interval_ms(), 5000);
    assert_eq!(default_database_path(), "iotd.db");
    assert_eq!(default_session_expiry_seconds(), 86400);
    assert_eq!(default_password_file_path(), "passwd");
    assert_eq!(default_acl_file_path(), "acl.conf");
}

#[test]
fn retransmission_interval_has_a_floor_and_zero_disables() {
    let mut config = Config::default();
    assert_eq!(config.get_retransmission_interval_ms(), 5000);
    assert_eq!(config.retransmission_interval(), Duration::from_millis(5000));
    config.retransmission_interval_ms = 0;
    assert_eq!(config.get_retransmission_interval_ms(), 0);
    config.retransmission_interval_ms = 100;
    assert_eq!(config.get_retransmission_interval_ms(), 500);
    assert_eq!(config.retransmission_interval(), Duration::from_millis(100));
}
