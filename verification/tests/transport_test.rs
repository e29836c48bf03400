use iotd::config::{Config, TlsConfig};
use iotd::server::{plan_listeners, ServerError};
use iotd::transport::Protocol;

#[test]
fn test_protocol_from_url_tcp() {
    let (protocol, addr) = Protocol::from_url("tcp://0.0.0.0:1883").unwrap();
    assert!(matches!(protocol, Protocol::Tcp));
    assert_eq!(addr, "0.0.0.0:1883");
}

#[test]
fn test_protocol_from_url_tls() {
    let (protocol, addr) = Protocol::from_url("tls://0.0.0.0:8883").unwrap();
    assert!(matches!(protocol, Protocol::TcpTls));
    assert_eq!(addr, "0.0.0.0:8883");
}

#[test]
fn test_protocol_from_url_bare_address() {
    let (protocol, addr) = Protocol::from_url("127.0.0.1:1883").unwrap();
    assert!(matches!(protocol, Protocol::Tcp));
    assert_eq!(addr, "127.0.0.1:1883");
}

#[test]
fn tls_listener_without_tls_section_is_refused() {
    let mut config = Config::default();
    config.listen = vec!["tls://127.0.0.1:0".to_string()];
    match plan_listeners(&config) {
        Err(ServerError::StartupFailed(msg)) => assert!(msg.contains("TLS")),
        _ => panic!("expected a startup failure"),
    }
}

#[test]
fn listen_plan_lists_each_address() {
    let mut config = Config::default();
    config.listen = vec!["tcp://127.0.0.1:0".to_string(), "tls://127.0.0.1:0".to_string()];
    config.tls = Some(TlsConfig { cert_file: "c.pem".to_string(), key_file: "k.pem".to_string() });
    let plan = match plan_listeners(&config) {
        Ok(plan) => plan,
        Err(_) => panic!("expected a plan"),
    };
    assert_eq!(plan.tls.as_ref().map(|t| t.cert_file.clone()), Some("c.pem".to_string()));
    assert_eq!(plan.endpoints.len(), 2);
    assert!(matches!(plan.endpoints[0].0, Protocol::Tcp));
    assert_eq!(plan.endpoints[0].1, "127.0.0.1:0");
    assert!(matches!(plan.endpoints[1].0, Protocol::TcpTls));
    let plan = match plan_listeners(&Config::default()) {
        Ok(plan) => plan,
        Err(_) => panic!("expected a plan"),
    };
    assert!(plan.tls.is_none());
}
