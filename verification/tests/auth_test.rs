use bytes::Bytes;
use iotd::auth::{
    new, new_authorizer, AclFileAuthorizer, AllowAllAuthenticator, AuthError, Authenticator,
    Authorizer, Credentials, PasswordFileAuthenticator, SelectedAuthenticator,
    SelectedAuthorizer,
};
use iotd::config::{AclBackend, AclConfig, AuthBackend, AuthConfig};

const ACL_CONTENT: &str = "\
# Test ACL file
admin pubsub #
sensor1 pub sensors/data
viewer sub sensors/#
";

#[test]
fn test_publish_allowed() {
    let acl = AclFileAuthorizer::parse(ACL_CONTENT);
    acl.authorize_publish("admin", "#").unwrap();
    acl.authorize_publish("sensor1", "sensors/data").unwrap();
}

#[test]
fn test_publish_denied_wrong_client() {
    let acl = AclFileAuthorizer::parse(ACL_CONTENT);
    assert!(matches!(acl.authorize_publish("unknown", "sensors/data"), Err(AuthError::NotAuthorized)));
}

#[test]
fn test_publish_denied_wrong_topic() {
    let acl = AclFileAuthorizer::parse(ACL_CONTENT);
    assert!(matches!(acl.authorize_publish("sensor1", "other/topic"), Err(AuthError::NotAuthorized)));
}

#[test]
fn test_publish_denied_sub_only() {
    let acl = AclFileAuthorizer::parse(ACL_CONTENT);
    assert!(matches!(acl.authorize_publish("viewer", "sensors/#"), Err(AuthError::NotAuthorized)));
}

#[test]
fn test_subscribe_allowed() {
    let acl = AclFileAuthorizer::parse(ACL_CONTENT);
    acl.authorize_subscribe("admin", "#").unwrap();
    acl.authorize_subscribe("viewer", "sensors/#").unwrap();
}

#[test]
fn test_subscribe_denied_pub_only() {
    let acl = AclFileAuthorizer::parse(ACL_CONTENT);
    assert!(matches!(acl.authorize_subscribe("sensor1", "sensors/data"), Err(AuthError::NotAuthorized)));
}

#[test]
fn test_pubsub_grants_both() {
    let acl = AclFileAuthorizer::parse(ACL_CONTENT);
    acl.authorize_publish("admin", "#").unwrap();
    acl.authorize_subscribe("admin", "#").unwrap();
}

#[test]
fn acl_file_test_comments_and_empty_lines() {
    let acl = AclFileAuthorizer::parse("# comment\n\nclient1 pub topic1\n# another comment\n");
    acl.authorize_publish("client1", "topic1").unwrap();
}

#[test]
fn test_invalid_lines_skipped() {
    let acl = AclFileAuthorizer::parse("badline\nclient1 pub topic1\nclient2 invalid topic2\n");
    acl.authorize_publish("client1", "topic1").unwrap();
    assert!(matches!(acl.authorize_publish("client2", "topic2"), Err(AuthError::NotAuthorized)));
}

#[test]
fn test_allow_all_accepts_no_credentials() {
    let auth = AllowAllAuthenticator;
    let creds = Credentials { username: None, password: None, client_id: "test".to_string() };
    auth.authenticate(&creds).unwrap();
}

#[test]
fn test_allow_all_accepts_with_credentials() {
    let auth = AllowAllAuthenticator;
    let creds = Credentials {
        username: Some("user".to_string()),
        password: Some(Bytes::from("pass")),
        client_id: "test".to_string(),
    };
    auth.authenticate(&creds).unwrap();
}

fn creds(user: Option<&str>, pass: Option<&str>) -> Credentials {
    Credentials {
        username: user.map(|u| u.to_string()),
        password: pass.map(|p| Bytes::from(p.to_string())),
        client_id: "test".to_string(),
    }
}

#[test]
fn test_valid_credentials() {
    let auth = PasswordFileAuthenticator::parse("admin:secret\nuser1:pass1\n");
    auth.authenticate(&creds(Some("admin"), Some("secret"))).unwrap();
}

#[test]
fn test_invalid_password() {
    let auth = PasswordFileAuthenticator::parse("admin:secret\n");
    assert!(matches!(auth.authenticate(&creds(Some("admin"), Some("wrong"))), Err(AuthError::InvalidCredentials)));
}

#[test]
fn test_unknown_username() {
    let auth = PasswordFileAuthenticator::parse("admin:secret\n");
    assert!(matches!(auth.authenticate(&creds(Some("unknown"), Some("secret"))), Err(AuthError::InvalidCredentials)));
}

#[test]
fn test_no_username() {
    let auth = PasswordFileAuthenticator::parse("admin:secret\n");
    assert!(matches!(auth.authenticate(&creds(None, Some("secret"))), Err(AuthError::InvalidCredentials)));
}

#[test]
fn test_no_password() {
    let auth = PasswordFileAuthenticator::parse("admin:secret\n");
    assert!(matches!(auth.authenticate(&creds(Some("admin"), None)), Err(AuthError::InvalidCredentials)));
}

#[test]
fn password_file_test_comments_and_empty_lines() {
    let auth = PasswordFileAuthenticator::parse("# This is a comment\n\nadmin:secret\n# Another comment\n");
    auth.authenticate(&creds(Some("admin"), Some("secret"))).unwrap();
}

// ---------------------------------------------------------------------------
// Further cases
// ---------------------------------------------------------------------------

#[test]
fn password_lines_are_trimmed_and_split_at_the_first_colon() {
    let auth = PasswordFileAuthenticator::parse("  bob:pa:ss \r\nbob\n");
    auth.authenticate(&creds(Some("bob"), Some("pa:ss"))).unwrap();
}

#[test]
fn later_password_lines_win() {
    let auth = PasswordFileAuthenticator::parse("a:1\na:2");
    auth.authenticate(&creds(Some("a"), Some("2"))).unwrap();
    assert!(auth.authenticate(&creds(Some("a"), Some("1"))).is_err());
}

#[test]
fn non_utf8_password_is_refused() {
    let auth = PasswordFileAuthenticator::parse("a:1\n");
    let c = Credentials {
        username: Some("a".to_string()),
        password: Some(Bytes::from(vec![0xFFu8])),
        client_id: "x".to_string(),
    };
    assert!(matches!(auth.authenticate(&c), Err(AuthError::InvalidCredentials)));
}

#[test]
fn acl_topic_keeps_its_spaces_and_matches_literally() {
    let acl = AclFileAuthorizer::parse("c pub a b\nd sub x/+\n");
    acl.authorize_publish("c", "a b").unwrap();
    assert!(acl.authorize_subscribe("d", "x/y").is_err());
    acl.authorize_subscribe("d", "x/+").unwrap();
}

#[test]
fn backends_follow_the_configuration() {
    let config = AuthConfig { backend: AuthBackend::AllowAll, password_file: "none".to_string() };
    assert!(matches!(new(&config, Err(AuthError::Io("missing".to_string()))), Ok(SelectedAuthenticator::AllowAll(_))));
    let config = AuthConfig { backend: AuthBackend::PasswordFile, password_file: "p".to_string() };
    assert!(matches!(new(&config, Err(AuthError::Io("missing".to_string()))), Err(AuthError::Io(_))));
    let auth = new(&config, Ok("u:p\n".to_string())).unwrap();
    auth.authenticate(&creds(Some("u"), Some("p"))).unwrap();
    let acl = AclConfig { backend: AclBackend::AclFile, acl_file: "a".to_string() };
    let z = new_authorizer(&acl, Ok("c pub t\n".to_string())).unwrap();
    assert!(matches!(z, SelectedAuthorizer::AclFile(_)));
    z.authorize_publish("c", "t").unwrap();
    assert!(z.authorize_subscribe("c", "t").is_err());
    let acl = AclConfig { backend: AclBackend::AllowAll, acl_file: "a".to_string() };
    let z = new_authorizer(&acl, Err(AuthError::Io("missing".to_string()))).unwrap();
    z.authorize_subscribe("anyone", "#").unwrap();
}
