//! The authentication and authorization backends a configuration selects.

use crate::auth::acl_file::AclFileAuthorizer;
use crate::auth::allow_all::AllowAllAuthenticator;
use crate::auth::password_file::{password_entries, PasswordFileAuthenticator};
use crate::auth::traits::{AuthError, Authenticator, Authorizer, Credentials, CredentialsModel};
use crate::config::{AclBackend, AclConfig, AuthBackend, AuthConfig};
use vstd::prelude::*;

verus! {

/// The authenticator a configuration selects.
#[derive(Debug)]
pub enum SelectedAuthenticator {
    AllowAll(AllowAllAuthenticator),
    PasswordFile(PasswordFileAuthenticator),
}

/// The authorizer a configuration selects.
#[derive(Debug)]
pub enum SelectedAuthorizer {
    AllowAll(AllowAllAuthenticator),
    AclFile(AclFileAuthorizer),
}

impl Authenticator for SelectedAuthenticator {
    open spec fn authentication(&self, c: CredentialsModel) -> Result<(), AuthError> {
        match self {
            SelectedAuthenticator::AllowAll(a) => a.authentication(c),
            SelectedAuthenticator::PasswordFile(a) => a.authentication(c),
        }
    }

    fn authenticate(&self, credentials: &Credentials) -> (r: Result<(), AuthError>) {
        match self {
            SelectedAuthenticator::AllowAll(a) => a.authenticate(credentials),
            SelectedAuthenticator::PasswordFile(a) => a.authenticate(credentials),
        }
    }
}

impl Authorizer for SelectedAuthorizer {
    open spec fn publish_allowed(&self, client_id: Seq<char>, topic: Seq<char>) -> bool {
        match self {
            SelectedAuthorizer::AllowAll(a) => a.publish_allowed(client_id, topic),
            SelectedAuthorizer::AclFile(a) => a.publish_allowed(client_id, topic),
        }
    }

    open spec fn subscribe_allowed(&self, client_id: Seq<char>, topic_filter: Seq<char>) -> bool {
        match self {
            SelectedAuthorizer::AllowAll(a) => a.subscribe_allowed(client_id, topic_filter),
            SelectedAuthorizer::AclFile(a) => a.subscribe_allowed(client_id, topic_filter),
        }
    }

    fn authorize_publish(&self, client_id: &str, topic: &str) -> (r: Result<(), AuthError>)
        ensures
            r is Err ==> r == Err::<(), AuthError>(AuthError::NotAuthorized),
    {
        match self {
            SelectedAuthorizer::AllowAll(a) => a.authorize_publish(client_id, topic),
            SelectedAuthorizer::AclFile(a) => a.authorize_publish(client_id, topic),
        }
    }

    fn authorize_subscribe(&self, client_id: &str, topic_filter: &str) -> (r: Result<(), AuthError>)
        ensures
            r is Err ==> r == Err::<(), AuthError>(AuthError::NotAuthorized),
    {
        match self {
            SelectedAuthorizer::AllowAll(a) => a.authorize_subscribe(client_id, topic_filter),
            SelectedAuthorizer::AclFile(a) => a.authorize_subscribe(client_id, topic_filter),
        }
    }
}

/// The authenticator of a configuration. `password_file` is the contents of
/// the configured password file as reading it gave, used by the password-file
/// backend only; a failed read fails there.
pub fn new(config: &AuthConfig, password_file: Result<String, AuthError>) -> (r: Result<SelectedAuthenticator, AuthError>)
    ensures
        config.backend == AuthBackend::AllowAll ==> r matches Ok(SelectedAuthenticator::AllowAll(_)),
        config.backend == AuthBackend::PasswordFile ==> match password_file {
            Ok(contents) => r matches Ok(SelectedAuthenticator::PasswordFile(a)) && a.entries()
                == password_entries(contents@),
            Err(e) => r matches Err(f) && f == e,
        },
{
    match config.backend {
        AuthBackend::AllowAll => Ok(SelectedAuthenticator::AllowAll(AllowAllAuthenticator)),
        AuthBackend::PasswordFile => match password_file {
            Ok(contents) => Ok(SelectedAuthenticator::PasswordFile(PasswordFileAuthenticator::parse(contents.as_str()))),
            Err(e) => Err(e),
        },
    }
}

/// The authorizer of a configuration. `acl_file` is the contents of the
/// configured ACL file as reading it gave, used by the ACL-file backend only;
/// a failed read fails there.
pub fn new_authorizer(config: &AclConfig, acl_file: Result<String, AuthError>) -> (r: Result<SelectedAuthorizer, AuthError>)
    ensures
        config.backend == AclBackend::AllowAll ==> r matches Ok(SelectedAuthorizer::AllowAll(_)),
        config.backend == AclBackend::AclFile ==> match acl_file {
            Ok(contents) => r matches Ok(SelectedAuthorizer::AclFile(a)) && a.rules()
                == crate::auth::acl_file::acl_rules(contents@),
            Err(e) => r matches Err(f) && f == e,
        },
{
    match config.backend {
        AclBackend::AllowAll => Ok(SelectedAuthorizer::AllowAll(AllowAllAuthenticator)),
        AclBackend::AclFile => match acl_file {
            Ok(contents) => Ok(SelectedAuthorizer::AclFile(AclFileAuthorizer::parse(contents.as_str()))),
            Err(e) => Err(e),
        },
    }
}

} // verus!
