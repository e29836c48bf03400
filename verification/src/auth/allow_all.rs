//! Lets every client in and allows everything.

use crate::auth::traits::{AuthError, Authenticator, Authorizer, Credentials, CredentialsModel};
use vstd::prelude::*;

verus! {

/// Accepts every client and authorizes every publish and subscribe.
#[derive(Debug)]
pub struct AllowAllAuthenticator;

impl Authenticator for AllowAllAuthenticator {
    open spec fn authentication(&self, c: CredentialsModel) -> Result<(), AuthError> {
        Ok(())
    }

    fn authenticate(&self, credentials: &Credentials) -> (r: Result<(), AuthError>) {
        Ok(())
    }
}

impl Authorizer for AllowAllAuthenticator {
    open spec fn publish_allowed(&self, client_id: Seq<char>, topic: Seq<char>) -> bool {
        true
    }

    open spec fn subscribe_allowed(&self, client_id: Seq<char>, topic_filter: Seq<char>) -> bool {
        true
    }

    fn authorize_publish(&self, client_id: &str, topic: &str) -> (r: Result<(), AuthError>) {
        Ok(())
    }

    fn authorize_subscribe(&self, client_id: &str, topic_filter: &str) -> (r: Result<
        (),
        AuthError,
    >) {
        Ok(())
    }
}

} // verus!
