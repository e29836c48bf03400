//! What authentication and authorization answer, as the session logic sees it.

use crate::buf::bytes_view;
use bytes::Bytes;
use vstd::prelude::*;

verus! {

/// Why a client was refused.
#[derive(Debug)]
pub enum AuthError {
    InvalidCredentials,
    NotAuthorized,
    BackendError(String),
    Io(String),
}

/// What a client presents when it connects.
pub struct Credentials {
    pub username: Option<String>,
    pub password: Option<Bytes>,
    pub client_id: String,
}

/// Abstract value of the credentials.
pub struct CredentialsModel {
    pub username: Option<Seq<char>>,
    pub password: Option<Seq<u8>>,
    pub client_id: Seq<char>,
}

impl View for Credentials {
    type V = CredentialsModel;

    open spec fn view(&self) -> CredentialsModel {
        CredentialsModel {
            username: match self.username {
                Some(u) => Some(u@),
                None => None,
            },
            password: match self.password {
                Some(p) => Some(bytes_view(p)),
                None => None,
            },
            client_id: self.client_id@,
        }
    }
}

/// Decides whether a connecting client may in.
pub trait Authenticator {
    /// The answer for the given credentials.
    spec fn authentication(&self, c: CredentialsModel) -> Result<(), AuthError>;

    /// Authenticates a client: `Ok` to let it in, `InvalidCredentials` when
    /// its user name or password is wrong, another error when the check itself
    /// failed.
    fn authenticate(&self, credentials: &Credentials) -> (r: Result<(), AuthError>)
        ensures
            r == self.authentication(credentials@),
    ;
}

/// Decides which topics a client may publish to and subscribe to.
pub trait Authorizer {
    /// Whether the client may publish to the topic.
    spec fn publish_allowed(&self, client_id: Seq<char>, topic: Seq<char>) -> bool;

    /// Whether the client may subscribe to the filter.
    spec fn subscribe_allowed(&self, client_id: Seq<char>, topic_filter: Seq<char>) -> bool;

    /// `Ok` when the client may publish to the topic.
    fn authorize_publish(&self, client_id: &str, topic: &str) -> (r: Result<(), AuthError>)
        ensures
            r is Ok <==> self.publish_allowed(client_id@, topic@),
    ;

    /// `Ok` when the client may subscribe to the filter.
    fn authorize_subscribe(&self, client_id: &str, topic_filter: &str) -> (r: Result<(), AuthError>)
        ensures
            r is Ok <==> self.subscribe_allowed(client_id@, topic_filter@),
    ;
}

} // verus!
