//! Authentication of connecting clients and authorization of their topics.

pub mod acl_file;
pub mod allow_all;
pub mod backend;
pub mod password_file;
pub mod traits;

pub use acl_file::AclFileAuthorizer;
pub use allow_all::AllowAllAuthenticator;
pub use password_file::PasswordFileAuthenticator;
pub use backend::{new, new_authorizer, SelectedAuthenticator, SelectedAuthorizer};
pub use traits::{AuthError, Authenticator, Authorizer, Credentials};
