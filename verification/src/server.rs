//! What the server listens on, decided from the configuration.

use crate::auth::traits::AuthError;
use crate::config::{Config, TlsConfig};
use crate::storage::types::StorageError;
use crate::text::chars_of;
use crate::transport::{has_prefix, starts_with, url_protocol, Protocol};
use vstd::prelude::*;

verus! {

/// Why the server could not start or run.
#[derive(Debug)]
pub enum ServerError {
    StartupFailed(String),
    Io(String),
    Storage(StorageError),
    Auth(AuthError),
}

/// The listeners to open: the TLS configuration when a listener needs it, and
/// the protocol and address of each listen URL, in configured order.
pub struct ListenPlan {
    pub tls: Option<TlsConfig>,
    pub endpoints: Vec<(Protocol, String)>,
}

pub open spec fn strings_view(v: Seq<String>) -> Seq<Seq<char>> {
    v.map_values(|s: String| s@)
}

/// Whether some listen URL asks for TLS.
pub open spec fn wants_tls(listen: Seq<Seq<char>>) -> bool {
    exists|i: int| 0 <= i < listen.len() && has_prefix(#[trigger] listen[i], "tls://"@)
}

/// The message of the refusal to start TLS listeners without a TLS section.
pub open spec fn missing_tls_message() -> Seq<char> {
    "TLS listener configured but [tls] section missing from config"@
}

fn tls_clone(t: &TlsConfig) -> (r: TlsConfig)
    ensures
        r.cert_file@ == t.cert_file@,
        r.key_file@ == t.key_file@,
{
    TlsConfig { cert_file: t.cert_file.clone(), key_file: t.key_file.clone() }
}

/// The listeners a configuration asks for: refused with StartupFailed when a
/// `tls://` address is configured without a TLS section; otherwise the TLS
/// section (when a TLS listener needs it) and each address's protocol.
pub fn plan_listeners(config: &Config) -> (r: Result<ListenPlan, ServerError>)
    ensures
        ({
            let listen = strings_view(config.listen@);
            if wants_tls(listen) && config.tls is None {
                r matches Err(ServerError::StartupFailed(m)) && m@ == missing_tls_message()
            } else {
                r matches Ok(plan) && (plan.tls is Some <==> wants_tls(listen)) && (plan.tls matches Some(t)
                    ==> config.tls matches Some(c) && t.cert_file@ == c.cert_file@ && t.key_file@
                    == c.key_file@) && plan.endpoints@.len() == listen.len() && forall|i: int|
                    0 <= i < listen.len() ==> (#[trigger] plan.endpoints@[i].0, plan.endpoints@[i].1@)
                        == url_protocol(listen[i])
            }
        }),
{
    let ghost listen = strings_view(config.listen@);
    proof {
        reveal_strlit("tls://");
    }
    let tls_prefix = chars_of("tls://");
    let mut needs_tls = false;
    let mut endpoints: Vec<(Protocol, String)> = Vec::new();
    let mut i: usize = 0;
    while i < config.listen.len()
        invariant
            listen == strings_view(config.listen@),
            tls_prefix@ == "tls://"@,
            i <= listen.len(),
            needs_tls <==> exists|k: int| 0 <= k < i && has_prefix(#[trigger] listen[k], "tls://"@),
            endpoints@.len() == i,
            forall|k: int| 0 <= k < i ==> (#[trigger] endpoints@[k].0, endpoints@[k].1@) == url_protocol(listen[k]),
        decreases listen.len() - i,
    {
        let url = config.listen[i].as_str();
        assert(listen[i as int] == url@);
        let chars = chars_of(url);
        if starts_with(chars.as_slice(), tls_prefix.as_slice()) {
            needs_tls = true;
        }
        match Protocol::from_url(url) {
            Ok(endpoint) => endpoints.push(endpoint),
            Err(_) => {
                assert(false);
            },
        }
        i += 1;
    }
    if needs_tls {
        match &config.tls {
            Some(t) => Ok(ListenPlan { tls: Some(tls_clone(t)), endpoints }),
            None => Err(ServerError::StartupFailed("TLS listener configured but [tls] section missing from config".to_owned())),
        }
    } else {
        Ok(ListenPlan { tls: None, endpoints })
    }
}

} // verus!
