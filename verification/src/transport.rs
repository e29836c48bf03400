//! Listen addresses and the protocols they name.

use crate::text::{chars_equal, chars_of, substring};
use vstd::prelude::*;

verus! {

/// A transport protocol.
#[derive(Debug, Clone, Copy, PartialEq, Eq, Structural)]
pub enum Protocol {
    Tcp,
    TcpTls,
    WebSocket,
    WebSocketSecure,
    Unix,
}

/// Why an address cannot be listened on.
#[derive(Debug)]
pub enum TransportError {
    InvalidAddress(String),
}

/// `s` starts with `p`.
pub open spec fn has_prefix(s: Seq<char>, p: Seq<char>) -> bool {
    p.len() <= s.len() && s.take(p.len() as int) == p
}

/// The protocol and address a listen URL names: `tcp://` and `tls://`
/// prefixes select TCP and TLS and are removed; a bare address is TCP.
pub open spec fn url_protocol(url: Seq<char>) -> (Protocol, Seq<char>) {
    if has_prefix(url, "tcp://"@) {
        (Protocol::Tcp, url.skip(6))
    } else if has_prefix(url, "tls://"@) {
        (Protocol::TcpTls, url.skip(6))
    } else {
        (Protocol::Tcp, url)
    }
}

pub(crate) fn starts_with(s: &[char], p: &[char]) -> (r: bool)
    ensures
        r == has_prefix(s@, p@),
{
    if p.len() > s.len() {
        return false;
    }
    let head = &s[0..p.len()];
    assert(head@ =~= s@.take(p@.len() as int));
    chars_equal(head, p)
}

impl Protocol {
    /// The protocol and address of a listen URL; see `url_protocol`. Every
    /// URL names one.
    pub fn from_url(url: &str) -> (r: Result<(Protocol, String), TransportError>)
        ensures
            r matches Ok((p, a)) && (p, a@) == url_protocol(url@),
    {
        proof {
            reveal_strlit("tcp://");
            reveal_strlit("tls://");
        }
        let chars = chars_of(url);
        let tcp = chars_of("tcp://");
        let tls = chars_of("tls://");
        if starts_with(chars.as_slice(), tcp.as_slice()) {
            Ok((Protocol::Tcp, substring(url, 6, chars.len())))
        } else if starts_with(chars.as_slice(), tls.as_slice()) {
            Ok((Protocol::TcpTls, substring(url, 6, chars.len())))
        } else {
            Ok((Protocol::Tcp, url.to_owned()))
        }
    }
}

} // verus!
