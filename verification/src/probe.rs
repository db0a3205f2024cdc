//! Liveness probes and how they are judged.

use vstd::prelude::*;
use vstd::string::*;
use crate::status::{is_success_code, status_is_success};

verus! {

/// How one liveness probe ended.
#[derive(Clone, Copy, Debug, PartialEq, Eq, Structural)]
pub enum ProbeOutcome {
    /// The backend answered with this HTTP status code.
    Responded(u16),
    /// No answer arrived: the connection was refused, timed out, was reset,
    /// or the name did not resolve.
    Failed,
}

impl ProbeOutcome {
    /// A probe shows a live backend exactly when an answer arrived and its
    /// status is of the success class.
    pub open spec fn healthy(self) -> bool {
        match self {
            ProbeOutcome::Responded(code) => is_success_code(code),
            ProbeOutcome::Failed => false,
        }
    }

    /// Judges the probe.
    pub fn is_healthy(&self) -> (r: bool)
        ensures
            r == self.healthy(),
    {
        match self {
            ProbeOutcome::Responded(code) => status_is_success(*code),
            ProbeOutcome::Failed => false,
        }
    }
}

/// The address a request to `backend` goes to: plain HTTP, then the backend's
/// `host:port`, then `path`.
pub open spec fn http_uri(backend: Seq<char>, path: Seq<char>) -> Seq<char> {
    "http://"@ + backend + path
}

/// Builds the URI of a request to `backend` for `path`.
pub fn backend_uri(backend: &str, path: &str) -> (uri: String)
    ensures
        uri@ == http_uri(backend@, path@),
{
    let mut uri = String::from_str("http://");
    uri.append(backend);
    uri.append(path);
    uri
}

/// The URI that a liveness probe of `backend` is sent to.
pub fn probe_uri(backend: &str) -> (uri: String)
    ensures
        uri@ == http_uri(backend@, Seq::<char>::empty()),
{
    let uri = backend_uri(backend, "");
    proof {
        reveal_strlit("");
        assert(""@ =~= Seq::<char>::empty());
    }
    uri
}

} // verus!
