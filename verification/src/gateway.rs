//! The request gateway's decisions: what is done with a request that came
//! in, given the balancer's state.

use vstd::prelude::*;
use vstd::string::*;
use crate::balancer::LoadBalancer;
use crate::forward::{
    bare_response, outbound_of, outbound_request, unavailable_response, OutboundRequest,
    ProxiedRequest, ProxiedResponse, SERVICE_UNAVAILABLE,
};
use crate::selector::select;

verus! {

/// What is to be done with an inbound request.
#[derive(Clone, Debug, PartialEq, Eq)]
pub enum Dispatch {
    /// Send this request to the backend it names and relay what comes of it.
    Forward(OutboundRequest),
    /// Answer the caller with this response: no backend is available.
    Reject(ProxiedResponse),
}

/// Decides what is done with `request`.
///
/// One selection is made. Where it picks a backend, the request is to be
/// forwarded to that backend, and no other backend is tried for it. Where no
/// backend is alive, the caller gets a service-unavailable answer.
pub fn handle_request(request: ProxiedRequest, lb: &mut LoadBalancer) -> (dispatch: Dispatch)
    requires
        old(lb).well_formed(),
    ensures
        final(lb).well_formed(),
        final(lb).registry() == old(lb).registry(),
        final(lb).health() == old(lb).health(),
        final(lb).interval() == old(lb).interval(),
        final(lb).last_check() == old(lb).last_check(),
        final(lb).cursor() == select(old(lb).registry(), old(lb).health(), old(lb).cursor()).cursor,
        match select(old(lb).registry(), old(lb).health(), old(lb).cursor()).picked {
            Some(position) => dispatch matches Dispatch::Forward(outbound) && outbound@ == outbound_of(
                request@,
                old(lb).registry()[position],
            ),
            None => dispatch matches Dispatch::Reject(response) && response@ == bare_response(
                SERVICE_UNAVAILABLE,
            ),
        },
{
    match lb.choose_backend() {
        Some(backend) => Dispatch::Forward(outbound_request(request, backend)),
        None => Dispatch::Reject(unavailable_response()),
    }
}

} // verus!
