//! The forwarder's part that decides: from an inbound request and the backend
//! chosen for it to the request that goes out, and from what came of that
//! request to the answer for the caller.

use vstd::prelude::*;
use vstd::string::*;
use crate::probe::{backend_uri, http_uri};
use crate::text::{names_match, same_name};

verus! {

/// The status of the answer to a request for which no backend was available.
pub const SERVICE_UNAVAILABLE: u16 = 503;

/// The status of the answer to a request that the chosen backend did not
/// answer.
pub const BAD_GATEWAY: u16 = 502;

/// One header field: its name and the bytes of its value.
#[derive(Clone, Debug, PartialEq, Eq)]
pub struct HeaderField {
    pub name: String,
    pub value: Vec<u8>,
}

/// A header field as mathematics.
pub struct HeaderView {
    pub name: Seq<char>,
    pub value: Seq<u8>,
}

impl View for HeaderField {
    type V = HeaderView;

    open spec fn view(&self) -> HeaderView {
        HeaderView { name: self.name@, value: self.value@ }
    }
}

/// A list of header fields as mathematics.
pub open spec fn headers_view(fields: Seq<HeaderField>) -> Seq<HeaderView> {
    fields.map_values(|field: HeaderField| field@)
}

/// A request as it came in: the method, the path with the query string, the
/// header fields in the order in which they came, and the body.
#[derive(Clone, Debug, PartialEq, Eq)]
pub struct ProxiedRequest {
    pub method: String,
    pub target: String,
    pub headers: Vec<HeaderField>,
    pub body: Vec<u8>,
}

/// An inbound request as mathematics.
pub struct RequestView {
    pub method: Seq<char>,
    pub target: Seq<char>,
    pub headers: Seq<HeaderView>,
    pub body: Seq<u8>,
}

impl View for ProxiedRequest {
    type V = RequestView;

    open spec fn view(&self) -> RequestView {
        RequestView {
            method: self.method@,
            target: self.target@,
            headers: headers_view(self.headers@),
            body: self.body@,
        }
    }
}

/// A request as it goes out to a backend.
#[derive(Clone, Debug, PartialEq, Eq)]
pub struct OutboundRequest {
    pub backend: String,
    pub method: String,
    pub uri: String,
    pub headers: Vec<HeaderField>,
    pub body: Vec<u8>,
}

/// An outbound request as mathematics.
pub struct OutboundView {
    pub backend: Seq<char>,
    pub method: Seq<char>,
    pub uri: Seq<char>,
    pub headers: Seq<HeaderView>,
    pub body: Seq<u8>,
}

impl View for OutboundRequest {
    type V = OutboundView;

    open spec fn view(&self) -> OutboundView {
        OutboundView {
            backend: self.backend@,
            method: self.method@,
            uri: self.uri@,
            headers: headers_view(self.headers@),
            body: self.body@,
        }
    }
}

/// An answer: the status code, the header fields and the body.
#[derive(Clone, Debug, PartialEq, Eq)]
pub struct ProxiedResponse {
    pub status: u16,
    pub headers: Vec<HeaderField>,
    pub body: Vec<u8>,
}

/// An answer as mathematics.
pub struct ResponseView {
    pub status: u16,
    pub headers: Seq<HeaderView>,
    pub body: Seq<u8>,
}

impl View for ProxiedResponse {
    type V = ResponseView;

    open spec fn view(&self) -> ResponseView {
        ResponseView { status: self.status, headers: headers_view(self.headers@), body: self.body@ }
    }
}

/// What came of an outbound request.
#[derive(Clone, Debug, PartialEq, Eq)]
pub enum ForwardOutcome {
    /// The backend answered.
    Delivered(ProxiedResponse),
    /// No answer arrived: the connection was refused or reset, or the time
    /// allowed ran out.
    Failed,
}

/// The names of the header fields that are copied to the outbound request,
/// in the order in which they are copied.
pub open spec fn forwarded_names() -> Seq<Seq<char>> {
    seq![
        "Host"@,
        "User-Agent"@,
        "Accept"@,
        "Accept-Encoding"@,
        "Accept-Language"@,
        "Connection"@,
        "Upgrade-Insecure-Requests"@,
    ]
}

/// How many names `forwarded_names` holds.
pub const FORWARDED_NAMES: usize = 7;

/// The name at `index` in `forwarded_names`, if there is one.
pub fn forwarded_name(index: usize) -> (name: Option<&'static str>)
    ensures
        match name {
            Some(name) => index < forwarded_names().len() && name@ == forwarded_names()[index as int],
            None => index >= forwarded_names().len(),
        },
{
    if index == 0 {
        Some("Host")
    } else if index == 1 {
        Some("User-Agent")
    } else if index == 2 {
        Some("Accept")
    } else if index == 3 {
        Some("Accept-Encoding")
    } else if index == 4 {
        Some("Accept-Language")
    } else if index == 5 {
        Some("Connection")
    } else if index == 6 {
        Some("Upgrade-Insecure-Requests")
    } else {
        None
    }
}

/// The position of the first of the fields at `from` and later whose name
/// is `name`, the case of ASCII letters apart.
pub open spec fn first_named(fields: Seq<HeaderView>, name: Seq<char>, from: int) -> Option<int>
    decreases fields.len() - from,
{
    if from < 0 || from >= fields.len() {
        None
    } else if same_name(fields[from].name, name) {
        Some(from)
    } else {
        first_named(fields, name, from + 1)
    }
}

/// The fields copied for the first `count` of `names`: for each name in
/// turn, the first inbound field of that name, where there is one. A name
/// without a field is passed over.
pub open spec fn copied_headers(inbound: Seq<HeaderView>, names: Seq<Seq<char>>, count: nat) -> Seq<
    HeaderView,
>
    decreases count,
{
    if count == 0 {
        Seq::empty()
    } else {
        let before = copied_headers(inbound, names, (count - 1) as nat);
        match first_named(inbound, names[count - 1], 0) {
            Some(i) => before.push(inbound[i]),
            None => before,
        }
    }
}

/// The header fields of the outbound request for a request that came in with
/// the fields `inbound`.
pub open spec fn forwarded_headers(inbound: Seq<HeaderView>) -> Seq<HeaderView> {
    copied_headers(inbound, forwarded_names(), forwarded_names().len())
}

/// The request that goes out to `backend` for the inbound request `request`:
/// the same method and body, the backend's address with the inbound path and
/// query over plain HTTP, and the forwarded header fields.
pub open spec fn outbound_of(request: RequestView, backend: Seq<char>) -> OutboundView {
    OutboundView {
        backend,
        method: request.method,
        uri: http_uri(backend, request.target),
        headers: forwarded_headers(request.headers),
        body: request.body,
    }
}

/// The answer without header fields or body that carries `status`.
pub open spec fn bare_response(status: u16) -> ResponseView {
    ResponseView { status, headers: Seq::empty(), body: Seq::empty() }
}

/// What `first_named` finds: the first field of that name, and nothing only
/// where no field at `from` or later has the name.
pub proof fn lemma_first_named(fields: Seq<HeaderView>, name: Seq<char>, from: int)
    requires
        0 <= from,
    ensures
        match first_named(fields, name, from) {
            Some(i) => {
                &&& from <= i < fields.len()
                &&& same_name(fields[i].name, name)
                &&& forall|j: int| from <= j < i ==> !same_name((#[trigger] fields[j]).name, name)
            },
            None => forall|j: int| from <= j < fields.len() ==> !same_name((#[trigger] fields[j]).name, name),
        },
    decreases fields.len() - from,
{
    if from < fields.len() && !same_name(fields[from].name, name) {
        lemma_first_named(fields, name, from + 1);
    }
}

/// Whether `field` is an inbound field under one of the first `count` names.
pub open spec fn copied_from(
    inbound: Seq<HeaderView>,
    names: Seq<Seq<char>>,
    count: nat,
    field: HeaderView,
) -> bool {
    exists|i: int, r: int|
        0 <= i < inbound.len() && 0 <= r < count && #[trigger] inbound[i] == field && same_name(
            field.name,
            #[trigger] names[r],
        )
}

/// Every field that goes out is a field that came in, name and value as they
/// were, and its name is one of the names that are copied.
pub proof fn law_outbound_fields_are_inbound(inbound: Seq<HeaderView>, names: Seq<Seq<char>>, count: nat)
    requires
        count <= names.len(),
    ensures
        forall|k: int|
            0 <= k < copied_headers(inbound, names, count).len() ==> copied_from(
                inbound,
                names,
                count,
                #[trigger] copied_headers(inbound, names, count)[k],
            ),
    decreases count,
{
    if count > 0 {
        let before = copied_headers(inbound, names, (count - 1) as nat);
        let after = copied_headers(inbound, names, count);
        law_outbound_fields_are_inbound(inbound, names, (count - 1) as nat);
        lemma_first_named(inbound, names[count - 1], 0);
        assert forall|k: int| 0 <= k < after.len() implies copied_from(inbound, names, count, #[trigger] after[k]) by {
            if k < before.len() {
                assert(copied_from(inbound, names, (count - 1) as nat, before[k]));
                let (i, r) = choose|i: int, r: int|
                    0 <= i < inbound.len() && 0 <= r < count - 1 && #[trigger] inbound[i] == before[k]
                        && same_name(before[k].name, #[trigger] names[r]);
                assert(inbound[i] == after[k] && same_name(after[k].name, names[r]));
            } else {
                let i = first_named(inbound, names[count - 1], 0).unwrap();
                assert(inbound[i] == after[k] && same_name(after[k].name, names[count - 1]));
            }
        }
    }
}

/// A name under which a field came in is served: the first inbound field of
/// each of the first `count` names is among the fields that go out.
pub proof fn law_present_header_is_copied(
    inbound: Seq<HeaderView>,
    names: Seq<Seq<char>>,
    count: nat,
    r: int,
)
    requires
        count <= names.len(),
        0 <= r < count,
        first_named(inbound, names[r], 0) is Some,
    ensures
        copied_headers(inbound, names, count).contains(inbound[first_named(inbound, names[r], 0).unwrap()]),
    decreases count,
{
    let before = copied_headers(inbound, names, (count - 1) as nat);
    let after = copied_headers(inbound, names, count);
    let field = inbound[first_named(inbound, names[r], 0).unwrap()];
    if r == count - 1 {
        assert(after[after.len() - 1] == field);
    } else {
        law_present_header_is_copied(inbound, names, (count - 1) as nat, r);
        let k = choose|k: int| 0 <= k < before.len() && before[k] == field;
        assert(after[k] == field);
    }
}

/// A request that lacks a header field goes out without it: where no inbound
/// field has the name `name`, no outbound field has it. Nothing is asked of
/// the inbound fields.
pub proof fn law_absent_header_stays_absent(inbound: Seq<HeaderView>, name: Seq<char>)
    requires
        forall|i: int| 0 <= i < inbound.len() ==> !same_name((#[trigger] inbound[i]).name, name),
    ensures
        forall|k: int|
            0 <= k < forwarded_headers(inbound).len() ==> !same_name(
                (#[trigger] forwarded_headers(inbound)[k]).name,
                name,
            ),
{
    let names = forwarded_names();
    let outbound = forwarded_headers(inbound);
    law_outbound_fields_are_inbound(inbound, names, names.len());
    assert forall|k: int| 0 <= k < outbound.len() implies !same_name((#[trigger] outbound[k]).name, name) by {
        assert(copied_from(inbound, names, names.len(), outbound[k]));
    }
}

/// Finds the first field of `fields` whose name is `name`, the case of ASCII
/// letters apart.
pub fn find_header(fields: &Vec<HeaderField>, name: &str) -> (found: Option<usize>)
    ensures
        match found {
            Some(i) => i < fields@.len() && first_named(headers_view(fields@), name@, 0) == Some(i as int),
            None => first_named(headers_view(fields@), name@, 0) is None,
        },
{
    let mut i: usize = 0;
    while i < fields.len()
        invariant
            i <= fields@.len(),
            first_named(headers_view(fields@), name@, 0) == first_named(headers_view(fields@), name@, i as int),
        decreases fields@.len() - i,
    {
        if names_match(fields[i].name.as_str(), name) {
            return Some(i);
        }
        i += 1;
    }
    None
}

/// Copies a list of bytes.
fn copy_bytes(bytes: &Vec<u8>) -> (copy: Vec<u8>)
    ensures
        copy@ == bytes@,
{
    let mut copy: Vec<u8> = Vec::new();
    let mut i: usize = 0;
    while i < bytes.len()
        invariant
            i <= bytes@.len(),
            copy@ == bytes@.take(i as int),
        decreases bytes@.len() - i,
    {
        copy.push(bytes[i]);
        assert(bytes@.take(i + 1) =~= bytes@.take(i as int).push(bytes@[i as int]));
        i += 1;
    }
    assert(bytes@.take(bytes@.len() as int) =~= bytes@);
    copy
}

/// Picks the header fields that go out with a forwarded request. A name of
/// `forwarded_names` that the inbound request does not carry is passed over:
/// no inbound request is refused for a header field that it lacks.
pub fn forward_headers(inbound: &Vec<HeaderField>) -> (outbound: Vec<HeaderField>)
    ensures
        headers_view(outbound@) == forwarded_headers(headers_view(inbound@)),
{
    let mut outbound: Vec<HeaderField> = Vec::new();
    let mut k: usize = 0;
    assert(headers_view(outbound@) =~= Seq::<HeaderView>::empty());
    while k < FORWARDED_NAMES
        invariant
            k <= FORWARDED_NAMES,
            FORWARDED_NAMES == forwarded_names().len(),
            headers_view(outbound@) == copied_headers(headers_view(inbound@), forwarded_names(), k as nat),
        decreases FORWARDED_NAMES - k,
    {
        let ghost before = headers_view(outbound@);
        if let Some(name) = forwarded_name(k) {
            if let Some(i) = find_header(inbound, name) {
                let field = HeaderField { name: inbound[i].name.clone(), value: copy_bytes(&inbound[i].value) };
                outbound.push(field);
                assert(headers_view(outbound@) =~= before.push(headers_view(inbound@)[i as int]));
            }
        }
        k += 1;
    }
    outbound
}

/// Builds the request that goes out to `backend` for `request`.
pub fn outbound_request(request: ProxiedRequest, backend: String) -> (outbound: OutboundRequest)
    ensures
        outbound@ == outbound_of(request@, backend@),
{
    let uri = backend_uri(backend.as_str(), request.target.as_str());
    let headers = forward_headers(&request.headers);
    OutboundRequest { backend, method: request.method, uri, headers, body: request.body }
}

/// The answer to a request for which no backend was available.
pub fn unavailable_response() -> (response: ProxiedResponse)
    ensures
        response@ == bare_response(SERVICE_UNAVAILABLE),
{
    let response = ProxiedResponse { status: SERVICE_UNAVAILABLE, headers: Vec::new(), body: Vec::new() };
    assert(headers_view(response.headers@) =~= Seq::<HeaderView>::empty());
    response
}

/// The answer for the caller, given what came of the outbound request: the
/// backend's answer as it is, or a gateway failure where none arrived.
pub fn relay_response(outcome: ForwardOutcome) -> (response: ProxiedResponse)
    ensures
        match outcome {
            ForwardOutcome::Delivered(answer) => response == answer,
            ForwardOutcome::Failed => response@ == bare_response(BAD_GATEWAY),
        },
{
    match outcome {
        ForwardOutcome::Delivered(answer) => answer,
        ForwardOutcome::Failed => {
            let response = ProxiedResponse { status: BAD_GATEWAY, headers: Vec::new(), body: Vec::new() };
            assert(headers_view(response.headers@) =~= Seq::<HeaderView>::empty());
            response
        },
    }
}

} // verus!
