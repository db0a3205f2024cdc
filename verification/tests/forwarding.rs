use load_balancer::forward::{
    find_header, forward_headers, forwarded_name, outbound_request, relay_response,
    unavailable_response, BAD_GATEWAY, FORWARDED_NAMES, SERVICE_UNAVAILABLE,
};
use load_balancer::text::{names_match, str_equal};
use load_balancer::{
    handle_request, Dispatch, ForwardOutcome, HeaderField, LoadBalancer, OutboundRequest,
    ProbeOutcome, ProxiedRequest, ProxiedResponse,
};

fn field(name: &str, value: &str) -> HeaderField {
    HeaderField { name: name.to_string(), value: value.as_bytes().to_vec() }
}

fn browser_headers() -> Vec<HeaderField> {
    vec![
        field("host", "localhost:8080"),
        field("connection", "keep-alive"),
        field("upgrade-insecure-requests", "1"),
        field("user-agent", "Mozilla/5.0"),
        field("accept", "text/html"),
        field("accept-encoding", "gzip, deflate"),
        field("accept-language", "en-US,en;q=0.9"),
        field("cookie", "session=1"),
    ]
}

fn request(headers: Vec<HeaderField>) -> ProxiedRequest {
    ProxiedRequest {
        method: "POST".to_string(),
        target: "/orders?id=7".to_string(),
        headers,
        body: b"payload".to_vec(),
    }
}

fn three_healthy() -> LoadBalancer {
    let mut lb = LoadBalancer::new(
        vec!["127.0.0.1:8081".to_string(), "127.0.0.1:8082".to_string(), "127.0.0.1:8083".to_string()],
        10_000,
        0,
    );
    lb.health_check(&vec![ProbeOutcome::Responded(200); 3], 0);
    lb
}

fn backend_of(dispatch: Dispatch) -> String {
    match dispatch {
        Dispatch::Forward(outbound) => outbound.backend,
        Dispatch::Reject(response) => panic!("rejected with {}", response.status),
    }
}

#[test]
fn strings_are_equal_byte_for_byte() {
    assert!(str_equal("", ""));
    assert!(str_equal("127.0.0.1:8081", "127.0.0.1:8081"));
    assert!(!str_equal("127.0.0.1:8081", "127.0.0.1:8082"));
    assert!(!str_equal("a", "A"));
    assert!(!str_equal("a", "ab"));
    assert!(str_equal("h\u{f6}st", "h\u{f6}st"));
    assert!(!str_equal("h\u{f6}st", "host"));
}

#[test]
fn header_names_match_without_regard_to_case() {
    assert!(names_match("Accept-Language", "accept-language"));
    assert!(names_match("ACCEPT", "accept"));
    assert!(names_match("", ""));
    assert!(!names_match("accept", "accept-encoding"));
    assert!(!names_match("accept", "accepT "));
    // Only ASCII letters fold: '@' is not '`', '[' is not '{'.
    assert!(!names_match("@", "`"));
    assert!(!names_match("[", "{"));
    assert!(names_match("Z", "z"));
    assert!(names_match("A", "a"));
}

#[test]
fn the_forwarded_names_are_the_seven_in_order() {
    let names: Vec<&str> = (0..FORWARDED_NAMES).map(|i| forwarded_name(i).unwrap()).collect();
    assert_eq!(forwarded_name(FORWARDED_NAMES), None);
    assert_eq!(forwarded_name(usize::MAX), None);
    assert_eq!(
        names,
        vec![
            "Host",
            "User-Agent",
            "Accept",
            "Accept-Encoding",
            "Accept-Language",
            "Connection",
            "Upgrade-Insecure-Requests",
        ]
    );
}

#[test]
fn find_header_gives_the_first_field_of_that_name() {
    let fields = vec![field("accept", "a"), field("Cookie", "b"), field("ACCEPT", "c")];
    assert_eq!(find_header(&fields, "Accept"), Some(0));
    assert_eq!(find_header(&fields, "cookie"), Some(1));
    assert_eq!(find_header(&fields, "host"), None);
    assert_eq!(find_header(&vec![], "host"), None);
}

#[test]
fn recognized_headers_are_copied_in_the_fixed_order() {
    let outbound = forward_headers(&browser_headers());
    assert_eq!(
        outbound,
        vec![
            field("host", "localhost:8080"),
            field("user-agent", "Mozilla/5.0"),
            field("accept", "text/html"),
            field("accept-encoding", "gzip, deflate"),
            field("accept-language", "en-US,en;q=0.9"),
            field("connection", "keep-alive"),
            field("upgrade-insecure-requests", "1"),
        ]
    );
}

#[test]
fn a_missing_header_is_passed_over() {
    let mut headers = browser_headers();
    headers.retain(|f| f.name != "accept-language");
    let outbound = forward_headers(&headers);
    assert_eq!(
        outbound,
        vec![
            field("host", "localhost:8080"),
            field("user-agent", "Mozilla/5.0"),
            field("accept", "text/html"),
            field("accept-encoding", "gzip, deflate"),
            field("connection", "keep-alive"),
            field("upgrade-insecure-requests", "1"),
        ]
    );
    assert_eq!(forward_headers(&vec![]), vec![]);
    assert_eq!(forward_headers(&vec![field("cookie", "x")]), vec![]);
}

#[test]
fn only_the_first_value_of_a_header_is_copied() {
    let outbound = forward_headers(&vec![field("Accept", "text/html"), field("accept", "image/png")]);
    assert_eq!(outbound, vec![field("Accept", "text/html")]);
}

#[test]
fn header_values_need_not_be_text() {
    let odd = HeaderField { name: "user-agent".to_string(), value: vec![0xff, 0x00, 0x80] };
    assert_eq!(forward_headers(&vec![odd.clone()]), vec![odd]);
}

#[test]
fn the_outbound_request_keeps_method_path_and_body() {
    let outbound = outbound_request(request(browser_headers()), "127.0.0.1:8082".to_string());
    assert_eq!(outbound.backend, "127.0.0.1:8082");
    assert_eq!(outbound.method, "POST");
    assert_eq!(outbound.uri, "http://127.0.0.1:8082/orders?id=7");
    assert_eq!(outbound.body, b"payload".to_vec());
    assert_eq!(outbound.headers, forward_headers(&browser_headers()));
}

#[test]
fn a_request_without_optional_headers_is_forwarded() {
    let mut lb = three_healthy();
    let dispatch = handle_request(request(vec![field("host", "localhost:8080")]), &mut lb);
    assert_eq!(
        dispatch,
        Dispatch::Forward(OutboundRequest {
            backend: "127.0.0.1:8081".to_string(),
            method: "POST".to_string(),
            uri: "http://127.0.0.1:8081/orders?id=7".to_string(),
            headers: vec![field("host", "localhost:8080")],
            body: b"payload".to_vec(),
        })
    );
    let dispatch = handle_request(request(vec![]), &mut lb);
    match dispatch {
        Dispatch::Forward(outbound) => {
            assert_eq!(outbound.backend, "127.0.0.1:8082");
            assert!(outbound.headers.is_empty());
        }
        Dispatch::Reject(_) => panic!("rejected"),
    }
}

#[test]
fn three_requests_reach_three_distinct_backends() {
    let mut lb = three_healthy();
    let first = backend_of(handle_request(request(browser_headers()), &mut lb));
    let second = backend_of(handle_request(request(browser_headers()), &mut lb));
    let third = backend_of(handle_request(request(browser_headers()), &mut lb));
    assert_eq!(first, "127.0.0.1:8081");
    assert_eq!(second, "127.0.0.1:8082");
    assert_eq!(third, "127.0.0.1:8083");
}

#[test]
fn requests_rotate_over_the_two_healthy_backends() {
    let mut lb = three_healthy();
    lb.health_check(
        &vec![ProbeOutcome::Responded(200), ProbeOutcome::Responded(500), ProbeOutcome::Responded(200)],
        1,
    );
    let mut seen: Vec<String> = Vec::new();
    for _ in 0..8 {
        seen.push(backend_of(handle_request(request(browser_headers()), &mut lb)));
    }
    assert!(seen.iter().all(|b| b != "127.0.0.1:8082"));
    for pair in seen.windows(2) {
        assert_ne!(pair[0], pair[1]);
    }
    assert_eq!(seen[0], "127.0.0.1:8081");
    assert_eq!(seen[1], "127.0.0.1:8083");
}

#[test]
fn with_every_backend_unreachable_the_answer_is_service_unavailable() {
    let mut lb = three_healthy();
    lb.health_check(&vec![ProbeOutcome::Failed; 3], 1);
    for _ in 0..4 {
        let dispatch = handle_request(request(browser_headers()), &mut lb);
        assert_eq!(
            dispatch,
            Dispatch::Reject(ProxiedResponse { status: 503, headers: vec![], body: vec![] })
        );
    }
    assert_eq!(SERVICE_UNAVAILABLE, 503);
    assert_eq!(unavailable_response().status, 503);
}

#[test]
fn a_backend_that_fell_between_passes_gives_a_gateway_failure() {
    let mut lb = three_healthy();
    // The record still says that the first backend is alive, so it is chosen.
    let dispatch = handle_request(request(browser_headers()), &mut lb);
    assert_eq!(backend_of(dispatch), "127.0.0.1:8081");
    // The connection fails: the caller gets a gateway failure, no other backend is tried.
    let response = relay_response(ForwardOutcome::Failed);
    assert_eq!(response, ProxiedResponse { status: 502, headers: vec![], body: vec![] });
    assert_eq!(BAD_GATEWAY, 502);
    // The next pass finds it dead, and it is chosen no more.
    lb.health_check(
        &vec![ProbeOutcome::Failed, ProbeOutcome::Responded(200), ProbeOutcome::Responded(200)],
        1,
    );
    for _ in 0..6 {
        assert_ne!(backend_of(handle_request(request(browser_headers()), &mut lb)), "127.0.0.1:8081");
    }
}

#[test]
fn the_backends_answer_is_relayed_as_it_is() {
    let answer = ProxiedResponse {
        status: 404,
        headers: vec![field("content-type", "text/plain"), field("x-served-by", "2")],
        body: b"Hello, from server 2".to_vec(),
    };
    assert_eq!(relay_response(ForwardOutcome::Delivered(answer.clone())), answer);
    let empty = ProxiedResponse { status: 204, headers: vec![], body: vec![] };
    assert_eq!(relay_response(ForwardOutcome::Delivered(empty.clone())), empty);
}
