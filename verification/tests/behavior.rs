//! End-to-end behaviour of the request handlers and of one serve step.

use httpecho::request::{Header, Method, Request, Version};
use httpecho::route::RouteConfig;
use httpecho::server::{handle, respond, serve_step, StepOutcome};

fn header(name: &[u8], value: &[u8]) -> Header {
    Header { name: name.to_vec(), value: value.to_vec() }
}

fn request(method: Method, path: &[u8], headers: Vec<Header>, body: &[u8]) -> Request {
    Request { method, version: Version::Http11, path: path.to_vec(), headers, body: body.to_vec() }
}

#[test]
fn echo_two_headers_in_order() {
    let req = request(
        Method::Get,
        b"/echo",
        vec![header(b"Host", b"x"), header(b"Accept", b"*/*")],
        b"",
    );
    let resp = handle(RouteConfig::full(), &req);
    assert_eq!(resp.status, 200);
    assert_eq!(resp.body, b"Host: x\nAccept: */*\n".to_vec());
}

#[test]
fn echo_no_headers_empty_body() {
    let req = request(Method::Get, b"/echo", vec![], b"");
    let resp = handle(RouteConfig::full(), &req);
    assert_eq!(resp.status, 200);
    assert_eq!(resp.body, Vec::<u8>::new());
}

#[test]
fn echo_keeps_duplicate_headers() {
    let req = request(
        Method::Get,
        b"/echo",
        vec![header(b"X-A", b"1"), header(b"X-A", b"2")],
        b"",
    );
    let resp = handle(RouteConfig::full(), &req);
    assert_eq!(resp.body, b"X-A: 1\nX-A: 2\n".to_vec());
}

#[test]
fn echo_renders_invisible_value_as_empty() {
    let req = request(Method::Get, b"/echo", vec![header(b"X-Bin", &[0xffu8, 0x01])], b"");
    let resp = handle(RouteConfig::full(), &req);
    assert_eq!(resp.body, b"X-Bin: \n".to_vec());
}

#[test]
fn cookie_two_pairs() {
    let req = request(Method::Get, b"/cookie", vec![header(b"Cookie", b"a=1;b=2")], b"");
    let resp = handle(RouteConfig::full(), &req);
    assert_eq!(resp.body, b"a=1\nb=2\n".to_vec());
}

#[test]
fn cookie_header_present_but_empty() {
    let req = request(Method::Get, b"/cookie", vec![header(b"Cookie", b"")], b"");
    let resp = handle(RouteConfig::full(), &req);
    assert_eq!(resp.body, Vec::<u8>::new());
}

#[test]
fn cookie_segment_without_equals_is_skipped() {
    let req = request(Method::Get, b"/cookie", vec![header(b"Cookie", b"novalue")], b"");
    let resp = handle(RouteConfig::full(), &req);
    assert_eq!(resp.body, Vec::<u8>::new());
}

#[test]
fn cookie_header_absent_empty_body() {
    let req = request(Method::Get, b"/cookie", vec![header(b"Host", b"x")], b"");
    let resp = handle(RouteConfig::full(), &req);
    assert_eq!(resp.body, Vec::<u8>::new());
}

#[test]
fn cookie_trims_left_only() {
    // The asymmetry is deliberate: leading blanks go, trailing blanks stay.
    let req = request(Method::Get, b"/cookie", vec![header(b"Cookie", b" a=1 ; b=2")], b"");
    let resp = handle(RouteConfig::full(), &req);
    assert_eq!(resp.body, b"a=1 \nb=2\n".to_vec());
}

#[test]
fn cookie_splits_at_first_equals_only() {
    let req = request(Method::Get, b"/cookie", vec![header(b"Cookie", b"a=b=c")], b"");
    let resp = handle(RouteConfig::full(), &req);
    assert_eq!(resp.body, b"a=b=c\n".to_vec());
}

#[test]
fn cookie_lookup_ignores_name_case() {
    let req = request(Method::Get, b"/cookie", vec![header(b"COOKIE", b"k=v")], b"");
    let resp = handle(RouteConfig::full(), &req);
    assert_eq!(resp.body, b"k=v\n".to_vec());
}

#[test]
fn fallback_get_answers_ok() {
    let req = request(Method::Get, b"/", vec![], b"");
    let resp = handle(RouteConfig::full(), &req);
    assert_eq!(resp.status, 200);
    assert_eq!(resp.body, b"OK".to_vec());
}

#[test]
fn fallback_post_echoes_body() {
    let req = request(Method::Post, b"/", vec![], b"hello");
    let resp = handle(RouteConfig::full(), &req);
    assert_eq!(resp.status, 200);
    assert_eq!(resp.body, b"hello".to_vec());
}

#[test]
fn fallback_post_empty_body_is_echoed_empty() {
    let req = request(Method::Post, b"/anywhere", vec![], b"");
    let resp = handle(RouteConfig::full(), &req);
    assert_eq!(resp.body, Vec::<u8>::new());
}

#[test]
fn unregistered_routes_fall_back() {
    let req = request(Method::Get, b"/echo", vec![header(b"Host", b"x")], b"");
    let resp = handle(RouteConfig::fallback_only(), &req);
    assert_eq!(resp.body, b"OK".to_vec());
}

#[test]
fn respond_writes_content_length_of_body() {
    let req = request(Method::Post, b"/", vec![], b"hello");
    let bytes = respond(RouteConfig::full(), &req);
    let expected =
        b"HTTP/1.1 200 OK\r\nContent-Type: text/plain\r\nContent-Length: 5\r\n\r\nhello".to_vec();
    assert_eq!(bytes, expected);
}

#[test]
fn respond_zero_length_body() {
    let req = request(Method::Post, b"/", vec![], b"");
    let bytes = respond(RouteConfig::full(), &req);
    let expected =
        b"HTTP/1.1 200 OK\r\nContent-Type: text/plain\r\nContent-Length: 0\r\n\r\n".to_vec();
    assert_eq!(bytes, expected);
}

#[test]
fn serve_step_post_round_trip() {
    let buf = b"POST / HTTP/1.1\r\nContent-Length: 5\r\n\r\nhello".to_vec();
    match serve_step(RouteConfig::full(), &buf) {
        StepOutcome::Respond { bytes, consumed, keep_alive } => {
            assert_eq!(
                bytes,
                b"HTTP/1.1 200 OK\r\nContent-Type: text/plain\r\nContent-Length: 5\r\n\r\nhello"
                    .to_vec()
            );
            assert_eq!(consumed, buf.len());
            assert!(keep_alive);
        },
        _ => panic!("expected a response"),
    }
}

#[test]
fn serve_step_round_trips_arbitrary_bytes() {
    let payload: Vec<u8> = (0u8..=255).collect();
    let mut buf = format!("POST /data HTTP/1.1\r\nContent-Length: {}\r\n\r\n", payload.len())
        .into_bytes();
    buf.extend_from_slice(&payload);
    match serve_step(RouteConfig::full(), &buf) {
        StepOutcome::Respond { bytes, consumed, .. } => {
            let head =
                format!("HTTP/1.1 200 OK\r\nContent-Type: text/plain\r\nContent-Length: {}\r\n\r\n",
                    payload.len());
            let mut expected = head.into_bytes();
            expected.extend_from_slice(&payload);
            assert_eq!(bytes, expected);
            assert_eq!(consumed, buf.len());
        },
        _ => panic!("expected a response"),
    }
}

#[test]
fn same_bytes_answered_identically() {
    // Two connections that send the same bytes get byte-identical answers.
    let buf = b"GET /echo HTTP/1.1\r\nHost: x\r\nAccept: */*\r\n\r\n".to_vec();
    let first = match serve_step(RouteConfig::full(), &buf) {
        StepOutcome::Respond { bytes, .. } => bytes,
        _ => panic!("expected a response"),
    };
    let second = match serve_step(RouteConfig::full(), &buf) {
        StepOutcome::Respond { bytes, .. } => bytes,
        _ => panic!("expected a response"),
    };
    assert_eq!(first, second);
    assert_eq!(
        first,
        b"HTTP/1.1 200 OK\r\nContent-Type: text/plain\r\nContent-Length: 20\r\n\r\nHost: x\nAccept: */*\n"
            .to_vec()
    );
}

#[test]
fn serve_step_incomplete_wants_more() {
    let buf = b"GET / HTTP/1.1\r\nHost".to_vec();
    assert!(matches!(serve_step(RouteConfig::full(), &buf), StepOutcome::NeedMoreData));
}

#[test]
fn serve_step_malformed_closes() {
    let buf = b"NOT A REQUEST\r\n\r\n".to_vec();
    assert!(matches!(serve_step(RouteConfig::full(), &buf), StepOutcome::CloseConnection));
}

#[test]
fn serve_step_connection_close_stops_keep_alive() {
    let buf = b"GET / HTTP/1.1\r\nConnection: Close\r\n\r\n".to_vec();
    match serve_step(RouteConfig::full(), &buf) {
        StepOutcome::Respond { keep_alive, .. } => assert!(!keep_alive),
        _ => panic!("expected a response"),
    }
}

#[test]
fn serve_step_http10_closes_after_answer() {
    let buf = b"GET / HTTP/1.0\r\n\r\n".to_vec();
    match serve_step(RouteConfig::full(), &buf) {
        StepOutcome::Respond { keep_alive, .. } => assert!(!keep_alive),
        _ => panic!("expected a response"),
    }
}

#[test]
fn serve_step_consumes_first_of_pipelined_requests() {
    let first = b"GET / HTTP/1.1\r\n\r\n".to_vec();
    let mut buf = first.clone();
    buf.extend_from_slice(b"POST / HTTP/1.1\r\nContent-Length: 2\r\n\r\nhi");
    match serve_step(RouteConfig::full(), &buf) {
        StepOutcome::Respond { consumed, .. } => {
            assert_eq!(consumed, first.len());
            let rest = buf[consumed..].to_vec();
            match serve_step(RouteConfig::full(), &rest) {
                StepOutcome::Respond { bytes, .. } => {
                    assert!(bytes.ends_with(b"hi"));
                },
                _ => panic!("expected a response to the second request"),
            }
        },
        _ => panic!("expected a response to the first request"),
    }
}
