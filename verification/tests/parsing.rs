//! The request parser and the port argument, byte by byte.

use httpecho::parse::{parse_request, ParseOutcome};
use httpecho::request::{Method, Version};
use httpecho::server::parse_port;

#[test]
fn parses_simple_get() {
    let buf = b"GET /echo HTTP/1.1\r\nHost: x\r\n\r\n".to_vec();
    match parse_request(&buf) {
        ParseOutcome::Parsed(req, consumed) => {
            assert_eq!(req.method, Method::Get);
            assert_eq!(req.version, Version::Http11);
            assert_eq!(req.path, b"/echo".to_vec());
            assert_eq!(req.headers.len(), 1);
            assert_eq!(req.headers[0].name, b"Host".to_vec());
            assert_eq!(req.headers[0].value, b"x".to_vec());
            assert_eq!(req.body, Vec::<u8>::new());
            assert_eq!(consumed, buf.len());
        },
        _ => panic!("expected a parsed request"),
    }
}

#[test]
fn parses_post_with_content_length() {
    let buf = b"POST /p HTTP/1.1\r\nContent-Length: 3\r\n\r\nabc".to_vec();
    match parse_request(&buf) {
        ParseOutcome::Parsed(req, consumed) => {
            assert_eq!(req.method, Method::Post);
            assert_eq!(req.body, b"abc".to_vec());
            assert_eq!(consumed, buf.len());
        },
        _ => panic!("expected a parsed request"),
    }
}

#[test]
fn trims_header_value_whitespace() {
    let buf = b"GET / HTTP/1.1\r\nX-K:   padded value \t\r\n\r\n".to_vec();
    match parse_request(&buf) {
        ParseOutcome::Parsed(req, _) => {
            assert_eq!(req.headers[0].value, b"padded value".to_vec());
        },
        _ => panic!("expected a parsed request"),
    }
}

#[test]
fn unknown_method_token_parses_as_other() {
    let buf = b"BREW /pot HTTP/1.1\r\n\r\n".to_vec();
    match parse_request(&buf) {
        ParseOutcome::Parsed(req, _) => assert_eq!(req.method, Method::Other),
        _ => panic!("expected a parsed request"),
    }
}

#[test]
fn incomplete_head_wants_more_bytes() {
    let buf = b"GET / HTTP/1.1\r\nHost: x\r\n".to_vec();
    assert!(matches!(parse_request(&buf), ParseOutcome::Incomplete));
}

#[test]
fn incomplete_body_wants_more_bytes() {
    let buf = b"POST / HTTP/1.1\r\nContent-Length: 10\r\n\r\nabc".to_vec();
    assert!(matches!(parse_request(&buf), ParseOutcome::Incomplete));
}

#[test]
fn missing_version_is_malformed() {
    let buf = b"GET /\r\n\r\n".to_vec();
    assert!(matches!(parse_request(&buf), ParseOutcome::Malformed));
}

#[test]
fn wrong_version_token_is_malformed() {
    let buf = b"GET / HTTP/2.0\r\n\r\n".to_vec();
    assert!(matches!(parse_request(&buf), ParseOutcome::Malformed));
}

#[test]
fn empty_header_name_is_malformed() {
    let buf = b"GET / HTTP/1.1\r\n: no-name\r\n\r\n".to_vec();
    assert!(matches!(parse_request(&buf), ParseOutcome::Malformed));
}

#[test]
fn header_line_without_colon_is_malformed() {
    let buf = b"GET / HTTP/1.1\r\nno colon here\r\n\r\n".to_vec();
    assert!(matches!(parse_request(&buf), ParseOutcome::Malformed));
}

#[test]
fn nondigit_content_length_is_malformed() {
    let buf = b"POST / HTTP/1.1\r\nContent-Length: 3x\r\n\r\nabc".to_vec();
    assert!(matches!(parse_request(&buf), ParseOutcome::Malformed));
}

#[test]
fn huge_content_length_numeral_is_malformed() {
    let buf = b"POST / HTTP/1.1\r\nContent-Length: 99999999999999999999\r\n\r\n".to_vec();
    assert!(matches!(parse_request(&buf), ParseOutcome::Malformed));
}

#[test]
fn non_chunked_transfer_encoding_is_malformed() {
    let buf = b"POST / HTTP/1.1\r\nTransfer-Encoding: gzip\r\n\r\n".to_vec();
    assert!(matches!(parse_request(&buf), ParseOutcome::Malformed));
}

#[test]
fn chunked_body_is_decoded() {
    let buf = b"POST / HTTP/1.1\r\nTransfer-Encoding: chunked\r\n\r\n5\r\nhello\r\n0\r\n\r\n"
        .to_vec();
    match parse_request(&buf) {
        ParseOutcome::Parsed(req, consumed) => {
            assert_eq!(req.body, b"hello".to_vec());
            assert_eq!(consumed, buf.len());
        },
        _ => panic!("expected a parsed request"),
    }
}

#[test]
fn chunked_concatenates_chunks_and_reads_hex_sizes() {
    let buf =
        b"POST / HTTP/1.1\r\nTransfer-Encoding: chunked\r\n\r\nA\r\n0123456789\r\n3\r\nabc\r\n0\r\n\r\n"
            .to_vec();
    match parse_request(&buf) {
        ParseOutcome::Parsed(req, consumed) => {
            assert_eq!(req.body, b"0123456789abc".to_vec());
            assert_eq!(consumed, buf.len());
        },
        _ => panic!("expected a parsed request"),
    }
}

#[test]
fn chunked_waits_for_terminating_chunk() {
    let buf = b"POST / HTTP/1.1\r\nTransfer-Encoding: chunked\r\n\r\n5\r\nhello\r\n".to_vec();
    assert!(matches!(parse_request(&buf), ParseOutcome::Incomplete));
}

#[test]
fn chunked_bad_size_line_is_malformed() {
    let buf = b"POST / HTTP/1.1\r\nTransfer-Encoding: chunked\r\n\r\nxyz\r\nhi\r\n0\r\n\r\n"
        .to_vec();
    assert!(matches!(parse_request(&buf), ParseOutcome::Malformed));
}

#[test]
fn chunked_trailer_section_is_not_served() {
    let buf = b"POST / HTTP/1.1\r\nTransfer-Encoding: chunked\r\n\r\n0\r\nX-T: 1\r\n\r\n".to_vec();
    assert!(matches!(parse_request(&buf), ParseOutcome::Malformed));
}

#[test]
fn body_without_declared_length_is_empty() {
    let buf = b"POST / HTTP/1.1\r\n\r\nstray".to_vec();
    match parse_request(&buf) {
        ParseOutcome::Parsed(req, consumed) => {
            assert_eq!(req.body, Vec::<u8>::new());
            assert_eq!(consumed, buf.len() - b"stray".len());
        },
        _ => panic!("expected a parsed request"),
    }
}

#[test]
fn first_content_length_wins() {
    let buf = b"POST / HTTP/1.1\r\nContent-Length: 2\r\nContent-Length: 4\r\n\r\nabcd".to_vec();
    match parse_request(&buf) {
        ParseOutcome::Parsed(req, consumed) => {
            assert_eq!(req.body, b"ab".to_vec());
            assert_eq!(consumed, buf.len() - 2);
        },
        _ => panic!("expected a parsed request"),
    }
}

#[test]
fn port_defaults_without_argument() {
    assert_eq!(parse_port(None, 8080), 8080);
    assert_eq!(parse_port(None, 9011), 9011);
}

#[test]
fn port_reads_decimal_argument() {
    let arg = b"9011".to_vec();
    assert_eq!(parse_port(Some(&arg), 8080), 9011);
}

#[test]
fn port_accepts_leading_plus_and_zeros() {
    let plus = b"+123".to_vec();
    assert_eq!(parse_port(Some(&plus), 8080), 123);
    let zeros = b"000000000080".to_vec();
    assert_eq!(parse_port(Some(&zeros), 8080), 80);
}

#[test]
fn port_defaults_on_junk_or_overflow() {
    let junk = b"eighty".to_vec();
    assert_eq!(parse_port(Some(&junk), 8080), 8080);
    let over = b"70000".to_vec();
    assert_eq!(parse_port(Some(&over), 8080), 8080);
    let neg = b"-1".to_vec();
    assert_eq!(parse_port(Some(&neg), 8080), 8080);
    let empty = b"".to_vec();
    assert_eq!(parse_port(Some(&empty), 8080), 8080);
    let bare_plus = b"+".to_vec();
    assert_eq!(parse_port(Some(&bare_plus), 8080), 8080);
}
