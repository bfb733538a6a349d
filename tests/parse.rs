use http_core::request::{Method, ParseError, Request};
use http_core::text::{join_segments, parse_decimal, split_path, trim_range, write_decimal};

fn segs(v: &[&str]) -> Vec<Vec<u8>> {
    v.iter().map(|s| s.as_bytes().to_vec()).collect()
}

#[test]
fn parses_start_line_and_headers() {
    let r = Request::new(b"GET /echo/abc HTTP/1.1\r\nHost: localhost\r\nUser-Agent:  curl/8.0 \r\n\r\n").unwrap();
    assert_eq!(r.method, Method::Get);
    assert_eq!(r.paths, segs(&["echo", "abc"]));
    assert_eq!(r.headers.len(), 2);
    assert_eq!(r.headers[0], (b"Host".to_vec(), b"localhost".to_vec()));
    assert_eq!(r.headers[1], (b"User-Agent".to_vec(), b"curl/8.0".to_vec()));
}

#[test]
fn root_path_is_one_empty_piece() {
    let r = Request::new(b"GET / HTTP/1.1\r\n\r\n").unwrap();
    assert_eq!(r.paths, segs(&[""]));
    assert!(r.headers.is_empty());
}

#[test]
fn empty_pieces_are_kept() {
    let r = Request::new(b"POST /files//a/ HTTP/1.1\r\n\r\n").unwrap();
    assert_eq!(r.method, Method::Post);
    assert_eq!(r.paths, segs(&["files", "", "a", ""]));
}

#[test]
fn empty_stream_is_truncated() {
    assert_eq!(Request::new(b"").unwrap_err(), ParseError::Truncated);
}

#[test]
fn start_line_without_path_is_unknown() {
    let r = Request::new(b"GET\r\nHost: x\r\n\r\n").unwrap();
    assert_eq!(r.method, Method::Unknown);
    assert!(r.paths.is_empty());
    assert!(r.headers.is_empty());
}

#[test]
fn other_methods_are_unknown() {
    let r = Request::new(b"PUT /files/a HTTP/1.1\r\n\r\n").unwrap();
    assert_eq!(r.method, Method::Unknown);
    assert_eq!(r.paths, segs(&["files", "a"]));
}

#[test]
fn first_header_wins_and_lines_without_colon_are_skipped() {
    let r = Request::new(b"GET / HTTP/1.1\r\nnocolon\r\nX-A: 1\r\nX-A: 2\r\nx-a: 3\r\n\r\nBody: no\r\n").unwrap();
    assert_eq!(
        r.headers,
        vec![
            (b"X-A".to_vec(), b"1".to_vec()),
            (b"X-A".to_vec(), b"2".to_vec()),
            (b"x-a".to_vec(), b"3".to_vec()),
        ]
    );
}

#[test]
fn value_split_at_first_colon() {
    let r = Request::new(b"GET / HTTP/1.1\r\nHost: a:8080\r\n\r\n").unwrap();
    assert_eq!(r.headers, vec![(b"Host".to_vec(), b"a:8080".to_vec())]);
}

#[test]
fn headers_end_at_end_of_stream() {
    let r = Request::new(b"GET / HTTP/1.1\r\nA: b\r\nC: d").unwrap();
    assert_eq!(
        r.headers,
        vec![(b"A".to_vec(), b"b".to_vec()), (b"C".to_vec(), b"d".to_vec())]
    );
}

#[test]
fn head_complete_needs_blank_line() {
    assert!(!Request::head_complete(b""));
    assert!(!Request::head_complete(b"GET / HTTP/1.1"));
    assert!(!Request::head_complete(b"GET / HTTP/1.1\r\n"));
    assert!(!Request::head_complete(b"GET / HTTP/1.1\r\nA: b\r\n"));
    assert!(Request::head_complete(b"GET / HTTP/1.1\r\nA: b\r\n\r\n"));
    assert!(Request::head_complete(b"GET\r\n"));
}

#[test]
fn decimal_parsing() {
    assert_eq!(parse_decimal(b"11"), Some(11));
    assert_eq!(parse_decimal(b"+5"), Some(5));
    assert_eq!(parse_decimal(b"007"), Some(7));
    assert_eq!(parse_decimal(b"0"), Some(0));
    assert_eq!(parse_decimal(b"+"), None);
    assert_eq!(parse_decimal(b""), None);
    assert_eq!(parse_decimal(b"-1"), None);
    assert_eq!(parse_decimal(b"1x"), None);
    assert_eq!(parse_decimal(b"18446744073709551615"), Some(u64::MAX));
    assert_eq!(parse_decimal(b"18446744073709551616"), None);
}

#[test]
fn decimal_writing() {
    let mut out = b"n=".to_vec();
    write_decimal(0, &mut out);
    assert_eq!(out, b"n=0".to_vec());
    let mut out = Vec::new();
    write_decimal(1234567, &mut out);
    assert_eq!(out, b"1234567".to_vec());
    let mut out = Vec::new();
    write_decimal(u64::MAX, &mut out);
    assert_eq!(out, b"18446744073709551615".to_vec());
}

#[test]
fn split_and_join() {
    assert_eq!(split_path(b"/a/b"), segs(&["", "a", "b"]));
    assert_eq!(split_path(b""), segs(&[""]));
    assert_eq!(join_segments(&segs(&["a", "b", ""])), b"a/b/".to_vec());
    assert_eq!(join_segments(&segs(&[])), Vec::<u8>::new());
    assert_eq!(join_segments(&split_path(b"x//y/")), b"x//y/".to_vec());
}

#[test]
fn trimming() {
    assert_eq!(trim_range(b" \t ab c \r\n", 0, 10), b"ab c".to_vec());
    assert_eq!(trim_range(b"   ", 0, 3), Vec::<u8>::new());
    assert_eq!(trim_range(b"x: y", 2, 4), b"y".to_vec());
}
