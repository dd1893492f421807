use http_server::request::{parse, ParseError};

#[test]
fn parses_simple_get() {
    let req = parse(b"GET /index.html HTTP/1.1\r\nHost: localhost\r\n\r\n").unwrap();
    assert_eq!(req.method, b"GET".to_vec());
    assert_eq!(req.path, b"/index.html".to_vec());
    assert_eq!(req.version, b"HTTP/1.1".to_vec());
    assert_eq!(req.headers.len(), 1);
    assert_eq!(req.headers[0].0, b"Host".to_vec());
    assert_eq!(req.headers[0].1, b"localhost".to_vec());
    assert_eq!(req.body, Vec::<u8>::new());
}

#[test]
fn parses_bare_lf_lines() {
    let req = parse(b"GET / HTTP/1.1\nHost: x\n\n").unwrap();
    assert_eq!(req.path, b"/".to_vec());
    assert_eq!(req.headers[0].1, b"x".to_vec());
}

#[test]
fn body_is_read_byte_exact_with_embedded_line_breaks() {
    let req = parse(b"POST /files/a HTTP/1.1\r\nContent-Length: 11\r\n\r\nline1\r\nend\x00trail")
        .unwrap();
    assert_eq!(req.body, b"line1\r\nend\x00".to_vec());
}

#[test]
fn body_length_follows_content_length() {
    let req = parse(b"POST /x HTTP/1.1\r\nContent-Length: 5\r\n\r\nhello world").unwrap();
    assert_eq!(req.body, b"hello".to_vec());
}

#[test]
fn missing_content_length_means_empty_body() {
    let req = parse(b"POST /x HTTP/1.1\r\n\r\nhello").unwrap();
    assert_eq!(req.body, Vec::<u8>::new());
}

#[test]
fn last_content_length_wins() {
    let req = parse(b"POST /x HTTP/1.1\r\nContent-Length: 2\r\nContent-Length: 5\r\n\r\nhello")
        .unwrap();
    assert_eq!(req.body, b"hello".to_vec());
    assert_eq!(req.headers.len(), 2);
}

#[test]
fn duplicate_headers_keep_arrival_order() {
    let req = parse(b"GET / HTTP/1.1\r\nA: 1\r\nA: 2\r\nB: 3\r\n\r\n").unwrap();
    assert_eq!(req.headers.len(), 3);
    assert_eq!(req.headers[0], (b"A".to_vec(), b"1".to_vec()));
    assert_eq!(req.headers[1], (b"A".to_vec(), b"2".to_vec()));
    assert_eq!(req.headers[2], (b"B".to_vec(), b"3".to_vec()));
}

#[test]
fn header_line_without_separator_is_skipped() {
    let req = parse(b"GET / HTTP/1.1\r\nnonsense\r\nGood: yes\r\n\r\n").unwrap();
    assert_eq!(req.headers.len(), 1);
    assert_eq!(req.headers[0].0, b"Good".to_vec());
}

#[test]
fn header_value_keeps_inner_but_not_trailing_blanks() {
    let req = parse(b"GET / HTTP/1.1\r\nX: a b  \r\n\r\n").unwrap();
    assert_eq!(req.headers[0].1, b"a b".to_vec());
}

#[test]
fn empty_input_is_truncated() {
    assert_eq!(parse(b"").unwrap_err(), ParseError::Truncated);
}

#[test]
fn missing_header_terminator_is_truncated() {
    assert_eq!(
        parse(b"GET / HTTP/1.1\r\nHost: x\r\n").unwrap_err(),
        ParseError::Truncated
    );
}

#[test]
fn short_body_is_truncated() {
    assert_eq!(
        parse(b"POST /x HTTP/1.1\r\nContent-Length: 10\r\n\r\nabc").unwrap_err(),
        ParseError::Truncated
    );
}

#[test]
fn two_token_request_line_is_malformed() {
    assert_eq!(
        parse(b"GET /\r\n\r\n").unwrap_err(),
        ParseError::MalformedStartLine
    );
}

#[test]
fn empty_request_line_is_malformed() {
    assert_eq!(parse(b"\r\n\r\n").unwrap_err(), ParseError::MalformedStartLine);
}

#[test]
fn non_numeric_content_length_fails_deterministically() {
    assert_eq!(
        parse(b"GET / HTTP/1.1\r\nContent-Length: abc\r\n\r\n").unwrap_err(),
        ParseError::InvalidContentLength
    );
}

#[test]
fn empty_content_length_value_is_skipped() {
    // "Content-Length: " followed by nothing: after trimming there is no
    // ": " separator left, so the line is skipped, and no body is read
    let req = parse(b"GET / HTTP/1.1\r\nContent-Length: \r\n\r\n").unwrap();
    assert_eq!(req.headers.len(), 0);
    assert_eq!(req.body, Vec::<u8>::new());
}

#[test]
fn content_length_is_case_sensitive() {
    // a lowercase name is an ordinary header, not body framing
    let req = parse(b"POST /x HTTP/1.1\r\ncontent-length: 5\r\n\r\nhello").unwrap();
    assert_eq!(req.headers.len(), 1);
    assert_eq!(req.body, Vec::<u8>::new());
}

#[test]
fn content_length_with_leading_blank_fails() {
    // the value starts right after ": ", so "  5" keeps its blank and is
    // not a digit run
    assert_eq!(
        parse(b"GET / HTTP/1.1\r\nContent-Length:  5\r\n\r\n").unwrap_err(),
        ParseError::InvalidContentLength
    );
}

#[test]
fn all_blank_header_line_is_skipped() {
    let req = parse(b"GET / HTTP/1.1\r\n \r\nX: 1\r\n\r\n").unwrap();
    assert_eq!(req.headers.len(), 1);
    assert_eq!(req.headers[0].0, b"X".to_vec());
}

#[test]
fn huge_content_length_fails() {
    assert_eq!(
        parse(b"GET / HTTP/1.1\r\nContent-Length: 99999999999999999999999999\r\n\r\n")
            .unwrap_err(),
        ParseError::InvalidContentLength
    );
}

#[test]
fn negative_content_length_fails() {
    assert_eq!(
        parse(b"GET / HTTP/1.1\r\nContent-Length: -1\r\n\r\n").unwrap_err(),
        ParseError::InvalidContentLength
    );
}

#[test]
fn any_ascii_whitespace_separates_request_line_tokens() {
    let req = parse(b"GET\x0b/x\x0cHTTP/1.1\r\n\r\n").unwrap();
    assert_eq!(req.method, b"GET".to_vec());
    assert_eq!(req.path, b"/x".to_vec());
    assert_eq!(req.version, b"HTTP/1.1".to_vec());
}

#[test]
fn extra_request_line_tokens_are_ignored() {
    let req = parse(b"GET /a HTTP/1.1 junk\r\n\r\n").unwrap();
    assert_eq!(req.method, b"GET".to_vec());
    assert_eq!(req.path, b"/a".to_vec());
    assert_eq!(req.version, b"HTTP/1.1".to_vec());
}
