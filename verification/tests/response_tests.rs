use http_server::num::{dec_render, parse_dec};
use http_server::response::{make_response, Response};
use http_server::router::{handle_request, RouteOutcome};
use http_server::status::HTTPStatus;

#[test]
fn status_text() {
    assert_eq!(HTTPStatus::OK.to_string(), "200 OK");
    assert_eq!(HTTPStatus::Created.to_string(), "201 Created");
    assert_eq!(HTTPStatus::NotFound.to_string(), "404 Not Found");
    assert_eq!(
        HTTPStatus::MethodNotAllowed.to_string(),
        "405 Method Not Allowed"
    );
    assert_eq!(
        HTTPStatus::InternalServerError.to_string(),
        "500 Internal Server Error"
    );
}

#[test]
fn response_with_content_type_is_fully_framed() {
    let bytes = make_response(HTTPStatus::OK, Some(b"text/plain"), b"abc");
    assert_eq!(
        bytes,
        b"HTTP/1.1 200 OK\r\nContent-Type: text/plain\r\nContent-Length: 3\r\n\r\nabc".to_vec()
    );
}

#[test]
fn response_without_content_type_is_a_bare_status_line() {
    let bytes = make_response(HTTPStatus::Created, None, b"");
    assert_eq!(bytes, b"HTTP/1.1 201 Created\r\n\r\n".to_vec());
}

#[test]
fn content_length_counts_bytes_exactly() {
    let body = vec![0u8; 1234];
    let bytes = make_response(HTTPStatus::OK, Some(b"application/octet-stream"), &body);
    let head =
        b"HTTP/1.1 200 OK\r\nContent-Type: application/octet-stream\r\nContent-Length: 1234\r\n\r\n";
    assert_eq!(&bytes[..head.len()], &head[..]);
    assert_eq!(bytes.len(), head.len() + 1234);
}

#[test]
fn empty_body_with_content_type_has_zero_length() {
    let bytes = make_response(HTTPStatus::OK, Some(b"text/plain"), b"");
    assert_eq!(
        bytes,
        b"HTTP/1.1 200 OK\r\nContent-Type: text/plain\r\nContent-Length: 0\r\n\r\n".to_vec()
    );
}

#[test]
fn build_matches_make_response() {
    let resp = Response::with_body(HTTPStatus::OK, b"text/plain".to_vec(), b"hey".to_vec());
    assert_eq!(
        resp.build(),
        make_response(HTTPStatus::OK, Some(b"text/plain"), b"hey")
    );
    let bare = Response::bare(HTTPStatus::NotFound);
    assert_eq!(bare.build(), b"HTTP/1.1 404 Not Found\r\n\r\n".to_vec());
}

#[test]
fn echo_pipeline_bytes_end_to_end() {
    let out = handle_request(b"GET /echo/hi there HTTP/1.1\r\n\r\n");
    // a blank inside the path ends the path token: the echoed text is "hi"
    match out {
        RouteOutcome::Reply(resp) => assert_eq!(resp.body, b"hi".to_vec()),
        _ => panic!("expected a reply"),
    }
    let out = handle_request(b"GET /echo/plain HTTP/1.1\r\n\r\n");
    match out {
        RouteOutcome::Reply(resp) => {
            assert_eq!(
                resp.build(),
                b"HTTP/1.1 200 OK\r\nContent-Type: text/plain\r\nContent-Length: 5\r\n\r\nplain"
                    .to_vec()
            );
        }
        _ => panic!("expected a reply"),
    }
}

#[test]
fn decimal_rendering_exact() {
    assert_eq!(dec_render(0), b"0".to_vec());
    assert_eq!(dec_render(7), b"7".to_vec());
    assert_eq!(dec_render(10), b"10".to_vec());
    assert_eq!(dec_render(65535), b"65535".to_vec());
}

#[test]
fn decimal_parsing_exact() {
    assert_eq!(parse_dec(b"0", 0, 1), Some(0));
    assert_eq!(parse_dec(b"007", 0, 3), Some(7));
    assert_eq!(parse_dec(b"12345", 0, 5), Some(12345));
    assert_eq!(parse_dec(b"12a45", 0, 5), None);
    assert_eq!(parse_dec(b"", 0, 0), None);
    assert_eq!(parse_dec(b"18446744073709551615", 0, 20), Some(usize::MAX));
    assert_eq!(parse_dec(b"18446744073709551616", 0, 20), None);
}

#[test]
fn decimal_round_trip() {
    for n in [0usize, 1, 9, 10, 99, 100, 4221, usize::MAX] {
        let digits = dec_render(n);
        assert_eq!(parse_dec(&digits, 0, digits.len()), Some(n));
    }
}
