use http_server::request::parse;
use http_server::router::{
    dispatch, file_read_response, file_write_response, handle_request, RouteOutcome,
};
use http_server::status::HTTPStatus;

#[test]
fn root_answers_ok_with_no_body() {
    let out = handle_request(b"GET / HTTP/1.1\r\n\r\n");
    match out {
        RouteOutcome::Reply(resp) => {
            assert_eq!(resp.status, HTTPStatus::OK);
            assert_eq!(resp.content_type, None);
            assert_eq!(resp.body, Vec::<u8>::new());
        }
        _ => panic!("expected a reply"),
    }
}

#[test]
fn echo_returns_the_suffix() {
    let out = handle_request(b"GET /echo/hello HTTP/1.1\r\n\r\n");
    match out {
        RouteOutcome::Reply(resp) => {
            assert_eq!(resp.status, HTTPStatus::OK);
            assert_eq!(resp.content_type, Some(b"text/plain".to_vec()));
            assert_eq!(resp.body, b"hello".to_vec());
        }
        _ => panic!("expected a reply"),
    }
}

#[test]
fn echo_empty_suffix() {
    let out = handle_request(b"GET /echo/ HTTP/1.1\r\n\r\n");
    match out {
        RouteOutcome::Reply(resp) => {
            assert_eq!(resp.status, HTTPStatus::OK);
            assert_eq!(resp.body, Vec::<u8>::new());
        }
        _ => panic!("expected a reply"),
    }
}

#[test]
fn echo_keeps_slashes_verbatim() {
    let out = handle_request(b"GET /echo/a/b/c HTTP/1.1\r\n\r\n");
    match out {
        RouteOutcome::Reply(resp) => assert_eq!(resp.body, b"a/b/c".to_vec()),
        _ => panic!("expected a reply"),
    }
}

#[test]
fn user_agent_returns_the_header_value() {
    let out = handle_request(b"GET /user-agent HTTP/1.1\r\nUser-Agent: X\r\n\r\n");
    match out {
        RouteOutcome::Reply(resp) => {
            assert_eq!(resp.status, HTTPStatus::OK);
            assert_eq!(resp.content_type, Some(b"text/plain".to_vec()));
            assert_eq!(resp.body, b"X".to_vec());
        }
        _ => panic!("expected a reply"),
    }
}

#[test]
fn user_agent_missing_header_is_empty_not_an_error() {
    let out = handle_request(b"GET /user-agent HTTP/1.1\r\nHost: x\r\n\r\n");
    match out {
        RouteOutcome::Reply(resp) => {
            assert_eq!(resp.status, HTTPStatus::OK);
            assert_eq!(resp.body, Vec::<u8>::new());
        }
        _ => panic!("expected a reply"),
    }
}

#[test]
fn user_agent_lookup_is_case_sensitive() {
    let out = handle_request(b"GET /user-agent HTTP/1.1\r\nuser-agent: X\r\n\r\n");
    match out {
        RouteOutcome::Reply(resp) => assert_eq!(resp.body, Vec::<u8>::new()),
        _ => panic!("expected a reply"),
    }
}

#[test]
fn user_agent_first_match_wins() {
    let out = handle_request(b"GET /user-agent HTTP/1.1\r\nUser-Agent: A\r\nUser-Agent: B\r\n\r\n");
    match out {
        RouteOutcome::Reply(resp) => assert_eq!(resp.body, b"A".to_vec()),
        _ => panic!("expected a reply"),
    }
}

#[test]
fn files_get_becomes_a_read() {
    let out = handle_request(b"GET /files/notes.txt HTTP/1.1\r\n\r\n");
    match out {
        RouteOutcome::FileRead { name } => assert_eq!(name, b"notes.txt".to_vec()),
        _ => panic!("expected a file read"),
    }
}

#[test]
fn files_post_becomes_a_write_of_the_body() {
    let out =
        handle_request(b"POST /files/data.bin HTTP/1.1\r\nContent-Length: 5\r\n\r\nhello");
    match out {
        RouteOutcome::FileWrite { name, contents } => {
            assert_eq!(name, b"data.bin".to_vec());
            assert_eq!(contents, b"hello".to_vec());
        }
        _ => panic!("expected a file write"),
    }
}

#[test]
fn files_other_method_is_refused() {
    let out = handle_request(b"PUT /files/a HTTP/1.1\r\n\r\n");
    match out {
        RouteOutcome::Reply(resp) => {
            assert_eq!(resp.status, HTTPStatus::MethodNotAllowed);
            assert_eq!(resp.body, Vec::<u8>::new());
        }
        _ => panic!("expected a reply"),
    }
}

#[test]
fn files_round_trip_stores_and_returns_the_same_bytes() {
    let body: Vec<u8> = (0u8..=255).collect();
    let mut post = b"POST /files/blob HTTP/1.1\r\nContent-Length: 256\r\n\r\n".to_vec();
    post.extend_from_slice(&body);
    let stored = match handle_request(&post) {
        RouteOutcome::FileWrite { name, contents } => {
            assert_eq!(name, b"blob".to_vec());
            contents
        }
        _ => panic!("expected a file write"),
    };
    match handle_request(b"GET /files/blob HTTP/1.1\r\n\r\n") {
        RouteOutcome::FileRead { name } => assert_eq!(name, b"blob".to_vec()),
        _ => panic!("expected a file read"),
    }
    let resp = file_read_response(Some(stored));
    assert_eq!(resp.status, HTTPStatus::OK);
    assert_eq!(resp.content_type, Some(b"application/octet-stream".to_vec()));
    assert_eq!(resp.body, body);
}

#[test]
fn files_missing_read_answers_not_found_with_empty_body() {
    match handle_request(b"GET /files/missing HTTP/1.1\r\n\r\n") {
        RouteOutcome::FileRead { name } => assert_eq!(name, b"missing".to_vec()),
        _ => panic!("expected a file read"),
    }
    let resp = file_read_response(None);
    assert_eq!(resp.status, HTTPStatus::NotFound);
    assert_eq!(resp.content_type, None);
    assert_eq!(resp.body, Vec::<u8>::new());
    assert_eq!(resp.build(), b"HTTP/1.1 404 Not Found\r\n\r\n".to_vec());
}

#[test]
fn file_write_outcomes() {
    assert_eq!(file_write_response(true).status, HTTPStatus::Created);
    assert_eq!(
        file_write_response(false).status,
        HTTPStatus::InternalServerError
    );
}

#[test]
fn unknown_path_is_not_found_without_content_type() {
    let out = handle_request(b"GET /nope HTTP/1.1\r\n\r\n");
    match out {
        RouteOutcome::Reply(resp) => {
            assert_eq!(resp.status, HTTPStatus::NotFound);
            assert_eq!(resp.content_type, None);
            assert_eq!(resp.body, Vec::<u8>::new());
            assert_eq!(resp.build(), b"HTTP/1.1 404 Not Found\r\n\r\n".to_vec());
        }
        _ => panic!("expected a reply"),
    }
}

#[test]
fn parse_failure_maps_to_not_found() {
    let out = handle_request(b"GET / HTTP/1.1\r\nContent-Length: abc\r\n\r\n");
    match out {
        RouteOutcome::Reply(resp) => assert_eq!(resp.status, HTTPStatus::NotFound),
        _ => panic!("expected a reply"),
    }
}

#[test]
fn incomplete_input_asks_for_more() {
    assert!(matches!(
        handle_request(b"GET / HTTP/1.1\r\n"),
        RouteOutcome::NeedMore
    ));
    assert!(matches!(handle_request(b""), RouteOutcome::NeedMore));
}

#[test]
fn dispatch_follows_parse() {
    let req = parse(b"GET /echo/zz HTTP/1.1\r\n\r\n").unwrap();
    match dispatch(&req) {
        RouteOutcome::Reply(resp) => assert_eq!(resp.body, b"zz".to_vec()),
        _ => panic!("expected a reply"),
    }
}
