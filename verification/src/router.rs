//! Routing: from a parsed request to either a complete response or a file
//! action for the embedding program to perform.
//!
//! The rules are checked in a fixed order, first match wins: the bare root
//! path, the `/echo/` prefix, the `/files/` prefix, the `/user-agent` path,
//! and everything else is not found.  Header lookup is a case-sensitive
//! linear scan that keeps the first match in arrival order.

use vstd::prelude::*;
use vstd::slice::slice_subrange;
use vstd::slice::slice_to_vec;
use crate::request::Request;
use crate::request::ReqView;
use crate::request::ParseError;
use crate::request::spec_parse;
use crate::request::parse;
use crate::request::headers_view;
use crate::response::Response;
use crate::response::RespView;
use crate::response::text_plain;
use crate::response::octet_stream;
use crate::scan::bytes_eq;
use crate::status::HTTPStatus;

verus! {

/// "/" — the root path.
pub open spec fn root_path() -> Seq<u8> {
    seq![47u8]
}

/// "/echo/"
pub open spec fn echo_prefix() -> Seq<u8> {
    seq![47u8, 101, 99, 104, 111, 47]
}

/// "/files/"
pub open spec fn files_prefix() -> Seq<u8> {
    seq![47u8, 102, 105, 108, 101, 115, 47]
}

/// "/user-agent"
pub open spec fn user_agent_path() -> Seq<u8> {
    seq![47u8, 117, 115, 101, 114, 45, 97, 103, 101, 110, 116]
}

/// "User-Agent"
pub open spec fn user_agent_name() -> Seq<u8> {
    seq![85u8, 115, 101, 114, 45, 65, 103, 101, 110, 116]
}

/// "GET"
pub open spec fn get_method() -> Seq<u8> {
    seq![71u8, 69, 84]
}

/// "POST"
pub open spec fn post_method() -> Seq<u8> {
    seq![80u8, 79, 83, 84]
}

pub open spec fn spec_starts_with(s: Seq<u8>, p: Seq<u8>) -> bool {
    s.len() >= p.len() && s.take(p.len() as int) == p
}

/// What the router decides for one request.
pub enum RouteOutcome {
    /// The buffer ends before a full request does: read more bytes, parse again.
    NeedMore,
    /// A finished response, ready to serialize.
    Reply(Response),
    /// Read the stored file of this name; feed the result to
    /// [`file_read_response`].
    FileRead { name: Vec<u8> },
    /// Write these bytes as the file of this name; feed the outcome to
    /// [`file_write_response`].
    FileWrite { name: Vec<u8>, contents: Vec<u8> },
}

/// The spec-level image of a [`RouteOutcome`].
pub enum OutcomeView {
    NeedMore,
    Reply(RespView),
    FileRead { name: Seq<u8> },
    FileWrite { name: Seq<u8>, contents: Seq<u8> },
}

impl View for RouteOutcome {
    type V = OutcomeView;

    open spec fn view(&self) -> OutcomeView {
        match self {
            RouteOutcome::NeedMore => OutcomeView::NeedMore,
            RouteOutcome::Reply(resp) => OutcomeView::Reply(resp@),
            RouteOutcome::FileRead { name } => OutcomeView::FileRead { name: name@ },
            RouteOutcome::FileWrite { name, contents } => OutcomeView::FileWrite {
                name: name@,
                contents: contents@,
            },
        }
    }
}

/// Every response a routing decision carries is well-formed.
pub open spec fn outcome_wf(o: OutcomeView) -> bool {
    match o {
        OutcomeView::Reply(resp) => resp.wf(),
        _ => true,
    }
}

/// The value of the first header of this name in arrival order, or empty.
pub open spec fn spec_header_lookup(hs: Seq<(Seq<u8>, Seq<u8>)>, name: Seq<u8>) -> Seq<u8>
    decreases hs.len(),
{
    if hs.len() == 0 {
        Seq::empty()
    } else if hs[0].0 == name {
        hs[0].1
    } else {
        spec_header_lookup(hs.drop_first(), name)
    }
}

/// The decision for a `/files/{name}` path: the method picks between reading
/// the file, writing the request body to it, and refusing the method.
pub open spec fn spec_route_file(r: ReqView) -> OutcomeView {
    let name = r.path.skip(7);
    if r.method == get_method() {
        OutcomeView::FileRead { name }
    } else if r.method == post_method() {
        OutcomeView::FileWrite { name, contents: r.body }
    } else {
        OutcomeView::Reply(
            RespView {
                status: HTTPStatus::MethodNotAllowed,
                content_type: None,
                body: Seq::empty(),
            },
        )
    }
}

/// The routing rules, in precedence order, first match wins.
pub open spec fn spec_dispatch(r: ReqView) -> OutcomeView {
    if r.path == root_path() {
        OutcomeView::Reply(
            RespView { status: HTTPStatus::OK, content_type: None, body: Seq::empty() },
        )
    } else if spec_starts_with(r.path, echo_prefix()) {
        OutcomeView::Reply(
            RespView {
                status: HTTPStatus::OK,
                content_type: Some(text_plain()),
                body: r.path.skip(6),
            },
        )
    } else if spec_starts_with(r.path, files_prefix()) {
        spec_route_file(r)
    } else if r.path == user_agent_path() {
        OutcomeView::Reply(
            RespView {
                status: HTTPStatus::OK,
                content_type: Some(text_plain()),
                body: spec_header_lookup(r.headers, user_agent_name()),
            },
        )
    } else {
        OutcomeView::Reply(
            RespView { status: HTTPStatus::NotFound, content_type: None, body: Seq::empty() },
        )
    }
}

/// Whether `s` begins with the bytes of `p`.
pub fn has_prefix(s: &[u8], p: &[u8]) -> (r: bool)
    ensures
        r == spec_starts_with(s@, p@),
{
    if s.len() < p.len() {
        return false;
    }
    let head = slice_subrange(s, 0, p.len());
    bytes_eq(head, p)
}

/// Finds the first header of this name and hands its value out, or empty.
pub fn header_lookup(headers: &Vec<(Vec<u8>, Vec<u8>)>, name: &[u8]) -> (r: Vec<u8>)
    ensures
        r@ == spec_header_lookup(headers_view(headers@), name@),
{
    let ghost full = headers_view(headers@);
    proof {
        assert(full.skip(0) =~= full);
    }
    let mut i: usize = 0;
    while i < headers.len()
        invariant
            i <= headers@.len(),
            full == headers_view(headers@),
            spec_header_lookup(full, name@) == spec_header_lookup(full.skip(i as int), name@),
        decreases headers@.len() - i,
    {
        if bytes_eq(headers[i].0.as_slice(), name) {
            proof {
                assert(full.skip(i as int)[0] == full[i as int]);
            }
            return slice_to_vec(headers[i].1.as_slice());
        }
        proof {
            assert(full.skip(i as int)[0] == full[i as int]);
            assert(full.skip(i as int).drop_first() =~= full.skip(i + 1));
        }
        i += 1;
    }
    proof {
        assert(full.skip(headers@.len() as int) =~= Seq::<(Seq<u8>, Seq<u8>)>::empty());
    }
    Vec::new()
}

/// Routes a parsed request: exactly the decision of [`spec_dispatch`].
pub fn dispatch(req: &Request) -> (r: RouteOutcome)
    ensures
        r@ == spec_dispatch(req@),
        outcome_wf(r@),
{
    let root: [u8; 1] = [47];
    let echo: [u8; 6] = [47, 101, 99, 104, 111, 47];
    let files: [u8; 7] = [47, 102, 105, 108, 101, 115, 47];
    let ua_path: [u8; 11] = [47, 117, 115, 101, 114, 45, 97, 103, 101, 110, 116];
    proof {
        assert(root@ =~= root_path());
        assert(echo@ =~= echo_prefix());
        assert(files@ =~= files_prefix());
        assert(ua_path@ =~= user_agent_path());
    }
    if bytes_eq(req.path.as_slice(), root.as_slice()) {
        RouteOutcome::Reply(Response::bare(HTTPStatus::OK))
    } else if has_prefix(req.path.as_slice(), echo.as_slice()) {
        let body = slice_to_vec(slice_subrange(req.path.as_slice(), 6, req.path.len()));
        proof {
            assert(body@ =~= req.path@.skip(6));
        }
        let tp: [u8; 10] = [116, 101, 120, 116, 47, 112, 108, 97, 105, 110];
        let ct = slice_to_vec(tp.as_slice());
        proof {
            assert(ct@ =~= text_plain());
        }
        RouteOutcome::Reply(Response::with_body(HTTPStatus::OK, ct, body))
    } else if has_prefix(req.path.as_slice(), files.as_slice()) {
        let name = slice_to_vec(slice_subrange(req.path.as_slice(), 7, req.path.len()));
        proof {
            assert(name@ =~= req.path@.skip(7));
        }
        let get: [u8; 3] = [71, 69, 84];
        let post: [u8; 4] = [80, 79, 83, 84];
        proof {
            assert(get@ =~= get_method());
            assert(post@ =~= post_method());
        }
        if bytes_eq(req.method.as_slice(), get.as_slice()) {
            RouteOutcome::FileRead { name }
        } else if bytes_eq(req.method.as_slice(), post.as_slice()) {
            let contents = slice_to_vec(req.body.as_slice());
            RouteOutcome::FileWrite { name, contents }
        } else {
            RouteOutcome::Reply(Response::bare(HTTPStatus::MethodNotAllowed))
        }
    } else if bytes_eq(req.path.as_slice(), ua_path.as_slice()) {
        let ua_name: [u8; 10] = [85, 115, 101, 114, 45, 65, 103, 101, 110, 116];
        proof {
            assert(ua_name@ =~= user_agent_name());
        }
        let body = header_lookup(&req.headers, ua_name.as_slice());
        let tp: [u8; 10] = [116, 101, 120, 116, 47, 112, 108, 97, 105, 110];
        let ct = slice_to_vec(tp.as_slice());
        proof {
            assert(ct@ =~= text_plain());
        }
        RouteOutcome::Reply(Response::with_body(HTTPStatus::OK, ct, body))
    } else {
        RouteOutcome::Reply(Response::bare(HTTPStatus::NotFound))
    }
}

/// The response once the stored file of a [`RouteOutcome::FileRead`] has
/// been looked up: its bytes under `application/octet-stream`, or not found.
pub open spec fn spec_file_read_response(contents: Option<Seq<u8>>) -> RespView {
    match contents {
        Some(b) => RespView {
            status: HTTPStatus::OK,
            content_type: Some(octet_stream()),
            body: b,
        },
        None => RespView { status: HTTPStatus::NotFound, content_type: None, body: Seq::empty() },
    }
}

pub fn file_read_response(contents: Option<Vec<u8>>) -> (r: Response)
    ensures
        r@ == spec_file_read_response(
            match contents {
                Some(b) => Some(b@),
                None => None,
            },
        ),
        r@.wf(),
{
    match contents {
        Some(b) => {
            let os: [u8; 24] = [97, 112, 112, 108, 105, 99, 97, 116, 105, 111, 110, 47, 111, 99,
                116, 101, 116, 45, 115, 116, 114, 101, 97, 109];
            let ct = slice_to_vec(os.as_slice());
            proof {
                assert(ct@ =~= octet_stream());
            }
            Response::with_body(HTTPStatus::OK, ct, b)
        },
        None => Response::bare(HTTPStatus::NotFound),
    }
}

/// The response once a [`RouteOutcome::FileWrite`] has been attempted:
/// created on success, a server error — not a crash — on failure.
pub open spec fn spec_file_write_response(ok: bool) -> RespView {
    if ok {
        RespView { status: HTTPStatus::Created, content_type: None, body: Seq::empty() }
    } else {
        RespView {
            status: HTTPStatus::InternalServerError,
            content_type: None,
            body: Seq::empty(),
        }
    }
}

pub fn file_write_response(ok: bool) -> (r: Response)
    ensures
        r@ == spec_file_write_response(ok),
        r@.wf(),
{
    if ok {
        Response::bare(HTTPStatus::Created)
    } else {
        Response::bare(HTTPStatus::InternalServerError)
    }
}

/// One whole step on a buffer of request bytes: parse, then route.  A
/// truncated buffer asks for more input; the other parse failures map to a
/// not-found reply, and never tear the process down.
pub open spec fn spec_handle_request(s: Seq<u8>) -> OutcomeView {
    match spec_parse(s) {
        Ok(r) => spec_dispatch(r),
        Err(ParseError::Truncated) => OutcomeView::NeedMore,
        Err(_) => OutcomeView::Reply(
            RespView { status: HTTPStatus::NotFound, content_type: None, body: Seq::empty() },
        ),
    }
}

pub fn handle_request(input: &[u8]) -> (r: RouteOutcome)
    ensures
        r@ == spec_handle_request(input@),
        outcome_wf(r@),
{
    match parse(input) {
        Ok(req) => dispatch(&req),
        Err(ParseError::Truncated) => RouteOutcome::NeedMore,
        Err(_) => RouteOutcome::Reply(Response::bare(HTTPStatus::NotFound)),
    }
}

} // verus!
