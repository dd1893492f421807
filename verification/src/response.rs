//! Response values and their serialization to wire bytes.
//!
//! The serializer is a strict two-branch framer: with a content type it emits
//! a `Content-Type` and a `Content-Length` header whose count equals the body
//! length; without one it emits no headers and no body.  A [`Response`] value
//! may carry a body only together with a content type, so the defective shape
//! (body bytes with no framing header) cannot be built.

use vstd::prelude::*;
use crate::num::dec_digits;
use crate::num::dec_render;
use crate::status::HTTPStatus;
use crate::status::spec_status_text;

verus! {

/// "HTTP/1.1 " — the fixed protocol prefix of every status line.
pub open spec fn http_version() -> Seq<u8> {
    seq![72u8, 84, 84, 80, 47, 49, 46, 49, 32]
}

/// "\r\n"
pub open spec fn crlf() -> Seq<u8> {
    seq![13u8, 10]
}

/// "Content-Type: "
pub open spec fn content_type_prefix() -> Seq<u8> {
    seq![67u8, 111, 110, 116, 101, 110, 116, 45, 84, 121, 112, 101, 58, 32]
}

/// "Content-Length: "
pub open spec fn content_length_prefix() -> Seq<u8> {
    seq![67u8, 111, 110, 116, 101, 110, 116, 45, 76, 101, 110, 103, 116, 104, 58, 32]
}

/// "text/plain"
pub open spec fn text_plain() -> Seq<u8> {
    seq![116u8, 101, 120, 116, 47, 112, 108, 97, 105, 110]
}

/// "application/octet-stream"
pub open spec fn octet_stream() -> Seq<u8> {
    seq![
        97u8, 112, 112, 108, 105, 99, 97, 116, 105, 111, 110, 47, 111, 99, 116, 101, 116, 45,
        115, 116, 114, 101, 97, 109,
    ]
}

/// The exact bytes of a serialized response: status line, then either a
/// `Content-Type`/`Content-Length` pair, a blank line and the body, or a bare
/// blank line with nothing after it.
pub open spec fn spec_make_response(
    status: HTTPStatus,
    content_type: Option<Seq<u8>>,
    body: Seq<u8>,
) -> Seq<u8> {
    match content_type {
        Some(ct) => http_version() + spec_status_text(status) + crlf() + content_type_prefix()
            + ct + crlf() + content_length_prefix() + dec_digits(body.len() as int) + crlf()
            + crlf() + body,
        None => http_version() + spec_status_text(status) + crlf() + crlf(),
    }
}

/// Appends every byte of `src` to `dst`.
pub fn push_all(dst: &mut Vec<u8>, src: &[u8])
    ensures
        final(dst)@ == old(dst)@ + src@,
{
    let mut i: usize = 0;
    while i < src.len()
        invariant
            i <= src@.len(),
            dst@ == old(dst)@ + src@.take(i as int),
        decreases src@.len() - i,
    {
        dst.push(src[i]);
        proof {
            assert(old(dst)@ + src@.take(i + 1) =~= (old(dst)@ + src@.take(i as int)).push(
                src@[i as int],
            ));
        }
        i += 1;
    }
    proof {
        assert(src@.take(src@.len() as int) =~= src@);
    }
}

/// Serializes a response from its parts.  A body may only be passed together
/// with a content type; the emitted `Content-Length` then equals its length.
pub fn make_response(status: HTTPStatus, content_type: Option<&[u8]>, body: &[u8]) -> (r: Vec<
    u8,
>)
    requires
        content_type is None ==> body@.len() == 0,
    ensures
        r@ == spec_make_response(
            status,
            match content_type {
                Some(ct) => Some(ct@),
                None => None,
            },
            body@,
        ),
{
    let mut out: Vec<u8> = Vec::new();
    let version: [u8; 9] = [72, 84, 84, 80, 47, 49, 46, 49, 32];
    push_all(&mut out, version.as_slice());
    let text = status.wire_text();
    push_all(&mut out, text.as_slice());
    out.push(13);
    out.push(10);
    match content_type {
        Some(ct) => {
            let ct_prefix: [u8; 14] = [67, 111, 110, 116, 101, 110, 116, 45, 84, 121, 112, 101,
                58, 32];
            push_all(&mut out, ct_prefix.as_slice());
            push_all(&mut out, ct);
            out.push(13);
            out.push(10);
            let cl_prefix: [u8; 16] = [67, 111, 110, 116, 101, 110, 116, 45, 76, 101, 110, 103,
                116, 104, 58, 32];
            push_all(&mut out, cl_prefix.as_slice());
            let digits = dec_render(body.len());
            push_all(&mut out, digits.as_slice());
            out.push(13);
            out.push(10);
            out.push(13);
            out.push(10);
            push_all(&mut out, body);
            proof {
                assert(out@ =~= spec_make_response(status, Some(ct@), body@));
            }
        },
        None => {
            out.push(13);
            out.push(10);
            proof {
                assert(out@ =~= spec_make_response(status, None, body@));
            }
        },
    }
    out
}

/// A response before serialization.  `content_type` absent means the response
/// carries no body; the well-formedness predicate rules the other shape out.
pub struct Response {
    pub status: HTTPStatus,
    pub content_type: Option<Vec<u8>>,
    pub body: Vec<u8>,
}

/// The spec-level image of a [`Response`].
pub struct RespView {
    pub status: HTTPStatus,
    pub content_type: Option<Seq<u8>>,
    pub body: Seq<u8>,
}

impl View for Response {
    type V = RespView;

    open spec fn view(&self) -> RespView {
        RespView {
            status: self.status,
            content_type: match self.content_type {
                Some(ct) => Some(ct@),
                None => None,
            },
            body: self.body@,
        }
    }
}

impl RespView {
    /// A body is only ever carried together with a content type.
    pub open spec fn wf(self) -> bool {
        self.content_type is None ==> self.body.len() == 0
    }
}

impl Response {
    /// A response with no headers and no body.
    pub fn bare(status: HTTPStatus) -> (r: Response)
        ensures
            r@ == (RespView { status, content_type: None, body: Seq::empty() }),
            r@.wf(),
    {
        let r = Response { status, content_type: None, body: Vec::new() };
        proof {
            assert(r@.body =~= Seq::<u8>::empty());
        }
        r
    }

    /// A response with a content type and a body.
    pub fn with_body(status: HTTPStatus, content_type: Vec<u8>, body: Vec<u8>) -> (r: Response)
        ensures
            r@ == (RespView { status, content_type: Some(content_type@), body: body@ }),
            r@.wf(),
    {
        Response { status, content_type: Some(content_type), body }
    }

    /// Serializes this response.
    pub fn build(&self) -> (r: Vec<u8>)
        requires
            self@.wf(),
        ensures
            r@ == spec_make_response(self@.status, self@.content_type, self@.body),
    {
        match &self.content_type {
            Some(ct) => make_response(self.status, Some(ct.as_slice()), self.body.as_slice()),
            None => make_response(self.status, None, self.body.as_slice()),
        }
    }
}

} // verus!
