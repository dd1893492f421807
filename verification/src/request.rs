//! Parsing raw request bytes into a structured request.
//!
//! A request is a request line (three blank-separated tokens), a block of
//! `Name: Value` header lines ended by an empty line, and — when a
//! `Content-Length` header is present — exactly that many body bytes taken
//! byte-for-byte, never line-by-line.  The parser is total over the input
//! buffer: a buffer that ends before the request does yields
//! [`ParseError::Truncated`], so a caller reading from a stream can ask for
//! more bytes and try again.

use vstd::prelude::*;
use vstd::slice::slice_subrange;
use vstd::slice::slice_to_vec;
use crate::scan::spec_find_lf;
use crate::scan::spec_skip_blanks;
use crate::scan::spec_scan_token;
use crate::scan::spec_trim_end;
use crate::scan::spec_find_sep;
use crate::scan::lemma_find_lf;
use crate::scan::find_lf;
use crate::scan::skip_blanks;
use crate::scan::scan_token;
use crate::scan::trim_end;
use crate::scan::find_sep;
use crate::scan::bytes_eq;
use crate::num::valid_content_length;
use crate::num::dec_value;
use crate::num::parse_dec;

verus! {

/// Why a byte buffer was rejected.
#[derive(Clone, Copy, PartialEq, Eq, Structural, Debug)]
pub enum ParseError {
    /// The buffer ends before the request does; more bytes may still arrive.
    Truncated,
    /// The request line holds fewer than three tokens.
    MalformedStartLine,
    /// A `Content-Length` value is not a digit run whose value fits.
    InvalidContentLength,
}

/// "Content-Length", the one header name the parser itself reads.
pub open spec fn content_length_name() -> Seq<u8> {
    seq![67u8, 111, 110, 116, 101, 110, 116, 45, 76, 101, 110, 103, 116, 104]
}

/// A parsed request.  Header names are compared byte-exact, duplicates stay
/// in arrival order, and the body length equals the parsed `Content-Length`.
#[derive(Debug)]
pub struct Request {
    pub method: Vec<u8>,
    pub path: Vec<u8>,
    pub version: Vec<u8>,
    pub headers: Vec<(Vec<u8>, Vec<u8>)>,
    pub body: Vec<u8>,
}

/// The spec-level image of a [`Request`].
#[verifier::ext_equal]
pub struct ReqView {
    pub method: Seq<u8>,
    pub path: Seq<u8>,
    pub version: Seq<u8>,
    pub headers: Seq<(Seq<u8>, Seq<u8>)>,
    pub body: Seq<u8>,
}

pub open spec fn headers_view(hs: Seq<(Vec<u8>, Vec<u8>)>) -> Seq<(Seq<u8>, Seq<u8>)> {
    Seq::new(hs.len(), |i: int| (hs[i].0@, hs[i].1@))
}

impl View for Request {
    type V = ReqView;

    open spec fn view(&self) -> ReqView {
        ReqView {
            method: self.method@,
            path: self.path@,
            version: self.version@,
            headers: headers_view(self.headers@),
            body: self.body@,
        }
    }
}

/// What one pass over a header block yields: the pairs in arrival order, the
/// value of the last `Content-Length` header if any, and the index just past
/// the blank line.
pub type HeaderBlock = (Seq<(Seq<u8>, Seq<u8>)>, Option<int>, int);

/// Of two optional `Content-Length` values, the one nearer the end of the
/// header block: a later header overrides an earlier one.
pub open spec fn later_of(late: Option<int>, early: Option<int>) -> Option<int> {
    if late is Some {
        late
    } else {
        early
    }
}

/// One pass over the header block starting at `i`.  An empty line (bare line
/// feed, or carriage return + line feed) ends the block; a line without the
/// `": "` separator is skipped; a `Content-Length` line whose value is not a
/// fitting digit run is a fatal error, never silently zero.
pub open spec fn spec_headers(s: Seq<u8>, i: int) -> Result<HeaderBlock, ParseError>
    decreases s.len() - i
        when 0 <= i <= s.len()
        via spec_headers_dec
{
    match spec_find_lf(s, i) {
        None => Err(ParseError::Truncated),
        Some(lf) => {
            if lf == i || (lf == i + 1 && s[i] == 13) {
                Ok((Seq::empty(), None, lf + 1))
            } else {
                let e = spec_trim_end(s, i, lf);
                match spec_find_sep(s, i, e) {
                    None => spec_headers(s, lf + 1),
                    Some(c) => {
                        let name = s.subrange(i, c);
                        let value = s.subrange(c + 2, e);
                        if name == content_length_name() && !valid_content_length(value) {
                            Err(ParseError::InvalidContentLength)
                        } else {
                            match spec_headers(s, lf + 1) {
                                Err(err) => Err(err),
                                Ok((hs, clo, bs)) => {
                                    let here = if name == content_length_name() {
                                        Some(dec_value(value))
                                    } else {
                                        None
                                    };
                                    Ok((seq![(name, value)] + hs, later_of(clo, here), bs))
                                },
                            }
                        }
                    },
                }
            }
        },
    }
}

#[via_fn]
proof fn spec_headers_dec(s: Seq<u8>, i: int) {
    lemma_find_lf(s, i);
}

/// The parse of a whole request from raw bytes.  The request line is split
/// at runs of blanks into method, path and version; fewer than three tokens
/// is a failure.  The body is the `Content-Length` bytes that follow the
/// blank line, or empty without that header.
pub open spec fn spec_parse(s: Seq<u8>) -> Result<ReqView, ParseError> {
    match spec_find_lf(s, 0) {
        None => Err(ParseError::Truncated),
        Some(lf) => {
            let a0 = spec_skip_blanks(s, 0, lf);
            let b0 = spec_scan_token(s, a0, lf);
            let a1 = spec_skip_blanks(s, b0, lf);
            let b1 = spec_scan_token(s, a1, lf);
            let a2 = spec_skip_blanks(s, b1, lf);
            let b2 = spec_scan_token(s, a2, lf);
            if a0 == b0 || a1 == b1 || a2 == b2 {
                Err(ParseError::MalformedStartLine)
            } else {
                match spec_headers(s, lf + 1) {
                    Err(e) => Err(e),
                    Ok((hs, clo, bs)) => {
                        let cl = match clo {
                            Some(n) => n,
                            None => 0,
                        };
                        if bs + cl > s.len() {
                            Err(ParseError::Truncated)
                        } else {
                            Ok(ReqView {
                                method: s.subrange(a0, b0),
                                path: s.subrange(a1, b1),
                                version: s.subrange(a2, b2),
                                headers: hs,
                                body: s.subrange(bs, bs + cl),
                            })
                        }
                    },
                }
            }
        },
    }
}

/// The spec image of the running `Content-Length` tracker.
pub open spec fn cl_view(c: Option<usize>) -> Option<int> {
    match c {
        Some(v) => Some(v as int),
        None => None,
    }
}

/// The request-line facts the header loop carries: where the first line ends
/// and where the three tokens stand.
spec fn start_line_ok(s: Seq<u8>, lf: int, a0: int, b0: int, a1: int, b1: int, a2: int, b2: int) -> bool {
    &&& spec_find_lf(s, 0) == Some(lf)
    &&& 0 <= lf < s.len()
    &&& a0 == spec_skip_blanks(s, 0, lf)
    &&& b0 == spec_scan_token(s, a0, lf)
    &&& a1 == spec_skip_blanks(s, b0, lf)
    &&& b1 == spec_scan_token(s, a1, lf)
    &&& a2 == spec_skip_blanks(s, b1, lf)
    &&& b2 == spec_scan_token(s, a2, lf)
    &&& a0 != b0
    &&& a1 != b1
    &&& a2 != b2
    &&& 0 <= a0 <= b0 <= lf
    &&& b0 <= a1 <= b1 <= lf
    &&& b1 <= a2 <= b2 <= lf
}

/// The header loop's rolling summary: the block from `hdr_start` equals the
/// pairs and `Content-Length` gathered so far, extended by whatever the
/// block from `pos` still yields.
spec fn headers_inv(
    s: Seq<u8>,
    hdr_start: int,
    pos: int,
    acc: Seq<(Seq<u8>, Seq<u8>)>,
    cur: Option<int>,
) -> bool {
    match spec_headers(s, pos) {
        Err(e) => spec_headers(s, hdr_start) == Err::<HeaderBlock, ParseError>(e),
        Ok((hs, clo, bs)) => spec_headers(s, hdr_start) == Ok::<HeaderBlock, ParseError>(
            (acc + hs, later_of(clo, cur), bs),
        ),
    }
}

/// Parses one request out of `input`.  The result is exactly what
/// [`spec_parse`] says of the bytes.
pub fn parse(input: &[u8]) -> (r: Result<Request, ParseError>)
    ensures
        match r {
            Ok(req) => spec_parse(input@) == Ok::<ReqView, ParseError>(req@),
            Err(e) => spec_parse(input@) == Err::<ReqView, ParseError>(e),
        },
{
    let n: usize = input.len();
    let lf = match find_lf(input, 0) {
        Some(j) => j,
        None => {
            return Err(ParseError::Truncated);
        },
    };
    let a0 = skip_blanks(input, 0, lf);
    let b0 = scan_token(input, a0, lf);
    let a1 = skip_blanks(input, b0, lf);
    let b1 = scan_token(input, a1, lf);
    let a2 = skip_blanks(input, b1, lf);
    let b2 = scan_token(input, a2, lf);
    if a0 == b0 || a1 == b1 || a2 == b2 {
        return Err(ParseError::MalformedStartLine);
    }
    let method = slice_to_vec(slice_subrange(input, a0, b0));
    let path = slice_to_vec(slice_subrange(input, a1, b1));
    let version = slice_to_vec(slice_subrange(input, a2, b2));
    let ghost hdr_start: int = lf + 1;
    let mut pos: usize = lf + 1;
    let mut headers: Vec<(Vec<u8>, Vec<u8>)> = Vec::new();
    let mut content_length: Option<usize> = None;
    proof {
        assert(headers_view(headers@) =~= Seq::<(Seq<u8>, Seq<u8>)>::empty());
        match spec_headers(input@, hdr_start) {
            Err(_) => {},
            Ok((hs, clo, bs)) => {
                assert(Seq::<(Seq<u8>, Seq<u8>)>::empty() + hs =~= hs);
            },
        }
    }
    loop
        invariant
            n == input@.len(),
            hdr_start == lf + 1,
            hdr_start <= pos <= input@.len(),
            start_line_ok(
                input@,
                lf as int,
                a0 as int,
                b0 as int,
                a1 as int,
                b1 as int,
                a2 as int,
                b2 as int,
            ),
            method@ == input@.subrange(a0 as int, b0 as int),
            path@ == input@.subrange(a1 as int, b1 as int),
            version@ == input@.subrange(a2 as int, b2 as int),
            headers_inv(
                input@,
                hdr_start,
                pos as int,
                headers_view(headers@),
                cl_view(content_length),
            ),
        decreases input@.len() - pos,
    {
        let lf2 = match find_lf(input, pos) {
            Some(j) => j,
            None => {
                return Err(ParseError::Truncated);
            },
        };
        if lf2 == pos || (lf2 == pos + 1 && input[pos] == 13) {
            // the empty line: the header block is complete
            let body_start = lf2 + 1;
            let cl = match content_length {
                Some(v) => v,
                None => 0,
            };
            proof {
                match spec_headers(input@, pos as int) {
                    Err(_) => {},
                    Ok((hs, clo, bs)) => {
                        assert(headers_view(headers@) + hs =~= headers_view(headers@));
                    },
                }
            }
            if cl > input.len() - body_start {
                return Err(ParseError::Truncated);
            }
            let body = slice_to_vec(slice_subrange(input, body_start, body_start + cl));
            let req = Request { method, path, version, headers, body };
            proof {
                assert(spec_parse(input@) == Ok::<ReqView, ParseError>(req@));
            }
            return Ok(req);
        }
        let e = trim_end(input, pos, lf2);
        match find_sep(input, pos, e) {
            None => {
                // no ": " separator: the line is skipped
                pos = lf2 + 1;
            },
            Some(c) => {
                let name = slice_to_vec(slice_subrange(input, pos, c));
                let value = slice_to_vec(slice_subrange(input, c + 2, e));
                let cl_name: [u8; 14] = [67, 111, 110, 116, 101, 110, 116, 45, 76, 101, 110,
                    103, 116, 104];
                proof {
                    assert(cl_name@ =~= content_length_name());
                }
                let ghost old_acc = headers_view(headers@);
                let ghost old_cur = cl_view(content_length);
                if bytes_eq(name.as_slice(), cl_name.as_slice()) {
                    match parse_dec(input, c + 2, e) {
                        Some(v) => {
                            content_length = Some(v);
                        },
                        None => {
                            return Err(ParseError::InvalidContentLength);
                        },
                    }
                }
                headers.push((name, value));
                proof {
                    assert(headers_view(headers@) =~= old_acc + seq![
                        (
                            input@.subrange(pos as int, c as int),
                            input@.subrange(c + 2, e as int),
                        ),
                    ]);
                    match spec_headers(input@, lf2 + 1) {
                        Err(_) => {},
                        Ok((hs, clo, bs)) => {
                            assert(old_acc + (seq![
                                (
                                    input@.subrange(pos as int, c as int),
                                    input@.subrange(c + 2, e as int),
                                ),
                            ] + hs) =~= headers_view(headers@) + hs);
                        },
                    }
                }
                pos = lf2 + 1;
            },
        }
    }
}

} // verus!
