//! The engine's laws: statements over all inputs, proved once and for all.
//!
//! The helper lemmas evaluate the parser's spec over a request assembled
//! from symbolic parts (a path, a header value, a body); the public lemmas
//! then state the end-to-end behavior of parse, route and build for the
//! echo route, the file round trip, the user-agent lookup, unknown paths,
//! and malformed `Content-Length` values.

use vstd::prelude::*;
use crate::scan::is_blank;
use crate::scan::spec_find_lf;
use crate::scan::spec_skip_blanks;
use crate::scan::spec_scan_token;
use crate::scan::spec_trim_end;
use crate::scan::spec_find_sep;
use crate::scan::lemma_find_lf;
use crate::scan::lemma_skip_blanks;
use crate::scan::lemma_scan_token;
use crate::scan::lemma_trim_end;
use crate::scan::lemma_find_sep;
use crate::num::is_digit;
use crate::num::all_digits;
use crate::num::dec_value;
use crate::num::dec_digits;
use crate::num::valid_content_length;
use crate::num::lemma_dec_digits_value;
use crate::request::ParseError;
use crate::request::ReqView;
use crate::request::HeaderBlock;
use crate::request::content_length_name;
use crate::request::spec_headers;
use crate::request::spec_parse;
use crate::response::RespView;
use crate::response::text_plain;
use crate::response::octet_stream;
use crate::response::crlf;
use crate::router::OutcomeView;
use crate::router::spec_starts_with;
use crate::router::spec_dispatch;
use crate::router::spec_handle_request;
use crate::router::spec_header_lookup;
use crate::router::spec_file_read_response;
use crate::router::root_path;
use crate::router::echo_prefix;
use crate::router::files_prefix;
use crate::router::user_agent_path;
use crate::router::user_agent_name;
use crate::router::get_method;
use crate::router::post_method;
use crate::status::HTTPStatus;

verus! {

/// A byte string that the request line's tokenizer passes through whole:
/// nonempty, with no blanks and no line feed.
pub open spec fn is_token(s: Seq<u8>) -> bool {
    s.len() > 0 && forall|k: int| 0 <= k < s.len() ==> !is_blank(s[k]) && s[k] != 10
}

/// A single space.
pub open spec fn blank_sp() -> Seq<u8> {
    seq![32u8]
}

/// "HTTP/1.1" — the version token the laws' requests carry.
pub open spec fn http11() -> Seq<u8> {
    seq![72u8, 84, 84, 80, 47, 49, 46, 49]
}

/// "Content-Length: " — the label of the framing header, separator included.
pub open spec fn cl_label() -> Seq<u8> {
    seq![67u8, 111, 110, 116, 101, 110, 116, 45, 76, 101, 110, 103, 116, 104, 58, 32]
}

/// The bytes of a request whose first line is `method SP path SP version`,
/// followed by whatever header block and body `rest` holds.
pub open spec fn request_bytes(
    method: Seq<u8>,
    path: Seq<u8>,
    version: Seq<u8>,
    rest: Seq<u8>,
) -> Seq<u8> {
    method + blank_sp() + path + blank_sp() + version + crlf() + rest
}

/// Parsing a request whose three tokens are clean reads exactly those
/// tokens back and goes on to the header block just past the first line.
pub proof fn lemma_parse_request_line(
    method: Seq<u8>,
    path: Seq<u8>,
    version: Seq<u8>,
    rest: Seq<u8>,
)
    requires
        is_token(method),
        is_token(path),
        is_token(version),
    ensures
        ({
            let s = request_bytes(method, path, version, rest);
            let hdr_start = method.len() + path.len() + version.len() + 4;
            spec_parse(s) == match spec_headers(s, hdr_start as int) {
                Err(e) => Err::<ReqView, ParseError>(e),
                Ok((hs, clo, bs)) => {
                    let cl = match clo {
                        Some(v) => v,
                        None => 0,
                    };
                    if bs + cl > s.len() {
                        Err::<ReqView, ParseError>(ParseError::Truncated)
                    } else {
                        Ok::<ReqView, ParseError>(
                            ReqView {
                                method,
                                path,
                                version,
                                headers: hs,
                                body: s.subrange(bs, bs + cl),
                            },
                        )
                    }
                },
            }
        }),
{
    let s = request_bytes(method, path, version, rest);
    let m = method.len() as int;
    let p = path.len() as int;
    let v = version.len() as int;
    let lf = m + p + v + 3;
    assert(s.len() == m + p + v + 4 + rest.len());
    assert forall|k: int| 0 <= k < m implies s[k] == method[k] && !is_blank(s[k]) && s[k] != 10 by {}
    assert(s[m] == 32);
    assert forall|k: int| 0 <= k < p implies s[m + 1 + k] == path[k] && !is_blank(s[m + 1 + k])
        && s[m + 1 + k] != 10 by {}
    assert(s[m + 1 + p] == 32);
    assert forall|k: int| 0 <= k < v implies s[m + p + 2 + k] == version[k] && !is_blank(
        s[m + p + 2 + k],
    ) && s[m + p + 2 + k] != 10 by {}
    assert(s[m + p + v + 2] == 13);
    assert(s[m + p + v + 3] == 10);
    // the first line feed closes the request line
    lemma_find_lf(s, 0);
    assert(spec_find_lf(s, 0) == Some(lf)) by {
        if spec_find_lf(s, 0) is None {
            assert(s[lf] == 10);
        } else {
            let j = spec_find_lf(s, 0)->Some_0;
            if j < lf {
                if j < m {
                } else if j == m {
                } else if j < m + 1 + p {
                    assert(s[j] == path[j - m - 1]);
                } else if j == m + 1 + p {
                } else if j < m + p + 2 + v {
                    assert(s[j] == version[j - m - p - 2]);
                } else {
                    assert(s[j] == 13);
                }
                assert(s[j] != 10);
            }
        }
    }
    // the three tokens stand where the construction put them
    lemma_skip_blanks(s, 0, lf);
    let a0 = spec_skip_blanks(s, 0, lf);
    assert(a0 == 0) by {
        assert(!is_blank(s[0]));
    }
    lemma_scan_token(s, 0, lf);
    let b0 = spec_scan_token(s, 0, lf);
    assert(b0 == m) by {
        if b0 < m {
            assert(!is_blank(s[b0]));
        }
        if b0 > m {
            assert(is_blank(s[m]));
        }
    }
    lemma_skip_blanks(s, m, lf);
    let a1 = spec_skip_blanks(s, m, lf);
    assert(a1 == m + 1) by {
        assert(is_blank(s[m]));
        assert(!is_blank(s[m + 1]));
    }
    lemma_scan_token(s, m + 1, lf);
    let b1 = spec_scan_token(s, m + 1, lf);
    assert(b1 == m + 1 + p) by {
        if b1 < m + 1 + p {
            assert(!is_blank(s[b1]));
        }
        if b1 > m + 1 + p {
            assert(is_blank(s[m + 1 + p]));
        }
    }
    lemma_skip_blanks(s, m + 1 + p, lf);
    let a2 = spec_skip_blanks(s, m + 1 + p, lf);
    assert(a2 == m + p + 2) by {
        assert(is_blank(s[m + 1 + p]));
        assert(!is_blank(s[m + p + 2]));
    }
    lemma_scan_token(s, m + p + 2, lf);
    let b2 = spec_scan_token(s, m + p + 2, lf);
    assert(b2 == m + p + 2 + v) by {
        if b2 < m + p + 2 + v {
            assert(!is_blank(s[b2]));
        }
        if b2 > m + p + 2 + v {
            assert(is_blank(s[m + p + 2 + v]));
        }
    }
    assert(s.subrange(0, m) =~= method);
    assert(s.subrange(m + 1, m + 1 + p) =~= path);
    assert(s.subrange(m + p + 2, m + p + 2 + v) =~= version);
}

/// A header block that opens with an empty line is the empty block.
pub proof fn lemma_headers_empty(s: Seq<u8>, i: int)
    requires
        0 <= i,
        i + 2 <= s.len(),
        s[i] == 13,
        s[i + 1] == 10,
    ensures
        spec_headers(s, i) == Ok::<HeaderBlock, ParseError>((Seq::empty(), None, i + 2)),
{
    lemma_find_lf(s, i);
    assert(spec_find_lf(s, i) == Some(i + 1)) by {
        if spec_find_lf(s, i) is None {
            assert(s[i + 1] == 10);
        } else {
            let j = spec_find_lf(s, i)->Some_0;
            if j < i + 1 {
                assert(s[i] != 10);
            }
        }
    }
}

/// A header block that opens with `Content-Length: value` followed by the
/// empty line: a valid value is read as the body length, an invalid one is
/// the fatal framing error.
pub proof fn lemma_headers_content_length(s: Seq<u8>, i: int, value: Seq<u8>)
    requires
        0 <= i,
        i + 20 + value.len() <= s.len(),
        s.subrange(i, i + 16) == cl_label(),
        s.subrange(i + 16, i + 16 + value.len()) == value,
        s[i + 16 + value.len()] == 13,
        s[i + 17 + value.len()] == 10,
        s[i + 18 + value.len()] == 13,
        s[i + 19 + value.len()] == 10,
        value.len() > 0,
        forall|k: int| 0 <= k < value.len() ==> value[k] != 10,
        !is_blank(value[value.len() - 1]),
    ensures
        spec_headers(s, i) == if valid_content_length(value) {
            Ok::<HeaderBlock, ParseError>(
                (
                    seq![(content_length_name(), value)],
                    Some(dec_value(value)),
                    i + 20 + value.len(),
                ),
            )
        } else {
            Err::<HeaderBlock, ParseError>(ParseError::InvalidContentLength)
        },
{
    let n = value.len() as int;
    let lf = i + 17 + n;
    assert forall|k: int| 0 <= k < 16 implies s[i + k] == cl_label()[k] by {
        assert(s.subrange(i, i + 16)[k] == s[i + k]);
    }
    assert forall|k: int| 0 <= k < n implies s[i + 16 + k] == value[k] by {
        assert(s.subrange(i + 16, i + 16 + n)[k] == s[i + 16 + k]);
    }
    // the line feed that ends this header line
    lemma_find_lf(s, i);
    assert(spec_find_lf(s, i) == Some(lf)) by {
        if spec_find_lf(s, i) is None {
            assert(s[lf] == 10);
        } else {
            let j = spec_find_lf(s, i)->Some_0;
            if j < lf {
                if j < i + 16 {
                    assert(s[j] == cl_label()[j - i]);
                } else if j < i + 16 + n {
                    assert(s[j] == value[j - i - 16]);
                } else {
                    assert(s[j] == 13);
                }
                assert(s[j] != 10);
            }
        }
    }
    assert(lf != i && lf != i + 1);
    // trailing trim strips the carriage return and stops at the value
    lemma_trim_end(s, i, lf);
    let e = spec_trim_end(s, i, lf);
    assert(e == i + 16 + n) by {
        if e < i + 16 + n {
            assert(is_blank(s[i + 16 + n - 1]));
            assert(s[i + 16 + n - 1] == value[n - 1]);
        }
        if e > i + 16 + n {
            assert(!is_blank(s[e - 1]));
            assert(s[e - 1] == 13);
        }
    }
    // the separator stands right after the header name
    lemma_find_sep(s, i, e);
    assert(spec_find_sep(s, i, e) == Some(i + 14)) by {
        assert(s[i + 14] == 58 && s[i + 15] == 32);
        match spec_find_sep(s, i, e) {
            None => {},
            Some(j) => {
                if j < i + 14 {
                    assert(s[j] == cl_label()[j - i]);
                    assert(s[j] != 58);
                }
            },
        }
    }
    assert(s.subrange(i, i + 14) =~= content_length_name());
    assert(s.subrange(i + 16, e) =~= value);
    if valid_content_length(value) {
        lemma_headers_empty(s, lf + 1);
        assert(seq![(content_length_name(), value)] + Seq::<(Seq<u8>, Seq<u8>)>::empty() =~= seq![
            (content_length_name(), value),
        ]);
    }
}

/// Echo: for any clean path under `/echo/`, the whole pipeline on
/// `GET path HTTP/1.1` answers 200, `text/plain`, and a body that is
/// exactly the path with the prefix stripped.
pub proof fn lemma_echo_pipeline(p: Seq<u8>)
    requires
        is_token(p),
        spec_starts_with(p, echo_prefix()),
    ensures
        spec_handle_request(request_bytes(get_method(), p, http11(), crlf()))
            == OutcomeView::Reply(
            RespView {
                status: HTTPStatus::OK,
                content_type: Some(text_plain()),
                body: p.skip(6),
            },
        ),
{
    let s = request_bytes(get_method(), p, http11(), crlf());
    assert(is_token(get_method()));
    assert(is_token(http11()));
    lemma_parse_request_line(get_method(), p, http11(), crlf());
    let hdr_start: int = p.len() as int + 15;
    assert(s[hdr_start] == 13 && s[hdr_start + 1] == 10);
    lemma_headers_empty(s, hdr_start);
    assert(s.len() == hdr_start + 2);
    let rv = spec_parse(s)->Ok_0;
    assert(rv.path == p);
    assert(rv.path != root_path()) by {
        assert(p.len() >= echo_prefix().len());
    }
}

/// File round trip: a POST under `/files/` whose `Content-Length` matches
/// its body is routed as a write of exactly those bytes under that name; a
/// GET under the same name is routed as a read; and a read that yields the
/// stored bytes answers 200, `application/octet-stream`, with that body.
pub proof fn lemma_files_round_trip(name: Seq<u8>, b: Seq<u8>)
    requires
        is_token(name),
        b.len() <= usize::MAX,
    ensures
        spec_handle_request(
            request_bytes(
                post_method(),
                files_prefix() + name,
                http11(),
                cl_label() + dec_digits(b.len() as int) + crlf() + crlf() + b,
            ),
        ) == (OutcomeView::FileWrite { name, contents: b }),
        spec_handle_request(request_bytes(get_method(), files_prefix() + name, http11(), crlf()))
            == (OutcomeView::FileRead { name }),
        spec_file_read_response(Some(b)) == (RespView {
            status: HTTPStatus::OK,
            content_type: Some(octet_stream()),
            body: b,
        }),
{
    let path = files_prefix() + name;
    assert(is_token(path)) by {
        assert forall|k: int| 0 <= k < path.len() implies !is_blank(path[k]) && path[k] != 10 by {
            if k >= 7 {
                assert(path[k] == name[k - 7]);
            }
        }
    }
    assert(is_token(get_method()));
    assert(is_token(post_method()));
    assert(is_token(http11()));
    assert(path[1] == 102);
    assert(path.len() >= 8);
    assert(!spec_starts_with(path, echo_prefix())) by {
        if spec_starts_with(path, echo_prefix()) {
            assert(path.take(6)[1] == echo_prefix()[1]);
        }
    }
    assert(spec_starts_with(path, files_prefix())) by {
        assert(path.take(7) =~= files_prefix());
    }
    assert(path.skip(7) =~= name);
    // the GET side
    let gs = request_bytes(get_method(), path, http11(), crlf());
    lemma_parse_request_line(get_method(), path, http11(), crlf());
    let g_hdr: int = path.len() as int + 15;
    assert(gs[g_hdr] == 13 && gs[g_hdr + 1] == 10);
    lemma_headers_empty(gs, g_hdr);
    assert(gs.len() == g_hdr + 2);
    let grv = spec_parse(gs)->Ok_0;
    assert(grv.path == path && grv.method == get_method());
    assert(grv.path != root_path());
    assert(spec_dispatch(grv) == OutcomeView::FileRead { name });
    // the POST side
    let digits = dec_digits(b.len() as int);
    lemma_dec_digits_value(b.len() as int);
    let rest = cl_label() + digits + crlf() + crlf() + b;
    let ps = request_bytes(post_method(), path, http11(), rest);
    lemma_parse_request_line(post_method(), path, http11(), rest);
    let hdr: int = path.len() as int + 16;
    assert(ps.len() == hdr + rest.len());
    assert forall|k: int| 0 <= k < rest.len() implies ps[hdr + k] == rest[k] by {}
    let d = digits.len() as int;
    assert forall|k: int| 0 <= k < 16 implies rest[k] == cl_label()[k] by {}
    assert forall|k: int| 0 <= k < d implies rest[16 + k] == digits[k] by {}
    assert(rest[16 + d] == 13 && rest[17 + d] == 10 && rest[18 + d] == 13 && rest[19 + d] == 10);
    assert forall|k: int| 0 <= k < b.len() implies rest[20 + d + k] == b[k] by {}
    assert(ps.subrange(hdr, hdr + 16) =~= cl_label());
    assert(ps.subrange(hdr + 16, hdr + 16 + d) =~= digits);
    assert forall|k: int| 0 <= k < d implies digits[k] != 10 && !is_blank(digits[k]) by {
        assert(is_digit(digits[k]));
    }
    lemma_headers_content_length(ps, hdr, digits);
    assert(valid_content_length(digits));
    let bs = hdr + 20 + d;
    assert(bs + b.len() == ps.len());
    assert(ps.subrange(bs, bs + b.len() as int) =~= b);
    let prv = spec_parse(ps)->Ok_0;
    assert(prv.path == path && prv.method == post_method());
    assert(prv.body == b);
    assert(prv.path != root_path());
    assert(prv.method != get_method()) by {
        if post_method() == get_method() {
            assert(post_method()[0] == get_method()[0]);
        }
    }
    assert(spec_dispatch(prv) == OutcomeView::FileWrite { name, contents: b });
}

/// The value of the first header of a name, when one stands at `j` with no
/// earlier match, is exactly that header's value.
pub proof fn lemma_header_lookup_first(hs: Seq<(Seq<u8>, Seq<u8>)>, name: Seq<u8>, j: int)
    requires
        0 <= j < hs.len(),
        hs[j].0 == name,
        forall|k: int| 0 <= k < j ==> hs[k].0 != name,
    ensures
        spec_header_lookup(hs, name) == hs[j].1,
    decreases j,
{
    if j > 0 {
        assert(hs[0].0 != name);
        assert(hs.drop_first()[j - 1] == hs[j]);
        assert forall|k: int| 0 <= k < j - 1 implies hs.drop_first()[k].0 != name by {
            assert(hs.drop_first()[k] == hs[k + 1]);
        }
        lemma_header_lookup_first(hs.drop_first(), name, j - 1);
    }
}

/// Looking a name up in headers that never carry it yields the empty value.
pub proof fn lemma_header_lookup_absent(hs: Seq<(Seq<u8>, Seq<u8>)>, name: Seq<u8>)
    requires
        forall|k: int| 0 <= k < hs.len() ==> hs[k].0 != name,
    ensures
        spec_header_lookup(hs, name) == Seq::<u8>::empty(),
    decreases hs.len(),
{
    if hs.len() > 0 {
        assert forall|k: int| 0 <= k < hs.drop_first().len() implies hs.drop_first()[k].0
            != name by {
            assert(hs.drop_first()[k] == hs[k + 1]);
        }
        lemma_header_lookup_absent(hs.drop_first(), name);
    }
}

/// Any request for `/user-agent` that carries a `User-Agent` header — first
/// match at `j`, byte-exact comparison — answers 200, `text/plain`, with a
/// body that is exactly that header's value.
pub proof fn lemma_user_agent_present(r: ReqView, j: int)
    requires
        r.path == user_agent_path(),
        0 <= j < r.headers.len(),
        r.headers[j].0 == user_agent_name(),
        forall|k: int| 0 <= k < j ==> r.headers[k].0 != user_agent_name(),
    ensures
        spec_dispatch(r) == OutcomeView::Reply(
            RespView {
                status: HTTPStatus::OK,
                content_type: Some(text_plain()),
                body: r.headers[j].1,
            },
        ),
{
    lemma_user_agent_route(r);
    lemma_header_lookup_first(r.headers, user_agent_name(), j);
}

/// A request for `/user-agent` with no `User-Agent` header answers 200 with
/// an empty body — not an error.
pub proof fn lemma_user_agent_missing(r: ReqView)
    requires
        r.path == user_agent_path(),
        forall|k: int| 0 <= k < r.headers.len() ==> r.headers[k].0 != user_agent_name(),
    ensures
        spec_dispatch(r) == OutcomeView::Reply(
            RespView {
                status: HTTPStatus::OK,
                content_type: Some(text_plain()),
                body: Seq::<u8>::empty(),
            },
        ),
{
    lemma_user_agent_route(r);
    lemma_header_lookup_absent(r.headers, user_agent_name());
}

/// `/user-agent` reaches the header-lookup rule: it is not the root, no
/// `/echo/` or `/files/` prefix matches it.
proof fn lemma_user_agent_route(r: ReqView)
    requires
        r.path == user_agent_path(),
    ensures
        spec_dispatch(r) == OutcomeView::Reply(
            RespView {
                status: HTTPStatus::OK,
                content_type: Some(text_plain()),
                body: spec_header_lookup(r.headers, user_agent_name()),
            },
        ),
{
    assert(r.path != root_path()) by {
        assert(user_agent_path().len() == 11);
    }
    assert(!spec_starts_with(r.path, echo_prefix())) by {
        if spec_starts_with(r.path, echo_prefix()) {
            assert(r.path.take(6)[1] == echo_prefix()[1]);
            assert(r.path[1] == 117);
        }
    }
    assert(!spec_starts_with(r.path, files_prefix())) by {
        if spec_starts_with(r.path, files_prefix()) {
            assert(r.path.take(7)[1] == files_prefix()[1]);
            assert(r.path[1] == 117);
        }
    }
}

/// A `Content-Length` value that is not a digit run fails the parse with
/// the framing error — deterministically, never as a silent zero.
pub proof fn lemma_invalid_content_length(v: Seq<u8>)
    requires
        v.len() > 0,
        forall|k: int| 0 <= k < v.len() ==> v[k] != 10,
        !is_blank(v[v.len() - 1]),
        exists|k: int| 0 <= k < v.len() && !is_digit(v[k]),
    ensures
        spec_parse(request_bytes(get_method(), root_path(), http11(), cl_label() + v + crlf() + crlf()))
            == Err::<ReqView, ParseError>(ParseError::InvalidContentLength),
        spec_handle_request(
            request_bytes(get_method(), root_path(), http11(), cl_label() + v + crlf() + crlf()),
        ) == OutcomeView::Reply(
            RespView { status: HTTPStatus::NotFound, content_type: None, body: Seq::empty() },
        ),
{
    let rest = cl_label() + v + crlf() + crlf();
    let s = request_bytes(get_method(), root_path(), http11(), rest);
    assert(is_token(get_method()));
    assert(is_token(root_path()));
    assert(is_token(http11()));
    lemma_parse_request_line(get_method(), root_path(), http11(), rest);
    let hdr: int = 16;
    assert(s.len() == hdr + rest.len());
    assert forall|k: int| 0 <= k < rest.len() implies s[hdr + k] == rest[k] by {}
    let n = v.len() as int;
    assert forall|k: int| 0 <= k < 16 implies rest[k] == cl_label()[k] by {}
    assert forall|k: int| 0 <= k < n implies rest[16 + k] == v[k] by {}
    assert(rest[16 + n] == 13 && rest[17 + n] == 10 && rest[18 + n] == 13 && rest[19 + n] == 10);
    assert(s.subrange(hdr, hdr + 16) =~= cl_label());
    assert(s.subrange(hdr + 16, hdr + 16 + n) =~= v);
    lemma_headers_content_length(s, hdr, v);
    assert(!valid_content_length(v)) by {
        let k = choose|k: int| 0 <= k < v.len() && !is_digit(v[k]);
        assert(!all_digits(v));
    }
}

/// A request for any path outside the routing table answers 404 with no
/// content type and no body.
pub proof fn lemma_unknown_path(r: ReqView)
    requires
        r.path != root_path(),
        !spec_starts_with(r.path, echo_prefix()),
        !spec_starts_with(r.path, files_prefix()),
        r.path != user_agent_path(),
    ensures
        spec_dispatch(r) == OutcomeView::Reply(
            RespView { status: HTTPStatus::NotFound, content_type: None, body: Seq::empty() },
        ),
{
}

} // verus!
