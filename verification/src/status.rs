//! The closed set of response statuses and their wire text.

use vstd::prelude::*;

verus! {

broadcast use vstd::string::to_string_from_display_ensures_for_str;

/// Every status this engine can put on a response line.
#[derive(Clone, Copy, PartialEq, Eq, Structural, Debug)]
pub enum HTTPStatus {
    OK,
    Created,
    NotFound,
    MethodNotAllowed,
    InternalServerError,
}

/// The status text as it stands on the wire: decimal code, space, reason
/// phrase, as bytes.
pub open spec fn spec_status_text(s: HTTPStatus) -> Seq<u8> {
    match s {
        // "200 OK"
        HTTPStatus::OK => seq![50u8, 48, 48, 32, 79, 75],
        // "201 Created"
        HTTPStatus::Created => seq![50u8, 48, 49, 32, 67, 114, 101, 97, 116, 101, 100],
        // "404 Not Found"
        HTTPStatus::NotFound => seq![52u8, 48, 52, 32, 78, 111, 116, 32, 70, 111, 117, 110, 100],
        // "405 Method Not Allowed"
        HTTPStatus::MethodNotAllowed => seq![
            52u8, 48, 53, 32, 77, 101, 116, 104, 111, 100, 32, 78, 111, 116, 32, 65, 108, 108,
            111, 119, 101, 100,
        ],
        // "500 Internal Server Error"
        HTTPStatus::InternalServerError => seq![
            53u8, 48, 48, 32, 73, 110, 116, 101, 114, 110, 97, 108, 32, 83, 101, 114, 118, 101,
            114, 32, 69, 114, 114, 111, 114,
        ],
    }
}

impl HTTPStatus {
    /// The status text as characters, for display.
    pub fn to_string(&self) -> (r: String)
        ensures
            match *self {
                HTTPStatus::OK => r@ == "200 OK"@,
                HTTPStatus::Created => r@ == "201 Created"@,
                HTTPStatus::NotFound => r@ == "404 Not Found"@,
                HTTPStatus::MethodNotAllowed => r@ == "405 Method Not Allowed"@,
                HTTPStatus::InternalServerError => r@ == "500 Internal Server Error"@,
            },
    {
        match self {
            HTTPStatus::OK => "200 OK".to_string(),
            HTTPStatus::Created => "201 Created".to_string(),
            HTTPStatus::NotFound => "404 Not Found".to_string(),
            HTTPStatus::MethodNotAllowed => "405 Method Not Allowed".to_string(),
            HTTPStatus::InternalServerError => "500 Internal Server Error".to_string(),
        }
    }

    /// The status text as bytes, for serialization.
    pub fn wire_text(&self) -> (r: Vec<u8>)
        ensures
            r@ == spec_status_text(*self),
    {
        match self {
            HTTPStatus::OK => {
                let a: [u8; 6] = [50, 48, 48, 32, 79, 75];
                let v = vstd::slice::slice_to_vec(a.as_slice());
                proof {
                    assert(v@ =~= spec_status_text(*self));
                }
                v
            },
            HTTPStatus::Created => {
                let a: [u8; 11] = [50, 48, 49, 32, 67, 114, 101, 97, 116, 101, 100];
                let v = vstd::slice::slice_to_vec(a.as_slice());
                proof {
                    assert(v@ =~= spec_status_text(*self));
                }
                v
            },
            HTTPStatus::NotFound => {
                let a: [u8; 13] = [52, 48, 52, 32, 78, 111, 116, 32, 70, 111, 117, 110, 100];
                let v = vstd::slice::slice_to_vec(a.as_slice());
                proof {
                    assert(v@ =~= spec_status_text(*self));
                }
                v
            },
            HTTPStatus::MethodNotAllowed => {
                let a: [u8; 22] = [
                    52, 48, 53, 32, 77, 101, 116, 104, 111, 100, 32, 78, 111, 116, 32, 65, 108,
                    108, 111, 119, 101, 100,
                ];
                let v = vstd::slice::slice_to_vec(a.as_slice());
                proof {
                    assert(v@ =~= spec_status_text(*self));
                }
                v
            },
            HTTPStatus::InternalServerError => {
                let a: [u8; 25] = [
                    53, 48, 48, 32, 73, 110, 116, 101, 114, 110, 97, 108, 32, 83, 101, 114, 118,
                    101, 114, 32, 69, 114, 114, 111, 114,
                ];
                let v = vstd::slice::slice_to_vec(a.as_slice());
                proof {
                    assert(v@ =~= spec_status_text(*self));
                }
                v
            },
        }
    }
}

} // verus!
