//! The request workbench: what a manual HTTP request sends and what its
//! answer holds.

use vstd::prelude::*;
use std::collections::HashMap;
use crate::environment::{trimmed, trim};
use crate::text::str_equal;

verus! {

/// The answer to a manual request: status, headers (one value per name)
/// and body text.
pub struct HttpResponse {
    pub status: u16,
    pub headers: HashMap<String, String>,
    pub body: String,
}

/// The body a manual request is sent with: the given text, unless it is
/// absent or only whitespace.
pub open spec fn body_to_send(body: Option<Seq<char>>) -> Option<Seq<char>> {
    match body {
        Some(b) => if trimmed(b).len() > 0 {
            Some(b)
        } else {
            None
        },
        None => None,
    }
}

/// The body a manual request is sent with (see `body_to_send`).
pub fn request_body(body: Option<String>) -> (r: Option<String>)
    ensures
        match r {
            Some(b) => body_to_send(match body {
                Some(x) => Some(x@),
                None => None,
            }) == Some(b@),
            None => body_to_send(match body {
                Some(x) => Some(x@),
                None => None,
            }) is None,
        },
{
    match body {
        Some(b) => {
            let t = trim(b.as_str());
            proof {
                reveal_strlit("");
            }
            if str_equal(t.as_str(), "") {
                assert(t@ =~= Seq::<char>::empty());
                None
            } else {
                proof {
                    if t@.len() == 0 {
                        assert(t@ =~= ""@);
                    }
                }
                Some(b)
            }
        },
        None => None,
    }
}


#[verifier::external_type_specification]
#[verifier::external_body]
pub struct ExHttpMethod(reqwest::Method);

/// Whether the text is accepted as an HTTP method name.
pub uninterp spec fn http_method_accepted(method: Seq<char>) -> bool;

/// `reqwest::Method::from_bytes` on the method's bytes. The contract claims
/// that acceptance depends on the text alone, that an empty text is refused,
/// and that a refusal reads `invalid HTTP method`.
#[verifier::external_body]
fn parse_http_method(method: &str) -> (r: Result<reqwest::Method, String>)
    ensures
        r is Ok <==> http_method_accepted(method@),
        method@.len() == 0 ==> r is Err,
        r matches Err(e) ==> e@ == "invalid HTTP method"@,
{
    match reqwest::Method::from_bytes(method.as_bytes()) {
        Ok(m) => Ok(m),
        Err(e) => Err(e.to_string()),
    }
}

/// The method and body a manual request is sent with: the method parsed
/// from its name (or the error text when it is not a method), and the body
/// unless it is absent or only whitespace (see `body_to_send`).
pub fn manual_request(method: &str, body: Option<String>) -> (r: Result<(reqwest::Method, Option<String>), String>)
    ensures
        r is Ok <==> http_method_accepted(method@),
        r matches Err(e) ==> e@ == "invalid HTTP method"@,
        r matches Ok((_, b)) ==> match b {
            Some(x) => body_to_send(match body {
                Some(y) => Some(y@),
                None => None,
            }) == Some(x@),
            None => body_to_send(match body {
                Some(y) => Some(y@),
                None => None,
            }) is None,
        },
{
    match parse_http_method(method) {
        Ok(m) => Ok((m, request_body(body))),
        Err(e) => Err(e),
    }
}

} // verus!
