//! The responses that the proxy makes up itself.

use vstd::prelude::*;
use vstd::slice::slice_to_vec;
use vstd::utf8::encode_utf8;

use crate::error_page::{error_page, error_page_text};
use crate::message::{
    first_text, get_text, header_fields, is_field_name, text_field, text_header, Header, Request,
    Response, ResponseView,
};
use crate::text::lower_text;

verus! {

/// The reason phrase that `http::StatusCode` has for a status code.
pub uninterp spec fn status_reason(status: u16) -> Option<Seq<char>>;

/// `http::StatusCode::canonical_reason` of the status code with this number, if there is one.
/// Of the phrases only those of 400 and 502 are stated.
#[verifier::external_body]
fn canonical_reason(status: u16) -> (reason: Option<&'static str>)
    ensures
        match reason {
            Some(phrase) => status_reason(status) == Some(phrase@),
            None => status_reason(status) is None,
        },
        status == 400 ==> reason is Some && reason->0@ == "Bad Request"@,
        status == 502 ==> reason is Some && reason->0@ == "Bad Gateway"@,
{
    http::StatusCode::from_u16(status).ok().and_then(|code| code.canonical_reason())
}

/// The response that reports a status and a message on a page, given the reason phrase.
pub open spec fn error_view(status: u16, reason: Option<Seq<char>>, message: Seq<char>) -> ResponseView {
    let phrase = match reason {
        Some(phrase) => phrase,
        None => "Error"@,
    };
    ResponseView {
        status,
        fields: seq![
            text_field("content-type"@, "text/html; charset=utf-8"@),
            text_field("access-control-allow-origin"@, "*"@),
        ],
        body: encode_utf8(error_page_text(status, phrase, message)),
    }
}

/// The response that reports a status and a message on a page, given the reason phrase.
pub fn error_reply(status: u16, reason: Option<&str>, message: &str) -> (response: Response)
    ensures
        response@ == error_view(
            status,
            match reason {
                Some(phrase) => Some(phrase@),
                None => None,
            },
            message@,
        ),
{
    let phrase = match reason {
        Some(phrase) => phrase,
        None => "Error",
    };
    let page = error_page(status, phrase, message);
    let mut headers: Vec<Header> = Vec::new();
    headers.push(text_header("content-type", "text/html; charset=utf-8"));
    headers.push(text_header("access-control-allow-origin", "*"));
    Response { status, headers, body: slice_to_vec(page.as_str().as_bytes()) }
}

/// The response that reports a status and a message on a page.
pub fn error_response(status: u16, message: &str) -> (response: Response)
    ensures
        response@ == error_view(status, status_reason(status), message@),
        status == 400 ==> status_reason(status) == Some("Bad Request"@),
        status == 502 ==> status_reason(status) == Some("Bad Gateway"@),
{
    error_reply(status, canonical_reason(status), message)
}

/// The answer to a preflight request: everything that was asked for is allowed.
pub open spec fn preflight_view(fields: Seq<(Seq<char>, Seq<u8>)>) -> ResponseView {
    ResponseView {
        status: 204,
        fields: seq![
            text_field("access-control-allow-origin"@, "*"@),
            text_field(
                "access-control-allow-methods"@,
                "GET, HEAD, POST, PUT, PATCH, DELETE, OPTIONS"@,
            ),
            (
                "access-control-allow-headers"@,
                match first_text(fields, "access-control-request-headers"@) {
                    Some(requested) => requested,
                    None => encode_utf8("*"@),
                },
            ),
            text_field("access-control-max-age"@, "86400"@),
            text_field(
                "vary"@,
                "Origin, Access-Control-Request-Method, Access-Control-Request-Headers"@,
            ),
        ],
        body: Seq::empty(),
    }
}

/// The answer to a preflight request: everything that was asked for is allowed.
pub fn preflight_response(request: &Request) -> (response: Response)
    ensures
        response@ == preflight_view(header_fields(request.headers)),
{
    let name = "access-control-request-headers";
    assert(lower_text(name@) =~= name@ && is_field_name(name@)) by {
        reveal_strlit("access-control-request-headers");
    }
    let requested = match get_text(&request.headers, name) {
        Some(requested) => requested,
        None => slice_to_vec("*".as_bytes()),
    };
    let mut headers: Vec<Header> = Vec::new();
    headers.push(text_header("access-control-allow-origin", "*"));
    headers.push(
        text_header(
            "access-control-allow-methods",
            "GET, HEAD, POST, PUT, PATCH, DELETE, OPTIONS",
        ),
    );
    headers.push(Header { name: "access-control-allow-headers".to_owned(), value: requested });
    headers.push(text_header("access-control-max-age", "86400"));
    headers.push(
        text_header("vary", "Origin, Access-Control-Request-Method, Access-Control-Request-Headers"),
    );
    Response { status: 204, headers, body: Vec::new() }
}

} // verus!
