//! What is sent upstream for a request, and what comes back to the web view.

use vstd::prelude::*;
use vstd::slice::{slice_subrange, slice_to_vec};
use vstd::utf8::encode_utf8;

use crate::ascii::{ascii_eq_ignore_case, occurs_at, same_ignoring_case};
use crate::bridge::{has_bridge, rewrite_html, with_bridge};
use crate::header_rules::{
    should_strip_request_header, should_strip_response_header, strips_request_header, strips_response_header,
};
use crate::message::{
    fields_of, first_text, get_text, has_field, header_fields, is_field_name, map_contains, map_fields,
    text_field, text_header, Header, Request, Response, ResponseView,
};
use crate::policy::{has_policy, without_policies};
use crate::replies::{error_response, error_view, preflight_response, preflight_view};
use crate::target::{address_of, extract_target, parsed_url, resolution, target_result, Target};
use crate::text::{begins_with, lower_text, text_eq, text_to_lower};

verus! {

/// The user agent of requests that come without one.
pub const DEFAULT_USER_AGENT: &'static str =
    "Mozilla/5.0 (iPhone; CPU iPhone OS 17_0 like Mac OS X) AppleWebKit/605.1.15 (KHTML, like Gecko) Version/17.0 Mobile/15E148 Safari/604.1";

/// A character of an HTTP token.
pub open spec fn is_token_char(character: char) -> bool {
    ||| 'a' <= character <= 'z'
    ||| 'A' <= character <= 'Z'
    ||| '0' <= character <= '9'
    ||| "!#$%&'*+-.^_`|~"@.contains(character)
}

/// A method is a token: one character or more, all of them characters of a token.
pub open spec fn is_method(text: Seq<char>) -> bool {
    &&& text.len() > 0
    &&& forall|i: int| 0 <= i < text.len() ==> is_token_char(#[trigger] text[i])
}

/// `reqwest::Method::from_bytes` on the bytes of a text: a token is the method of that name, any
/// other text is refused.
#[verifier::external_body]
fn parse_method(text: &str) -> (parsed: Result<String, String>)
    ensures
        match parsed {
            Ok(method) => is_method(text@) && method@ == text@,
            Err(message) => !is_method(text@) && message@ == "invalid HTTP method"@,
        },
{
    match reqwest::Method::from_bytes(text.as_bytes()) {
        Ok(method) => Ok(method.as_str().to_string()),
        Err(error) => Err(error.to_string()),
    }
}

/// What a request field becomes upstream: the origin is that of the target, and some fields are
/// left out.
pub open spec fn upstream_field(field: (Seq<char>, Seq<u8>), origin: Seq<char>) -> Seq<
    (Seq<char>, Seq<u8>),
> {
    let name = lower_text(field.0);
    if name == "origin"@ {
        seq![text_field("origin"@, origin)]
    } else if strips_request_header(name) {
        Seq::empty()
    } else {
        seq![field]
    }
}

/// What the request fields become upstream, one after the other.
pub open spec fn upstream_fields(fields: Seq<(Seq<char>, Seq<u8>)>, origin: Seq<char>) -> Seq<
    (Seq<char>, Seq<u8>),
>
    decreases fields.len(),
{
    if fields.len() == 0 {
        Seq::empty()
    } else {
        upstream_fields(fields.drop_last(), origin) + upstream_field(fields.last(), origin)
    }
}

/// One of the fields has this name, in any case.
pub open spec fn names(fields: Seq<(Seq<char>, Seq<u8>)>, name: Seq<char>) -> bool {
    exists|i: int| 0 <= i < fields.len() && lower_text((#[trigger] fields[i]).0) == name
}

/// The fields of the upstream request. A request that names no user agent gets the default one.
pub open spec fn forwarded_fields(fields: Seq<(Seq<char>, Seq<u8>)>, origin: Seq<char>) -> Seq<
    (Seq<char>, Seq<u8>),
> {
    let kept = upstream_fields(fields, origin);
    if names(fields, "user-agent"@) {
        kept
    } else {
        kept.push(text_field("user-agent"@, DEFAULT_USER_AGENT@))
    }
}

/// The fields of the upstream request, given those of the web view's request and the origin of
/// the target.
pub fn upstream_headers(headers: &http::HeaderMap<http::HeaderValue>, origin: &str) -> (forwarded:
    Vec<Header>)
    ensures
        fields_of(forwarded@) == forwarded_fields(header_fields(*headers), origin@),
{
    let all = map_fields(headers);
    let ghost fields = header_fields(*headers);
    let mut forwarded: Vec<Header> = Vec::new();
    let mut has_user_agent = false;
    let mut i: usize = 0;
    assert(fields_of(forwarded@) =~= upstream_fields(fields.take(0), origin@));
    while i < all.len()
        invariant
            i <= all@.len(),
            fields == fields_of(all@),
            has_user_agent == names(fields.take(i as int), "user-agent"@),
            fields_of(forwarded@) == upstream_fields(fields.take(i as int), origin@),
        decreases all@.len() - i,
    {
        let header = &all[i];
        let lower = text_to_lower(header.name.as_str());
        let ghost before = fields.take(i as int);
        let ghost after = fields.take(i + 1);
        let ghost sent = fields_of(forwarded@);
        assert(after.drop_last() =~= before);
        assert(after.last() == header@);
        if text_eq(lower.as_str(), "origin") {
            forwarded.push(text_header("origin", origin));
            assert(fields_of(forwarded@) =~= sent.push(text_field("origin"@, origin@)));
        } else if !should_strip_request_header(lower.as_str()) {
            forwarded.push(
                Header {
                    name: header.name.clone(),
                    value: slice_to_vec(header.value.as_slice()),
                },
            );
            assert(fields_of(forwarded@) =~= sent.push(header@));
        }
        assert(fields_of(forwarded@) =~= upstream_fields(after, origin@));
        if text_eq(lower.as_str(), "user-agent") {
            has_user_agent = true;
            assert(lower_text(after[i as int].0) == "user-agent"@);
        }
        assert(names(after, "user-agent"@) == has_user_agent) by {
            if names(before, "user-agent"@) {
                let k = choose|k: int|
                    0 <= k < before.len() && lower_text((#[trigger] before[k]).0) == "user-agent"@;
                assert(lower_text(after[k].0) == "user-agent"@);
            }
            if names(after, "user-agent"@) && !(lower@ == "user-agent"@) {
                let k = choose|k: int|
                    0 <= k < after.len() && lower_text((#[trigger] after[k]).0) == "user-agent"@;
                assert(lower_text(before[k].0) == "user-agent"@);
            }
        }
        i += 1;
    }
    assert(fields.take(i as int) =~= fields);
    if !has_user_agent {
        forwarded.push(text_header("user-agent", DEFAULT_USER_AGENT));
    }
    assert(fields_of(forwarded@) =~= forwarded_fields(fields, origin@));
    forwarded
}

/// A request to the upstream server.
pub struct UpstreamRequest {
    pub method: String,
    pub url: String,
    pub headers: Vec<Header>,
    pub body: Vec<u8>,
}

/// A request to the upstream server, as mathematical values.
pub ghost struct UpstreamView {
    pub method: Seq<char>,
    pub url: Seq<char>,
    pub fields: Seq<(Seq<char>, Seq<u8>)>,
    pub body: Seq<u8>,
}

impl View for UpstreamRequest {
    type V = UpstreamView;

    open spec fn view(&self) -> UpstreamView {
        UpstreamView {
            method: self.method@,
            url: self.url@,
            fields: fields_of(self.headers@),
            body: self.body@,
        }
    }
}

/// What is done about a request.
pub enum Action {
    /// The web view gets this response.
    Respond(Response),
    /// The upstream server gets this request.
    Forward(UpstreamRequest),
}

/// What is done about a request, as mathematical values.
pub ghost enum ActionView {
    Respond(ResponseView),
    Forward(UpstreamView),
}

impl View for Action {
    type V = ActionView;

    open spec fn view(&self) -> ActionView {
        match self {
            Action::Respond(response) => ActionView::Respond(response@),
            Action::Forward(request) => ActionView::Forward(request@),
        }
    }
}

/// What is done about a request whose target has this URL and this origin: it is forwarded, with
/// the fields that may go upstream, unless its method is none.
pub open spec fn forward_action(request: Request, url: Seq<char>, origin: Seq<char>) -> ActionView {
    if is_method(request.method@) {
        ActionView::Forward(
            UpstreamView {
                method: request.method@,
                url,
                fields: forwarded_fields(header_fields(request.headers), origin),
                body: request.body@,
            },
        )
    } else {
        ActionView::Respond(
            error_view(
                400,
                Some("Bad Request"@),
                "invalid webproxy method: "@ + "invalid HTTP method"@,
            ),
        )
    }
}

/// A preflight request: the browser asks whether it may send another request.
pub open spec fn is_preflight(request: Request) -> bool {
    &&& request.method@ == "OPTIONS"@
    &&& has_field(header_fields(request.headers), "access-control-request-method"@)
}

/// What is done about a request that is no preflight request, given its target or the message
/// that says why it has none.
pub open spec fn target_action(
    request: Request,
    target: Result<(Seq<char>, Seq<char>), Seq<char>>,
) -> ActionView {
    match target {
        Ok((url, origin)) => forward_action(request, url, origin),
        Err(message) => ActionView::Respond(error_view(400, Some("Bad Request"@), message)),
    }
}

/// Prepares a request for the upstream server.
pub fn forward_to(target: Target, request: Request) -> (action: Action)
    ensures
        action@ == forward_action(request, target.url@, target.origin@),
{
    match parse_method(request.method.as_str()) {
        Ok(method) => {
            let headers = upstream_headers(&request.headers, target.origin.as_str());
            Action::Forward(
                UpstreamRequest { method, url: target.url, headers, body: request.body },
            )
        },
        Err(error) => {
            let mut message = "invalid webproxy method: ".to_owned();
            message.append(error.as_str());
            Action::Respond(error_response(400, message.as_str()))
        },
    }
}

/// Decides what is done about a request that is no preflight request, once its target is known
/// or known to be missing.
pub fn handle_target(request: Request, target: Result<Target, String>) -> (action: Action)
    ensures
        action@ == target_action(request, target_result(target)),
{
    match target {
        Ok(target) => forward_to(target, request),
        Err(message) => Action::Respond(error_response(400, message.as_str())),
    }
}

/// Decides what is done about a request: a preflight request is answered, a request with a target
/// is forwarded, any other request is refused.
pub fn handle(request: Request) -> (action: Action)
    ensures
        is_preflight(request) ==> action@ == ActionView::Respond(
            preflight_view(header_fields(request.headers)),
        ),
        !is_preflight(request) ==> action@ == target_action(
            request,
            match address_of(request.uri@) {
                Ok(address) => resolution(parsed_url(address)),
                Err(message) => Err(message),
            },
        ),
        action matches Action::Forward(upstream) ==> begins_with(upstream.url@, "https://"@),
{
    let asked = "access-control-request-method";
    assert(lower_text(asked@) =~= asked@ && is_field_name(asked@)) by {
        reveal_strlit("access-control-request-method");
    }
    if text_eq(request.method.as_str(), "OPTIONS") && map_contains(&request.headers, asked) {
        return Action::Respond(preflight_response(&request));
    }
    let target = extract_target(&request);
    handle_target(request, target)
}

/// The content type of the response is HTML.
pub open spec fn is_html(fields: Seq<(Seq<char>, Seq<u8>)>) -> bool {
    first_text(fields, "content-type"@) matches Some(value) && occurs_at(
        value,
        encode_utf8("text/html"@),
        0,
    )
}

/// The body of the response is not encoded. An unreadable encoding counts as none.
pub open spec fn is_identity(fields: Seq<(Seq<char>, Seq<u8>)>) -> bool {
    first_text(fields, "content-encoding"@) matches Some(value) ==> same_ignoring_case(
        value,
        encode_utf8("identity"@),
    )
}

/// The body is rewritten: it is a complete HTML document, as it stands.
pub open spec fn is_rewritten(status: u16, fields: Seq<(Seq<char>, Seq<u8>)>) -> bool {
    status == 200 && is_html(fields) && is_identity(fields)
}

/// The body for the web view.
pub open spec fn passed_body(
    status: u16,
    fields: Seq<(Seq<char>, Seq<u8>)>,
    body: Seq<u8>,
) -> Seq<u8> {
    if is_rewritten(status, fields) {
        with_bridge(without_policies(body, 0))
    } else {
        body
    }
}

/// The body counts as changed: it was rewritten, and the rewriting had something to do.
pub open spec fn body_changed(
    status: u16,
    fields: Seq<(Seq<char>, Seq<u8>)>,
    body: Seq<u8>,
) -> bool {
    is_rewritten(status, fields) && (has_policy(body, 0) || !has_bridge(without_policies(body, 0)))
}

/// The response fields that the web view may see.
pub open spec fn kept_fields(fields: Seq<(Seq<char>, Seq<u8>)>, changed: bool) -> Seq<
    (Seq<char>, Seq<u8>),
>
    decreases fields.len(),
{
    if fields.len() == 0 {
        Seq::empty()
    } else {
        let kept = kept_fields(fields.drop_last(), changed);
        if strips_response_header(lower_text(fields.last().0), changed) {
            kept
        } else {
            kept.push(fields.last())
        }
    }
}

/// The response for the web view, given the response of the upstream server. Every page may read
/// it.
pub open spec fn passed_response(
    status: u16,
    fields: Seq<(Seq<char>, Seq<u8>)>,
    body: Seq<u8>,
) -> ResponseView {
    ResponseView {
        status,
        fields: kept_fields(fields, body_changed(status, fields, body)).push(
            text_field("access-control-allow-origin"@, "*"@),
        ).push(text_field("access-control-expose-headers"@, "*"@)),
        body: passed_body(status, fields, body),
    }
}

fn has_html_type(headers: &http::HeaderMap<http::HeaderValue>) -> (html: bool)
    ensures
        html == is_html(header_fields(*headers)),
{
    let name = "content-type";
    let html = "text/html";
    assert(lower_text(name@) =~= name@ && is_field_name(name@)) by {
        reveal_strlit("content-type");
    }
    match get_text(headers, name) {
        Some(value) => {
            let wanted = html.as_bytes();
            wanted.len() <= value.len() && ascii_eq_ignore_case(
                slice_subrange(value.as_slice(), 0, wanted.len()),
                wanted,
            )
        },
        None => false,
    }
}

fn has_identity_encoding(headers: &http::HeaderMap<http::HeaderValue>) -> (identity: bool)
    ensures
        identity == is_identity(header_fields(*headers)),
{
    let name = "content-encoding";
    assert(lower_text(name@) =~= name@ && is_field_name(name@)) by {
        reveal_strlit("content-encoding");
    }
    match get_text(headers, name) {
        Some(value) => ascii_eq_ignore_case(value.as_slice(), "identity".as_bytes()),
        None => true,
    }
}

fn kept_headers(headers: &http::HeaderMap<http::HeaderValue>, changed: bool) -> (kept: Vec<Header>)
    ensures
        fields_of(kept@) == kept_fields(header_fields(*headers), changed),
{
    let all = map_fields(headers);
    let ghost fields = header_fields(*headers);
    let mut kept: Vec<Header> = Vec::new();
    let mut i: usize = 0;
    assert(fields_of(kept@) =~= kept_fields(fields.take(0), changed));
    while i < all.len()
        invariant
            i <= all@.len(),
            fields == fields_of(all@),
            fields_of(kept@) == kept_fields(fields.take(i as int), changed),
        decreases all@.len() - i,
    {
        let header = &all[i];
        let lower = text_to_lower(header.name.as_str());
        let ghost after = fields.take(i + 1);
        let ghost before = fields_of(kept@);
        assert(after.drop_last() =~= fields.take(i as int));
        assert(after.last() == header@);
        if !should_strip_response_header(lower.as_str(), changed) {
            kept.push(
                Header {
                    name: header.name.clone(),
                    value: slice_to_vec(header.value.as_slice()),
                },
            );
            assert(fields_of(kept@) =~= before.push(header@));
        }
        i += 1;
    }
    assert(fields.take(i as int) =~= fields);
    kept
}

/// The response for the web view, given the response of the upstream server.
pub fn upstream_response(
    status: u16,
    headers: &http::HeaderMap<http::HeaderValue>,
    body: Vec<u8>,
) -> (response: Response)
    ensures
        response@ == passed_response(status, header_fields(*headers), body@),
{
    let (body, changed) = if status == 200 && has_html_type(headers) && has_identity_encoding(
        headers,
    ) {
        rewrite_html(body.as_slice())
    } else {
        (body, false)
    };
    let mut passed = kept_headers(headers, changed);
    let ghost kept = fields_of(passed@);
    passed.push(text_header("access-control-allow-origin", "*"));
    passed.push(text_header("access-control-expose-headers", "*"));
    assert(fields_of(passed@) =~= kept.push(text_field("access-control-allow-origin"@, "*"@)).push(
        text_field("access-control-expose-headers"@, "*"@),
    ));
    Response { status, headers: passed, body }
}

/// What came of a request to the upstream server.
pub enum Outcome {
    /// The request could not be sent. The text says why.
    SendFailed(String),
    /// The body of the response could not be read. The text says why.
    ReadFailed(String),
    /// The response.
    Received { status: u16, headers: http::HeaderMap<http::HeaderValue>, body: Vec<u8> },
}

/// The response for the web view, given what came of the upstream request.
pub open spec fn outcome_response(outcome: Outcome) -> ResponseView {
    match outcome {
        Outcome::SendFailed(error) => error_view(
            502,
            Some("Bad Gateway"@),
            "webproxy upstream request failed: "@ + error@,
        ),
        Outcome::ReadFailed(error) => error_view(
            502,
            Some("Bad Gateway"@),
            "webproxy failed to read upstream response: "@ + error@,
        ),
        Outcome::Received { status, headers, body } => passed_response(
            status,
            header_fields(headers),
            body@,
        ),
    }
}

/// Makes the response for the web view of what came of the upstream request.
pub fn conclude(outcome: Outcome) -> (response: Response)
    ensures
        response@ == outcome_response(outcome),
{
    match outcome {
        Outcome::SendFailed(error) => {
            let mut message = "webproxy upstream request failed: ".to_owned();
            message.append(error.as_str());
            error_response(502, message.as_str())
        },
        Outcome::ReadFailed(error) => {
            let mut message = "webproxy failed to read upstream response: ".to_owned();
            message.append(error.as_str());
            error_response(502, message.as_str())
        },
        Outcome::Received { status, headers, body } => upstream_response(status, &headers, body),
    }
}

} // verus!
