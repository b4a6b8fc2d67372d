//! What is done about requests and what the proxy says itself, told in plain texts and values.

use vstd::prelude::*;
use vstd::utf8::encode_utf8;

use crate::cache::{
    accepts_config, client_config, configured, default_config, CacheConfig, CacheMode, CacheState,
    CACHE_DIR_NAME,
};
use crate::error_page::{
    error_page_text, escaped, escaped_char, ERROR_PAGE_END, ERROR_PAGE_MESSAGE, ERROR_PAGE_START,
    ERROR_PAGE_STYLE,
};
use crate::forward::{
    forward_action, forwarded_fields, is_method, is_preflight, outcome_response, passed_response,
    target_action, Action, ActionView, Outcome, UpstreamRequest,
};
use crate::message::{header_fields, Request, Response, ResponseView};
use crate::message_laws::{is_first, is_readable_text, the_first_field_has_the_say};
use crate::replies::{error_view, preflight_view};
use crate::target::{
    address_of, resolution, target_result, text_result, Target, WEBPROXY_SCHEME,
};
use crate::text::{begins_with, decimal, lemma_decimal, lower_text, number};
use crate::uri::{has_plain_scheme, is_navigable, is_scheme_char, UriParts, UriView};

verus! {

/// Escaping goes character by character: it takes two texts one behind the other apart, it replaces
/// the ampersand, the two brackets and the double quote by their entities, and it keeps every other
/// character.
pub proof fn escaping_goes_by_character(left: Seq<char>, right: Seq<char>, character: char)
    ensures
        escaped(left + right) == escaped(left) + escaped(right),
        escaped(Seq::empty()).len() == 0,
        escaped(seq!['&']) == "&amp;"@,
        escaped(seq!['<']) == "&lt;"@,
        escaped(seq!['>']) == "&gt;"@,
        escaped(seq!['"']) == "&quot;"@,
        character != '&' && character != '<' && character != '>' && character != '"' ==> escaped(
            seq![character],
        ) == seq![character],
    decreases left.len(),
{
    assert forall|c: char| #[trigger] escaped(seq![c]) == escaped_char(c) by {
        assert(seq![c].drop_first() =~= Seq::<char>::empty());
        assert(escaped(Seq::<char>::empty()) =~= Seq::<char>::empty());
        assert(escaped_char(c) + Seq::<char>::empty() =~= escaped_char(c));
    }
    if left.len() == 0 {
        assert(left + right =~= right);
        assert(escaped(left) + escaped(right) =~= escaped(right));
    } else {
        escaping_goes_by_character(left.drop_first(), right, character);
        assert((left + right).drop_first() =~= left.drop_first() + right);
        assert(escaped_char(left[0]) + (escaped(left.drop_first()) + escaped(right)) =~= (escaped_char(
            left[0],
        ) + escaped(left.drop_first())) + escaped(right));
    }
}

/// The text ends with `end`.
pub open spec fn ends_with(text: Seq<char>, end: Seq<char>) -> bool {
    end.len() <= text.len() && text.subrange(text.len() - end.len(), text.len() as int) == end
}

proof fn lemma_page_style()
    ensures
        begins_with(ERROR_PAGE_STYLE@, "</title>"@),
        ends_with(ERROR_PAGE_STYLE@, "<h1>"@),
{
    reveal_strlit(
        r#"</title>
  <style>
    body {
      font-family: system-ui, -apple-system, sans-serif;
      margin: 0;
      padding: max(40px, 12vh) 24px 24px;
      display: flex;
      justify-content: center;
      align-items: flex-start;
      min-height: 100vh;
      box-sizing: border-box;
      background: #f8fafc;
      color: #1e293b;
    }
    @media (prefers-color-scheme: dark) {
      body { background: #0f172a; color: #f8fafc; }
      .card { background: #1e293b !important; border-color: #334155 !important; }
      pre { background: #0f172a !important; color: #94a3b8 !important; }
      button { background: #334155 !important; color: #f8fafc !important; }
    }
    .card {
      max-width: 480px;
      width: 100%;
      background: #fff;
      border: 1px solid #e2e8f0;
      border-radius: 8px;
      padding: 24px;
      box-shadow: 0 1px 3px rgba(0, 0, 0, 0.05);
    }
    h1 { font-size: 1.25rem; margin: 0 0 12px; }
    pre {
      background: #f1f5f9;
      padding: 12px;
      border-radius: 6px;
      font-size: 0.8125rem;
      white-space: pre-wrap;
      word-break: break-all;
      margin: 0 0 16px;
    }
    button {
      padding: 8px 16px;
      border: 0;
      border-radius: 6px;
      background: #e2e8f0;
      color: #1e293b;
      cursor: pointer;
      font-size: 0.875rem;
    }
  </style>
</head>
<body>
  <div class="card">
    <h1>"#,
    );
    reveal_strlit("</title>");
    reveal_strlit("<h1>");
    let style = ERROR_PAGE_STYLE@;
    assert(style.subrange(0, 8) =~= "</title>"@);
    assert(style.subrange(style.len() - 4, style.len() as int) =~= "<h1>"@);
}

/// An error page shows the status and the reason in its title and in its heading, and the escaped
/// message as preformatted text.
pub proof fn the_error_page_shows_what_happened(
    status: u16,
    reason: Seq<char>,
    message: Seq<char>,
)
    ensures
        error_page_text(status, reason, message) == ERROR_PAGE_START@ + decimal(status as nat) + " "@
            + reason + ERROR_PAGE_STYLE@ + decimal(status as nat) + " "@ + reason
            + ERROR_PAGE_MESSAGE@ + escaped(message) + ERROR_PAGE_END@,
        begins_with(ERROR_PAGE_START@, "<!DOCTYPE html>"@),
        ends_with(ERROR_PAGE_START@, "<title>"@),
        begins_with(ERROR_PAGE_STYLE@, "</title>"@),
        ends_with(ERROR_PAGE_STYLE@, "<h1>"@),
        ERROR_PAGE_MESSAGE@ == "</h1>\n    <pre>"@,
        begins_with(ERROR_PAGE_END@, "</pre>"@),
        ends_with(ERROR_PAGE_END@, "</html>"@),
{
    lemma_page_style();
    reveal_strlit(
        r#"<!DOCTYPE html>
<html lang="en">
<head>
  <meta charset="utf-8">
  <meta name="viewport" content="width=device-width, initial-scale=1.0">
  <title>"#,
    );
    reveal_strlit("<title>");
    reveal_strlit(
        r#"</pre>
    <button onclick="location.reload()">Reload</button>
  </div>
</body>
</html>"#,
    );
    reveal_strlit("</pre>");
    reveal_strlit("<!DOCTYPE html>");
    reveal_strlit("</html>");
    let start = ERROR_PAGE_START@;
    let end = ERROR_PAGE_END@;
    assert(start.subrange(0, 15) =~= "<!DOCTYPE html>"@);
    assert(start.subrange(start.len() - 7, start.len() as int) =~= "<title>"@);
    assert(end.subrange(0, 6) =~= "</pre>"@);
    assert(end.subrange(end.len() - 7, end.len() as int) =~= "</html>"@);
    let code = decimal(status as nat);
    assert(error_page_text(status, reason, message) =~= start + code + " "@ + reason
        + ERROR_PAGE_STYLE@ + code + " "@ + reason + ERROR_PAGE_MESSAGE@ + escaped(message)
        + ERROR_PAGE_END@);
}

/// An error is answered with its status, as an HTML page that every page may read. A status without
/// a reason is called an error.
pub proof fn errors_are_answered_with_a_page(
    status: u16,
    reason: Seq<char>,
    message: Seq<char>,
)
    ensures
        error_view(status, Some(reason), message) == (ResponseView {
            status,
            fields: seq![
                ("content-type"@, encode_utf8("text/html; charset=utf-8"@)),
                ("access-control-allow-origin"@, encode_utf8("*"@)),
            ],
            body: encode_utf8(error_page_text(status, reason, message)),
        }),
        error_view(status, None, message) == error_view(status, Some("Error"@), message),
{
    assert(error_view(status, Some(reason), message).fields =~= seq![
        ("content-type"@, encode_utf8("text/html; charset=utf-8"@)),
        ("access-control-allow-origin"@, encode_utf8("*"@)),
    ]);
}

/// A preflight request is answered without a body and with status 204. Every origin and seven
/// methods are allowed, for a day. The header fields that the first request field asks for are
/// allowed if it can be read, and otherwise all.
pub proof fn preflight_requests_are_granted(fields: Seq<(Seq<char>, Seq<u8>)>)
    ensures
        preflight_view(fields).status == 204,
        preflight_view(fields).body.len() == 0,
        preflight_view(fields).fields.len() == 5,
        preflight_view(fields).fields[0] == ("access-control-allow-origin"@, encode_utf8("*"@)),
        preflight_view(fields).fields[1] == (
            "access-control-allow-methods"@,
            encode_utf8("GET, HEAD, POST, PUT, PATCH, DELETE, OPTIONS"@),
        ),
        preflight_view(fields).fields[2].0 == "access-control-allow-headers"@,
        forall|at: int| #[trigger]
            is_first(fields, "access-control-request-headers"@, at) ==> preflight_view(
                fields,
            ).fields[2].1 == if is_readable_text(fields[at].1) {
                fields[at].1
            } else {
                encode_utf8("*"@)
            },
        (forall|i: int|
            0 <= i < fields.len() ==> (#[trigger] fields[i]).0 != "access-control-request-headers"@)
            ==> preflight_view(fields).fields[2].1 == encode_utf8("*"@),
        preflight_view(fields).fields[3] == ("access-control-max-age"@, encode_utf8("86400"@)),
        preflight_view(fields).fields[4] == (
            "vary"@,
            encode_utf8("Origin, Access-Control-Request-Method, Access-Control-Request-Headers"@),
        ),
{
    the_first_field_has_the_say(fields, "access-control-request-headers"@);
}

/// A preflight request is one with the method `OPTIONS` and a field that asks for a method.
pub proof fn preflight_requests_ask_for_a_method(request: Request)
    ensures
        is_preflight(request) <==> request.method@ == "OPTIONS"@ && exists|i: int|
            0 <= i < header_fields(request.headers).len() && (#[trigger] header_fields(
                request.headers,
            )[i]).0 == "access-control-request-method"@,
{
    the_first_field_has_the_say(
        header_fields(request.headers),
        "access-control-request-method"@,
    );
}

/// A request with a target is sent there with its method and its body, and with the fields that go
/// upstream. Without a target it is refused with the reason, and so it is with a method that is
/// none.
pub proof fn requests_are_sent_or_refused(
    request: Request,
    url: Seq<char>,
    origin: Seq<char>,
    message: Seq<char>,
)
    ensures
        is_method(request.method@) ==> {
            let action = target_action(request, Ok((url, origin)));
            &&& action is Forward
            &&& action->Forward_0.method == request.method@
            &&& action->Forward_0.url == url
            &&& action->Forward_0.body == request.body@
            &&& action->Forward_0.fields == forwarded_fields(header_fields(request.headers), origin)
        },
        !is_method(request.method@) ==> target_action(request, Ok((url, origin)))
            == ActionView::Respond(
            error_view(
                400,
                Some("Bad Request"@),
                "invalid webproxy method: "@ + "invalid HTTP method"@,
            ),
        ),
        target_action(request, Err(message)) == ActionView::Respond(
            error_view(400, Some("Bad Request"@), message),
        ),
        target_action(request, Ok((url, origin))) == forward_action(request, url, origin),
{
}

/// A request that could not be sent, and a response that could not be read, are reported as a bad
/// gateway, with the reason. A response is passed on.
pub proof fn failures_are_reported(error: String, outcome: Outcome)
    ensures
        outcome_response(Outcome::SendFailed(error)) == error_view(
            502,
            Some("Bad Gateway"@),
            "webproxy upstream request failed: "@ + error@,
        ),
        outcome_response(Outcome::ReadFailed(error)) == error_view(
            502,
            Some("Bad Gateway"@),
            "webproxy failed to read upstream response: "@ + error@,
        ),
        outcome matches Outcome::Received { status, headers, body } ==> outcome_response(outcome)
            == passed_response(status, header_fields(headers), body@),
{
}

/// The path that a target address ends with: that of the request, or the root.
pub open spec fn path_or_root(uri: UriView) -> Seq<char> {
    if uri.path_and_query is Some {
        uri.path_and_query->0
    } else {
        "/"@
    }
}

/// The address of a target is made of HTTPS, the authority of a request under the custom scheme or
/// the host and the port of any other request, without the prefix of its host, and the path. There
/// is none, for the reason that is given, without a scheme, without an authority, without the
/// prefix and under another scheme.
pub proof fn addresses_come_from_the_parts_of_a_request(uri: UriView)
    ensures
        uri.scheme is None ==> address_of(uri) == Err::<Seq<char>, Seq<char>>(
            "webproxy request has no URI scheme"@,
        ),
        uri.scheme == Some("webproxy"@) && uri.authority is Some ==> address_of(uri) == Ok::<
            Seq<char>,
            Seq<char>,
        >("https://"@ + uri.authority->0 + path_or_root(uri)),
        uri.scheme == Some("webproxy"@) && uri.authority is None ==> address_of(uri) == Err::<
            Seq<char>,
            Seq<char>,
        >("webproxy request has no target host"@),
        forall|host: Seq<char>|
            (uri.scheme == Some("http"@) || uri.scheme == Some("https"@)) && uri.host == Some(
                #[trigger] ("webproxy."@ + host),
            ) ==> address_of(uri) == Ok::<Seq<char>, Seq<char>>(
                "https://"@ + if uri.port is Some {
                    host + ":"@ + decimal(uri.port->0 as nat)
                } else {
                    host
                } + path_or_root(uri),
            ),
        (uri.scheme == Some("http"@) || uri.scheme == Some("https"@)) && (uri.host is None
            || uri.host->0.len() < 9 || uri.host->0.subrange(0, 9) != "webproxy."@) ==> address_of(uri)
            == Err::<Seq<char>, Seq<char>>("invalid webproxy workaround host"@),
        uri.scheme is Some && uri.scheme->0 != "webproxy"@ && uri.scheme->0 != "http"@
            && uri.scheme->0 != "https"@ ==> address_of(uri) == Err::<Seq<char>, Seq<char>>(
            "unexpected webproxy URI scheme \""@ + uri.scheme->0 + "\""@,
        ),
{
    reveal_strlit("webproxy");
    reveal_strlit("http");
    reveal_strlit("https");
    reveal_strlit("webproxy.");
    assert("webproxy"@.len() != "http"@.len() && "webproxy"@.len() != "https"@.len());
    assert forall|host: Seq<char>|
        (uri.scheme == Some("http"@) || uri.scheme == Some("https"@)) && uri.host == Some(
            #[trigger] ("webproxy."@ + host),
        ) implies address_of(uri) == Ok::<Seq<char>, Seq<char>>(
        "https://"@ + if uri.port is Some {
            host + ":"@ + decimal(uri.port->0 as nat)
        } else {
            host
        } + path_or_root(uri),
    ) by {
        let prefixed = "webproxy."@ + host;
        assert(prefixed.subrange(0, 9) =~= "webproxy."@);
        assert(prefixed.skip(9) =~= host);
    }
}

/// A number in decimal stands for that number, begins with no zero unless it is zero, and the
/// number that digits stand for is read from the left.
pub proof fn numbers_are_written_in_decimal(value: nat, digits: Seq<char>, last: char)
    requires
        '0' <= last <= '9',
    ensures
        number(decimal(value)) == value,
        value > 0 ==> decimal(value)[0] != '0',
        decimal(0) == seq!['0'],
        number(Seq::empty()) == 0,
        number(digits.push(last)) == number(digits) * 10 + (last as u8 - '0' as u8),
    decreases value,
{
    lemma_decimal(value);
    assert(digits.push(last).drop_last() =~= digits);
    assert(decimal(0) =~= seq!['0']);
    if value >= 10 {
        numbers_are_written_in_decimal(value / 10, digits, last);
        lemma_decimal(value / 10);
        assert(decimal(value)[0] == decimal(value / 10)[0]);
    }
}

/// A target is what its address was parsed to, and a failure says what failed.
pub proof fn resolution_keeps_the_target(target: (Seq<char>, Seq<char>), message: Seq<char>)
    ensures
        resolution(Ok(target)) == Ok::<(Seq<char>, Seq<char>), Seq<char>>(target),
        resolution(Err(message)) == Err::<(Seq<char>, Seq<char>), Seq<char>>(
            "invalid webproxy target: "@ + message,
        ),
{
}

/// The web view may navigate to the schemes of the web, of the proxy and of the application itself,
/// and to no others.
pub proof fn navigation_is_limited(scheme: Seq<char>)
    ensures
        is_navigable("http"@) && is_navigable("https"@) && is_navigable("webproxy"@),
        is_navigable("tauri"@) && is_navigable("asset"@) && is_navigable("about"@),
        is_navigable("blob"@) && is_navigable("data"@),
        is_navigable(scheme) ==> scheme == "http"@ || scheme == "https"@ || scheme == "webproxy"@
            || scheme == "tauri"@ || scheme == "asset"@ || scheme == "about"@ || scheme == "blob"@
            || scheme == "data"@,
        WEBPROXY_SCHEME@ == "webproxy"@,
{
}

/// Lower-casing keeps the length of a text and changes nothing but the letters from A to Z. A text
/// begins with another exactly if it is that text with something behind it.
pub proof fn texts_are_compared_by_character(text: Seq<char>, rest: Seq<char>)
    ensures
        lower_text(text).len() == text.len(),
        forall|i: int|
            0 <= i < text.len() ==> (#[trigger] lower_text(text)[i]) as u32 == if 'A' <= text[i]
                <= 'Z' {
                (text[i] as u32 + 32) as u32
            } else {
                text[i] as u32
            },
        begins_with(text + rest, text),
        begins_with(rest, text) ==> rest == text + rest.skip(text.len() as int),
{
    assert((text + rest).subrange(0, text.len() as int) =~= text);
    if begins_with(rest, text) {
        assert(rest =~= rest.subrange(0, text.len() as int) + rest.skip(text.len() as int));
    }
}

/// A URI can be taken whose scheme is made of letters, digits and the four marks that a scheme can
/// hold, and so can a URI without a scheme. No other URI can.
pub proof fn schemes_are_known_by_their_characters(uri: UriView)
    ensures
        has_plain_scheme(uri) <==> (uri.scheme is Some ==> forall|i: int|
            0 <= i < uri.scheme->0.len() ==> {
                let character = #[trigger] uri.scheme->0[i];
                ||| 'a' <= character <= 'z'
                ||| 'A' <= character <= 'Z'
                ||| '0' <= character <= '9'
                ||| character == '+'
                ||| character == '-'
                ||| character == '.'
                ||| character == '~'
            }),
{
    if let Some(scheme) = uri.scheme {
        if has_plain_scheme(uri) {
            assert forall|i: int| 0 <= i < scheme.len() implies {
                let character = #[trigger] scheme[i];
                ||| 'a' <= character <= 'z'
                ||| 'A' <= character <= 'Z'
                ||| '0' <= character <= '9'
                ||| character == '+'
                ||| character == '-'
                ||| character == '.'
                ||| character == '~'
            } by {
                assert(is_scheme_char(scheme[i]));
            }
        }
    }
}

/// Responses are cached by default, by the rules, in a directory that is found later.
pub proof fn responses_are_cached_by_default()
    ensures
        default_config().enabled,
        default_config().cache_dir is None,
        default_config().cache_mode == CacheMode::Default,
        CACHE_DIR_NAME@ == "tauri-plugin-webproxy-cache"@,
{
}

/// A configuration is accepted exactly once, and only before the client exists. A client gets the
/// configuration that was accepted, or the default one.
pub proof fn configuration_is_accepted_once(state: CacheState, config: CacheConfig)
    ensures
        accepts_config(state) <==> state is Unset,
        accepts_config(state) ==> configured(state, config) == CacheState::Configured(config),
        !accepts_config(state) ==> configured(state, config) == state,
        client_config(CacheState::Unset) == Some(default_config()),
        client_config(CacheState::Configured(config)) == Some(config),
        client_config(CacheState::InUse) is None,
{
}

/// The contents of a message are all of its values: the status or the method and the URL, each field
/// with its name and its value in order, and the body.
pub proof fn contents_are_complete(
    response: Response,
    upstream: UpstreamRequest,
    target: Target,
    parts: UriParts,
    text: String,
)
    ensures
        response@.status == response.status,
        response@.body == response.body@,
        response@.fields.len() == response.headers@.len(),
        forall|i: int|
            0 <= i < response.headers@.len() ==> #[trigger] response@.fields[i] == (
                response.headers@[i].name@,
                response.headers@[i].value@,
            ),
        upstream@.method == upstream.method@,
        upstream@.url == upstream.url@,
        upstream@.body == upstream.body@,
        upstream@.fields.len() == upstream.headers@.len(),
        forall|i: int|
            0 <= i < upstream.headers@.len() ==> #[trigger] upstream@.fields[i] == (
                upstream.headers@[i].name@,
                upstream.headers@[i].value@,
            ),
        Action::Respond(response)@ == ActionView::Respond(response@),
        Action::Forward(upstream)@ == ActionView::Forward(upstream@),
        target_result(Ok(target)) == Ok::<(Seq<char>, Seq<char>), Seq<char>>(
            (target.url@, target.origin@),
        ),
        target_result(Err(text)) == Err::<(Seq<char>, Seq<char>), Seq<char>>(text@),
        text_result(Ok(text)) == Ok::<Seq<char>, Seq<char>>(text@),
        text_result(Err(text)) == Err::<Seq<char>, Seq<char>>(text@),
        parts.scheme is Some ==> parts@.scheme == Some(parts.scheme->0@),
        parts.scheme is None ==> parts@.scheme is None,
        parts.authority is Some ==> parts@.authority == Some(parts.authority->0@),
        parts.authority is None ==> parts@.authority is None,
        parts.host is Some ==> parts@.host == Some(parts.host->0@),
        parts.host is None ==> parts@.host is None,
        parts@.port == parts.port,
        parts.path_and_query is Some ==> parts@.path_and_query == Some(parts.path_and_query->0@),
        parts.path_and_query is None ==> parts@.path_and_query is None,
{
}

} // verus!
