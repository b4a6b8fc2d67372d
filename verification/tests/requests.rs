use http::header::{HeaderMap, HeaderName, HeaderValue};

use webproxy::error_page::{error_page, escape_html};
use webproxy::forward::{
    conclude, forward_to, handle, handle_target, upstream_headers, upstream_response, Action,
    Outcome, DEFAULT_USER_AGENT,
};
use webproxy::header_rules::{should_strip_request_header, should_strip_response_header};
use webproxy::message::{get_text, text_header, Header, Request, Response};
use webproxy::replies::{error_reply, error_response, preflight_response};
use webproxy::target::{extract_target, resolve_target, target_address, Target};
use webproxy::text::{decimal_text, text_eq, text_starts_with, text_to_lower};
use webproxy::uri::{allows_navigation, RequestUri, UriParts};

fn request(uri: &str) -> Request {
    Request {
        method: "GET".to_string(),
        uri: RequestUri::parse(uri).unwrap(),
        headers: HeaderMap::new(),
        body: Vec::new(),
    }
}

fn target_of(uri: &str) -> Target {
    extract_target(&request(uri)).unwrap()
}

fn headers(fields: &[(&'static str, &'static str)]) -> HeaderMap {
    let mut map = HeaderMap::new();
    for (name, value) in fields {
        map.append(HeaderName::from_static(name), HeaderValue::from_static(value));
    }
    map
}

fn listed(headers: &[Header]) -> Vec<(String, String)> {
    headers
        .iter()
        .map(|header| (header.name.clone(), String::from_utf8(header.value.clone()).unwrap()))
        .collect()
}

fn pairs(fields: &[(&str, &str)]) -> Vec<(String, String)> {
    fields.iter().map(|(name, value)| (name.to_string(), value.to_string())).collect()
}

fn value_of(response: &Response, name: &str) -> Option<String> {
    listed(&response.headers).into_iter().find(|field| field.0 == name).map(|field| field.1)
}

#[test]
fn keeps_target_host_in_custom_scheme() {
    let target =
        extract_target(&request("webproxy://doc.libsodium.org/key_derivation/hkdf?q=1")).unwrap();
    assert_eq!(target.as_str(), "https://doc.libsodium.org/key_derivation/hkdf?q=1");
}

#[test]
fn accepts_wry_http_workaround_uri() {
    let target =
        extract_target(&request("http://webproxy.doc.libsodium.org/key_derivation/hkdf")).unwrap();
    assert_eq!(target.as_str(), "https://doc.libsodium.org/key_derivation/hkdf");
}

#[test]
fn generates_styled_error_page() {
    let resp =
        error_response(502, "webproxy upstream request failed: connection refused <test>");
    assert_eq!(resp.status, 502);
    assert_eq!(value_of(&resp, "content-type").unwrap(), "text/html; charset=utf-8");
    assert_eq!(value_of(&resp, "access-control-allow-origin").unwrap(), "*");

    let body = String::from_utf8(resp.body).unwrap();
    assert!(body.contains("502 Bad Gateway"));
    assert!(body.contains("connection refused &lt;test&gt;"));
    assert!(!body.contains("<test>"));
    assert!(body.contains("location.reload()"));
}

#[test]
fn text_is_compared_by_character() {
    assert!(text_eq("ä-b", "ä-b"));
    assert!(!text_eq("te", "tea"));
    assert!(!text_eq("tea", "te"));
    assert!(!text_eq("te", "to"));
    assert!(text_starts_with("sec-fetch-mode", "sec-fetch-"));
    assert!(text_starts_with("a", ""));
    assert!(!text_starts_with("sec-fetch", "sec-fetch-"));
    assert!(!text_starts_with("xec-fetch-mode", "sec-fetch-"));
}

#[test]
fn only_ascii_letters_are_lowered() {
    assert_eq!(text_to_lower("User-Agent"), "user-agent");
    assert_eq!(text_to_lower("ÄZ@[`{"), "Äz@[`{");
}

#[test]
fn numbers_are_written_in_decimal() {
    assert_eq!(decimal_text(0), "0");
    assert_eq!(decimal_text(9), "9");
    assert_eq!(decimal_text(10), "10");
    assert_eq!(decimal_text(8080), "8080");
    assert_eq!(decimal_text(65535), "65535");
}

#[test]
fn markup_is_escaped() {
    assert_eq!(escape_html("a & <b> \"c\" 'd' ü;"), "a &amp; &lt;b&gt; &quot;c&quot; 'd' ü;");
    assert_eq!(escape_html("&lt;"), "&amp;lt;");
    assert_eq!(escape_html(""), "");
}

#[test]
fn the_error_page_is_complete() {
    let page = error_page(404, "Not Found", "a<b");
    assert!(page.starts_with("<!DOCTYPE html>\n<html lang=\"en\">\n<head>\n  <meta charset=\"utf-8\">\n"));
    assert!(page.contains("<title>404 Not Found</title>\n  <style>\n    body {\n"));
    assert!(page.contains("    <h1>404 Not Found</h1>\n    <pre>a&lt;b</pre>\n"));
    assert!(page.ends_with("Reload</button>\n  </div>\n</body>\n</html>"));
}

#[test]
fn a_status_without_reason_is_an_error() {
    let reply = error_response(599, "x");
    assert_eq!(reply.status, 599);
    assert!(String::from_utf8(reply.body).unwrap().contains("<h1>599 Error</h1>"));
    let reply = error_reply(599, Some("Odd"), "x");
    assert!(String::from_utf8(reply.body).unwrap().contains("<h1>599 Odd</h1>"));
    let reply = error_response(404, "x");
    assert!(String::from_utf8(reply.body).unwrap().contains("<h1>404 Not Found</h1>"));
}

#[test]
fn uri_parts_are_read() {
    let uri = RequestUri::parse("webproxy://user@example.com:8443/a/b?c#d").unwrap();
    let parts = uri.parts();
    assert_eq!(parts.scheme.as_deref(), Some("webproxy"));
    assert_eq!(parts.authority.as_deref(), Some("user@example.com:8443"));
    assert_eq!(parts.host.as_deref(), Some("example.com"));
    assert_eq!(parts.port, Some(8443));
    assert_eq!(parts.path_and_query.as_deref(), Some("/a/b?c"));
}

#[test]
fn invalid_uris_are_refused() {
    match RequestUri::parse("") {
        Err(message) => assert_eq!(message, "empty string"),
        Ok(_) => panic!("an empty text is no URI"),
    }
    assert!(RequestUri::parse("webproxy://a b/").is_err());
    let parts = UriParts {
        scheme: Some("we\"b".to_string()),
        authority: None,
        host: None,
        port: None,
        path_and_query: None,
    };
    assert!(RequestUri::from_parts(parts).is_none());
}

fn address(scheme: Option<&str>, authority: Option<&str>, host: Option<&str>, port: Option<u16>, path: Option<&str>) -> Result<String, String> {
    let parts = UriParts {
        scheme: scheme.map(|text| text.to_string()),
        authority: authority.map(|text| text.to_string()),
        host: host.map(|text| text.to_string()),
        port,
        path_and_query: path.map(|text| text.to_string()),
    };
    target_address(&RequestUri::from_parts(parts).unwrap())
}

#[test]
fn addresses_are_put_together() {
    assert_eq!(
        address(Some("webproxy"), Some("a.b:1"), Some("a.b"), Some(1), Some("/x?y")),
        Ok("https://a.b:1/x?y".to_string())
    );
    assert_eq!(
        address(Some("webproxy"), Some("a.b"), None, None, None),
        Ok("https://a.b/".to_string())
    );
    assert_eq!(
        address(Some("https"), Some("webproxy.a.b:81"), Some("webproxy.a.b"), Some(81), Some("/")),
        Ok("https://a.b:81/".to_string())
    );
    assert_eq!(
        address(Some("http"), Some("webproxy.a.b"), Some("webproxy.a.b"), None, Some("/")),
        Ok("https://a.b/".to_string())
    );
}

#[test]
fn addresses_without_a_target_are_refused() {
    assert_eq!(
        address(None, None, None, None, Some("/")),
        Err("webproxy request has no URI scheme".to_string())
    );
    assert_eq!(
        address(Some("webproxy"), None, None, None, Some("/")),
        Err("webproxy request has no target host".to_string())
    );
    assert_eq!(
        address(Some("http"), Some("a.b"), Some("a.b"), None, Some("/")),
        Err("invalid webproxy workaround host".to_string())
    );
    assert_eq!(
        address(Some("https"), None, None, None, Some("/")),
        Err("invalid webproxy workaround host".to_string())
    );
    assert_eq!(
        address(Some("ftp"), Some("a.b"), Some("a.b"), None, Some("/")),
        Err("unexpected webproxy URI scheme \"ftp\"".to_string())
    );
}

#[test]
fn both_forms_of_an_address_agree() {
    let custom = extract_target(&request("webproxy://example.com:8443/p?q")).unwrap();
    let workaround = extract_target(&request("https://webproxy.example.com:8443/p?q")).unwrap();
    assert_eq!(custom.url, "https://example.com:8443/p?q");
    assert_eq!(custom.url, workaround.url);
    assert_eq!(custom.origin, workaround.origin);
}

#[test]
fn every_form_of_a_location_has_one_target() {
    for location in [
        "example.com/path?q=1",
        "example.com:8080/",
        "Example.COM:0443/a/b",
        "a-b.example:00080/x?y",
        "example.com:65535/",
    ] {
        let expected = target_of(&format!("webproxy://{}", location));
        for prefix in ["http://webproxy.", "https://webproxy."] {
            let target = target_of(&format!("{}{}", prefix, location));
            assert_eq!(target.url, expected.url, "{}", location);
            assert_eq!(target.origin, expected.origin, "{}", location);
        }
    }
    let target = target_of("http://webproxy.example.com:0443/a");
    assert_eq!(target.url, "https://example.com/a");
    let target = target_of("webproxy://example.com:008080/a");
    assert_eq!(target.url, "https://example.com:8080/a");
}

#[test]
fn targets_are_normalized() {
    let target = extract_target(&request("webproxy://EXAMPLE.com:443/a/../b")).unwrap();
    assert_eq!(target.url, "https://example.com/b");
    assert_eq!(target.origin, "https://example.com");
    let target = extract_target(&request("webproxy://example.com:8443")).unwrap();
    assert_eq!(target.url, "https://example.com:8443/");
    assert_eq!(target.origin, "https://example.com:8443");
}

#[test]
fn unusable_targets_are_refused() {
    match extract_target(&request("webproxy://example.com:99999/")) {
        Err(message) => assert_eq!(message, "invalid webproxy target: invalid port number"),
        Ok(_) => panic!("the port is too large"),
    }
    match extract_target(&request("/path")) {
        Err(message) => assert_eq!(message, "webproxy request has no URI scheme"),
        Ok(_) => panic!("there is no scheme"),
    }
    match resolve_target(Err("why".to_string())) {
        Err(message) => assert_eq!(message, "invalid webproxy target: why"),
        Ok(_) => panic!("there is no target"),
    }
}

#[test]
fn navigation_is_limited_to_known_schemes() {
    for scheme in ["http", "https", "webproxy", "tauri", "asset", "about", "blob", "data"] {
        assert!(allows_navigation(scheme));
    }
    for scheme in ["javascript", "file", "ftp", "HTTP", ""] {
        assert!(!allows_navigation(scheme));
    }
}

#[test]
fn request_headers_are_stripped_by_name() {
    for name in [
        "connection", "keep-alive", "proxy-authenticate", "proxy-authorization",
        "proxy-connection", "te", "trailer", "transfer-encoding", "upgrade", "host",
        "content-length", "accept-encoding", "referer", "cookie", "x-frame-options",
        "sec-fetch-mode", "access-control-request-headers",
    ] {
        assert!(should_strip_request_header(name), "{}", name);
    }
    for name in ["accept", "origin", "user-agent", "authorization", "range", "cookies", "sec-ch-ua"] {
        assert!(!should_strip_request_header(name), "{}", name);
    }
}

#[test]
fn response_headers_are_stripped_by_name() {
    for name in [
        "connection", "upgrade", "content-security-policy",
        "content-security-policy-report-only", "x-content-security-policy", "x-webkit-csp",
        "x-frame-options", "cross-origin-embedder-policy", "cross-origin-opener-policy",
        "cross-origin-resource-policy", "origin-agent-cluster", "clear-site-data",
        "access-control-allow-origin", "content-length", "set-cookie", "content-encoding",
    ] {
        assert!(should_strip_response_header(name, false), "{}", name);
    }
    for name in ["etag", "content-md5", "digest"] {
        assert!(!should_strip_response_header(name, false), "{}", name);
        assert!(should_strip_response_header(name, true), "{}", name);
    }
    for name in ["content-type", "cache-control", "location"] {
        assert!(!should_strip_response_header(name, true), "{}", name);
    }
}

#[test]
fn header_values_are_read_as_text() {
    let mut map = headers(&[("x-a", "first"), ("x-b", "tab\there"), ("x-a", "second")]);
    map.append("x-c", HeaderValue::from_bytes(&[0xe4]).unwrap());
    assert_eq!(get_text(&map, "X-A"), Some(b"first".to_vec()));
    assert_eq!(get_text(&map, "x-b"), Some(b"tab\there".to_vec()));
    assert_eq!(get_text(&map, "x-c"), None);
    assert_eq!(get_text(&map, "x-d"), None);
    assert_eq!(text_header("a", "ü").value, vec![0xc3, 0xbc]);
}

#[test]
fn some_names_are_not_found() {
    let mut map = HeaderMap::new();
    let quoted = HeaderName::from_lowercase(b"a\"b").unwrap();
    map.insert(quoted, HeaderValue::from_static("quoted"));
    map.insert(HeaderName::from_static("!#$%&'*+-.^_`|~"), HeaderValue::from_static("marks"));
    assert_eq!(get_text(&map, "a\"b"), None);
    assert_eq!(get_text(&map, "!#$%&'*+-.^_`|~"), Some(b"marks".to_vec()));
    assert_eq!(get_text(&map, "a b"), None);
    assert_eq!(get_text(&map, ""), None);
}

#[test]
fn upstream_gets_the_target_origin_and_a_user_agent() {
    let map = headers(&[
        ("origin", "webproxy://example.com"),
        ("cookie", "a=b"),
        ("accept", "text/html"),
        ("sec-fetch-mode", "navigate"),
        ("accept", "image/png"),
    ]);
    assert_eq!(
        listed(&upstream_headers(&map, "https://example.com")),
        pairs(&[
            ("origin", "https://example.com"),
            ("accept", "text/html"),
            ("accept", "image/png"),
            ("user-agent", DEFAULT_USER_AGENT),
        ])
    );
}

#[test]
fn a_given_user_agent_is_kept() {
    let map = headers(&[("user-agent", "mine")]);
    assert_eq!(
        listed(&upstream_headers(&map, "https://example.com")),
        pairs(&[("user-agent", "mine")])
    );
}

#[test]
fn preflight_requests_are_answered() {
    let mut asked = request("webproxy://example.com/");
    asked.method = "OPTIONS".to_string();
    asked.headers = headers(&[
        ("access-control-request-method", "PUT"),
        ("access-control-request-headers", "x-token"),
    ]);
    match handle(asked) {
        Action::Respond(response) => {
            assert_eq!(response.status, 204);
            assert!(response.body.is_empty());
            assert_eq!(
                listed(&response.headers),
                pairs(&[
                    ("access-control-allow-origin", "*"),
                    ("access-control-allow-methods", "GET, HEAD, POST, PUT, PATCH, DELETE, OPTIONS"),
                    ("access-control-allow-headers", "x-token"),
                    ("access-control-max-age", "86400"),
                    ("vary", "Origin, Access-Control-Request-Method, Access-Control-Request-Headers"),
                ])
            );
        }
        Action::Forward(_) => panic!("a preflight request is not forwarded"),
    }
}

#[test]
fn a_preflight_request_may_ask_for_nothing() {
    let mut asked = request("webproxy://example.com/");
    asked.headers = headers(&[("access-control-request-method", "PUT")]);
    let response = preflight_response(&asked);
    assert_eq!(value_of(&response, "access-control-allow-headers").unwrap(), "*");
}

#[test]
fn plain_options_requests_are_forwarded() {
    let mut plain = request("webproxy://example.com/");
    plain.method = "OPTIONS".to_string();
    match handle(plain) {
        Action::Forward(upstream) => {
            assert_eq!(upstream.method, "OPTIONS");
            assert_eq!(upstream.url, "https://example.com/");
        }
        Action::Respond(_) => panic!("nothing was asked"),
    }
}

#[test]
fn requests_are_forwarded_with_their_body() {
    let mut post = request("webproxy://example.com/form");
    post.method = "POST".to_string();
    post.headers = headers(&[("origin", "webproxy://example.com"), ("user-agent", "mine")]);
    post.body = b"a=1".to_vec();
    match handle(post) {
        Action::Forward(upstream) => {
            assert_eq!(upstream.method, "POST");
            assert_eq!(upstream.url, "https://example.com/form");
            assert_eq!(
                listed(&upstream.headers),
                pairs(&[("origin", "https://example.com"), ("user-agent", "mine")])
            );
            assert_eq!(upstream.body, b"a=1".to_vec());
        }
        Action::Respond(_) => panic!("the request has a target"),
    }
}

#[test]
fn requests_without_a_target_are_refused() {
    match handle(request("ftp://example.com/")) {
        Action::Respond(response) => {
            assert_eq!(response.status, 400);
            let body = String::from_utf8(response.body).unwrap();
            assert!(body.contains("<h1>400 Bad Request</h1>"));
            assert!(body.contains("<pre>unexpected webproxy URI scheme &quot;ftp&quot;</pre>"));
        }
        Action::Forward(_) => panic!("the scheme is unknown"),
    }
    match handle_target(request("webproxy://example.com/"), Err("why".to_string())) {
        Action::Respond(response) => {
            assert!(String::from_utf8(response.body).unwrap().contains("<pre>why</pre>"));
        }
        Action::Forward(_) => panic!("there is no target"),
    }
}

#[test]
fn requests_without_a_method_are_refused() {
    let target = Target { url: "https://a/".to_string(), origin: "https://a".to_string() };
    let mut odd = request("webproxy://a/");
    odd.method = "G T".to_string();
    match forward_to(target, odd) {
        Action::Respond(response) => {
            assert_eq!(response.status, 400);
            let body = String::from_utf8(response.body).unwrap();
            assert!(body.contains("<pre>invalid webproxy method: invalid HTTP method</pre>"));
        }
        Action::Forward(_) => panic!("a method has no space"),
    }
}

#[test]
fn methods_are_tokens() {
    for method in ["GET", "get", "M-SEARCH", "!#$%&'*+-.^_`|~", "AVERYLONGMETHODNAME"] {
        let target = Target { url: "https://a/".to_string(), origin: "https://a".to_string() };
        let mut odd = request("webproxy://a/");
        odd.method = method.to_string();
        match forward_to(target, odd) {
            Action::Forward(upstream) => assert_eq!(upstream.method, method),
            Action::Respond(_) => panic!("a token is a method"),
        }
    }
    for method in ["", "A/B", "ä", "A\"", "(", "A,B"] {
        let target = Target { url: "https://a/".to_string(), origin: "https://a".to_string() };
        let mut odd = request("webproxy://a/");
        odd.method = method.to_string();
        assert!(matches!(forward_to(target, odd), Action::Respond(_)));
    }
}

#[test]
fn documents_are_rewritten() {
    let map = headers(&[
        ("content-type", "Text/HTML; charset=utf-8"),
        ("content-encoding", "Identity"),
        ("content-length", "7"),
        ("etag", "1"),
        ("x-frame-options", "DENY"),
        ("cache-control", "no-store"),
        ("set-cookie", "a=b"),
        ("access-control-allow-origin", "https://other"),
    ]);
    let response = upstream_response(200, &map, b"<head>x".to_vec());
    assert_eq!(response.status, 200);
    assert_eq!(
        listed(&response.headers),
        pairs(&[
            ("content-type", "Text/HTML; charset=utf-8"),
            ("cache-control", "no-store"),
            ("access-control-allow-origin", "*"),
            ("access-control-expose-headers", "*"),
        ])
    );
    let body = String::from_utf8(response.body).unwrap();
    assert!(body.starts_with("<head><script data-webproxy-state-bridge>"));
    assert!(body.ends_with("</script>x"));
}

#[test]
fn other_bodies_pass_unchanged() {
    let html = headers(&[("content-type", "text/html"), ("etag", "1")]);
    let partial = upstream_response(206, &html, b"<head>x".to_vec());
    assert_eq!(partial.body, b"<head>x".to_vec());
    assert_eq!(value_of(&partial, "etag").unwrap(), "1");

    let text = headers(&[("content-type", "text/plain")]);
    assert_eq!(upstream_response(200, &text, b"<head>".to_vec()).body, b"<head>".to_vec());
    assert_eq!(upstream_response(200, &HeaderMap::new(), b"<p>".to_vec()).body, b"<p>".to_vec());

    let packed = headers(&[("content-type", "text/html"), ("content-encoding", "br")]);
    let response = upstream_response(200, &packed, b"<head>".to_vec());
    assert_eq!(response.body, b"<head>".to_vec());
    assert_eq!(value_of(&response, "content-encoding"), None);
}

#[test]
fn an_unchanged_document_keeps_its_tag() {
    let map = headers(&[("content-type", "text/html"), ("etag", "1")]);
    let page = b"<script data-webproxy-state-bridge></script>".to_vec();
    let response = upstream_response(200, &map, page.clone());
    assert_eq!(response.body, page);
    assert_eq!(value_of(&response, "etag").unwrap(), "1");
}

#[test]
fn an_unreadable_encoding_counts_as_none() {
    let mut map = headers(&[("content-type", "text/html")]);
    map.append("content-encoding", HeaderValue::from_bytes(&[0xff]).unwrap());
    let response = upstream_response(200, &map, b"x".to_vec());
    assert!(response.body.len() > 1);
}

#[test]
fn failures_are_reported_as_bad_gateway() {
    let sent = conclude(Outcome::SendFailed("refused".to_string()));
    assert_eq!(sent.status, 502);
    assert!(String::from_utf8(sent.body)
        .unwrap()
        .contains("<pre>webproxy upstream request failed: refused</pre>"));
    let read = conclude(Outcome::ReadFailed("reset".to_string()));
    assert_eq!(read.status, 502);
    assert!(String::from_utf8(read.body)
        .unwrap()
        .contains("<pre>webproxy failed to read upstream response: reset</pre>"));
}

#[test]
fn responses_are_concluded() {
    let outcome = Outcome::Received {
        status: 304,
        headers: headers(&[("etag", "1")]),
        body: Vec::new(),
    };
    let response = conclude(outcome);
    assert_eq!(response.status, 304);
    assert_eq!(value_of(&response, "etag").unwrap(), "1");
    assert_eq!(value_of(&response, "access-control-expose-headers").unwrap(), "*");
}
