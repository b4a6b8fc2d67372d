//! The real target behind the address of a proxied request.

use vstd::prelude::*;

use crate::message::Request;
use crate::text::{
    begins_with, decimal, decimal_text, lemma_decimal, number, text_eq, text_starts_with,
};
use crate::uri::{
    denotes, is_host_char, is_host_name, is_location, is_path, is_port, optional_text, port_suffix,
    uri_parts, uri_text, RequestUri, UriView,
};

verus! {

/// The scheme under which the web view reaches the proxy.
pub const WEBPROXY_SCHEME: &'static str = "webproxy";

/// A URL that a request is forwarded to, with its origin.
pub struct Target {
    pub url: String,
    pub origin: String,
}

impl Target {
    /// The URL as text.
    pub fn as_str(&self) -> (url: &str)
        ensures
            url@ == self.url@,
    {
        self.url.as_str()
    }
}

/// What `url::Url` makes of a text: the normalized URL and its origin in ASCII, or the message
/// of the error.
pub uninterp spec fn parsed_url(text: Seq<char>) -> Result<(Seq<char>, Seq<char>), Seq<char>>;

/// An HTTPS address.
pub open spec fn https_address(host: Seq<char>, port: Option<Seq<char>>, path: Seq<char>) -> Seq<
    char,
> {
    "https://"@ + host + port_suffix(port) + path
}

/// Two addresses that are the same, or that differ in the leading zeros of their ports only.
pub open spec fn same_address(left: Seq<char>, right: Seq<char>) -> bool {
    ||| left == right
    ||| exists|host: Seq<char>, first: Seq<char>, second: Seq<char>, path: Seq<char>|
        is_host_name(host) && is_path(path) && is_port(first) && is_port(second) && number(first)
            == number(second) && left == #[trigger] https_address(host, Some(first), path) && right
            == #[trigger] https_address(host, Some(second), path)
}

/// `reqwest::Url::parse`, and what is read of its result: the URL as text, and its origin
/// through `Url::origin` and `Origin::ascii_serialization`. An HTTPS address becomes an HTTPS
/// URL with an HTTPS origin. Leading zeros of the port make no difference. The result is not
/// described further.
///
/// The address is HTTPS because the origin of some other URLs is found by parsing the URL inside
/// them, as deep as they are nested.
#[verifier::external_body]
fn parse_url(text: &str) -> (parsed: Result<Target, String>)
    requires
        begins_with(text@, "https://"@),
    ensures
        match parsed {
            Ok(target) => parsed_url(text@) == Ok::<(Seq<char>, Seq<char>), Seq<char>>(
                (target.url@, target.origin@),
            ),
            Err(message) => parsed_url(text@) == Err::<(Seq<char>, Seq<char>), Seq<char>>(message@),
        },
        forall|other: Seq<char>| #[trigger]
            same_address(text@, other) ==> target_result(parsed) == parsed_url(other),
        parsed matches Ok(target) ==> begins_with(target.url@, "https://"@) && begins_with(
            target.origin@,
            "https://"@,
        ),
{
    match reqwest::Url::parse(text) {
        Ok(url) => Ok(Target {
            origin: url.origin().ascii_serialization(),
            url: url.as_str().to_string(),
        }),
        Err(error) => Err(error.to_string()),
    }
}

/// The authority that stands behind the prefix of the workaround for platforms without custom
/// schemes: the host without the prefix, and the port.
pub open spec fn workaround_authority(uri: UriView) -> Option<Seq<char>> {
    match uri.host {
        Some(host) if begins_with(host, "webproxy."@) => {
            let target_host = host.skip("webproxy."@.len() as int);
            match uri.port {
                Some(port) => Some(target_host + ":"@ + decimal(port as nat)),
                None => Some(target_host),
            }
        },
        _ => None,
    }
}

/// The authority of the target, or the message that says why there is none.
pub open spec fn target_authority(uri: UriView) -> Result<Seq<char>, Seq<char>> {
    match uri.scheme {
        None => Err("webproxy request has no URI scheme"@),
        Some(scheme) => if scheme == "webproxy"@ {
            match uri.authority {
                Some(authority) => Ok(authority),
                None => Err("webproxy request has no target host"@),
            }
        } else if scheme == "http"@ || scheme == "https"@ {
            match workaround_authority(uri) {
                Some(authority) => Ok(authority),
                None => Err("invalid webproxy workaround host"@),
            }
        } else {
            Err("unexpected webproxy URI scheme \""@ + scheme + "\""@)
        },
    }
}

/// The address of the target: HTTPS, the authority of the target, the path and the query of the
/// request.
pub open spec fn address_of(uri: UriView) -> Result<Seq<char>, Seq<char>> {
    match target_authority(uri) {
        Ok(authority) => Ok(
            "https://"@ + authority + match uri.path_and_query {
                Some(path_and_query) => path_and_query,
                None => "/"@,
            },
        ),
        Err(message) => Err(message),
    }
}

/// A result as mathematical values.
pub open spec fn text_result(result: Result<String, String>) -> Result<Seq<char>, Seq<char>> {
    match result {
        Ok(text) => Ok(text@),
        Err(message) => Err(message@),
    }
}

/// The URL and the origin of a target.
pub open spec fn target_result(result: Result<Target, String>) -> Result<
    (Seq<char>, Seq<char>),
    Seq<char>,
> {
    match result {
        Ok(target) => Ok((target.url@, target.origin@)),
        Err(message) => Err(message@),
    }
}

/// What comes of the attempt to parse the target's address.
pub open spec fn resolution(parsed: Result<(Seq<char>, Seq<char>), Seq<char>>) -> Result<
    (Seq<char>, Seq<char>),
    Seq<char>,
> {
    match parsed {
        Ok(target) => Ok(target),
        Err(message) => Err("invalid webproxy target: "@ + message),
    }
}

/// What comes of a request with this URI: the target at the address, however the address writes its
/// port, or the message that says why there is no address.
pub open spec fn is_target_of(uri: UriView, target: Result<(Seq<char>, Seq<char>), Seq<char>>) -> bool {
    match address_of(uri) {
        Ok(address) => forall|other: Seq<char>| #[trigger]
            same_address(address, other) ==> target == resolution(parsed_url(other)),
        Err(message) => target == Err::<(Seq<char>, Seq<char>), Seq<char>>(message),
    }
}

fn authority_behind_prefix(uri: &RequestUri) -> (authority: Option<String>)
    ensures
        optional_text(authority) == workaround_authority(uri@),
{
    let prefix = "webproxy.";
    match &uri.parts().host {
        Some(host) => {
            if !text_starts_with(host.as_str(), prefix) {
                return None;
            }
            let text = host.as_str();
            let target_host = text.substring_char(prefix.unicode_len(), text.unicode_len());
            assert(target_host@ =~= host@.skip("webproxy."@.len() as int));
            let mut authority = String::new();
            authority.append(target_host);
            match uri.parts().port {
                Some(port) => {
                    authority.append(":");
                    authority.append(decimal_text(port).as_str());
                    assert(authority@ =~= target_host@ + ":"@ + decimal(port as nat));
                },
                None => {
                    assert(authority@ =~= target_host@);
                },
            }
            Some(authority)
        },
        None => None,
    }
}

/// The address of the target that a request's URI stands for, or the message that says why there
/// is none.
pub fn target_address(uri: &RequestUri) -> (address: Result<String, String>)
    ensures
        text_result(address) == address_of(uri@),
{
    let parts = uri.parts();
    let authority = match &parts.scheme {
        None => {
            return Err("webproxy request has no URI scheme".to_owned());
        },
        Some(scheme) => {
            if text_eq(scheme.as_str(), WEBPROXY_SCHEME) {
                match &parts.authority {
                    Some(authority) => authority.clone(),
                    None => {
                        return Err("webproxy request has no target host".to_owned());
                    },
                }
            } else if text_eq(scheme.as_str(), "http") || text_eq(scheme.as_str(), "https") {
                match authority_behind_prefix(uri) {
                    Some(authority) => authority,
                    None => {
                        return Err("invalid webproxy workaround host".to_owned());
                    },
                }
            } else {
                let mut message = "unexpected webproxy URI scheme \"".to_owned();
                message.append(scheme.as_str());
                message.append("\"");
                return Err(message);
            }
        },
    };
    let mut address = "https://".to_owned();
    address.append(authority.as_str());
    match &parts.path_and_query {
        Some(path_and_query) => {
            address.append(path_and_query.as_str());
        },
        None => {
            address.append("/");
        },
    }
    Ok(address)
}

/// The target that came of the attempt to parse its address, or the message of the error.
pub fn resolve_target(parsed: Result<Target, String>) -> (target: Result<Target, String>)
    ensures
        target_result(target) == resolution(target_result(parsed)),
{
    match parsed {
        Ok(target) => Ok(target),
        Err(error) => {
            let mut message = "invalid webproxy target: ".to_owned();
            message.append(error.as_str());
            Err(message)
        },
    }
}

/// The HTTPS target that a request stands for.
///
/// The URI of the request is `webproxy://example.com/path`. Where a platform has no custom
/// schemes it is `http(s)://webproxy.example.com/path`.
pub fn extract_target(request: &Request) -> (target: Result<Target, String>)
    ensures
        match address_of(request.uri@) {
            Ok(address) => target_result(target) == resolution(parsed_url(address)),
            Err(message) => target_result(target) == Err::<(Seq<char>, Seq<char>), Seq<char>>(
                message,
            ),
        },
        is_target_of(request.uri@, target_result(target)),
        target matches Ok(target) ==> begins_with(target.url@, "https://"@) && begins_with(
            target.origin@,
            "https://"@,
        ),
{
    match target_address(&request.uri) {
        Ok(address) => {
            proof {
                target_addresses_are_https(request.uri@);
            }
            resolve_target(parse_url(address.as_str()))
        },
        Err(message) => Err(message),
    }
}

/// A request under the custom scheme keeps the host, the port and the path: only the scheme of
/// the target is another.
pub proof fn custom_scheme_keeps_the_address(uri: UriView, authority: Seq<char>, path: Seq<char>)
    requires
        uri.scheme == Some("webproxy"@),
        uri.authority == Some(authority),
        uri.path_and_query == Some(path),
    ensures
        address_of(uri) == Ok::<Seq<char>, Seq<char>>("https://"@ + authority + path),
{
}

/// Every target address is an HTTPS address.
pub proof fn target_addresses_are_https(uri: UriView)
    ensures
        address_of(uri) matches Ok(address) ==> begins_with(address, "https://"@),
{
    if let Ok(address) = address_of(uri) {
        assert(address.subrange(0, "https://"@.len() as int) =~= "https://"@);
    }
}

/// A request under the custom scheme and a request under the workaround stand for the same
/// target if the host of the second is the authority of the first behind the prefix, with the
/// port taken apart, and their paths are the same.
pub proof fn both_address_forms_agree(custom: UriView, workaround: UriView, host: Seq<char>)
    requires
        custom.scheme == Some("webproxy"@),
        workaround.scheme == Some("http"@) || workaround.scheme == Some("https"@),
        workaround.host == Some("webproxy."@ + host),
        custom.authority == Some(
            match workaround.port {
                Some(port) => host + ":"@ + decimal(port as nat),
                None => host,
            },
        ),
        custom.path_and_query == workaround.path_and_query,
    ensures
        address_of(custom) == address_of(workaround),
{
    reveal_strlit("webproxy");
    reveal_strlit("http");
    reveal_strlit("https");
    assert("webproxy"@.len() != "http"@.len());
    assert("webproxy"@.len() != "https"@.len());
    let prefixed = "webproxy."@ + host;
    assert(prefixed.subrange(0, "webproxy."@.len() as int) =~= "webproxy."@);
    assert(prefixed.skip("webproxy."@.len() as int) =~= host);
}

/// A workaround request for a location has the location's address, up to leading zeros of the port.
proof fn lemma_workaround_address(
    scheme: Seq<char>,
    host: Seq<char>,
    port: Option<Seq<char>>,
    path: Seq<char>,
)
    requires
        scheme == "http"@ || scheme == "https"@,
        is_location(host, port, path),
    ensures
        address_of(uri_parts(scheme, "webproxy."@ + host, port, path)) matches Ok(address)
            && same_address(address, https_address(host, port, path)),
{
    reveal_strlit("webproxy");
    reveal_strlit("http");
    reveal_strlit("https");
    assert("webproxy"@.len() != "http"@.len());
    assert("webproxy"@.len() != "https"@.len());
    let prefixed = "webproxy."@ + host;
    let uri = uri_parts(scheme, prefixed, port, path);
    assert(prefixed.subrange(0, "webproxy."@.len() as int) =~= "webproxy."@);
    assert(prefixed.skip("webproxy."@.len() as int) =~= host);
    let address = address_of(uri)->Ok_0;
    match port {
        Some(digits) => {
            let plain = decimal(number(digits));
            lemma_decimal(number(digits));
            assert(address =~= https_address(host, Some(plain), path));
        },
        None => {
            assert(address =~= https_address(host, port, path));
        },
    }
}

/// A location has one target, whichever way it is requested: under the custom scheme, or under HTTP
/// or HTTPS with the prefix before the host. The target is that of the HTTPS address with the same
/// host, port, path and query.
pub proof fn every_address_form_has_one_target(
    host: Seq<char>,
    port: Option<Seq<char>>,
    path: Seq<char>,
    custom: UriView,
    http: UriView,
    https: UriView,
    custom_target: Result<(Seq<char>, Seq<char>), Seq<char>>,
    http_target: Result<(Seq<char>, Seq<char>), Seq<char>>,
    https_target: Result<(Seq<char>, Seq<char>), Seq<char>>,
)
    requires
        is_location(host, port, path),
        denotes(uri_text("webproxy"@, host, port, path), custom),
        denotes(uri_text("http"@, "webproxy."@ + host, port, path), http),
        denotes(uri_text("https"@, "webproxy."@ + host, port, path), https),
        is_target_of(custom, custom_target),
        is_target_of(http, http_target),
        is_target_of(https, https_target),
    ensures
        custom_target == http_target,
        custom_target == https_target,
        custom_target == resolution(parsed_url("https://"@ + host + port_suffix(port) + path)),
{
    let prefixed = "webproxy."@ + host;
    assert(is_host_name(prefixed)) by {
        reveal_strlit("webproxy.");
        assert forall|i: int| 0 <= i < prefixed.len() implies is_host_char(#[trigger] prefixed[i]) by {
            if i >= "webproxy."@.len() {
                assert(prefixed[i] == host[i - "webproxy."@.len()]);
            }
        }
    }
    lemma_workaround_address("http"@, host, port, path);
    lemma_workaround_address("https"@, host, port, path);
    assert(address_of(custom)->Ok_0 =~= https_address(host, port, path));
    assert(same_address(https_address(host, port, path), https_address(host, port, path)));
}

} // verus!
