//! The address of a request, taken apart.

use vstd::prelude::*;
use vstd::std_specs::iter::IteratorSpec;

use crate::text::{is_digits, number, text_eq};

verus! {

/// The parts of a URI, as mathematical values.
pub ghost struct UriView {
    pub scheme: Option<Seq<char>>,
    pub authority: Option<Seq<char>>,
    pub host: Option<Seq<char>>,
    pub port: Option<u16>,
    pub path_and_query: Option<Seq<char>>,
}

/// The parts of a URI. The host and the port are parts of the authority.
pub struct UriParts {
    pub scheme: Option<String>,
    pub authority: Option<String>,
    pub host: Option<String>,
    pub port: Option<u16>,
    pub path_and_query: Option<String>,
}

/// An optional text.
pub open spec fn optional_text(text: Option<String>) -> Option<Seq<char>> {
    match text {
        Some(text) => Some(text@),
        None => None,
    }
}

impl View for UriParts {
    type V = UriView;

    open spec fn view(&self) -> UriView {
        UriView {
            scheme: optional_text(self.scheme),
            authority: optional_text(self.authority),
            host: optional_text(self.host),
            port: self.port,
            path_and_query: optional_text(self.path_and_query),
        }
    }
}

/// A character that a scheme can hold.
pub open spec fn is_scheme_char(character: char) -> bool {
    ||| 'a' <= character <= 'z'
    ||| 'A' <= character <= 'Z'
    ||| '0' <= character <= '9'
    ||| character == '+'
    ||| character == '-'
    ||| character == '.'
    ||| character == '~'
}

/// A text that consists of characters of a scheme.
pub open spec fn is_scheme_text(text: Seq<char>) -> bool {
    forall|i: int| 0 <= i < text.len() ==> is_scheme_char(#[trigger] text[i])
}

/// The scheme, if there is one, consists of characters of a scheme.
pub open spec fn has_plain_scheme(uri: UriView) -> bool {
    uri.scheme matches Some(scheme) ==> is_scheme_text(scheme)
}

/// A character that a host name can hold.
pub open spec fn is_host_char(character: char) -> bool {
    ||| 'a' <= character <= 'z'
    ||| 'A' <= character <= 'Z'
    ||| '0' <= character <= '9'
    ||| character == '-'
    ||| character == '.'
}

/// A host name: letters, digits, hyphens and dots.
pub open spec fn is_host_name(text: Seq<char>) -> bool {
    &&& text.len() > 0
    &&& forall|i: int| 0 <= i < text.len() ==> is_host_char(#[trigger] text[i])
}

/// The digits of a port, leading zeros among them.
pub open spec fn is_port(digits: Seq<char>) -> bool {
    is_digits(digits) && number(digits) <= u16::MAX
}

/// A path with an optional query, and without a fragment.
pub open spec fn is_path(text: Seq<char>) -> bool {
    text.len() > 0 && text[0] == '/' && !text.contains('#')
}

/// The end of an authority with this port.
pub open spec fn port_suffix(port: Option<Seq<char>>) -> Seq<char> {
    match port {
        Some(digits) => ":"@ + digits,
        None => Seq::empty(),
    }
}

/// A host name, an optional port and a path.
pub open spec fn is_location(host: Seq<char>, port: Option<Seq<char>>, path: Seq<char>) -> bool {
    is_host_name(host) && is_path(path) && (port matches Some(digits) ==> is_port(digits))
}

/// A URI, written down.
pub open spec fn uri_text(
    scheme: Seq<char>,
    host: Seq<char>,
    port: Option<Seq<char>>,
    path: Seq<char>,
) -> Seq<char> {
    scheme + "://"@ + host + port_suffix(port) + path
}

/// The parts of a URI.
pub open spec fn uri_parts(
    scheme: Seq<char>,
    host: Seq<char>,
    port: Option<Seq<char>>,
    path: Seq<char>,
) -> UriView {
    UriView {
        scheme: Some(scheme),
        authority: Some(host + port_suffix(port)),
        host: Some(host),
        port: match port {
            Some(digits) => Some(number(digits) as u16),
            None => None,
        },
        path_and_query: Some(path),
    }
}

/// The URI has the parts that the text shows, if the text is a location under one of the schemes of
/// the proxy.
pub open spec fn denotes(text: Seq<char>, uri: UriView) -> bool {
    forall|scheme: Seq<char>, host: Seq<char>, port: Option<Seq<char>>, path: Seq<char>|
        (scheme == "webproxy"@ || scheme == "http"@ || scheme == "https"@) && is_location(
            host,
            port,
            path,
        ) && text == #[trigger] uri_text(scheme, host, port, path) ==> uri == uri_parts(
            scheme,
            host,
            port,
            path,
        )
}

/// What `http::Uri` makes of a text: the parts of the URI, or the message of the error.
pub uninterp spec fn parsed_uri(text: Seq<char>) -> Result<UriView, Seq<char>>;

/// `http::Uri::from_str`, and the parts of its result: the scheme, the authority with its host
/// and its port, and the path with the query. The scheme of a URI consists of characters of a
/// scheme. A text that consists of one of the proxy's schemes, a host name, an optional port and a
/// path is taken apart as it is written, and the port is the number that its digits stand for. The
/// parts of other texts are not described further, nor is it said which texts are accepted.
#[verifier::external_body]
fn http_uri(text: &str) -> (parsed: Result<UriParts, String>)
    ensures
        match parsed {
            Ok(parts) => parsed_uri(text@) == Ok::<UriView, Seq<char>>(parts@),
            Err(message) => parsed_uri(text@) == Err::<UriView, Seq<char>>(message@),
        },
        parsed matches Ok(parts) ==> has_plain_scheme(parts@),
        parsed matches Ok(parts) ==> denotes(text@, parts@),
{
    match text.parse::<http::Uri>() {
        Ok(uri) => Ok(UriParts {
            scheme: uri.scheme_str().map(|scheme| scheme.to_string()),
            authority: uri.authority().map(|authority| authority.as_str().to_string()),
            host: uri.host().map(|host| host.to_string()),
            port: uri.port_u16(),
            path_and_query: uri.path_and_query().map(|path| path.as_str().to_string()),
        }),
        Err(error) => Err(error.to_string()),
    }
}

/// The URI of a request. Its scheme consists of characters of a scheme.
pub struct RequestUri {
    parts: UriParts,
}

impl View for RequestUri {
    type V = UriView;

    closed spec fn view(&self) -> UriView {
        self.parts@
    }
}

impl RequestUri {
    #[verifier::type_invariant]
    spec fn well_formed(self) -> bool {
        has_plain_scheme(self.parts@)
    }

    /// The URI with these parts, if its scheme consists of characters of a scheme.
    pub fn from_parts(parts: UriParts) -> (uri: Option<RequestUri>)
        ensures
            uri is Some <==> has_plain_scheme(parts@),
            uri matches Some(uri) ==> uri@ == parts@,
    {
        match &parts.scheme {
            Some(scheme) => {
                if !consists_of_scheme_chars(scheme.as_str()) {
                    return None;
                }
            },
            None => {},
        }
        Some(RequestUri { parts })
    }

    /// The URI that a text denotes, or the message of the error.
    pub fn parse(text: &str) -> (parsed: Result<RequestUri, String>)
        ensures
            match parsed {
                Ok(uri) => parsed_uri(text@) == Ok::<UriView, Seq<char>>(uri@),
                Err(message) => parsed_uri(text@) == Err::<UriView, Seq<char>>(message@),
            },
            parsed matches Ok(uri) ==> denotes(text@, uri@),
    {
        match http_uri(text) {
            Ok(parts) => Ok(RequestUri { parts }),
            Err(message) => Err(message),
        }
    }

    /// The parts of the URI.
    pub fn parts(&self) -> (parts: &UriParts)
        ensures
            parts@ == self@,
            has_plain_scheme(self@),
    {
        proof {
            use_type_invariant(self);
        }
        &self.parts
    }
}

fn consists_of_scheme_chars(text: &str) -> (plain: bool)
    ensures
        plain == is_scheme_text(text@),
{
    broadcast use vstd::string::group_string_axioms;

    let mut characters = text.chars();
    let ghost mut read: int = 0;
    loop
        invariant
            0 <= read <= text@.len(),
            characters.remaining() == text@.skip(read),
            forall|i: int| 0 <= i < read ==> is_scheme_char(#[trigger] text@[i]),
        decreases text@.len() - read,
    {
        match characters.next() {
            Some(c) => {
                assert(c == text@[read]);
                if !('a' <= c && c <= 'z' || 'A' <= c && c <= 'Z' || '0' <= c && c <= '9' || c
                    == '+' || c == '-' || c == '.' || c == '~') {
                    return false;
                }
                proof {
                    read = read + 1;
                }
            },
            None => {
                return true;
            },
        }
    }
}

/// The schemes that the web view may navigate to.
pub open spec fn is_navigable(scheme: Seq<char>) -> bool {
    ||| scheme == "http"@
    ||| scheme == "https"@
    ||| scheme == "webproxy"@
    ||| scheme == "tauri"@
    ||| scheme == "asset"@
    ||| scheme == "about"@
    ||| scheme == "blob"@
    ||| scheme == "data"@
}

/// Whether the web view may navigate to a URL with this scheme.
pub fn allows_navigation(scheme: &str) -> (allowed: bool)
    ensures
        allowed == is_navigable(scheme@),
{
    text_eq(scheme, "http") || text_eq(scheme, "https") || text_eq(scheme, "webproxy") || text_eq(
        scheme,
        "tauri",
    ) || text_eq(scheme, "asset") || text_eq(scheme, "about") || text_eq(scheme, "blob")
        || text_eq(scheme, "data")
}

} // verus!
