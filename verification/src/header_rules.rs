//! Which header fields the proxy passes on.

use vstd::prelude::*;

use crate::text::{begins_with, text_eq, text_starts_with};

verus! {

/// The fields that concern one connection only.
pub open spec fn is_hop_by_hop(name: Seq<char>) -> bool {
    ||| name == "connection"@
    ||| name == "keep-alive"@
    ||| name == "proxy-authenticate"@
    ||| name == "proxy-authorization"@
    ||| name == "proxy-connection"@
    ||| name == "te"@
    ||| name == "trailer"@
    ||| name == "transfer-encoding"@
    ||| name == "upgrade"@
}

/// The response fields that declare a policy about framing, isolation or stored data.
pub open spec fn is_response_policy(name: Seq<char>) -> bool {
    ||| name == "content-security-policy"@
    ||| name == "content-security-policy-report-only"@
    ||| name == "x-content-security-policy"@
    ||| name == "x-webkit-csp"@
    ||| name == "x-frame-options"@
    ||| name == "cross-origin-embedder-policy"@
    ||| name == "cross-origin-opener-policy"@
    ||| name == "cross-origin-resource-policy"@
    ||| name == "origin-agent-cluster"@
    ||| name == "clear-site-data"@
}

/// The request fields that are not sent upstream. The name is in lower case.
pub open spec fn strips_request_header(name: Seq<char>) -> bool {
    ||| is_hop_by_hop(name)
    ||| name == "host"@
    ||| name == "content-length"@
    ||| name == "accept-encoding"@
    ||| name == "referer"@
    ||| name == "cookie"@
    ||| name == "x-frame-options"@
    ||| begins_with(name, "sec-fetch-"@)
    ||| begins_with(name, "access-control-request-"@)
}

/// The response fields that are not handed to the web view. The name is in lower case. The
/// fields that identify the body are dropped when the body was rewritten.
pub open spec fn strips_response_header(name: Seq<char>, body_changed: bool) -> bool {
    ||| is_hop_by_hop(name)
    ||| is_response_policy(name)
    ||| begins_with(name, "access-control-"@)
    ||| name == "content-length"@
    ||| name == "set-cookie"@
    ||| name == "content-encoding"@
    ||| body_changed && (name == "etag"@ || name == "content-md5"@ || name == "digest"@)
}

fn is_hop_by_hop_header(name: &str) -> (hop_by_hop: bool)
    ensures
        hop_by_hop == is_hop_by_hop(name@),
{
    text_eq(name, "connection") || text_eq(name, "keep-alive") || text_eq(
        name,
        "proxy-authenticate",
    ) || text_eq(name, "proxy-authorization") || text_eq(name, "proxy-connection") || text_eq(
        name,
        "te",
    ) || text_eq(name, "trailer") || text_eq(name, "transfer-encoding") || text_eq(name, "upgrade")
}

fn is_response_policy_header(name: &str) -> (policy: bool)
    ensures
        policy == is_response_policy(name@),
{
    text_eq(name, "content-security-policy") || text_eq(
        name,
        "content-security-policy-report-only",
    ) || text_eq(name, "x-content-security-policy") || text_eq(name, "x-webkit-csp") || text_eq(
        name,
        "x-frame-options",
    ) || text_eq(name, "cross-origin-embedder-policy") || text_eq(
        name,
        "cross-origin-opener-policy",
    ) || text_eq(name, "cross-origin-resource-policy") || text_eq(name, "origin-agent-cluster")
        || text_eq(name, "clear-site-data")
}

/// Whether a request field is kept from the upstream server. The name is in lower case.
pub fn should_strip_request_header(name: &str) -> (strip: bool)
    ensures
        strip == strips_request_header(name@),
{
    is_hop_by_hop_header(name) || text_eq(name, "host") || text_eq(name, "content-length")
        || text_eq(name, "accept-encoding") || text_eq(name, "referer") || text_eq(name, "cookie")
        || text_eq(name, "x-frame-options") || text_starts_with(name, "sec-fetch-")
        || text_starts_with(name, "access-control-request-")
}

/// Whether a response field is kept from the web view. The name is in lower case.
pub fn should_strip_response_header(name: &str, body_changed: bool) -> (strip: bool)
    ensures
        strip == strips_response_header(name@, body_changed),
{
    is_hop_by_hop_header(name) || is_response_policy_header(name) || text_starts_with(
        name,
        "access-control-",
    ) || text_eq(name, "content-length") || text_eq(name, "set-cookie") || text_eq(
        name,
        "content-encoding",
    ) || (body_changed && (text_eq(name, "etag") || text_eq(name, "content-md5") || text_eq(
        name,
        "digest",
    )))
}

} // verus!
