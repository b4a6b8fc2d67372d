//! What becomes of requests and responses, told by their fields and bytes.

use vstd::prelude::*;
use vstd::utf8::{encode_utf8, is_ascii_chars_encode_utf8};

use crate::bridge::with_bridge;
use crate::forward::{
    body_changed, forwarded_fields, is_rewritten, kept_fields, names, passed_response, upstream_fields,
};
use crate::guarantees::upstream_request_is_clean;
use crate::header_rules::{
    is_hop_by_hop, is_response_policy, strips_request_header, strips_response_header,
};
use crate::message::{
    first_text, first_value, has_field, is_text_byte, is_text_value, lemma_first_value,
};
use crate::page_laws::{
    holds_script_element, is_lower_word, lemma_stands_at, stands_at, the_script_goes_in_once,
};
use crate::policy::{stripping_changes_policies_only, without_policies};
use crate::text::{begins_with, lower_char, lower_text};

verus! {

/// The character is this one or, if that is a lower-case letter, the upper-case form of it.
pub open spec fn is_same_letter(character: char, lower: char) -> bool {
    ||| character == lower
    ||| 'a' <= lower <= 'z' && character as u32 + 32 == lower as u32
}

/// The name is this word, in any case.
pub open spec fn is_named(name: Seq<char>, word: Seq<char>) -> bool {
    &&& name.len() == word.len()
    &&& forall|i: int| 0 <= i < word.len() ==> is_same_letter(#[trigger] name[i], word[i])
}

/// The name begins with this word, in any case.
pub open spec fn name_begins(name: Seq<char>, word: Seq<char>) -> bool {
    &&& name.len() >= word.len()
    &&& forall|i: int| 0 <= i < word.len() ==> is_same_letter(#[trigger] name[i], word[i])
}

proof fn lemma_named(name: Seq<char>, word: Seq<char>)
    requires
        is_lower_word(word),
    ensures
        (lower_text(name) == word) == is_named(name, word),
        begins_with(lower_text(name), word) == name_begins(name, word),
{
    let lower = lower_text(name);
    assert forall|i: int| 0 <= i < word.len() && i < name.len() implies (lower[i] == word[i])
        == is_same_letter(#[trigger] name[i], word[i]) by {
        assert(lower[i] == lower_char(name[i]));
        assert(!('A' <= word[i] <= 'Z'));
    }
    if is_named(name, word) {
        assert(lower =~= word) by {
            assert forall|i: int| 0 <= i < word.len() implies lower[i] == word[i] by {
                assert(is_same_letter(name[i], word[i]));
            }
        }
    }
    if name_begins(name, word) {
        assert(lower.subrange(0, word.len() as int) =~= word) by {
            assert forall|i: int| 0 <= i < word.len() implies lower[i] == word[i] by {
                assert(is_same_letter(name[i], word[i]));
            }
        }
    }
    if begins_with(lower, word) {
        assert forall|i: int| 0 <= i < word.len() implies is_same_letter(
            #[trigger] name[i],
            word[i],
        ) by {
            assert(lower.subrange(0, word.len() as int)[i] == lower[i]);
        }
    }
}

/// The names of the fields that concern one connection only, in any case.
pub open spec fn is_connection_name(name: Seq<char>) -> bool {
    ||| is_named(name, "connection"@)
    ||| is_named(name, "keep-alive"@)
    ||| is_named(name, "proxy-authenticate"@)
    ||| is_named(name, "proxy-authorization"@)
    ||| is_named(name, "proxy-connection"@)
    ||| is_named(name, "te"@)
    ||| is_named(name, "trailer"@)
    ||| is_named(name, "transfer-encoding"@)
    ||| is_named(name, "upgrade"@)
}

/// The names of the request fields that stay behind, in any case.
pub open spec fn stays_behind(name: Seq<char>) -> bool {
    ||| is_connection_name(name)
    ||| is_named(name, "host"@)
    ||| is_named(name, "content-length"@)
    ||| is_named(name, "accept-encoding"@)
    ||| is_named(name, "referer"@)
    ||| is_named(name, "cookie"@)
    ||| is_named(name, "x-frame-options"@)
    ||| name_begins(name, "sec-fetch-"@)
    ||| name_begins(name, "access-control-request-"@)
}

/// The names of the response fields that are kept from the web view, in any case.
pub open spec fn is_kept_back(name: Seq<char>, changed: bool) -> bool {
    ||| is_connection_name(name)
    ||| is_named(name, "content-security-policy"@)
    ||| is_named(name, "content-security-policy-report-only"@)
    ||| is_named(name, "x-content-security-policy"@)
    ||| is_named(name, "x-webkit-csp"@)
    ||| is_named(name, "x-frame-options"@)
    ||| is_named(name, "cross-origin-embedder-policy"@)
    ||| is_named(name, "cross-origin-opener-policy"@)
    ||| is_named(name, "cross-origin-resource-policy"@)
    ||| is_named(name, "origin-agent-cluster"@)
    ||| is_named(name, "clear-site-data"@)
    ||| name_begins(name, "access-control-"@)
    ||| is_named(name, "content-length"@)
    ||| is_named(name, "set-cookie"@)
    ||| is_named(name, "content-encoding"@)
    ||| changed && (is_named(name, "etag"@) || is_named(name, "content-md5"@) || is_named(
        name,
        "digest"@,
    ))
}

proof fn lemma_connection_names(name: Seq<char>)
    ensures
        is_hop_by_hop(lower_text(name)) == is_connection_name(name),
{
    reveal_strlit("connection");
    reveal_strlit("keep-alive");
    reveal_strlit("proxy-authenticate");
    reveal_strlit("proxy-authorization");
    reveal_strlit("proxy-connection");
    reveal_strlit("te");
    reveal_strlit("trailer");
    reveal_strlit("transfer-encoding");
    reveal_strlit("upgrade");
    lemma_named(name, "connection"@);
    lemma_named(name, "keep-alive"@);
    lemma_named(name, "proxy-authenticate"@);
    lemma_named(name, "proxy-authorization"@);
    lemma_named(name, "proxy-connection"@);
    lemma_named(name, "te"@);
    lemma_named(name, "trailer"@);
    lemma_named(name, "transfer-encoding"@);
    lemma_named(name, "upgrade"@);
}

proof fn lemma_stays_behind(name: Seq<char>)
    ensures
        strips_request_header(lower_text(name)) == stays_behind(name),
{
    lemma_connection_names(name);
    reveal_strlit("host");
    reveal_strlit("content-length");
    reveal_strlit("accept-encoding");
    reveal_strlit("referer");
    reveal_strlit("cookie");
    reveal_strlit("x-frame-options");
    reveal_strlit("sec-fetch-");
    reveal_strlit("access-control-request-");
    lemma_named(name, "host"@);
    lemma_named(name, "content-length"@);
    lemma_named(name, "accept-encoding"@);
    lemma_named(name, "referer"@);
    lemma_named(name, "cookie"@);
    lemma_named(name, "x-frame-options"@);
    lemma_named(name, "sec-fetch-"@);
    lemma_named(name, "access-control-request-"@);
}

proof fn lemma_policy_names(name: Seq<char>)
    ensures
        is_response_policy(lower_text(name)) == {
            ||| is_named(name, "content-security-policy"@)
            ||| is_named(name, "content-security-policy-report-only"@)
            ||| is_named(name, "x-content-security-policy"@)
            ||| is_named(name, "x-webkit-csp"@)
            ||| is_named(name, "x-frame-options"@)
            ||| is_named(name, "cross-origin-embedder-policy"@)
            ||| is_named(name, "cross-origin-opener-policy"@)
            ||| is_named(name, "cross-origin-resource-policy"@)
            ||| is_named(name, "origin-agent-cluster"@)
            ||| is_named(name, "clear-site-data"@)
        },
{
    reveal_strlit("content-security-policy");
    reveal_strlit("content-security-policy-report-only");
    reveal_strlit("x-content-security-policy");
    reveal_strlit("x-webkit-csp");
    reveal_strlit("x-frame-options");
    reveal_strlit("cross-origin-embedder-policy");
    reveal_strlit("cross-origin-opener-policy");
    reveal_strlit("cross-origin-resource-policy");
    reveal_strlit("origin-agent-cluster");
    reveal_strlit("clear-site-data");
    lemma_named(name, "content-security-policy"@);
    lemma_named(name, "content-security-policy-report-only"@);
    lemma_named(name, "x-content-security-policy"@);
    lemma_named(name, "x-webkit-csp"@);
    lemma_named(name, "x-frame-options"@);
    lemma_named(name, "cross-origin-embedder-policy"@);
    lemma_named(name, "cross-origin-opener-policy"@);
    lemma_named(name, "cross-origin-resource-policy"@);
    lemma_named(name, "origin-agent-cluster"@);
    lemma_named(name, "clear-site-data"@);
}

proof fn lemma_is_kept_back(name: Seq<char>, changed: bool)
    ensures
        strips_response_header(lower_text(name), changed) == is_kept_back(name, changed),
{
    lemma_connection_names(name);
    lemma_policy_names(name);
    reveal_strlit("access-control-");
    reveal_strlit("content-length");
    reveal_strlit("set-cookie");
    reveal_strlit("content-encoding");
    reveal_strlit("etag");
    reveal_strlit("content-md5");
    reveal_strlit("digest");
    lemma_named(name, "access-control-"@);
    lemma_named(name, "content-length"@);
    lemma_named(name, "set-cookie"@);
    lemma_named(name, "content-encoding"@);
    lemma_named(name, "etag"@);
    lemma_named(name, "content-md5"@);
    lemma_named(name, "digest"@);
}

/// A request field goes upstream behind those before it: an origin becomes the origin of the
/// target, a field that stays behind is left out, and every other field goes as it is.
pub proof fn request_fields_go_upstream_in_turn(
    fields: Seq<(Seq<char>, Seq<u8>)>,
    field: (Seq<char>, Seq<u8>),
    origin: Seq<char>,
)
    ensures
        upstream_fields(Seq::empty(), origin).len() == 0,
        is_named(field.0, "origin"@) ==> upstream_fields(fields.push(field), origin)
            == upstream_fields(fields, origin).push(("origin"@, encode_utf8(origin))),
        !is_named(field.0, "origin"@) && stays_behind(field.0) ==> upstream_fields(
            fields.push(field),
            origin,
        ) == upstream_fields(fields, origin),
        !is_named(field.0, "origin"@) && !stays_behind(field.0) ==> upstream_fields(
            fields.push(field),
            origin,
        ) == upstream_fields(fields, origin).push(field),
{
    reveal_strlit("origin");
    lemma_named(field.0, "origin"@);
    lemma_stays_behind(field.0);
    assert(fields.push(field).drop_last() =~= fields);
    assert(fields.push(field).last() == field);
}

/// A request that names a user agent, in any case, goes with the fields that go upstream. Any other
/// request gets a user agent behind them.
pub proof fn requests_without_a_user_agent_get_one(
    fields: Seq<(Seq<char>, Seq<u8>)>,
    origin: Seq<char>,
)
    ensures
        (exists|i: int| 0 <= i < fields.len() && is_named((#[trigger] fields[i]).0, "user-agent"@))
            ==> forwarded_fields(fields, origin) == upstream_fields(fields, origin),
        (forall|i: int|
            0 <= i < fields.len() ==> !is_named((#[trigger] fields[i]).0, "user-agent"@))
            ==> forwarded_fields(fields, origin) == upstream_fields(fields, origin).push(
            (
                "user-agent"@,
                encode_utf8(
                    "Mozilla/5.0 (iPhone; CPU iPhone OS 17_0 like Mac OS X) AppleWebKit/605.1.15 (KHTML, like Gecko) Version/17.0 Mobile/15E148 Safari/604.1"@,
                ),
            ),
        ),
{
    reveal_strlit("user-agent");
    assert forall|i: int| 0 <= i < fields.len() implies (lower_text((#[trigger] fields[i]).0)
        == "user-agent"@) == is_named(fields[i].0, "user-agent"@) by {
        lemma_named(fields[i].0, "user-agent"@);
    }
    if names(fields, "user-agent"@) {
        let i = choose|i: int|
            0 <= i < fields.len() && lower_text((#[trigger] fields[i]).0) == "user-agent"@;
        assert(is_named(fields[i].0, "user-agent"@));
    }
    if exists|i: int| 0 <= i < fields.len() && is_named((#[trigger] fields[i]).0, "user-agent"@) {
        let i = choose|i: int|
            0 <= i < fields.len() && is_named((#[trigger] fields[i]).0, "user-agent"@);
        assert(lower_text(fields[i].0) == "user-agent"@);
    }
}

/// A request field that is no origin and does not stay behind is among the fields of the upstream
/// request, with its name and its value.
pub proof fn other_request_fields_are_sent(
    fields: Seq<(Seq<char>, Seq<u8>)>,
    origin: Seq<char>,
    at: int,
)
    requires
        0 <= at < fields.len(),
        !is_named(fields[at].0, "origin"@),
        !stays_behind(fields[at].0),
    ensures
        forwarded_fields(fields, origin).contains(fields[at]),
{
    reveal_strlit("origin");
    lemma_named(fields[at].0, "origin"@);
    lemma_stays_behind(fields[at].0);
    upstream_request_is_clean(fields, origin);
}

/// A response field comes to the web view behind those before it, as it is, unless it is kept back.
pub proof fn response_fields_come_back_in_turn(
    fields: Seq<(Seq<char>, Seq<u8>)>,
    field: (Seq<char>, Seq<u8>),
    changed: bool,
)
    ensures
        kept_fields(Seq::empty(), changed).len() == 0,
        is_kept_back(field.0, changed) ==> kept_fields(fields.push(field), changed) == kept_fields(
            fields,
            changed,
        ),
        !is_kept_back(field.0, changed) ==> kept_fields(fields.push(field), changed) == kept_fields(
            fields,
            changed,
        ).push(field),
{
    lemma_is_kept_back(field.0, changed);
    assert(fields.push(field).drop_last() =~= fields);
    assert(fields.push(field).last() == field);
}

/// The first field of this name stands at `at`.
pub open spec fn is_first(fields: Seq<(Seq<char>, Seq<u8>)>, name: Seq<char>, at: int) -> bool {
    &&& 0 <= at < fields.len()
    &&& fields[at].0 == name
    &&& forall|i: int| 0 <= i < at ==> (#[trigger] fields[i]).0 != name
}

/// Bytes that can be read as text: visible ASCII, spaces and tabs.
pub open spec fn is_readable_text(value: Seq<u8>) -> bool {
    forall|i: int| 0 <= i < value.len() ==> 32 <= #[trigger] value[i] <= 126 || value[i] == 9
}

/// The value of a name is that of its first field, if that can be read as text. There is none
/// otherwise, and none without such a field.
pub proof fn the_first_field_has_the_say(fields: Seq<(Seq<char>, Seq<u8>)>, name: Seq<char>)
    ensures
        forall|at: int| #[trigger]
            is_first(fields, name, at) ==> first_value(fields, name) == Some(fields[at].1)
                && first_text(fields, name) == if is_readable_text(fields[at].1) {
                Some(fields[at].1)
            } else {
                None
            },
        (forall|i: int| 0 <= i < fields.len() ==> (#[trigger] fields[i]).0 != name) ==> first_text(
            fields,
            name,
        ) is None && first_value(fields, name) is None,
        has_field(fields, name) <==> exists|i: int|
            0 <= i < fields.len() && (#[trigger] fields[i]).0 == name,
{
    lemma_first_value(fields, name);
    assert forall|at: int| #[trigger] is_first(fields, name, at) implies first_value(fields, name)
        == Some(fields[at].1) by {
        assert(fields[at].0 == name);
        let value = first_value(fields, name)->0;
        let found = choose|found: int|
            0 <= found < fields.len() && (#[trigger] fields[found]).0 == name && fields[found].1
                == value && forall|i: int| 0 <= i < found ==> (#[trigger] fields[i]).0 != name;
        assert(found == at);
    }
    assert forall|value: Seq<u8>| #[trigger] is_text_value(value) == is_readable_text(value) by {
        if is_text_value(value) {
            assert forall|i: int| 0 <= i < value.len() implies 32 <= #[trigger] value[i] <= 126
                || value[i] == 9 by {
                assert(is_text_byte(value[i]));
            }
        }
        if is_readable_text(value) {
            assert forall|i: int| 0 <= i < value.len() implies is_text_byte(
                #[trigger] value[i],
            ) by {}
        }
    }
}

/// A complete HTML document, as its status and its fields show it: the status is 200, the first
/// content type begins with `text/html`, in any case and whatever follows, and the first content
/// encoding, if there is a readable one, is `identity`, in any case.
pub open spec fn is_document(status: u16, fields: Seq<(Seq<char>, Seq<u8>)>) -> bool {
    &&& status == 200
    &&& exists|at: int| #[trigger]
        is_first(fields, "content-type"@, at) && is_readable_text(fields[at].1) && stands_at(
            fields[at].1,
            "text/html"@,
            0,
        )
    &&& forall|at: int| #[trigger]
        is_first(fields, "content-encoding"@, at) && is_readable_text(fields[at].1)
            ==> fields[at].1.len() == 8 && stands_at(fields[at].1, "identity"@, 0)
}

/// A name has a first field or none.
proof fn lemma_first_or_none(fields: Seq<(Seq<char>, Seq<u8>)>, name: Seq<char>)
    ensures
        (exists|at: int| is_first(fields, name, at)) || (forall|i: int|
            0 <= i < fields.len() ==> (#[trigger] fields[i]).0 != name),
{
    lemma_first_value(fields, name);
    if let Some(value) = first_value(fields, name) {
        let at = choose|at: int|
            0 <= at < fields.len() && (#[trigger] fields[at]).0 == name && fields[at].1 == value
                && forall|i: int| 0 <= i < at ==> (#[trigger] fields[i]).0 != name;
        assert(is_first(fields, name, at));
    }
}

proof fn lemma_is_document(status: u16, fields: Seq<(Seq<char>, Seq<u8>)>)
    ensures
        is_rewritten(status, fields) == is_document(status, fields),
{
    reveal_strlit("text/html");
    reveal_strlit("identity");
    is_ascii_chars_encode_utf8("text/html"@);
    is_ascii_chars_encode_utf8("identity"@);
    the_first_field_has_the_say(fields, "content-type"@);
    the_first_field_has_the_say(fields, "content-encoding"@);
    lemma_first_or_none(fields, "content-type"@);
    lemma_first_or_none(fields, "content-encoding"@);
    if exists|at: int| is_first(fields, "content-type"@, at) {
        let at = choose|at: int| is_first(fields, "content-type"@, at);
        lemma_stands_at(fields[at].1, "text/html"@, 0);
        assert(forall|i: int| #[trigger] is_first(fields, "content-type"@, i) ==> i == at);
    }
    if exists|at: int| is_first(fields, "content-encoding"@, at) {
        let at = choose|at: int| is_first(fields, "content-encoding"@, at);
        let value = fields[at].1;
        lemma_stands_at(value, "identity"@, 0);
        if value.len() == 8 {
            assert(value.subrange(0, 8) =~= value);
        }
        assert(forall|i: int| #[trigger] is_first(fields, "content-encoding"@, i) ==> i == at);
    }
}

/// The web view gets a complete HTML document rewritten, with the script element's start tag in it,
/// and every other body as it came. The status is that of the response.
pub proof fn complete_documents_are_rewritten(
    status: u16,
    fields: Seq<(Seq<char>, Seq<u8>)>,
    body: Seq<u8>,
)
    ensures
        is_document(status, fields) ==> passed_response(status, fields, body).body == with_bridge(
            without_policies(body, 0),
        ),
        is_document(status, fields) ==> holds_script_element(
            passed_response(status, fields, body).body,
        ),
        !is_document(status, fields) ==> passed_response(status, fields, body).body == body,
        passed_response(status, fields, body).status == status,
{
    lemma_is_document(status, fields);
    the_script_goes_in_once(without_policies(body, 0));
}

/// The web view gets the fields that are not kept back, and two that let every page read the
/// response and its fields. The fields that identify the body are kept back if stripping shortened
/// the body or injection lengthened it.
pub proof fn responses_can_be_read(status: u16, fields: Seq<(Seq<char>, Seq<u8>)>, body: Seq<u8>)
    ensures
        ({
            let left = without_policies(body, 0);
            let changed = is_document(status, fields) && (left.len() < body.len() || with_bridge(
                left,
            ).len() > left.len());
            passed_response(status, fields, body).fields == kept_fields(fields, changed).push(
                ("access-control-allow-origin"@, encode_utf8("*"@)),
            ).push(("access-control-expose-headers"@, encode_utf8("*"@)))
        }),
{
    let left = without_policies(body, 0);
    lemma_is_document(status, fields);
    the_script_goes_in_once(left);
    stripping_changes_policies_only(body);
    reveal_strlit("<script data-webproxy-state-bridge>");
    is_ascii_chars_encode_utf8("<script data-webproxy-state-bridge>"@);
    assert(body_changed(status, fields, body) == (is_document(status, fields) && (left.len()
        < body.len() || with_bridge(left).len() > left.len())));
}

} // verus!
