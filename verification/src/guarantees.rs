//! What holds of every request that goes upstream and of every response that comes back.

use vstd::prelude::*;

use crate::bridge::{has_bridge, rewriting_reports_every_change, rewritten_page_declares_no_policy};
use crate::forward::{
    body_changed, forwarded_fields, is_rewritten, kept_fields, names, outcome_response, passed_response,
    upstream_field, upstream_fields, Outcome,
};
use crate::header_rules::{
    is_hop_by_hop, is_response_policy, strips_request_header, strips_response_header,
};
use crate::message::{header_fields, text_field, ResponseView};
use crate::policy::{fuses_policy, has_policy};
use crate::replies::{error_view, preflight_view};
use crate::text::{begins_with, lower_text};

verus! {

/// The response allows every page to read it.
pub open spec fn is_readable(response: ResponseView) -> bool {
    response.fields.contains(text_field("access-control-allow-origin"@, "*"@))
}

/// The names of the fields that the proxy sets are in lower case, and the two that it sends are
/// not the same.
proof fn lemma_lower_names()
    ensures
        "origin"@ != "user-agent"@,
        lower_text("origin"@) == "origin"@,
        lower_text("user-agent"@) == "user-agent"@,
        lower_text("access-control-allow-origin"@) == "access-control-allow-origin"@,
        lower_text("access-control-expose-headers"@) == "access-control-expose-headers"@,
{
    reveal_strlit("origin");
    reveal_strlit("user-agent");
    reveal_strlit("access-control-allow-origin");
    reveal_strlit("access-control-expose-headers");
    assert("origin"@.len() != "user-agent"@.len());
    assert(lower_text("origin"@) =~= "origin"@);
    assert(lower_text("user-agent"@) =~= "user-agent"@);
    assert(lower_text("access-control-allow-origin"@) =~= "access-control-allow-origin"@);
    assert(lower_text("access-control-expose-headers"@) =~= "access-control-expose-headers"@);
}

/// None of the fields that concern one connection has such a name.
proof fn lemma_not_hop_by_hop(name: Seq<char>)
    requires
        name == "origin"@ || name == "user-agent"@ || name == "access-control-allow-origin"@ || name
            == "access-control-expose-headers"@,
    ensures
        !is_hop_by_hop(name),
{
    reveal_strlit("origin");
    reveal_strlit("user-agent");
    reveal_strlit("access-control-allow-origin");
    reveal_strlit("access-control-expose-headers");
    reveal_strlit("connection");
    reveal_strlit("keep-alive");
    reveal_strlit("proxy-authenticate");
    reveal_strlit("proxy-authorization");
    reveal_strlit("proxy-connection");
    reveal_strlit("te");
    reveal_strlit("trailer");
    reveal_strlit("transfer-encoding");
    reveal_strlit("upgrade");
    assert(name[0] == 'o' || name[0] == 'u' || name[0] == 'a');
    assert(name[0] == 'u' ==> name[1] == 's');
}

/// The origin and the user agent are among the fields that go upstream.
proof fn lemma_sent_names(name: Seq<char>)
    requires
        name == "origin"@ || name == "user-agent"@,
    ensures
        !strips_request_header(name),
{
    lemma_not_hop_by_hop(name);
    reveal_strlit("origin");
    reveal_strlit("user-agent");
    reveal_strlit("host");
    reveal_strlit("content-length");
    reveal_strlit("accept-encoding");
    reveal_strlit("referer");
    reveal_strlit("cookie");
    reveal_strlit("x-frame-options");
    reveal_strlit("sec-fetch-");
    reveal_strlit("access-control-request-");
    assert(name[0] == 'o' || name[0] == 'u');
    assert(begins_with(name, "sec-fetch-"@) ==> name[0] == name.subrange(0, "sec-fetch-"@.len() as int)[0]);
    assert(!begins_with(name, "access-control-request-"@));
}

proof fn lemma_upstream_fields(fields: Seq<(Seq<char>, Seq<u8>)>, origin: Seq<char>)
    ensures
        forall|i: int|
            0 <= i < upstream_fields(fields, origin).len() ==> is_clean(
                #[trigger] upstream_fields(fields, origin)[i],
                origin,
            ),
        names(fields, "user-agent"@) ==> names(upstream_fields(fields, origin), "user-agent"@),
        forall|i: int|
            0 <= i < fields.len() && lower_text(fields[i].0) != "origin"@ && !strips_request_header(
                lower_text(fields[i].0),
            ) ==> upstream_fields(fields, origin).contains(#[trigger] fields[i]),
    decreases fields.len(),
{
    lemma_lower_names();
    lemma_sent_names("origin"@);
    lemma_sent_names("user-agent"@);
    if fields.len() > 0 {
        let before = upstream_fields(fields.drop_last(), origin);
        let last = upstream_field(fields.last(), origin);
        let sent = upstream_fields(fields, origin);
        lemma_upstream_fields(fields.drop_last(), origin);
        assert forall|i: int| 0 <= i < sent.len() implies is_clean(#[trigger] sent[i], origin) by {
            if i < before.len() {
                assert(sent[i] == before[i]);
            } else {
                assert(sent[i] == last[i - before.len()]);
            }
        }
        if names(fields, "user-agent"@) {
            let k = choose|k: int|
                0 <= k < fields.len() && lower_text((#[trigger] fields[k]).0) == "user-agent"@;
            if k < fields.len() - 1 {
                assert(lower_text(fields.drop_last()[k].0) == "user-agent"@);
                let j = choose|j: int|
                    0 <= j < before.len() && lower_text((#[trigger] before[j]).0) == "user-agent"@;
                assert(sent[j] == before[j]);
            } else {
                assert(sent[before.len() as int] == fields.last());
            }
        }
        assert forall|i: int|
            0 <= i < fields.len() && lower_text(fields[i].0) != "origin"@ && !strips_request_header(
                lower_text(fields[i].0),
            ) implies sent.contains(#[trigger] fields[i]) by {
            if i < fields.len() - 1 {
                assert(fields.drop_last()[i] == fields[i]);
                let j = choose|j: int| 0 <= j < before.len() && before[j] == fields[i];
                assert(sent[j] == before[j]);
            } else {
                assert(sent[before.len() as int] == fields[i]);
            }
        }
    }
}

/// A field that may go upstream: it is none of those that are left out, and if it is an origin,
/// then that of the target.
pub open spec fn is_clean(field: (Seq<char>, Seq<u8>), origin: Seq<char>) -> bool {
    let name = lower_text(field.0);
    &&& !strips_request_header(name)
    &&& name == "origin"@ ==> field == text_field("origin"@, origin)
}

/// A request goes upstream without the fields that concern the connection to the proxy, without
/// the cookies, the referrer and the fetch metadata of the web view, and with no origin but that
/// of the target. It names a user agent, and none of its other fields is lost.
pub proof fn upstream_request_is_clean(fields: Seq<(Seq<char>, Seq<u8>)>, origin: Seq<char>)
    ensures
        forall|i: int|
            0 <= i < forwarded_fields(fields, origin).len() ==> is_clean(
                #[trigger] forwarded_fields(fields, origin)[i],
                origin,
            ),
        names(forwarded_fields(fields, origin), "user-agent"@),
        forall|i: int|
            0 <= i < fields.len() && lower_text(fields[i].0) != "origin"@ && !strips_request_header(
                lower_text(fields[i].0),
            ) ==> forwarded_fields(fields, origin).contains(#[trigger] fields[i]),
{
    let kept = upstream_fields(fields, origin);
    let sent = forwarded_fields(fields, origin);
    lemma_upstream_fields(fields, origin);
    lemma_lower_names();
    lemma_sent_names("user-agent"@);
    if !names(fields, "user-agent"@) {
        assert(lower_text(sent[kept.len() as int].0) == "user-agent"@);
        assert forall|i: int|
            0 <= i < fields.len() && lower_text(fields[i].0) != "origin"@ && !strips_request_header(
                lower_text(fields[i].0),
            ) implies sent.contains(#[trigger] fields[i]) by {
            let j = choose|j: int| 0 <= j < kept.len() && kept[j] == fields[i];
            assert(sent[j] == kept[j]);
        }
    }
}

/// A field that the web view may see: none of those that are kept from it, except that the proxy
/// itself lets every page read the response.
pub open spec fn is_harmless(field: (Seq<char>, Seq<u8>), changed: bool) -> bool {
    let name = lower_text(field.0);
    ||| !strips_response_header(name, changed)
    ||| field == text_field("access-control-allow-origin"@, "*"@)
    ||| field == text_field("access-control-expose-headers"@, "*"@)
}

proof fn lemma_kept_fields(fields: Seq<(Seq<char>, Seq<u8>)>, changed: bool)
    ensures
        forall|i: int|
            0 <= i < kept_fields(fields, changed).len() ==> !strips_response_header(
                lower_text((#[trigger] kept_fields(fields, changed)[i]).0),
                changed,
            ),
        forall|i: int|
            0 <= i < fields.len() && !strips_response_header(lower_text(fields[i].0), changed)
                ==> kept_fields(fields, changed).contains(#[trigger] fields[i]),
    decreases fields.len(),
{
    if fields.len() > 0 {
        let before = kept_fields(fields.drop_last(), changed);
        let kept = kept_fields(fields, changed);
        lemma_kept_fields(fields.drop_last(), changed);
        assert forall|i: int|
            0 <= i < fields.len() && !strips_response_header(
                lower_text(fields[i].0),
                changed,
            ) implies kept.contains(#[trigger] fields[i]) by {
            if i < fields.len() - 1 {
                assert(fields.drop_last()[i] == fields[i]);
                let j = choose|j: int| 0 <= j < before.len() && before[j] == fields[i];
                assert(kept[j] == before[j]);
            } else {
                assert(kept[before.len() as int] == fields[i]);
            }
        }
    }
}

/// The names of the two fields that the proxy adds are none of a policy, a cookie or a body.
proof fn lemma_added_names(name: Seq<char>)
    requires
        name == "access-control-allow-origin"@ || name == "access-control-expose-headers"@,
    ensures
        !is_hop_by_hop(name),
        !is_response_policy(name),
        name != "set-cookie"@,
        name != "content-length"@,
        name != "content-encoding"@,
        name != "etag"@,
        name != "content-md5"@,
        name != "digest"@,
{
    lemma_not_hop_by_hop(name);
    reveal_strlit("access-control-allow-origin");
    reveal_strlit("access-control-expose-headers");
    reveal_strlit("content-security-policy");
    reveal_strlit("content-security-policy-report-only");
    reveal_strlit("x-content-security-policy");
    reveal_strlit("x-webkit-csp");
    reveal_strlit("x-frame-options");
    reveal_strlit("cross-origin-embedder-policy");
    reveal_strlit("cross-origin-opener-policy");
    reveal_strlit("cross-origin-resource-policy");
    reveal_strlit("origin-agent-cluster");
    reveal_strlit("clear-site-data");
    reveal_strlit("set-cookie");
    reveal_strlit("content-length");
    reveal_strlit("content-encoding");
    reveal_strlit("etag");
    reveal_strlit("content-md5");
    reveal_strlit("digest");
    assert(name[0] == 'a');
}

/// No field of a proxied response restricts framing or isolates the page, sets a cookie, concerns
/// the upstream connection or describes the transfer of the body. The fields that identify the
/// body are gone if it was changed. Every page may read the response, and no other field is lost.
pub proof fn web_view_sees_no_policy(status: u16, fields: Seq<(Seq<char>, Seq<u8>)>, body: Seq<u8>)
    ensures
        forall|i: int|
            #![trigger passed_response(status, fields, body).fields[i]]
            0 <= i < passed_response(status, fields, body).fields.len() ==> {
                let field = passed_response(status, fields, body).fields[i];
                let name = lower_text(field.0);
                let changed = body_changed(status, fields, body);
                &&& is_harmless(field, changed)
                &&& !is_response_policy(name)
                &&& !is_hop_by_hop(name)
                &&& name != "set-cookie"@ && name != "content-length"@ && name
                    != "content-encoding"@
                &&& changed ==> name != "etag"@ && name != "content-md5"@ && name != "digest"@
            },
        is_readable(passed_response(status, fields, body)),
        forall|i: int|
            0 <= i < fields.len() && !strips_response_header(
                lower_text(fields[i].0),
                body_changed(status, fields, body),
            ) ==> passed_response(status, fields, body).fields.contains(#[trigger] fields[i]),
{
    let changed = body_changed(status, fields, body);
    let kept = kept_fields(fields, changed);
    let passed = passed_response(status, fields, body).fields;
    let origin = "access-control-allow-origin"@;
    let expose = "access-control-expose-headers"@;
    lemma_kept_fields(fields, changed);
    lemma_lower_names();
    lemma_added_names(origin);
    lemma_added_names(expose);
    assert forall|i: int| 0 <= i < passed.len() implies {
        let field = #[trigger] passed[i];
        let name = lower_text(field.0);
        &&& is_harmless(field, changed)
        &&& !is_response_policy(name)
        &&& !is_hop_by_hop(name)
        &&& name != "set-cookie"@ && name != "content-length"@ && name != "content-encoding"@
        &&& changed ==> name != "etag"@ && name != "content-md5"@ && name != "digest"@
    } by {
        if i < kept.len() {
            assert(passed[i] == kept[i]);
        }
    }
    assert(passed[kept.len() as int] == text_field(origin, "*"@));
    assert forall|i: int|
        0 <= i < fields.len() && !strips_response_header(lower_text(fields[i].0), changed) implies passed.contains(
        #[trigger] fields[i],
    ) by {
        let j = choose|j: int| 0 <= j < kept.len() && kept[j] == fields[i];
        assert(passed[j] == kept[j]);
    }
}

/// Only a complete HTML document is ever changed: the body of a response with another status, of
/// another type or with an encoding passes as it is. A body that does not count as changed passes
/// as it is, too, and every document that is rewritten holds the script element's start tag.
pub proof fn only_complete_documents_change(
    status: u16,
    fields: Seq<(Seq<char>, Seq<u8>)>,
    body: Seq<u8>,
)
    ensures
        passed_response(status, fields, body).status == status,
        status != 200 ==> passed_response(status, fields, body).body == body,
        !is_rewritten(status, fields) ==> passed_response(status, fields, body).body == body,
        !body_changed(status, fields, body) ==> passed_response(status, fields, body).body == body,
        is_rewritten(status, fields) ==> has_bridge(passed_response(status, fields, body).body),
{
    rewriting_reports_every_change(body);
}

/// A document that is rewritten declares no policy in its markup when the web view gets it, except
/// where the removal of a tag joined what stood around it and so brought a policy about.
pub proof fn rewritten_documents_declare_no_policy(
    status: u16,
    fields: Seq<(Seq<char>, Seq<u8>)>,
    body: Seq<u8>,
)
    requires
        is_rewritten(status, fields),
    ensures
        has_policy(passed_response(status, fields, body).body, 0) == fuses_policy(body),
{
    rewritten_page_declares_no_policy(body);
}

/// Every page may read whatever the proxy answers: the refusal of a request, the answer to a
/// preflight request, the report of a failure and the response of the upstream server.
pub proof fn every_answer_is_readable(
    status: u16,
    reason: Option<Seq<char>>,
    message: Seq<char>,
    fields: Seq<(Seq<char>, Seq<u8>)>,
    body: Seq<u8>,
    outcome: Outcome,
)
    ensures
        is_readable(error_view(status, reason, message)),
        is_readable(preflight_view(fields)),
        is_readable(passed_response(status, fields, body)),
        is_readable(outcome_response(outcome)),
{
    let open = text_field("access-control-allow-origin"@, "*"@);
    assert(error_view(status, reason, message).fields[1] == open);
    assert(preflight_view(fields).fields[0] == open);
    web_view_sees_no_policy(status, fields, body);
    match outcome {
        Outcome::SendFailed(error) => {
            assert(outcome_response(outcome).fields[1] == open);
        },
        Outcome::ReadFailed(error) => {
            assert(outcome_response(outcome).fields[1] == open);
        },
        Outcome::Received { status, headers, body } => {
            web_view_sees_no_policy(status, header_fields(headers), body@);
        },
    }
}

} // verus!
