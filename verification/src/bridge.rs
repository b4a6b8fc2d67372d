//! The script that a proxied page runs to keep its host informed, and its injection.

use vstd::prelude::*;
use vstd::slice::{slice_subrange, slice_to_vec};
use vstd::utf8::{encode_utf8, is_ascii_chars_encode_utf8};

use crate::ascii::{as_index, contains_ascii_case_insensitive, lower_byte, occurs_at, occurs_in};
use crate::html::{
    find_start_tag, find_tag_end, first_tag, lemma_first_tag, lemma_scanned_tag_is_first, lemma_tag_end,
    starts_uniquely, tag_end,
};
use crate::policy::{
    fuses_policy, has_policy, is_inert, lemma_insertion_keeps_policies, strip_meta_frame_policies,
    stripped_page_declares_no_policy, stripping_changes_policies_only, without_policies,
};
use crate::script::{lemma_script_text, STATE_BRIDGE_SCRIPT};

verus! {

/// The start tag of the injected script element. Its attribute marks the element.
pub const STATE_BRIDGE_SCRIPT_OPEN: &'static str = "<script data-webproxy-state-bridge>";

/// The end tag of the injected script element.
pub const STATE_BRIDGE_SCRIPT_CLOSE: &'static str = "</script>";

/// The injected script element.
pub open spec fn bridge_element() -> Seq<u8> {
    encode_utf8(STATE_BRIDGE_SCRIPT_OPEN@) + encode_utf8(STATE_BRIDGE_SCRIPT@) + encode_utf8(
        STATE_BRIDGE_SCRIPT_CLOSE@,
    )
}

/// The page holds the injected element's start tag, in any case.
pub open spec fn has_bridge(input: Seq<u8>) -> bool {
    occurs_in(input, encode_utf8(STATE_BRIDGE_SCRIPT_OPEN@))
}

/// The position behind the first start tag with this beginning, if the page has one and it is
/// closed.
pub open spec fn behind_tag(input: Seq<u8>, needle: Seq<u8>) -> Option<int> {
    match first_tag(input, needle, 0) {
        Some(start) => match tag_end(input, start) {
            Some(end) => Some(end + 1),
            None => None,
        },
        None => None,
    }
}

/// Where the element goes: behind `<head>`, else behind `<html>`, else to the front.
pub open spec fn bridge_position(input: Seq<u8>) -> int {
    match behind_tag(input, encode_utf8("<head"@)) {
        Some(at) => at,
        None => match behind_tag(input, encode_utf8("<html"@)) {
            Some(at) => at,
            None => 0,
        },
    }
}

/// The page with the element in it: as it is if it holds the element's start tag already.
pub open spec fn with_bridge(input: Seq<u8>) -> Seq<u8> {
    if has_bridge(input) {
        input
    } else {
        let at = bridge_position(input);
        input.subrange(0, at) + bridge_element() + input.subrange(at, input.len() as int)
    }
}

proof fn lemma_behind_tag(input: Seq<u8>, needle: Seq<u8>)
    ensures
        behind_tag(input, needle) matches Some(at) ==> 0 < at <= input.len() && input[at - 1]
            == '>' as u8,
{
    lemma_first_tag(input, needle, 0);
    if let Some(start) = first_tag(input, needle, 0) {
        lemma_tag_end(input, start);
    }
}

/// The element goes somewhere into the page: to the front, or behind a tag.
pub proof fn lemma_bridge_position(input: Seq<u8>)
    ensures
        0 <= bridge_position(input) <= input.len(),
        0 < bridge_position(input) ==> input[bridge_position(input) - 1] == '>' as u8,
{
    lemma_behind_tag(input, encode_utf8("<head"@));
    lemma_behind_tag(input, encode_utf8("<html"@));
}

/// Injection puts the whole element into a page that does not hold its start tag, and takes
/// nothing away: without the element the page is what it was.
pub proof fn injection_only_inserts(input: Seq<u8>)
    ensures
        has_bridge(input) ==> with_bridge(input) == input,
        !has_bridge(input) ==> {
            let at = bridge_position(input);
            let behind = at + bridge_element().len();
            let output = with_bridge(input);
            &&& 0 <= at <= input.len()
            &&& output.len() == input.len() + bridge_element().len()
            &&& output.subrange(at, behind) == bridge_element()
            &&& output.subrange(0, at) + output.subrange(behind, output.len() as int) == input
        },
{
    lemma_bridge_position(input);
    if !has_bridge(input) {
        let at = bridge_position(input);
        let behind = at + bridge_element().len();
        let output = with_bridge(input);
        assert(output.subrange(at, behind) =~= bridge_element());
        assert(output.subrange(0, at) + output.subrange(behind, output.len() as int) =~= input);
    }
}

/// Every page holds the element's start tag after injection, so a second injection changes
/// nothing.
pub proof fn injection_happens_once(input: Seq<u8>)
    ensures
        has_bridge(with_bridge(input)),
        with_bridge(with_bridge(input)) == with_bridge(input),
{
    if !has_bridge(input) {
        lemma_bridge_position(input);
        let at = bridge_position(input);
        let open = encode_utf8(STATE_BRIDGE_SCRIPT_OPEN@);
        let output = with_bridge(input);
        assert(output.subrange(at, at + open.len()) =~= open);
        assert(occurs_at(output, open, at));
    }
}

/// A rewritten page holds the script element's start tag, and a page that the rewriting calls
/// unchanged comes out as it went in.
pub proof fn rewriting_reports_every_change(input: Seq<u8>)
    ensures
        has_bridge(with_bridge(without_policies(input, 0))),
        !has_policy(input, 0) && has_bridge(without_policies(input, 0)) ==> with_bridge(
            without_policies(input, 0),
        ) == input,
{
    injection_happens_once(without_policies(input, 0));
    stripping_changes_policies_only(input);
}

/// The script ends where its element ends, and not before: it holds no end tag.
pub proof fn script_holds_no_end_tag()
    ensures
        !occurs_in(encode_utf8(STATE_BRIDGE_SCRIPT@), encode_utf8("</script"@)),
{
    let script = encode_utf8(STATE_BRIDGE_SCRIPT@);
    let tag = encode_utf8("</script"@);
    lemma_script_text();
    is_ascii_chars_encode_utf8(STATE_BRIDGE_SCRIPT@);
    reveal_strlit("</script");
    is_ascii_chars_encode_utf8("</script"@);
    assert forall|at: int| !occurs_at(script, tag, at) by {
        if occurs_at(script, tag, at) {
            assert(script.subrange(at, at + tag.len())[0] == script[at]);
            assert(lower_byte(script[at]) == lower_byte(tag[0]));
            assert(script[at] == STATE_BRIDGE_SCRIPT@[at] as u8);
        }
    }
}

/// A text stands nowhere in the element if it holds a hyphen behind a byte that the start tag does
/// not hold: the script and the end tag hold no hyphen.
proof fn lemma_not_in_element(needle: Seq<u8>, byte: int, hyphen: int)
    requires
        0 <= byte < hyphen < needle.len(),
        needle[hyphen] == '-' as u8,
        forall|i: int|
            0 <= i < STATE_BRIDGE_SCRIPT_OPEN@.len() ==> #[trigger] STATE_BRIDGE_SCRIPT_OPEN@[i] as u8
                != lower_byte(needle[byte]),
    ensures
        !occurs_in(bridge_element(), needle),
{
    let open = encode_utf8(STATE_BRIDGE_SCRIPT_OPEN@);
    let script = encode_utf8(STATE_BRIDGE_SCRIPT@);
    let close = encode_utf8(STATE_BRIDGE_SCRIPT_CLOSE@);
    let element = bridge_element();
    lemma_script_text();
    is_ascii_chars_encode_utf8(STATE_BRIDGE_SCRIPT@);
    reveal_strlit("<script data-webproxy-state-bridge>");
    is_ascii_chars_encode_utf8(STATE_BRIDGE_SCRIPT_OPEN@);
    reveal_strlit("</script>");
    is_ascii_chars_encode_utf8(STATE_BRIDGE_SCRIPT_CLOSE@);
    assert forall|at: int| !occurs_at(element, needle, at) by {
        if occurs_at(element, needle, at) {
            let here = element.subrange(at, at + needle.len());
            assert(lower_byte(here[byte]) == lower_byte(needle[byte]));
            assert(lower_byte(here[hyphen]) == '-' as u8);
            if at + byte < open.len() {
                assert(here[byte] == open[at + byte]);
                assert(open[at + byte] == STATE_BRIDGE_SCRIPT_OPEN@[at + byte] as u8);
            } else if at + hyphen < open.len() + script.len() {
                let i = at + hyphen - open.len();
                assert(here[hyphen] == script[i]);
                assert(script[i] == STATE_BRIDGE_SCRIPT@[i] as u8);
            } else {
                let i = at + hyphen - open.len() - script.len();
                assert(here[hyphen] == close[i]);
                assert(close[i] == STATE_BRIDGE_SCRIPT_CLOSE@[i] as u8);
            }
        }
    }
}

/// The element declares no policy wherever it stands.
proof fn lemma_element_is_inert()
    ensures
        is_inert(bridge_element()),
{
    let open = encode_utf8(STATE_BRIDGE_SCRIPT_OPEN@);
    let script = encode_utf8(STATE_BRIDGE_SCRIPT@);
    let close = encode_utf8(STATE_BRIDGE_SCRIPT_CLOSE@);
    let element = bridge_element();
    lemma_script_text();
    is_ascii_chars_encode_utf8(STATE_BRIDGE_SCRIPT@);
    reveal_strlit("<script data-webproxy-state-bridge>");
    is_ascii_chars_encode_utf8(STATE_BRIDGE_SCRIPT_OPEN@);
    reveal_strlit("</script>");
    is_ascii_chars_encode_utf8(STATE_BRIDGE_SCRIPT_CLOSE@);
    assert forall|i: int| 0 <= i < element.len() implies {
        let byte = #[trigger] element[i];
        &&& byte != '\'' as u8 && byte != '"' as u8
        &&& byte == '<' as u8 ==> i + 1 < element.len() && lower_byte(element[i + 1]) != 'm' as u8
    } by {
        if i < open.len() {
            assert(open[i] == STATE_BRIDGE_SCRIPT_OPEN@[i] as u8);
            assert(open[1] == STATE_BRIDGE_SCRIPT_OPEN@[1] as u8);
        } else if i < open.len() + script.len() {
            assert(script[i - open.len()] == STATE_BRIDGE_SCRIPT@[i - open.len()] as u8);
        } else {
            let j = i - open.len() - script.len();
            assert(close[j] == STATE_BRIDGE_SCRIPT_CLOSE@[j] as u8);
            assert(close[1] == STATE_BRIDGE_SCRIPT_CLOSE@[1] as u8);
        }
    }
    assert(element[0] == open[0]);
    assert(element.last() == close.last());
    reveal_strlit("http-equiv");
    reveal_strlit("content-security-policy");
    reveal_strlit("x-frame-options");
    is_ascii_chars_encode_utf8("http-equiv"@);
    is_ascii_chars_encode_utf8("content-security-policy"@);
    is_ascii_chars_encode_utf8("x-frame-options"@);
    lemma_not_in_element(encode_utf8("http-equiv"@), 0, 4);
    lemma_not_in_element(encode_utf8("content-security-policy"@), 2, 7);
    lemma_not_in_element(encode_utf8("x-frame-options"@), 2, 7);
}

proof fn lemma_injection_keeps_policies(input: Seq<u8>)
    ensures
        has_policy(with_bridge(input), 0) == has_policy(input, 0),
{
    if !has_bridge(input) {
        lemma_bridge_position(input);
        lemma_element_is_inert();
        lemma_insertion_keeps_policies(input, 0, bridge_position(input), bridge_element());
    }
}

/// No `<meta` tag of a rewritten page declares a policy, except where the removal of a tag joined
/// what stood around it and so brought a policy about. The script element neither makes up a policy
/// nor hides one.
pub proof fn rewritten_page_declares_no_policy(input: Seq<u8>)
    ensures
        has_policy(with_bridge(input), 0) == has_policy(input, 0),
        has_policy(with_bridge(without_policies(input, 0)), 0) == fuses_policy(input),
{
    lemma_injection_keeps_policies(input);
    lemma_injection_keeps_policies(without_policies(input, 0));
    stripped_page_declares_no_policy(input);
}

fn find_behind_tag(input: &[u8], needle: &[u8]) -> (found: Option<usize>)
    requires
        starts_uniquely(needle@),
    ensures
        as_index(found) == behind_tag(input@, needle@),
{
    proof {
        lemma_scanned_tag_is_first(input@, needle@, 0);
        lemma_first_tag(input@, needle@, 0);
    }
    match find_start_tag(input, needle) {
        Some(start) => {
            proof {
                lemma_tag_end(input@, start as int);
            }
            match find_tag_end(input, start) {
                Some(end) => {
                    assert(end < input.len());
                    Some(end + 1)
                },
                None => None,
            }
        },
        None => None,
    }
}

fn find_bridge_position(input: &[u8]) -> (at: usize)
    ensures
        at == bridge_position(input@),
{
    let head = "<head";
    let html = "<html";
    proof {
        reveal_strlit("<head");
        reveal_strlit("<html");
        is_ascii_chars_encode_utf8(head@);
        is_ascii_chars_encode_utf8(html@);
    }
    match find_behind_tag(input, head.as_bytes()) {
        Some(at) => at,
        None => match find_behind_tag(input, html.as_bytes()) {
            Some(at) => at,
            None => 0,
        },
    }
}

/// Puts the script element into the page, unless the page holds its start tag already, and
/// says whether it did.
pub fn inject_state_bridge(input: &[u8]) -> (injected: (Vec<u8>, bool))
    ensures
        injected.0@ == with_bridge(input@),
        injected.1 == !has_bridge(input@),
{
    let open = STATE_BRIDGE_SCRIPT_OPEN;
    proof {
        reveal_strlit("<script data-webproxy-state-bridge>");
        is_ascii_chars_encode_utf8(open@);
    }
    if contains_ascii_case_insensitive(input, open.as_bytes()) {
        return (slice_to_vec(input), false);
    }
    proof {
        lemma_bridge_position(input@);
    }
    let insert_at = find_bridge_position(input);
    let mut output: Vec<u8> = Vec::with_capacity(input.len());
    output.extend_from_slice(slice_subrange(input, 0, insert_at));
    output.extend_from_slice(open.as_bytes());
    output.extend_from_slice(STATE_BRIDGE_SCRIPT.as_bytes());
    output.extend_from_slice(STATE_BRIDGE_SCRIPT_CLOSE.as_bytes());
    output.extend_from_slice(slice_subrange(input, insert_at, input.len()));
    (output, true)
}

/// Makes an HTML page fit for being framed: removes the policies that it declares and injects
/// the script element. Says whether the page changed.
pub fn rewrite_html(input: &[u8]) -> (rewritten: (Vec<u8>, bool))
    ensures
        rewritten.0@ == with_bridge(without_policies(input@, 0)),
        rewritten.1 == (has_policy(input@, 0) || !has_bridge(without_policies(input@, 0))),
{
    let (html, policies_changed) = strip_meta_frame_policies(input);
    let (html, bridge_injected) = inject_state_bridge(html.as_slice());
    (html, policies_changed || bridge_injected)
}

} // verus!
