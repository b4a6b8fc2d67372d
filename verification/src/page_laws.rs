//! What the scanning and rewriting of pages does, told by the bytes of the page.

use vstd::prelude::*;
use vstd::utf8::{encode_utf8, is_ascii_chars_encode_utf8};

use crate::ascii::{
    first_occurrence, lemma_first_index_is, lemma_first_occurrence, lower_byte, occurs_at, occurs_in,
    same_ignoring_case,
};
use crate::bridge::{
    behind_tag, bridge_position, has_bridge, injection_happens_once, lemma_bridge_position, with_bridge,
};
use crate::html::{
    first_tag, lemma_first_tag, lemma_scanned_tag_is_first, lemma_tag_end, open_quote, scanned_tag,
    starts_uniquely, tag_closes_at, tag_end, tag_opens_at,
};
use crate::policy::{
    declares_policy, has_policy, lemma_policies_shift, next_meta, without_policies,
};
use crate::script::STATE_BRIDGE_SCRIPT;

verus! {

/// The byte is this ASCII character or, if that is a lower-case letter, the upper-case form of it.
pub open spec fn is_letter(byte: u8, character: char) -> bool {
    ||| byte == character as u8
    ||| 'a' <= character <= 'z' && byte + 32 == character as u8
}

/// ASCII text without upper-case letters.
pub open spec fn is_lower_word(word: Seq<char>) -> bool {
    &&& word.len() > 0
    &&& forall|i: int|
        0 <= i < word.len() ==> '\0' <= #[trigger] word[i] <= '\u{7f}' && !('A' <= word[i] <= 'Z')
}

/// The word stands in the bytes at `at`, whatever its case is there.
pub open spec fn stands_at(bytes: Seq<u8>, word: Seq<char>, at: int) -> bool {
    &&& 0 <= at
    &&& at + word.len() <= bytes.len()
    &&& forall|i: int| 0 <= i < word.len() ==> is_letter(bytes[at + i], #[trigger] word[i])
}

/// The word stands somewhere in the bytes.
pub open spec fn stands_in(bytes: Seq<u8>, word: Seq<char>) -> bool {
    exists|at: int| stands_at(bytes, word, at)
}

/// A start tag with this beginning opens at `at`: the word stands there, and behind it stand white
/// space, a slash, a closing bracket or nothing at all.
pub open spec fn opens_at(bytes: Seq<u8>, word: Seq<char>, at: int) -> bool {
    let next = at + word.len();
    &&& stands_at(bytes, word, at)
    &&& {
        ||| next == bytes.len()
        ||| bytes[next] == 32
        ||| bytes[next] == 9
        ||| bytes[next] == 10
        ||| bytes[next] == 12
        ||| bytes[next] == 13
        ||| bytes[next] == 47
        ||| bytes[next] == 62
    }
}

/// The first start tag with this beginning at or after `from` opens at `at`.
pub open spec fn opens_first_at(bytes: Seq<u8>, word: Seq<char>, from: int, at: int) -> bool {
    &&& from <= at
    &&& opens_at(bytes, word, at)
    &&& forall|i: int| from <= i < at ==> !#[trigger] opens_at(bytes, word, i)
}

/// No start tag with this beginning opens at or after `from`.
pub open spec fn opens_nowhere(bytes: Seq<u8>, word: Seq<char>, from: int) -> bool {
    forall|i: int| from <= i ==> !#[trigger] opens_at(bytes, word, i)
}

/// A single or a double quote.
pub open spec fn is_quote(byte: u8) -> bool {
    byte == 39 || byte == 34
}

/// Neither a quote nor a closing bracket stands in `bytes[from..to]`.
pub open spec fn is_plain(bytes: Seq<u8>, from: int, to: int) -> bool {
    forall|i: int| from <= i < to ==> !is_quote(#[trigger] bytes[i]) && bytes[i] != 62
}

/// The bytes from `from` on, which is outside quotes, end with the closing bracket of a tag, and no
/// closing bracket stands outside quotes before.
pub open spec fn closes_at_its_end(bytes: Seq<u8>, from: int) -> bool
    decreases bytes.len() - from,
{
    if from >= bytes.len() {
        false
    } else if bytes[from] == 62 {
        from == bytes.len() - 1
    } else if is_quote(bytes[from]) {
        exists|to: int|
            from < to < bytes.len() && #[trigger] bytes[to] == bytes[from] && (forall|i: int|
                from < i < to ==> #[trigger] bytes[i] != bytes[from]) && closes_at_its_end(
                bytes,
                to + 1,
            )
    } else {
        closes_at_its_end(bytes, from + 1)
    }
}

pub proof fn lemma_stands_at(bytes: Seq<u8>, word: Seq<char>, at: int)
    requires
        is_lower_word(word),
    ensures
        occurs_at(bytes, encode_utf8(word), at) == stands_at(bytes, word, at),
{
    let needle = encode_utf8(word);
    is_ascii_chars_encode_utf8(word);
    if 0 <= at && at + word.len() <= bytes.len() {
        let here = bytes.subrange(at, at + needle.len());
        assert forall|i: int| 0 <= i < word.len() implies (lower_byte(#[trigger] here[i]) == lower_byte(
            needle[i],
        )) == is_letter(bytes[at + i], word[i]) by {
            assert(here[i] == bytes[at + i]);
            assert(needle[i] == word[i] as u8);
        }
        if occurs_at(bytes, needle, at) {
            assert forall|i: int| 0 <= i < word.len() implies is_letter(
                bytes[at + i],
                #[trigger] word[i],
            ) by {
                assert(lower_byte(here[i]) == lower_byte(needle[i]));
            }
        }
        if stands_at(bytes, word, at) {
            assert forall|i: int| 0 <= i < here.len() implies lower_byte(#[trigger] here[i])
                == lower_byte(needle[i]) by {
                assert(is_letter(bytes[at + i], word[i]));
            }
        }
    }
}

proof fn lemma_stands_in(bytes: Seq<u8>, word: Seq<char>)
    requires
        is_lower_word(word),
    ensures
        occurs_in(bytes, encode_utf8(word)) == stands_in(bytes, word),
{
    assert forall|at: int| occurs_at(bytes, encode_utf8(word), at) == stands_at(bytes, word, at) by {
        lemma_stands_at(bytes, word, at);
    }
    if occurs_in(bytes, encode_utf8(word)) {
        let at = choose|at: int| occurs_at(bytes, encode_utf8(word), at);
        assert(stands_at(bytes, word, at));
    }
    if stands_in(bytes, word) {
        let at = choose|at: int| stands_at(bytes, word, at);
        assert(occurs_at(bytes, encode_utf8(word), at));
    }
}

proof fn lemma_opens_at(bytes: Seq<u8>, word: Seq<char>)
    requires
        is_lower_word(word),
    ensures
        forall|at: int|
            tag_opens_at(bytes, encode_utf8(word), at) == #[trigger] opens_at(bytes, word, at),
{
    is_ascii_chars_encode_utf8(word);
    assert forall|at: int|
        tag_opens_at(bytes, encode_utf8(word), at) == #[trigger] opens_at(bytes, word, at) by {
        lemma_stands_at(bytes, word, at);
    }
}

/// The first start tag is found where it opens first, and there is none exactly if none opens.
pub proof fn start_tags_are_found_by_their_bytes(bytes: Seq<u8>, word: Seq<char>, from: int)
    requires
        is_lower_word(word),
    ensures
        forall|at: int| #[trigger]
            opens_first_at(bytes, word, from, at) ==> first_tag(bytes, encode_utf8(word), from)
                == Some(at),
        opens_nowhere(bytes, word, from) ==> first_tag(bytes, encode_utf8(word), from) is None,
        first_tag(bytes, encode_utf8(word), from) matches Some(at) ==> opens_first_at(
            bytes,
            word,
            from,
            at,
        ),
        first_tag(bytes, encode_utf8(word), from) is None ==> opens_nowhere(bytes, word, from),
{
    let needle = encode_utf8(word);
    lemma_opens_at(bytes, word);
    lemma_first_tag(bytes, needle, from);
    is_ascii_chars_encode_utf8(word);
    assert forall|i: int| #[trigger] opens_at(bytes, word, i) implies tag_opens_at(bytes, needle, i)
        && 0 <= i < bytes.len() by {}
    if let Some(found) = first_tag(bytes, needle, from) {
        assert(opens_at(bytes, word, found));
    }
    assert forall|at: int| #[trigger] opens_first_at(bytes, word, from, at) implies first_tag(
        bytes,
        needle,
        from,
    ) == Some(at) by {
        assert(tag_opens_at(bytes, needle, at));
    }
}

/// The search for a start tag by its beginning finds the first one, or nothing if none opens. The
/// beginning is an opening bracket and a name.
pub proof fn the_search_finds_the_first_start_tag(bytes: Seq<u8>, word: Seq<char>)
    requires
        is_lower_word(word),
        word[0] == '<',
        forall|i: int| 0 < i < word.len() ==> #[trigger] word[i] != '<',
    ensures
        forall|at: int| #[trigger]
            opens_first_at(bytes, word, 0, at) ==> scanned_tag(bytes, encode_utf8(word), 0) == Some(at),
        opens_nowhere(bytes, word, 0) ==> scanned_tag(bytes, encode_utf8(word), 0) is None,
        scanned_tag(bytes, encode_utf8(word), 0) matches Some(at) ==> opens_first_at(
            bytes,
            word,
            0,
            at,
        ),
{
    let needle = encode_utf8(word);
    is_ascii_chars_encode_utf8(word);
    assert(starts_uniquely(needle)) by {
        assert forall|i: int| 0 < i < needle.len() implies lower_byte(#[trigger] needle[i])
            != lower_byte(needle[0]) by {
            assert(needle[i] == word[i] as u8);
            assert(needle[0] == word[0] as u8);
        }
    }
    lemma_scanned_tag_is_first(bytes, needle, 0);
    start_tags_are_found_by_their_bytes(bytes, word, 0);
}

proof fn lemma_quote_before(bytes: Seq<u8>, start: int, at: int)
    requires
        0 <= start,
        is_plain(bytes, start, at),
    ensures
        open_quote(bytes, start, at) is None,
    decreases at - start,
{
    if start < at {
        lemma_quote_before(bytes, start, at - 1);
        assert(!is_quote(bytes[at - 1]));
    }
}

proof fn lemma_quote_open(bytes: Seq<u8>, start: int, quote: int, at: int)
    requires
        0 <= start <= quote < at,
        is_plain(bytes, start, quote),
        is_quote(bytes[quote]),
        forall|i: int| quote < i < at ==> #[trigger] bytes[i] != bytes[quote],
    ensures
        open_quote(bytes, start, at) == Some(bytes[quote]),
    decreases at - quote,
{
    if at == quote + 1 {
        lemma_quote_before(bytes, start, quote);
    } else {
        lemma_quote_open(bytes, start, quote, at - 1);
        assert(bytes[at - 1] != bytes[quote]);
    }
}

proof fn lemma_quote_restart(bytes: Seq<u8>, start: int, again: int, at: int)
    requires
        0 <= start <= again <= at,
        open_quote(bytes, start, again) is None,
    ensures
        open_quote(bytes, start, at) == open_quote(bytes, again, at),
    decreases at - again,
{
    if again < at {
        lemma_quote_restart(bytes, start, again, at - 1);
    }
}

/// A tag that does not end before `again`, where no quote is open, ends as if it began there.
proof fn lemma_tag_end_again(bytes: Seq<u8>, start: int, again: int)
    requires
        0 <= start <= again <= bytes.len(),
        open_quote(bytes, start, again) is None,
        forall|i: int| start <= i < again ==> !tag_closes_at(bytes, start, i),
    ensures
        tag_end(bytes, start) == tag_end(bytes, again),
{
    lemma_tag_end(bytes, start);
    lemma_tag_end(bytes, again);
    assert forall|i: int| again <= i < bytes.len() implies tag_closes_at(bytes, start, i)
        == tag_closes_at(bytes, again, i) by {
        lemma_quote_restart(bytes, start, again, i);
    }
    if let Some(end) = tag_end(bytes, start) {
        assert(tag_closes_at(bytes, again, end));
    }
    if let Some(end) = tag_end(bytes, again) {
        assert(tag_closes_at(bytes, start, end));
    }
}

/// A tag ends with the first closing bracket, if no quote stands before it.
pub proof fn a_tag_ends_with_a_bracket(bytes: Seq<u8>, start: int, bracket: int)
    requires
        0 <= start <= bracket < bytes.len(),
        is_plain(bytes, start, bracket),
        bytes[bracket] == 62,
    ensures
        tag_end(bytes, start) == Some(bracket),
{
    let closes = |i: int| tag_closes_at(bytes, start, i);
    lemma_quote_before(bytes, start, bracket);
    lemma_first_index_is(closes, start, bytes.len() as int, bracket);
}

/// What stands between two equal quotes does not end a tag: the tag ends where it ends if it is
/// read from behind the second quote. The quotes are single or double ones.
pub proof fn quotes_are_skipped(bytes: Seq<u8>, start: int, quote: int, again: int)
    requires
        0 <= start <= quote < again < bytes.len(),
        is_plain(bytes, start, quote),
        is_quote(bytes[quote]),
        bytes[again] == bytes[quote],
        forall|i: int| quote < i < again ==> #[trigger] bytes[i] != bytes[quote],
    ensures
        tag_end(bytes, start) == tag_end(bytes, again + 1),
{
    lemma_quote_open(bytes, start, quote, again);
    assert(open_quote(bytes, start, again + 1) is None);
    assert forall|i: int| start <= i <= again implies !tag_closes_at(bytes, start, i) by {
        if i > quote {
            lemma_quote_open(bytes, start, quote, i);
        }
    }
    lemma_tag_end_again(bytes, start, again + 1);
}

/// A tag does not end if no closing bracket stands behind its start, or if none stands before a
/// quote that is not closed.
pub proof fn an_open_tag_does_not_end(bytes: Seq<u8>, start: int)
    requires
        0 <= start <= bytes.len(),
        is_plain(bytes, start, bytes.len() as int) || exists|quote: int|
            start <= quote < bytes.len() && is_plain(bytes, start, quote) && is_quote(
                #[trigger] bytes[quote],
            ) && forall|i: int|
                quote < i < bytes.len() ==> #[trigger] bytes[i] != bytes[quote],
    ensures
        tag_end(bytes, start) is None,
{
    lemma_tag_end(bytes, start);
    if let Some(end) = tag_end(bytes, start) {
        if !is_plain(bytes, start, bytes.len() as int) {
            let quote = choose|quote: int|
                start <= quote < bytes.len() && is_plain(bytes, start, quote) && is_quote(
                    #[trigger] bytes[quote],
                ) && forall|i: int|
                    quote < i < bytes.len() ==> #[trigger] bytes[i] != bytes[quote];
            if end > quote {
                lemma_quote_open(bytes, start, quote, end);
            }
        }
    }
}

proof fn lemma_tag_end_step(bytes: Seq<u8>, from: int)
    requires
        0 <= from < bytes.len(),
        !is_quote(bytes[from]),
        bytes[from] != 62,
    ensures
        tag_end(bytes, from) == tag_end(bytes, from + 1),
{
    assert(is_plain(bytes, from, from + 1));
    lemma_quote_before(bytes, from, from + 1);
    lemma_tag_end_again(bytes, from, from + 1);
}

/// A tag that ends with the closing bracket at its end ends there on a page.
proof fn lemma_closed_tag(before: Seq<u8>, tag: Seq<u8>, after: Seq<u8>, from: int)
    requires
        0 <= from,
        closes_at_its_end(tag, from),
    ensures
        tag_end(before + tag + after, before.len() + from) == Some(
            before.len() + tag.len() - 1,
        ),
    decreases tag.len() - from,
{
    let page = before + tag + after;
    let start = before.len() + from;
    assert(forall|i: int| 0 <= i < tag.len() ==> page[before.len() + i] == #[trigger] tag[i]);
    assert(page[start] == tag[from]);
    if tag[from] == 62 {
        a_tag_ends_with_a_bracket(page, start, start);
    } else if is_quote(tag[from]) {
        let to = choose|to: int|
            from < to < tag.len() && #[trigger] tag[to] == tag[from] && (forall|i: int|
                from < i < to ==> #[trigger] tag[i] != tag[from]) && closes_at_its_end(tag, to + 1);
        let again = before.len() + to;
        assert(page[again] == tag[to]);
        assert forall|i: int| start < i < again implies #[trigger] page[i] != page[start] by {
            assert(page[i] == tag[i - before.len()]);
        }
        quotes_are_skipped(page, start, start, again);
        lemma_closed_tag(before, tag, after, to + 1);
    } else {
        lemma_tag_end_step(page, start);
        lemma_closed_tag(before, tag, after, from + 1);
    }
}

/// The tag names what a policy against framing is recognized by.
pub open spec fn names_policy(tag: Seq<u8>) -> bool {
    stands_in(tag, "http-equiv"@) && (stands_in(tag, "content-security-policy"@) || stands_in(
        tag,
        "x-frame-options"@,
    ))
}

proof fn lemma_names_policy(tag: Seq<u8>)
    ensures
        declares_policy(tag) == names_policy(tag),
{
    reveal_strlit("http-equiv");
    reveal_strlit("content-security-policy");
    reveal_strlit("x-frame-options");
    lemma_stands_in(tag, "http-equiv"@);
    lemma_stands_in(tag, "content-security-policy"@);
    lemma_stands_in(tag, "x-frame-options"@);
}

/// Stripping removes the first `<meta` tag of a page if it names `http-equiv` and either
/// `content-security-policy` or `x-frame-options`, in any case and however they are quoted, and
/// keeps it otherwise. It keeps what stands before the tag, and strips what stands behind it.
pub proof fn stripping_removes_policy_tags(before: Seq<u8>, tag: Seq<u8>, after: Seq<u8>)
    requires
        opens_first_at(before + tag + after, "<meta"@, 0, before.len() as int),
        closes_at_its_end(tag, 0),
    ensures
        names_policy(tag) ==> without_policies(before + tag + after, 0) == before
            + without_policies(after, 0),
        names_policy(tag) ==> has_policy(before + tag + after, 0),
        !names_policy(tag) ==> without_policies(before + tag + after, 0) == before + tag
            + without_policies(after, 0),
        !names_policy(tag) ==> has_policy(before + tag + after, 0) == has_policy(after, 0),
{
    let page = before + tag + after;
    let start = before.len() as int;
    let end = start + tag.len() - 1;
    reveal_strlit("<meta");
    start_tags_are_found_by_their_bytes(page, "<meta"@, 0);
    lemma_closed_tag(before, tag, after, 0);
    assert(next_meta(page, 0) == Some((start, end)));
    assert(tag.len() > 0);
    assert(page.subrange(start, end + 1) =~= tag);
    assert(page.subrange(0, start) =~= before);
    assert(page.subrange(0, end + 1) =~= before + tag);
    lemma_names_policy(tag);
    lemma_policies_shift(before + tag, after, 0);
}

/// The page has no start tag with this beginning to go by: none opens, or the first one does not
/// end.
pub open spec fn lacks_tag(page: Seq<u8>, word: Seq<char>) -> bool {
    opens_nowhere(page, word, 0) || exists|at: int|
        #[trigger] opens_first_at(page, word, 0, at) && tag_end(page, at) is None
}

/// A page without a `<meta` tag is left as it is by stripping, and so is a page whose first `<meta`
/// tag does not end.
pub proof fn stripping_keeps_pages_without_meta_tags(page: Seq<u8>)
    requires
        lacks_tag(page, "<meta"@),
    ensures
        without_policies(page, 0) == page,
        !has_policy(page, 0),
{
    reveal_strlit("<meta");
    start_tags_are_found_by_their_bytes(page, "<meta"@, 0);
    assert(next_meta(page, 0) is None);
    assert(page.subrange(0, page.len() as int) =~= page);
}

/// The element that is injected: the script between its two tags.
pub open spec fn script_element() -> Seq<u8> {
    encode_utf8("<script data-webproxy-state-bridge>"@) + encode_utf8(STATE_BRIDGE_SCRIPT@)
        + encode_utf8("</script>"@)
}

/// The page holds the start tag of the injected element, in any case.
pub open spec fn holds_script_element(page: Seq<u8>) -> bool {
    stands_in(page, "<script data-webproxy-state-bridge>"@)
}

proof fn lemma_holds_script_element(page: Seq<u8>)
    ensures
        has_bridge(page) == holds_script_element(page),
{
    reveal_strlit("<script data-webproxy-state-bridge>");
    lemma_stands_in(page, "<script data-webproxy-state-bridge>"@);
}

/// A page with a `<head>` tag gets the script element right behind the first one, whatever stands
/// before the tag and behind it.
pub proof fn the_script_goes_behind_the_head_tag(before: Seq<u8>, tag: Seq<u8>, after: Seq<u8>)
    requires
        !holds_script_element(before + tag + after),
        opens_first_at(before + tag + after, "<head"@, 0, before.len() as int),
        closes_at_its_end(tag, 0),
    ensures
        with_bridge(before + tag + after) == before + tag + script_element() + after,
{
    let page = before + tag + after;
    reveal_strlit("<head");
    lemma_holds_script_element(page);
    start_tags_are_found_by_their_bytes(page, "<head"@, 0);
    lemma_closed_tag(before, tag, after, 0);
    assert(bridge_position(page) == before.len() + tag.len());
    assert(with_bridge(page) =~= before + tag + script_element() + after);
}

/// A page without a `<head>` tag gets the script element right behind the first `<html>` tag.
pub proof fn the_script_goes_behind_the_html_tag(before: Seq<u8>, tag: Seq<u8>, after: Seq<u8>)
    requires
        !holds_script_element(before + tag + after),
        lacks_tag(before + tag + after, "<head"@),
        opens_first_at(before + tag + after, "<html"@, 0, before.len() as int),
        closes_at_its_end(tag, 0),
    ensures
        with_bridge(before + tag + after) == before + tag + script_element() + after,
{
    let page = before + tag + after;
    reveal_strlit("<head");
    reveal_strlit("<html");
    lemma_holds_script_element(page);
    start_tags_are_found_by_their_bytes(page, "<head"@, 0);
    start_tags_are_found_by_their_bytes(page, "<html"@, 0);
    lemma_closed_tag(before, tag, after, 0);
    assert(behind_tag(page, encode_utf8("<head"@)) is None);
    assert(bridge_position(page) == before.len() + tag.len());
    assert(with_bridge(page) =~= before + tag + script_element() + after);
}

/// A page with neither tag begins with the script element.
pub proof fn the_script_goes_to_the_front(page: Seq<u8>)
    requires
        !holds_script_element(page),
        lacks_tag(page, "<head"@),
        lacks_tag(page, "<html"@),
    ensures
        with_bridge(page) == script_element() + page,
{
    reveal_strlit("<head");
    reveal_strlit("<html");
    lemma_holds_script_element(page);
    start_tags_are_found_by_their_bytes(page, "<head"@, 0);
    start_tags_are_found_by_their_bytes(page, "<html"@, 0);
    assert(behind_tag(page, encode_utf8("<head"@)) is None);
    assert(behind_tag(page, encode_utf8("<html"@)) is None);
    assert(bridge_position(page) == 0);
    assert(with_bridge(page) =~= script_element() + page);
}

/// A page that holds the start tag of the script element is left as it is, and no other page is.
pub proof fn the_script_goes_in_once(page: Seq<u8>)
    ensures
        holds_script_element(page) ==> with_bridge(page) == page,
        holds_script_element(page) == has_bridge(page),
        !holds_script_element(page) ==> with_bridge(page).len() == page.len()
            + script_element().len(),
        holds_script_element(with_bridge(page)),
{
    lemma_holds_script_element(page);
    lemma_holds_script_element(with_bridge(page));
    lemma_bridge_position(page);
    injection_happens_once(page);
}

/// Two bytes are the same, or the two forms of one letter.
pub open spec fn are_one_letter(left: u8, right: u8) -> bool {
    ||| left == right
    ||| 65 <= left <= 90 && left + 32 == right
    ||| 65 <= right <= 90 && right + 32 == left
}

/// Two byte strings compare equal exactly if they have one length and agree byte by byte, up to the
/// case of the letters from A to Z.
pub proof fn comparison_ignores_the_case_of_letters(left: Seq<u8>, right: Seq<u8>)
    ensures
        same_ignoring_case(left, right) <==> left.len() == right.len() && forall|i: int|
            0 <= i < left.len() ==> are_one_letter(#[trigger] left[i], right[i]),
{
    assert forall|a: u8, b: u8| (lower_byte(a) == lower_byte(b)) == #[trigger] are_one_letter(a, b) by {}
    if left.len() == right.len() {
        if same_ignoring_case(left, right) {
            assert forall|i: int| 0 <= i < left.len() implies are_one_letter(
                #[trigger] left[i],
                right[i],
            ) by {
                assert(lower_byte(left[i]) == lower_byte(right[i]));
            }
        }
        if forall|i: int| 0 <= i < left.len() ==> are_one_letter(#[trigger] left[i], right[i]) {
            assert forall|i: int| 0 <= i < left.len() implies lower_byte(#[trigger] left[i])
                == lower_byte(right[i]) by {
                assert(are_one_letter(left[i], right[i]));
            }
        }
    }
}

/// A text is found in whatever stands around it, and what it is found in is made of the text, up to
/// the case of its letters, and of what stands around it.
pub proof fn searching_finds_a_text_in_its_surroundings(
    before: Seq<u8>,
    middle: Seq<u8>,
    after: Seq<u8>,
    needle: Seq<u8>,
    haystack: Seq<u8>,
)
    ensures
        same_ignoring_case(middle, needle) ==> occurs_in(before + middle + after, needle),
        same_ignoring_case(middle, needle) ==> occurs_at(
            before + middle + after,
            needle,
            before.len() as int,
        ),
        occurs_in(haystack, needle) ==> exists|at: int|
            0 <= at && at + needle.len() <= haystack.len() && same_ignoring_case(
                #[trigger] haystack.subrange(at, at + needle.len()),
                needle,
            ),
        forall|at: int| #[trigger]
            occurs_at(haystack, needle, at) ==> 0 <= at && at + needle.len() <= haystack.len()
                && same_ignoring_case(haystack.subrange(at, at + needle.len()), needle),
{
    let whole = before + middle + after;
    if same_ignoring_case(middle, needle) {
        assert(whole.subrange(before.len() as int, (before.len() + needle.len()) as int) =~= middle);
        assert(occurs_at(whole, needle, before.len() as int));
    }
    if occurs_in(haystack, needle) {
        let at = choose|at: int| occurs_at(haystack, needle, at);
        assert(same_ignoring_case(haystack.subrange(at, at + needle.len()), needle));
    }
}

/// The search for a text from a position on finds the first place at or behind the position where
/// the text stands, and nothing exactly if it stands nowhere there.
pub proof fn the_search_finds_the_first_place(bytes: Seq<u8>, word: Seq<char>, from: int)
    requires
        is_lower_word(word),
    ensures
        match first_occurrence(bytes, encode_utf8(word), from) {
            Some(at) => from <= at && stands_at(bytes, word, at) && forall|i: int|
                from <= i < at ==> !#[trigger] stands_at(bytes, word, i),
            None => forall|i: int| from <= i ==> !#[trigger] stands_at(bytes, word, i),
        },
{
    let needle = encode_utf8(word);
    is_ascii_chars_encode_utf8(word);
    lemma_first_occurrence(bytes, needle, from);
    assert forall|i: int| occurs_at(bytes, needle, i) == #[trigger] stands_at(bytes, word, i) by {
        lemma_stands_at(bytes, word, i);
    }
    if let Some(at) = first_occurrence(bytes, needle, from) {
        assert(stands_at(bytes, word, at));
    }
}

} // verus!
