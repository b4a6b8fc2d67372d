//! Removal of the frame policies that a page declares in its own markup.

use vstd::prelude::*;
use vstd::slice::{slice_subrange, slice_to_vec};
use vstd::utf8::{encode_utf8, is_ascii_chars_encode_utf8};

use crate::ascii::{
    contains_ascii_case_insensitive, lemma_first_index, lemma_first_index_is, lower_byte, occurs_at,
    occurs_in,
};
use crate::html::{
    find_meta_tag, find_tag_end, first_tag, lemma_first_tag, lemma_first_tag_shift, lemma_tag_closes_prefix,
    lemma_tag_end, lemma_tag_end_shift, lemma_tag_opens_prefix, open_quote, tag_closes_at, tag_end,
    tag_opens_at,
};

verus! {

/// A tag that declares a policy against being framed: it names `http-equiv`, and it names
/// either the content security policy or the frame options.
pub open spec fn declares_policy(tag: Seq<u8>) -> bool {
    &&& occurs_in(tag, encode_utf8("http-equiv"@))
    &&& occurs_in(tag, encode_utf8("content-security-policy"@)) || occurs_in(
        tag,
        encode_utf8("x-frame-options"@),
    )
}

/// The first `<meta` tag at or after `from`: the positions of its first and last byte. There is
/// none if that tag is not closed.
pub open spec fn next_meta(input: Seq<u8>, from: int) -> Option<(int, int)> {
    match first_tag(input, encode_utf8("<meta"@), from) {
        Some(start) => match tag_end(input, start) {
            Some(end) => Some((start, end)),
            None => None,
        },
        None => None,
    }
}

/// The tag that `next_meta` finds lies in the input, at or after `from`.
pub proof fn lemma_next_meta(input: Seq<u8>, from: int)
    ensures
        next_meta(input, from) matches Some((start, end)) ==> from <= start <= end < input.len(),
{
    lemma_first_tag(input, encode_utf8("<meta"@), from);
    if let Some(start) = first_tag(input, encode_utf8("<meta"@), from) {
        lemma_tag_end(input, start);
    }
}

/// One of the `<meta` tags at or after `from` declares a policy.
pub open spec fn has_policy(input: Seq<u8>, from: int) -> bool
    decreases input.len() - from,
{
    proof {
        lemma_next_meta(input, from);
    }
    match next_meta(input, from) {
        Some((start, end)) => declares_policy(input.subrange(start, end + 1)) || has_policy(
            input,
            end + 1,
        ),
        None => false,
    }
}

/// The input from `from` on, without the `<meta` tags that declare a policy.
pub open spec fn without_policies(input: Seq<u8>, from: int) -> Seq<u8>
    decreases input.len() - from,
{
    proof {
        lemma_next_meta(input, from);
    }
    match next_meta(input, from) {
        Some((start, end)) => {
            let kept_to = if declares_policy(input.subrange(start, end + 1)) {
                start
            } else {
                end + 1
            };
            input.subrange(from, kept_to) + without_policies(input, end + 1)
        },
        None => input.subrange(from, input.len() as int),
    }
}

/// Stripping leaves a policy, because a removal joined what stood on its two sides: the first
/// `<meta` tag of what is left opens before the removed tag, and it declares a policy, or the scan
/// finds one behind it.
pub open spec fn fuses_policy(input: Seq<u8>) -> bool
    decreases input.len(),
{
    proof {
        lemma_next_meta(input, 0);
    }
    match next_meta(input, 0) {
        Some((start, end)) => {
            let left = without_policies(input, 0);
            match first_tag(left, encode_utf8("<meta"@), 0) {
                Some(at) if at < start && declares_policy(input.subrange(start, end + 1)) => {
                    match tag_end(left, at) {
                        Some(close) => declares_policy(left.subrange(at, close + 1)) || has_policy(
                            left,
                            close + 1,
                        ),
                        None => false,
                    }
                },
                _ => fuses_policy(input.subrange(end + 1, input.len() as int)),
            }
        },
        None => false,
    }
}

/// An element that can go behind any tag without declaring a policy there: it begins and ends with
/// a tag, no `<meta` tag begins in it, it holds no quotes, and it names nothing that a policy is
/// recognized by.
pub open spec fn is_inert(element: Seq<u8>) -> bool {
    &&& element.len() > 0
    &&& element[0] == '<' as u8
    &&& element.last() == '>' as u8
    &&& forall|i: int|
        0 <= i < element.len() ==> #[trigger] element[i] != '\'' as u8 && element[i] != '"' as u8
    &&& forall|i: int|
        0 <= i < element.len() && #[trigger] element[i] == '<' as u8 ==> i + 1 < element.len()
            && lower_byte(element[i + 1]) != 'm' as u8
    &&& !occurs_in(element, encode_utf8("http-equiv"@))
    &&& !occurs_in(element, encode_utf8("content-security-policy"@))
    &&& !occurs_in(element, encode_utf8("x-frame-options"@))
}

/// `input` with `element` inserted at `at`.
pub open spec fn inserted(input: Seq<u8>, at: int, element: Seq<u8>) -> Seq<u8> {
    input.subrange(0, at) + element + input.subrange(at, input.len() as int)
}

/// `next_meta` in `after`, seen from `before + after`.
proof fn lemma_next_meta_shift(before: Seq<u8>, after: Seq<u8>, from: int)
    requires
        0 <= from,
    ensures
        next_meta(before + after, before.len() + from) == match next_meta(after, from) {
            Some((start, end)) => Some((before.len() + start, before.len() + end)),
            None => None,
        },
{
    let needle = encode_utf8("<meta"@);
    lemma_first_tag_shift(before, after, needle, from);
    lemma_first_tag(after, needle, from);
    if let Some(start) = first_tag(after, needle, from) {
        lemma_tag_end_shift(before, after, start);
    }
}

/// The policies of `after`, seen from `before + after`.
pub proof fn lemma_policies_shift(before: Seq<u8>, after: Seq<u8>, from: int)
    requires
        0 <= from <= after.len(),
    ensures
        has_policy(before + after, before.len() + from) == has_policy(after, from),
        without_policies(before + after, before.len() + from) == without_policies(after, from),
    decreases after.len() - from,
{
    let input = before + after;
    lemma_next_meta(after, from);
    lemma_next_meta_shift(before, after, from);
    assert(input.subrange(before.len() + from, input.len() as int) =~= after.subrange(
        from,
        after.len() as int,
    ));
    if let Some((start, end)) = next_meta(after, from) {
        lemma_policies_shift(before, after, end + 1);
        assert(input.subrange(before.len() + start, before.len() + end + 1) =~= after.subrange(
            start,
            end + 1,
        ));
        assert(input.subrange(before.len() + from, before.len() + start) =~= after.subrange(
            from,
            start,
        ));
        assert(input.subrange(before.len() + from, before.len() + end + 1) =~= after.subrange(
            from,
            end + 1,
        ));
    }
}

/// A `<meta` tag does not end within its name.
proof fn lemma_meta_name_is_open(input: Seq<u8>, start: int, at: int)
    requires
        occurs_at(input, encode_utf8("<meta"@), start),
        start <= at < start + 5,
    ensures
        encode_utf8("<meta"@).len() == 5,
        !tag_closes_at(input, start, at),
{
    reveal_strlit("<meta");
    let needle = encode_utf8("<meta"@);
    is_ascii_chars_encode_utf8("<meta"@);
    assert(input.subrange(start, start + needle.len())[at - start] == input[at]);
    assert(lower_byte(input[at]) == lower_byte(needle[at - start]));
    assert(needle[at - start] == "<meta"@[at - start] as u8);
}

/// Without a tag that opens before `skip`, the scan can begin there.
proof fn lemma_skip_to(input: Seq<u8>, from: int, skip: int)
    requires
        0 <= from <= skip <= input.len(),
        forall|at: int| from <= at < skip ==> !tag_opens_at(input, encode_utf8("<meta"@), at),
    ensures
        has_policy(input, from) == has_policy(input, skip),
{
    let needle = encode_utf8("<meta"@);
    lemma_first_tag(input, needle, from);
    lemma_first_tag(input, needle, skip);
    assert(first_tag(input, needle, from) == first_tag(input, needle, skip));
}

proof fn lemma_stripped(input: Seq<u8>)
    ensures
        has_policy(without_policies(input, 0), 0) == fuses_policy(input),
    decreases input.len(),
{
    let needle = encode_utf8("<meta"@);
    let left = without_policies(input, 0);
    lemma_next_meta(input, 0);
    match next_meta(input, 0) {
        None => {
            assert(left =~= input);
        },
        Some((start, end)) => {
            let rest = input.subrange(end + 1, input.len() as int);
            let tail = without_policies(rest, 0);
            assert(input =~= input.subrange(0, end + 1) + rest);
            lemma_policies_shift(input.subrange(0, end + 1), rest, 0);
            lemma_stripped(rest);
            lemma_first_tag(left, needle, 0);
            if declares_policy(input.subrange(start, end + 1)) {
                let head = input.subrange(0, start);
                assert(left == head + tail);
                let first = first_tag(left, needle, 0);
                if first is None || first->0 >= start {
                    lemma_skip_to(left, 0, start);
                    lemma_policies_shift(head, tail, 0);
                }
            } else {
                let kept = input.subrange(0, end + 1);
                assert(left == kept + tail);
                assert(left.subrange(0, end + 1) =~= kept);
                lemma_first_tag(input, needle, 0);
                lemma_tag_end(input, start);
                lemma_meta_name_is_open(input, start, start);
                if end < start + 5 {
                    lemma_meta_name_is_open(input, start, end);
                }
                assert forall|at: int| 0 <= at <= start implies tag_opens_at(left, needle, at)
                    == tag_opens_at(input, needle, at) by {
                    lemma_tag_opens_prefix(left, input, end + 1, needle, at);
                }
                assert forall|at: int| start <= at <= end implies tag_closes_at(left, start, at)
                    == tag_closes_at(input, start, at) by {
                    lemma_tag_closes_prefix(left, input, end + 1, start, at);
                }
                lemma_tag_end(left, start);
                assert(next_meta(left, 0) == Some((start, end)));
                assert(left.subrange(start, end + 1) =~= input.subrange(start, end + 1));
                lemma_policies_shift(kept, tail, 0);
            }
        },
    }
}

proof fn lemma_stripping_changes(input: Seq<u8>, from: int)
    requires
        0 <= from <= input.len(),
    ensures
        has_policy(input, from) ==> without_policies(input, from).len() < input.len() - from,
        !has_policy(input, from) ==> without_policies(input, from) == input.subrange(
            from,
            input.len() as int,
        ),
    decreases input.len() - from,
{
    lemma_next_meta(input, from);
    if let Some((start, end)) = next_meta(input, from) {
        lemma_stripping_changes(input, end + 1);
        assert(input.subrange(from, end + 1) + input.subrange(end + 1, input.len() as int)
            =~= input.subrange(from, input.len() as int));
    }
}

/// Stripping shortens the page if one of its `<meta` tags declares a policy, and leaves it as
/// it is otherwise.
pub proof fn stripping_changes_policies_only(input: Seq<u8>)
    ensures
        has_policy(input, 0) ==> without_policies(input, 0).len() < input.len(),
        !has_policy(input, 0) ==> without_policies(input, 0) == input,
{
    lemma_stripping_changes(input, 0);
    assert(input.subrange(0, input.len() as int) =~= input);
}

/// No `<meta` tag of a stripped page declares a policy, except where the removal of a tag joined
/// what stood around it and so brought a policy about. On every other page stripping again changes
/// nothing.
pub proof fn stripped_page_declares_no_policy(input: Seq<u8>)
    ensures
        has_policy(without_policies(input, 0), 0) == fuses_policy(input),
        !fuses_policy(input) ==> without_policies(without_policies(input, 0), 0) == without_policies(
            input,
            0,
        ),
{
    lemma_stripped(input);
    stripping_changes_policies_only(without_policies(input, 0));
}

/// No `<meta` tag begins in an inserted element or is completed by it.
proof fn lemma_no_meta_inserted(input: Seq<u8>, at: int, element: Seq<u8>, start: int)
    requires
        0 <= at <= input.len(),
        is_inert(element),
        at <= start + 5,
        0 <= start < at + element.len(),
    ensures
        !tag_opens_at(inserted(input, at, element), encode_utf8("<meta"@), start),
{
    let needle = encode_utf8("<meta"@);
    let output = inserted(input, at, element);
    reveal_strlit("<meta");
    is_ascii_chars_encode_utf8("<meta"@);
    assert(output[at] == element[0]);
    if occurs_at(output, needle, start) {
        let name = output.subrange(start, start + 5);
        assert(forall|i: int| 0 <= i < 5 ==> #[trigger] name[i] == output[start + i]);
        assert(forall|i: int| 0 <= i < 5 ==> lower_byte(#[trigger] name[i]) == "<meta"@[i] as u8);
        if start < at {
            if at < start + 5 {
                assert(name[at - start] == '<' as u8);
                assert(lower_byte(name[at - start]) == "<meta"@[at - start] as u8);
            }
        } else {
            assert(name[0] == element[start - at]);
            assert(name[1] == element[start - at + 1]);
        }
    }
}

/// What names nothing across an angle bracket stands in a text with an inert element behind a tag
/// if it stands there without it, and the other way round.
proof fn lemma_occurs_inserted(before: Seq<u8>, element: Seq<u8>, after: Seq<u8>, needle: Seq<u8>)
    requires
        is_inert(element),
        !occurs_in(element, needle),
        before.len() > 0,
        before.last() == '>' as u8,
        forall|i: int|
            0 <= i < needle.len() ==> #[trigger] needle[i] != '<' as u8 && needle[i] != '>' as u8,
        needle.len() > 0,
    ensures
        occurs_in(before + element + after, needle) == occurs_in(before + after, needle),
{
    let output = before + element + after;
    let input = before + after;
    let first = before.len() as int;
    let last = first + element.len() - 1;
    assert(output[first] == element[0]);
    assert(output[last] == element.last());
    if occurs_in(output, needle) {
        let at = choose|at: int| occurs_at(output, needle, at);
        let here = output.subrange(at, at + needle.len());
        if at <= first < at + needle.len() {
            assert(here[first - at] == '<' as u8);
            assert(lower_byte(here[first - at]) == lower_byte(needle[first - at]));
        }
        if at <= last < at + needle.len() {
            assert(here[last - at] == '>' as u8);
            assert(lower_byte(here[last - at]) == lower_byte(needle[last - at]));
        }
        if at + needle.len() <= first {
            assert(input.subrange(at, at + needle.len()) =~= here);
            assert(occurs_at(input, needle, at));
        } else if at > last {
            let moved = at - element.len();
            assert(input.subrange(moved, moved + needle.len()) =~= here);
            assert(occurs_at(input, needle, moved));
        } else {
            assert(element.subrange(at - first, at - first + needle.len()) =~= here);
            assert(occurs_at(element, needle, at - first));
        }
    }
    if occurs_in(input, needle) {
        let at = choose|at: int| occurs_at(input, needle, at);
        let here = input.subrange(at, at + needle.len());
        if at < first < at + needle.len() {
            assert(here[first - 1 - at] == '>' as u8);
            assert(lower_byte(here[first - 1 - at]) == lower_byte(needle[first - 1 - at]));
        }
        if at + needle.len() <= first {
            assert(output.subrange(at, at + needle.len()) =~= here);
            assert(occurs_at(output, needle, at));
        } else {
            let moved = at + element.len();
            assert(output.subrange(moved, moved + needle.len()) =~= here);
            assert(occurs_at(output, needle, moved));
        }
    }
}

/// A tag with an inert element in it, behind an angle bracket, declares a policy if it declares one
/// without it, and the other way round.
proof fn lemma_declares_inserted(before: Seq<u8>, element: Seq<u8>, after: Seq<u8>)
    requires
        is_inert(element),
        before.len() > 0,
        before.last() == '>' as u8,
    ensures
        declares_policy(before + element + after) == declares_policy(before + after),
{
    reveal_strlit("http-equiv");
    reveal_strlit("content-security-policy");
    reveal_strlit("x-frame-options");
    is_ascii_chars_encode_utf8("http-equiv"@);
    is_ascii_chars_encode_utf8("content-security-policy"@);
    is_ascii_chars_encode_utf8("x-frame-options"@);
    lemma_occurs_inserted(before, element, after, encode_utf8("http-equiv"@));
    lemma_occurs_inserted(before, element, after, encode_utf8("content-security-policy"@));
    lemma_occurs_inserted(before, element, after, encode_utf8("x-frame-options"@));
}

/// An open quote is a single or a double one.
proof fn lemma_open_quote_is_quote(input: Seq<u8>, start: int, at: int)
    ensures
        open_quote(input, start, at) matches Some(quote) ==> quote == '\'' as u8 || quote == '"' as u8,
    decreases at - start,
{
    if start < at {
        lemma_open_quote_is_quote(input, start, at - 1);
    }
}

/// An inert element inside quotes leaves them open, and what follows it is read as before.
proof fn lemma_open_quote_inserted(input: Seq<u8>, at: int, element: Seq<u8>, start: int, to: int)
    requires
        0 <= start <= at <= input.len(),
        is_inert(element),
        open_quote(input, start, at) is Some,
        at <= to <= input.len() + element.len(),
    ensures
        open_quote(inserted(input, at, element), start, to) == open_quote(
            input,
            start,
            if to <= at + element.len() {
                at
            } else {
                to - element.len()
            },
        ),
    decreases to - at,
{
    let output = inserted(input, at, element);
    if to == at {
        assert(output.subrange(0, at) =~= input.subrange(0, at));
        if start < at {
            lemma_tag_closes_prefix(output, input, at, start, at - 1);
            assert(output[at - 1] == output.subrange(0, at)[at - 1]);
            assert(input[at - 1] == input.subrange(0, at)[at - 1]);
        }
    } else {
        lemma_open_quote_inserted(input, at, element, start, to - 1);
        lemma_open_quote_is_quote(input, start, at);
        if to <= at + element.len() {
            assert(output[to - 1] == element[to - 1 - at]);
        } else {
            assert(output[to - 1] == input[to - 1 - element.len()]);
        }
    }
}

/// An element that goes into a `<meta` tag, behind an angle bracket, stands inside quotes there.
proof fn lemma_inside_quotes(input: Seq<u8>, at: int, start: int)
    requires
        0 <= start < at <= input.len(),
        input[at - 1] == '>' as u8,
        tag_opens_at(input, encode_utf8("<meta"@), start),
        tag_end(input, start) matches Some(end) ==> at <= end,
    ensures
        open_quote(input, start, at) is Some,
        start + 5 < at,
{
    reveal_strlit("<meta");
    is_ascii_chars_encode_utf8("<meta"@);
    lemma_tag_end(input, start);
    assert(!tag_closes_at(input, start, at - 1));
    lemma_open_quote_is_quote(input, start, at - 1);
    if at <= start + 5 {
        let name = input.subrange(start, start + 5);
        assert(name[at - 1 - start] == '>' as u8);
        assert(lower_byte(name[at - 1 - start]) == "<meta"@[at - 1 - start] as u8);
    }
}

/// A tag ends as before, behind an element that stands inside quotes in it.
proof fn lemma_tag_end_inserted(input: Seq<u8>, at: int, element: Seq<u8>, start: int)
    requires
        0 <= start < at <= input.len(),
        is_inert(element),
        open_quote(input, start, at) is Some,
        tag_end(input, start) matches Some(end) ==> at <= end,
    ensures
        tag_end(inserted(input, at, element), start) == match tag_end(input, start) {
            Some(end) => Some(end + element.len()),
            None => None,
        },
{
    let output = inserted(input, at, element);
    let closes = |i: int| tag_closes_at(output, start, i);
    assert(output.subrange(0, at) =~= input.subrange(0, at));
    lemma_tag_end(input, start);
    assert forall|i: int| start <= i < at + element.len() implies !#[trigger] closes(i) by {
        if i < at {
            lemma_tag_closes_prefix(output, input, at, start, i);
        } else {
            lemma_open_quote_inserted(input, at, element, start, i);
        }
    }
    assert forall|i: int| at + element.len() <= i < output.len() implies #[trigger] closes(i)
        == tag_closes_at(input, start, i - element.len()) by {
        lemma_open_quote_inserted(input, at, element, start, i);
        assert(output[i] == input[i - element.len()]);
    }
    match tag_end(input, start) {
        Some(end) => {
            lemma_first_index_is(closes, start, output.len() as int, end + element.len());
        },
        None => {
            lemma_first_index(closes, start, output.len() as int);
        },
    }
}

/// The scan is inside a `<meta` tag where the element goes: the tag declares a policy with the
/// element if it declares one without it, and the scan goes on behind it as before.
proof fn lemma_insertion_inside_meta(
    input: Seq<u8>,
    from: int,
    at: int,
    element: Seq<u8>,
    start: int,
)
    requires
        0 <= from <= start < at <= input.len(),
        is_inert(element),
        input[at - 1] == '>' as u8,
        first_tag(input, encode_utf8("<meta"@), from) == Some(start),
        tag_end(input, start) matches Some(end) ==> at <= end,
    ensures
        has_policy(inserted(input, at, element), from) == has_policy(input, from),
{
    let needle = encode_utf8("<meta"@);
    let output = inserted(input, at, element);
    assert(output.subrange(0, at) =~= input.subrange(0, at));
    lemma_first_tag(input, needle, from);
    lemma_inside_quotes(input, at, start);
    lemma_meta_name_is_open(input, start, start);
    assert forall|i: int| from <= i <= start implies tag_opens_at(output, needle, i) == tag_opens_at(
        input,
        needle,
        i,
    ) by {
        lemma_tag_opens_prefix(output, input, at, needle, i);
    }
    lemma_first_tag(output, needle, from);
    assert(first_tag(output, needle, from) == Some(start));
    lemma_tag_end_inserted(input, at, element, start);
    lemma_tag_end(input, start);
    if let Some(end) = tag_end(input, start) {
        let close = end + element.len();
        let front = input.subrange(start, at);
        let back = input.subrange(at, end + 1);
        let rest = input.subrange(end + 1, input.len() as int);
        assert(output.subrange(start, close + 1) =~= front + element + back);
        assert(input.subrange(start, end + 1) =~= front + back);
        lemma_declares_inserted(front, element, back);
        assert(output =~= output.subrange(0, close + 1) + rest);
        assert(input =~= input.subrange(0, end + 1) + rest);
        lemma_policies_shift(output.subrange(0, close + 1), rest, 0);
        lemma_policies_shift(input.subrange(0, end + 1), rest, 0);
    }
}

/// A `<meta` tag that ends before the element is found as before.
proof fn lemma_insertion_behind_meta(input: Seq<u8>, from: int, at: int, element: Seq<u8>)
    requires
        0 <= from <= at <= input.len(),
        next_meta(input, from) matches Some((_, end)) && end < at,
    ensures
        next_meta(inserted(input, at, element), from) == next_meta(input, from),
{
    let needle = encode_utf8("<meta"@);
    let output = inserted(input, at, element);
    let (start, end) = next_meta(input, from)->0;
    assert(output.subrange(0, at) =~= input.subrange(0, at));
    lemma_first_tag(input, needle, from);
    lemma_tag_end(input, start);
    lemma_meta_name_is_open(input, start, start);
    if end < start + 5 {
        lemma_meta_name_is_open(input, start, end);
    }
    assert forall|i: int| from <= i <= start implies tag_opens_at(output, needle, i) == tag_opens_at(
        input,
        needle,
        i,
    ) by {
        lemma_tag_opens_prefix(output, input, at, needle, i);
    }
    assert forall|i: int| start <= i <= end implies tag_closes_at(output, start, i)
        == tag_closes_at(input, start, i) by {
        lemma_tag_closes_prefix(output, input, at, start, i);
    }
    lemma_first_tag(output, needle, from);
    lemma_tag_end(output, start);
}

/// Without a `<meta` tag before the element, the scan goes on behind it as before.
proof fn lemma_insertion_before_meta(input: Seq<u8>, from: int, at: int, element: Seq<u8>)
    requires
        0 <= from <= at <= input.len(),
        is_inert(element),
        forall|i: int| from <= i < at ==> !tag_opens_at(input, encode_utf8("<meta"@), i),
    ensures
        has_policy(inserted(input, at, element), from) == has_policy(input, from),
{
    let needle = encode_utf8("<meta"@);
    let front = input.subrange(0, at);
    let back = input.subrange(at, input.len() as int);
    let output = inserted(input, at, element);
    assert(output.subrange(0, at) =~= input.subrange(0, at));
    reveal_strlit("<meta");
    is_ascii_chars_encode_utf8("<meta"@);
    assert forall|i: int| from <= i < at + element.len() implies !tag_opens_at(output, needle, i) by {
        if i + 5 < at {
            lemma_tag_opens_prefix(output, input, at, needle, i);
        } else {
            lemma_no_meta_inserted(input, at, element, i);
        }
    }
    lemma_skip_to(output, from, (front + element).len() as int);
    lemma_skip_to(input, from, at);
    lemma_policies_shift(front + element, back, 0);
    assert(input =~= front + back);
    lemma_policies_shift(front, back, 0);
}

/// A page with an inert element behind the end of a tag, or in front of everything, declares a
/// policy if it declares one without the element, and the other way round.
pub proof fn lemma_insertion_keeps_policies(input: Seq<u8>, from: int, at: int, element: Seq<u8>)
    requires
        0 <= from <= at <= input.len(),
        is_inert(element),
        0 < at ==> input[at - 1] == '>' as u8,
    ensures
        has_policy(inserted(input, at, element), from) == has_policy(input, from),
    decreases input.len() - from,
{
    let output = inserted(input, at, element);
    lemma_next_meta(input, from);
    lemma_first_tag(input, encode_utf8("<meta"@), from);
    match first_tag(input, encode_utf8("<meta"@), from) {
        Some(start) if start < at => {
            match tag_end(input, start) {
                Some(end) if end < at => {
                    lemma_insertion_behind_meta(input, from, at, element);
                    assert(output.subrange(start, end + 1) =~= input.subrange(start, end + 1));
                    lemma_insertion_keeps_policies(input, end + 1, at, element);
                },
                _ => {
                    lemma_insertion_inside_meta(input, from, at, element, start);
                },
            }
        },
        _ => {
            lemma_insertion_before_meta(input, from, at, element);
        },
    }
}

fn is_policy_tag(tag: &[u8]) -> (policy: bool)
    ensures
        policy == declares_policy(tag@),
{
    let equiv = "http-equiv";
    let security = "content-security-policy";
    let frame = "x-frame-options";
    proof {
        reveal_strlit("http-equiv");
        reveal_strlit("content-security-policy");
        reveal_strlit("x-frame-options");
        is_ascii_chars_encode_utf8(equiv@);
        is_ascii_chars_encode_utf8(security@);
        is_ascii_chars_encode_utf8(frame@);
    }
    contains_ascii_case_insensitive(tag, equiv.as_bytes()) && (contains_ascii_case_insensitive(
        tag,
        security.as_bytes(),
    ) || contains_ascii_case_insensitive(tag, frame.as_bytes()))
}

/// Removes the `<meta` tags that declare a content security policy or frame options, and says
/// whether there was one.
pub fn strip_meta_frame_policies(input: &[u8]) -> (stripped: (Vec<u8>, bool))
    ensures
        stripped.0@ == without_policies(input@, 0),
        stripped.1 == has_policy(input@, 0),
{
    let mut output: Vec<u8> = Vec::with_capacity(input.len());
    let mut copied_until: usize = 0;
    let mut scan_from: usize = 0;
    let mut changed = false;
    loop
        invariant_except_break
            has_policy(input@, 0) == (changed || has_policy(input@, scan_from as int)),
            without_policies(input@, 0) == output@ + input@.subrange(
                copied_until as int,
                scan_from as int,
            ) + without_policies(input@, scan_from as int),
        invariant
            copied_until <= scan_from <= input@.len(),
        ensures
            changed == has_policy(input@, 0),
            without_policies(input@, 0) == output@ + input@.subrange(
                copied_until as int,
                input@.len() as int,
            ),
        decreases input@.len() - scan_from,
    {
        proof {
            lemma_next_meta(input@, scan_from as int);
            lemma_first_tag(input@, encode_utf8("<meta"@), scan_from as int);
        }
        let start = match find_meta_tag(input, scan_from) {
            Some(start) => start,
            None => break,
        };
        let end = match find_tag_end(input, start) {
            Some(end) => end,
            None => break,
        };
        assert(end < input.len());
        if is_policy_tag(slice_subrange(input, start, end + 1)) {
            output.extend_from_slice(slice_subrange(input, copied_until, start));
            copied_until = end + 1;
            changed = true;
        }
        scan_from = end + 1;
    }
    if !changed {
        proof {
            stripping_changes_policies_only(input@);
        }
        return (slice_to_vec(input), false);
    }
    output.extend_from_slice(slice_subrange(input, copied_until, input.len()));
    (output, true)
}

} // verus!
