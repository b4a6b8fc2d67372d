//! Scanning of raw HTML bytes for tags.
//!
//! Tag and attribute names are ASCII, so the scan needs no knowledge of the page's encoding.

use vstd::prelude::*;
use vstd::utf8::{encode_utf8, is_ascii_chars_encode_utf8};

use crate::ascii::{
    as_index, find_ignore_case, first_index, first_occurrence, lemma_first_index, lemma_first_index_is,
    lemma_first_occurrence, lower_byte, occurs_at,
};

verus! {

/// ASCII white space: space, tab, line feed, form feed, carriage return.
pub open spec fn is_whitespace_byte(byte: u8) -> bool {
    byte == 0x20 || byte == 0x09 || byte == 0x0a || byte == 0x0c || byte == 0x0d
}

/// A byte that ends a tag's name.
pub open spec fn is_name_end(byte: u8) -> bool {
    is_whitespace_byte(byte) || byte == '/' as u8 || byte == '>' as u8
}

/// A tag's name ends at `at`: the input ends there, or a byte that ends a name stands there.
pub open spec fn name_ends_at(input: Seq<u8>, at: int) -> bool {
    at < input.len() ==> is_name_end(input[at])
}

/// A start tag that begins with `needle` (the angle bracket and the name) opens at `at`.
pub open spec fn tag_opens_at(input: Seq<u8>, needle: Seq<u8>, at: int) -> bool {
    occurs_at(input, needle, at) && name_ends_at(input, at + needle.len())
}

/// The first start tag with this beginning at or after `from`.
pub open spec fn first_tag(input: Seq<u8>, needle: Seq<u8>, from: int) -> Option<int> {
    first_index(|i: int| tag_opens_at(input, needle, i), from, input.len() as int)
}

/// The start tag found by going from one occurrence of `needle` to the next that does not
/// overlap it, until the name ends there.
pub open spec fn scanned_tag(input: Seq<u8>, needle: Seq<u8>, from: int) -> Option<int>
    recommends
        needle.len() > 0,
    decreases input.len() - from,
    when needle.len() > 0
{
    proof {
        lemma_first_occurrence(input, needle, from);
    }
    match first_occurrence(input, needle, from) {
        Some(at) => if name_ends_at(input, at + needle.len()) {
            Some(at)
        } else {
            scanned_tag(input, needle, at + needle.len())
        },
        None => None,
    }
}

/// The quote character that is open after `input[start..at]` was read, if there is one.
pub open spec fn open_quote(input: Seq<u8>, start: int, at: int) -> Option<u8>
    decreases at - start,
{
    if at <= start {
        None
    } else {
        let byte = input[at - 1];
        match open_quote(input, start, at - 1) {
            Some(quote) => if byte == quote {
                None
            } else {
                Some(quote)
            },
            None => if byte == '\'' as u8 || byte == '"' as u8 {
                Some(byte)
            } else {
                None
            },
        }
    }
}

/// The tag that opens at `start` is closed by the byte at `at`.
pub open spec fn tag_closes_at(input: Seq<u8>, start: int, at: int) -> bool {
    input[at] == '>' as u8 && open_quote(input, start, at) is None
}

/// The end of the tag that opens at `start`: the first `>` that is not inside quotes.
pub open spec fn tag_end(input: Seq<u8>, start: int) -> Option<int> {
    first_index(|i: int| tag_closes_at(input, start, i), start, input.len() as int)
}

/// The first byte of `needle` does not occur again in it, in any case.
pub open spec fn starts_uniquely(needle: Seq<u8>) -> bool {
    &&& needle.len() > 0
    &&& forall|i: int| 0 < i < needle.len() ==> lower_byte(#[trigger] needle[i]) != lower_byte(needle[0])
}

/// Skipping from occurrence to occurrence finds the first start tag, provided that two
/// occurrences cannot overlap.
pub proof fn lemma_scanned_tag_is_first(input: Seq<u8>, needle: Seq<u8>, from: int)
    requires
        starts_uniquely(needle),
        0 <= from,
    ensures
        scanned_tag(input, needle, from) == first_tag(input, needle, from),
    decreases input.len() - from,
{
    let occurs = |i: int| occurs_at(input, needle, i);
    let opens = |i: int| tag_opens_at(input, needle, i);
    let to = input.len() as int;
    lemma_first_index(occurs, from, to);
    lemma_first_index(opens, from, to);
    match first_index(occurs, from, to) {
        None => {
            if let Some(at) = first_index(opens, from, to) {
                assert(occurs(at));
            }
        },
        Some(at) => {
            if name_ends_at(input, at + needle.len()) {
                assert forall|i: int| from <= i < at implies !#[trigger] opens(i) by {
                    assert(!occurs(i));
                }
                lemma_first_index_is(opens, from, to, at);
            } else {
                let next = at + needle.len();
                lemma_scanned_tag_is_first(input, needle, next);
                lemma_first_index(opens, next, to);
                assert forall|i: int| from <= i < next implies !#[trigger] opens(i) by {
                    if i < at {
                        assert(!occurs(i));
                    } else if i > at && opens(i) {
                        assert(input.subrange(at, at + needle.len())[i - at] == input[i]);
                        assert(input.subrange(i, i + needle.len())[0] == input[i]);
                        assert(lower_byte(needle[i - at]) == lower_byte(needle[0]));
                    }
                }
                if let Some(first) = first_index(opens, next, to) {
                    lemma_first_index_is(opens, from, to, first);
                }
            }
        },
    }
}

fn name_ends(input: &[u8], at: usize) -> (ends: bool)
    ensures
        ends == name_ends_at(input@, at as int),
{
    if at >= input.len() {
        return true;
    }
    let byte = input[at];
    byte == 0x20 || byte == 0x09 || byte == 0x0a || byte == 0x0c || byte == 0x0d || byte
        == '/' as u8 || byte == '>' as u8
}

fn scan_tag(input: &[u8], needle: &[u8], start: usize) -> (found: Option<usize>)
    requires
        needle@.len() > 0,
    ensures
        as_index(found) == scanned_tag(input@, needle@, start as int),
{
    let mut from = start;
    loop
        invariant
            needle@.len() > 0,
            scanned_tag(input@, needle@, start as int) == scanned_tag(input@, needle@, from as int),
        decreases input@.len() - from,
    {
        proof {
            lemma_first_occurrence(input@, needle@, from as int);
        }
        match find_ignore_case(input, needle, from) {
            None => {
                return None;
            },
            Some(at) => {
                assert(at + needle@.len() <= input.len());
                if name_ends(input, at + needle.len()) {
                    return Some(at);
                }
                from = at + needle.len();
            },
        }
    }
}

/// The first start tag with this beginning, found by going from one occurrence of `needle` to
/// the next that does not overlap it.
pub fn find_start_tag(input: &[u8], needle: &[u8]) -> (found: Option<usize>)
    requires
        needle@.len() > 0,
    ensures
        as_index(found) == scanned_tag(input@, needle@, 0),
{
    scan_tag(input, needle, 0)
}

/// The first `<meta` start tag at or after `from`.
pub fn find_meta_tag(input: &[u8], from: usize) -> (found: Option<usize>)
    ensures
        as_index(found) == first_tag(input@, encode_utf8("<meta"@), from as int),
{
    let needle = "<meta";
    proof {
        reveal_strlit("<meta");
        is_ascii_chars_encode_utf8(needle@);
        lemma_scanned_tag_is_first(input@, encode_utf8(needle@), from as int);
    }
    scan_tag(input, needle.as_bytes(), from)
}

/// The description of `first_tag`.
pub proof fn lemma_first_tag(input: Seq<u8>, needle: Seq<u8>, from: int)
    ensures
        match first_tag(input, needle, from) {
            Some(at) => from <= at < input.len() && tag_opens_at(input, needle, at) && forall|
                i: int,
            | from <= i < at ==> !tag_opens_at(input, needle, i),
            None => forall|i: int| from <= i < input.len() ==> !tag_opens_at(input, needle, i),
        },
{
    let opens = |i: int| tag_opens_at(input, needle, i);
    lemma_first_index(opens, from, input.len() as int);
    assert forall|i: int| tag_opens_at(input, needle, i) == opens(i) by {}
}

/// The description of `tag_end`.
pub proof fn lemma_tag_end(input: Seq<u8>, start: int)
    ensures
        match tag_end(input, start) {
            Some(at) => start <= at < input.len() && tag_closes_at(input, start, at) && forall|
                i: int,
            | start <= i < at ==> !tag_closes_at(input, start, i),
            None => forall|i: int| start <= i < input.len() ==> !tag_closes_at(input, start, i),
        },
{
    let closes = |i: int| tag_closes_at(input, start, i);
    lemma_first_index(closes, start, input.len() as int);
    assert forall|i: int| tag_closes_at(input, start, i) == closes(i) by {}
}

/// Where a tag opens in `after` it opens in `before + after`, and nowhere else there.
pub proof fn lemma_tag_opens_shift(before: Seq<u8>, after: Seq<u8>, needle: Seq<u8>, at: int)
    requires
        0 <= at,
    ensures
        tag_opens_at(before + after, needle, before.len() + at) == tag_opens_at(after, needle, at),
{
    let input = before + after;
    if at + needle.len() <= after.len() {
        assert(input.subrange(before.len() + at, before.len() + at + needle.len())
            =~= after.subrange(at, at + needle.len()));
    }
}

/// `first_tag` in `after`, seen from `before + after`.
pub proof fn lemma_first_tag_shift(before: Seq<u8>, after: Seq<u8>, needle: Seq<u8>, from: int)
    requires
        0 <= from,
    ensures
        first_tag(before + after, needle, before.len() + from) == match first_tag(
            after,
            needle,
            from,
        ) {
            Some(at) => Some(before.len() + at),
            None => None,
        },
{
    let input = before + after;
    let opens = |i: int| tag_opens_at(input, needle, i);
    lemma_first_tag(input, needle, before.len() + from);
    lemma_first_tag(after, needle, from);
    assert forall|i: int| from <= i implies #[trigger] tag_opens_at(after, needle, i) == opens(
        before.len() + i,
    ) by {
        lemma_tag_opens_shift(before, after, needle, i);
    }
    match first_tag(after, needle, from) {
        Some(at) => {
            assert forall|i: int| before.len() + from <= i < before.len() + at implies !#[trigger] opens(
                i,
            ) by {
                assert(!tag_opens_at(after, needle, i - before.len()));
            }
            lemma_first_index_is(
                opens,
                before.len() + from,
                input.len() as int,
                before.len() + at,
            );
        },
        None => {
            if let Some(at) = first_tag(input, needle, before.len() + from) {
                assert(!tag_opens_at(after, needle, at - before.len()));
                assert(opens(at));
            }
        },
    }
}

/// The quote that is open in `after`, seen from `before + after`.
pub proof fn lemma_open_quote_shift(before: Seq<u8>, after: Seq<u8>, start: int, at: int)
    requires
        0 <= start,
        at <= after.len(),
    ensures
        open_quote(before + after, before.len() + start, before.len() + at) == open_quote(
            after,
            start,
            at,
        ),
    decreases at - start,
{
    if start < at {
        lemma_open_quote_shift(before, after, start, at - 1);
    }
}

/// `tag_end` in `after`, seen from `before + after`.
pub proof fn lemma_tag_end_shift(before: Seq<u8>, after: Seq<u8>, start: int)
    requires
        0 <= start,
    ensures
        tag_end(before + after, before.len() + start) == match tag_end(after, start) {
            Some(at) => Some(before.len() + at),
            None => None,
        },
{
    let input = before + after;
    let closes = |i: int| tag_closes_at(input, before.len() + start, i);
    lemma_tag_end(input, before.len() + start);
    lemma_tag_end(after, start);
    assert forall|i: int| start <= i < after.len() implies #[trigger] tag_closes_at(after, start, i)
        == closes(before.len() + i) by {
        lemma_open_quote_shift(before, after, start, i);
    }
    match tag_end(after, start) {
        Some(at) => {
            assert forall|i: int| before.len() + start <= i < before.len() + at implies !#[trigger] closes(
                i,
            ) by {
                assert(!tag_closes_at(after, start, i - before.len()));
            }
            lemma_first_index_is(
                closes,
                before.len() + start,
                input.len() as int,
                before.len() + at,
            );
        },
        None => {
            if let Some(at) = tag_end(input, before.len() + start) {
                assert(!tag_closes_at(after, start, at - before.len()));
                assert(closes(at));
            }
        },
    }
}

/// Whether a tag opens at a position depends on nothing behind the byte that ends its name.
pub proof fn lemma_tag_opens_prefix(left: Seq<u8>, right: Seq<u8>, len: int, needle: Seq<u8>, at: int)
    requires
        0 <= len <= left.len(),
        len <= right.len(),
        left.subrange(0, len) == right.subrange(0, len),
        at + needle.len() < len,
    ensures
        tag_opens_at(left, needle, at) == tag_opens_at(right, needle, at),
{
    if 0 <= at {
        let here = left.subrange(0, len);
        assert(left.subrange(at, at + needle.len()) =~= here.subrange(at, at + needle.len()));
        assert(right.subrange(at, at + needle.len()) =~= here.subrange(at, at + needle.len()));
        assert(left[at + needle.len()] == here[at + needle.len()]);
        assert(right[at + needle.len()] == here[at + needle.len()]);
    }
}

/// Whether a tag closes at a position depends on nothing behind that position.
pub proof fn lemma_tag_closes_prefix(left: Seq<u8>, right: Seq<u8>, len: int, start: int, at: int)
    requires
        0 <= len <= left.len(),
        len <= right.len(),
        left.subrange(0, len) == right.subrange(0, len),
        0 <= start <= at < len,
    ensures
        tag_closes_at(left, start, at) == tag_closes_at(right, start, at),
        open_quote(left, start, at) == open_quote(right, start, at),
    decreases at - start,
{
    let here = left.subrange(0, len);
    assert(left[at] == here[at] && right[at] == here[at]);
    if start < at {
        lemma_tag_closes_prefix(left, right, len, start, at - 1);
        assert(left[at - 1] == here[at - 1] && right[at - 1] == here[at - 1]);
    }
}

/// The end of the tag that opens at `start`: the first `>` that is not inside quotes.
pub fn find_tag_end(input: &[u8], start: usize) -> (found: Option<usize>)
    requires
        start <= input@.len(),
    ensures
        as_index(found) == tag_end(input@, start as int),
{
    let ghost closes = |i: int| tag_closes_at(input@, start as int, i);
    let mut quote: Option<u8> = None;
    let mut at = start;
    while at < input.len()
        invariant
            start <= at <= input@.len(),
            closes == (|i: int| tag_closes_at(input@, start as int, i)),
            quote == open_quote(input@, start as int, at as int),
            forall|i: int| start <= i < at ==> !#[trigger] closes(i),
        decreases input@.len() - at,
    {
        let byte = input[at];
        match quote {
            Some(current) => {
                if byte == current {
                    quote = None;
                }
            },
            None => {
                if byte == '\'' as u8 || byte == '"' as u8 {
                    quote = Some(byte);
                } else if byte == '>' as u8 {
                    proof {
                        lemma_first_index_is(closes, start as int, input@.len() as int, at as int);
                    }
                    return Some(at);
                }
            },
        }
        at += 1;
    }
    proof {
        lemma_first_index(closes, start as int, input@.len() as int);
    }
    None
}

} // verus!
