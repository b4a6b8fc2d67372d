//! Bytes compared as ASCII text, without regard to case.

use vstd::prelude::*;

verus! {

/// The ASCII lower-case form of a byte.
pub open spec fn lower_byte(byte: u8) -> u8 {
    if 'A' as u8 <= byte <= 'Z' as u8 {
        (byte + 32) as u8
    } else {
        byte
    }
}

/// Two byte strings that differ at most in the case of ASCII letters.
pub open spec fn same_ignoring_case(left: Seq<u8>, right: Seq<u8>) -> bool {
    &&& left.len() == right.len()
    &&& forall|i: int|
        0 <= i < left.len() ==> lower_byte(#[trigger] left[i]) == lower_byte(right[i])
}

/// `needle` stands in `haystack` at the position `at`, in any case.
pub open spec fn occurs_at(haystack: Seq<u8>, needle: Seq<u8>, at: int) -> bool {
    &&& 0 <= at
    &&& at + needle.len() <= haystack.len()
    &&& same_ignoring_case(haystack.subrange(at, at + needle.len()), needle)
}

/// `needle` stands somewhere in `haystack`, in any case.
pub open spec fn occurs_in(haystack: Seq<u8>, needle: Seq<u8>) -> bool {
    exists|at: int| occurs_at(haystack, needle, at)
}

/// The least index of `from..to` that satisfies `holds`.
pub open spec fn first_index(holds: spec_fn(int) -> bool, from: int, to: int) -> Option<int>
    decreases to - from,
{
    if from >= to {
        None
    } else if holds(from) {
        Some(from)
    } else {
        first_index(holds, from + 1, to)
    }
}

/// `first_index` is the least index that satisfies the predicate, and there is none exactly
/// if the predicate holds nowhere in the range.
pub proof fn lemma_first_index(holds: spec_fn(int) -> bool, from: int, to: int)
    ensures
        match first_index(holds, from, to) {
            Some(at) => from <= at < to && holds(at) && forall|i: int|
                from <= i < at ==> !#[trigger] holds(i),
            None => forall|i: int| from <= i < to ==> !#[trigger] holds(i),
        },
    decreases to - from,
{
    if from < to && !holds(from) {
        lemma_first_index(holds, from + 1, to);
    }
}

/// What satisfies the description of `first_index` is `first_index`.
pub proof fn lemma_first_index_is(holds: spec_fn(int) -> bool, from: int, to: int, at: int)
    requires
        from <= at < to,
        holds(at),
        forall|i: int| from <= i < at ==> !#[trigger] holds(i),
    ensures
        first_index(holds, from, to) == Some(at),
{
    lemma_first_index(holds, from, to);
}

/// The first position at or after `from` where `needle` stands in `haystack`, in any case.
pub open spec fn first_occurrence(haystack: Seq<u8>, needle: Seq<u8>, from: int) -> Option<int> {
    first_index(|i: int| occurs_at(haystack, needle, i), from, haystack.len() as int)
}

/// A position that a search returned, as a mathematical integer.
pub open spec fn as_index(found: Option<usize>) -> Option<int> {
    match found {
        Some(at) => Some(at as int),
        None => None,
    }
}

/// What `first_occurrence` finds is an occurrence, and none stands before it.
pub proof fn lemma_first_occurrence(haystack: Seq<u8>, needle: Seq<u8>, from: int)
    ensures
        match first_occurrence(haystack, needle, from) {
            Some(at) => from <= at < haystack.len() && occurs_at(haystack, needle, at)
                && forall|i: int| from <= i < at ==> !occurs_at(haystack, needle, i),
            None => forall|i: int|
                from <= i < haystack.len() ==> !occurs_at(haystack, needle, i),
        },
{
    let occurs = |i: int| occurs_at(haystack, needle, i);
    lemma_first_index(occurs, from, haystack.len() as int);
    match first_occurrence(haystack, needle, from) {
        Some(at) => {
            assert forall|i: int| from <= i < at implies !occurs_at(haystack, needle, i) by {
                assert(!occurs(i));
            }
        },
        None => {
            assert forall|i: int| from <= i < haystack.len() implies !occurs_at(
                haystack,
                needle,
                i,
            ) by {
                assert(!occurs(i));
            }
        },
    }
}

/// The ASCII lower-case form of a byte.
pub fn to_lower_byte(byte: u8) -> (lower: u8)
    ensures
        lower == lower_byte(byte),
{
    if 'A' as u8 <= byte && byte <= 'Z' as u8 {
        byte + 32
    } else {
        byte
    }
}

/// Whether two byte strings differ at most in the case of ASCII letters.
pub fn ascii_eq_ignore_case(left: &[u8], right: &[u8]) -> (equal: bool)
    ensures
        equal == same_ignoring_case(left@, right@),
{
    if left.len() != right.len() {
        return false;
    }
    let mut i: usize = 0;
    while i < left.len()
        invariant
            i <= left@.len() == right@.len(),
            forall|j: int| 0 <= j < i ==> lower_byte(#[trigger] left@[j]) == lower_byte(right@[j]),
        decreases left@.len() - i,
    {
        if to_lower_byte(left[i]) != to_lower_byte(right[i]) {
            return false;
        }
        i += 1;
    }
    true
}

/// The first position at or after `from` where `needle` stands in `haystack`, in any case.
pub fn find_ignore_case(haystack: &[u8], needle: &[u8], from: usize) -> (found: Option<usize>)
    requires
        needle@.len() > 0,
    ensures
        as_index(found) == first_occurrence(haystack@, needle@, from as int),
{
    let ghost holds = |i: int| occurs_at(haystack@, needle@, i);
    let mut at = from;
    while at <= haystack.len() && needle.len() <= haystack.len() - at
        invariant
            needle@.len() > 0,
            from <= at,
            holds == (|i: int| occurs_at(haystack@, needle@, i)),
            forall|i: int| from <= i < at ==> !#[trigger] holds(i),
        decreases haystack@.len() - at,
    {
        if ascii_eq_ignore_case(vstd::slice::slice_subrange(haystack, at, at + needle.len()), needle) {
            proof {
                lemma_first_index_is(holds, from as int, haystack@.len() as int, at as int);
            }
            return Some(at);
        }
        at += 1;
    }
    proof {
        lemma_first_index(holds, from as int, haystack@.len() as int);
    }
    None
}

/// Whether `needle` stands anywhere in `haystack`, in any case.
pub fn contains_ascii_case_insensitive(haystack: &[u8], needle: &[u8]) -> (found: bool)
    requires
        needle@.len() > 0,
    ensures
        found == occurs_in(haystack@, needle@),
{
    proof {
        lemma_first_occurrence(haystack@, needle@, 0);
    }
    match find_ignore_case(haystack, needle, 0) {
        Some(at) => {
            assert(occurs_at(haystack@, needle@, at as int));
            true
        },
        None => false,
    }
}

} // verus!
