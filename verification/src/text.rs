//! Text compared and built character by character.

use vstd::prelude::*;
use vstd::std_specs::iter::IteratorSpec;

verus! {

/// `String::push` appends the character.
pub assume_specification[ String::push ](text: &mut String, character: char)
    ensures
        final(text)@ == old(text)@.push(character),
;

/// The ASCII lower-case form of a character.
pub open spec fn lower_char(character: char) -> char {
    if 'A' <= character <= 'Z' {
        ((character as u8) + 32) as char
    } else {
        character
    }
}

/// A text with its ASCII letters in lower case.
pub open spec fn lower_text(text: Seq<char>) -> Seq<char> {
    text.map_values(|character: char| lower_char(character))
}

/// The text begins with `prefix`.
pub open spec fn begins_with(text: Seq<char>, prefix: Seq<char>) -> bool {
    prefix.len() <= text.len() && text.subrange(0, prefix.len() as int) == prefix
}

/// The character of a decimal digit.
pub open spec fn digit_char(digit: nat) -> char {
    ('0' as u8 + digit) as char
}

/// A number in decimal, without leading zeros.
pub open spec fn decimal(number: nat) -> Seq<char>
    decreases number,
{
    let before = if number < 10 {
        Seq::<char>::empty()
    } else {
        decimal(number / 10)
    };
    before.push(digit_char(number % 10))
}

/// A text of decimal digits.
pub open spec fn is_digits(text: Seq<char>) -> bool {
    &&& text.len() > 0
    &&& forall|i: int| 0 <= i < text.len() ==> '0' <= #[trigger] text[i] <= '9'
}

/// The number that decimal digits stand for.
pub open spec fn number(digits: Seq<char>) -> nat
    decreases digits.len(),
{
    if digits.len() == 0 {
        0
    } else {
        number(digits.drop_last()) * 10 + (digits.last() as nat - '0' as nat) as nat
    }
}

/// A number in decimal stands for that number.
pub proof fn lemma_decimal(value: nat)
    ensures
        is_digits(decimal(value)),
        number(decimal(value)) == value,
    decreases value,
{
    let digits = decimal(value);
    assert(digits.last() as nat == '0' as nat + value % 10);
    if value < 10 {
        assert(digits.drop_last() =~= Seq::<char>::empty());
        assert(number(digits.drop_last()) == 0);
    } else {
        lemma_decimal(value / 10);
        assert(digits.drop_last() =~= decimal(value / 10));
    }
}

/// Whether two texts are equal.
pub fn text_eq(left: &str, right: &str) -> (equal: bool)
    ensures
        equal == (left@ == right@),
{
    broadcast use vstd::string::group_string_axioms;

    let mut lefts = left.chars();
    let mut rights = right.chars();
    let ghost mut read: int = 0;
    loop
        invariant
            0 <= read <= left@.len(),
            read <= right@.len(),
            lefts.remaining() == left@.skip(read),
            rights.remaining() == right@.skip(read),
            left@.take(read) == right@.take(read),
        decreases left@.len() - read,
    {
        match (lefts.next(), rights.next()) {
            (Some(a), Some(b)) => {
                if a != b {
                    return false;
                }
                proof {
                    read = read + 1;
                }
            },
            (None, None) => {
                assert(left@ =~= left@.take(read) && right@ =~= right@.take(read));
                return true;
            },
            _ => {
                return false;
            },
        }
    }
}

/// Whether the text begins with `prefix`.
pub fn text_starts_with(text: &str, prefix: &str) -> (begins: bool)
    ensures
        begins == begins_with(text@, prefix@),
{
    broadcast use vstd::string::group_string_axioms;

    let mut characters = text.chars();
    let mut expected = prefix.chars();
    let ghost mut read: int = 0;
    loop
        invariant
            0 <= read <= text@.len(),
            read <= prefix@.len(),
            characters.remaining() == text@.skip(read),
            expected.remaining() == prefix@.skip(read),
            text@.take(read) == prefix@.take(read),
        decreases prefix@.len() - read,
    {
        match expected.next() {
            Some(wanted) => {
                match characters.next() {
                    Some(character) => {
                        if character != wanted {
                            assert(text@[read] != prefix@[read]);
                            assert(begins_with(text@, prefix@) ==> text@.subrange(
                                0,
                                prefix@.len() as int,
                            )[read] == prefix@[read]);
                            return false;
                        }
                    },
                    None => {
                        return false;
                    },
                }
                proof {
                    read = read + 1;
                }
            },
            None => {
                assert(prefix@ =~= prefix@.take(read));
                return true;
            },
        }
    }
}

/// The text with its ASCII letters in lower case.
pub fn text_to_lower(text: &str) -> (lower: String)
    ensures
        lower@ == lower_text(text@),
{
    broadcast use vstd::string::group_string_axioms;

    let mut lower = String::new();
    let mut characters = text.chars();
    let ghost mut read: int = 0;
    loop
        invariant
            0 <= read <= text@.len(),
            characters.remaining() == text@.skip(read),
            lower@ == lower_text(text@.take(read)),
        decreases text@.len() - read,
    {
        match characters.next() {
            Some(character) => {
                if 'A' <= character && character <= 'Z' {
                    lower.push((character as u8 + 32) as char);
                } else {
                    lower.push(character);
                }
                proof {
                    read = read + 1;
                }
                assert(lower@ =~= lower_text(text@.take(read)));
            },
            None => {
                assert(text@ =~= text@.take(read));
                return lower;
            },
        }
    }
}

/// The number in decimal.
pub fn decimal_text(number: u16) -> (text: String)
    ensures
        text@ == decimal(number as nat),
    decreases number,
{
    let mut text = if number < 10 {
        String::new()
    } else {
        decimal_text(number / 10)
    };
    text.push(('0' as u8 + (number % 10) as u8) as char);
    text
}

} // verus!
