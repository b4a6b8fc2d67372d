//! Requests, responses and their header fields.

use vstd::prelude::*;
use vstd::slice::slice_to_vec;
use vstd::utf8::encode_utf8;

use crate::ascii::{first_index, lemma_first_index};
use crate::text::lower_text;
use crate::uri::RequestUri;

verus! {

/// `http::HeaderMap`, the header fields of a message.
#[verifier::external_type_specification]
#[verifier::external_body]
#[verifier::reject_recursive_types(T)]
pub struct ExHeaderMap<T>(http::HeaderMap<T>);

/// `http::HeaderValue`, the value of a header field.
#[verifier::external_type_specification]
#[verifier::external_body]
pub struct ExHeaderValue(http::HeaderValue);

/// The fields of an `http::HeaderMap`, each with its name in lower case and the bytes of its
/// value, in the order in which the map is walked. Fields of one name follow each other there.
pub uninterp spec fn header_fields(map: http::HeaderMap<http::HeaderValue>) -> Seq<
    (Seq<char>, Seq<u8>),
>;

/// A field has this name.
pub open spec fn has_field(fields: Seq<(Seq<char>, Seq<u8>)>, name: Seq<char>) -> bool {
    exists|i: int| 0 <= i < fields.len() && (#[trigger] fields[i]).0 == name
}

/// The field at this position has this name.
pub open spec fn is_field_at(fields: Seq<(Seq<char>, Seq<u8>)>, name: Seq<char>, at: int) -> bool {
    fields[at].0 == name
}

/// The value of the first field with this name.
pub open spec fn first_value(fields: Seq<(Seq<char>, Seq<u8>)>, name: Seq<char>) -> Option<
    Seq<u8>,
> {
    match first_index(|i: int| is_field_at(fields, name, i), 0, fields.len() as int) {
        Some(at) => Some(fields[at].1),
        None => None,
    }
}

/// The description of `first_value`.
pub proof fn lemma_first_value(fields: Seq<(Seq<char>, Seq<u8>)>, name: Seq<char>)
    ensures
        match first_value(fields, name) {
            Some(value) => exists|at: int|
                0 <= at < fields.len() && (#[trigger] fields[at]).0 == name && fields[at].1 == value
                    && forall|i: int| 0 <= i < at ==> (#[trigger] fields[i]).0 != name,
            None => forall|i: int| 0 <= i < fields.len() ==> (#[trigger] fields[i]).0 != name,
        },
{
    let named = |i: int| is_field_at(fields, name, i);
    lemma_first_index(named, 0, fields.len() as int);
    match first_index(named, 0, fields.len() as int) {
        Some(at) => {
            assert(fields[at].0 == name);
            assert forall|i: int| 0 <= i < at implies (#[trigger] fields[i]).0 != name by {
                assert(!named(i));
            }
        },
        None => {
            assert forall|i: int| 0 <= i < fields.len() implies (#[trigger] fields[i]).0 != name by {
                assert(!named(i));
            }
        },
    }
}

/// A header field that is to be set.
pub struct Header {
    pub name: String,
    pub value: Vec<u8>,
}

impl View for Header {
    type V = (Seq<char>, Seq<u8>);

    open spec fn view(&self) -> (Seq<char>, Seq<u8>) {
        (self.name@, self.value@)
    }
}

/// The contents of a list of header fields.
pub open spec fn fields_of(headers: Seq<Header>) -> Seq<(Seq<char>, Seq<u8>)> {
    headers.map_values(|header: Header| header@)
}

/// A character that the name of a header field can hold, in either case.
pub open spec fn is_name_char(character: char) -> bool {
    ||| 'a' <= character <= 'z'
    ||| 'A' <= character <= 'Z'
    ||| '0' <= character <= '9'
    ||| character == '!'
    ||| character == '#'
    ||| character == '$'
    ||| character == '%'
    ||| character == '&'
    ||| character == '\''
    ||| character == '*'
    ||| character == '+'
    ||| character == '-'
    ||| character == '.'
    ||| character == '^'
    ||| character == '_'
    ||| character == '`'
    ||| character == '|'
    ||| character == '~'
}

/// A name that fields can be looked up by: it is short, and each of its characters can stand in
/// the name of a header field.
pub open spec fn is_field_name(name: Seq<char>) -> bool {
    &&& name.len() <= 64
    &&& forall|i: int| 0 <= i < name.len() ==> is_name_char(#[trigger] name[i])
}

/// `http::HeaderMap::contains_key` with a name as text: whether the map holds a field with that
/// name. The name is taken in any case. A short name with other characters finds nothing, not even
/// where the map holds a field whose name has a double quote in it.
///
/// Nothing is said of a long name: characters that no name can hold are not told apart there, and
/// whether such a name is found depends on how it is hashed.
#[verifier::external_body]
pub(crate) fn map_contains(map: &http::HeaderMap<http::HeaderValue>, name: &str) -> (found: bool)
    ensures
        is_field_name(name@) ==> found == has_field(header_fields(*map), lower_text(name@)),
        !is_field_name(name@) && encode_utf8(name@).len() <= 64 ==> !found,
{
    map.contains_key(name)
}

/// `http::HeaderMap::get` with a name as text: the value of the first field with that name, as
/// bytes. The name is taken in any case. A short name with other characters finds nothing. Nothing
/// is said of a long name, which is looked up as `map_contains` describes.
#[verifier::external_body]
pub(crate) fn map_get(map: &http::HeaderMap<http::HeaderValue>, name: &str) -> (value: Option<
    Vec<u8>,
>)
    ensures
        is_field_name(name@) ==> match value {
            Some(bytes) => first_value(header_fields(*map), lower_text(name@)) == Some(bytes@),
            None => first_value(header_fields(*map), lower_text(name@)) is None,
        },
        !is_field_name(name@) && encode_utf8(name@).len() <= 64 ==> value is None,
{
    map.get(name).map(|value| value.as_bytes().to_vec())
}

/// `http::HeaderMap::iter`: the fields of the map in its order, each with its name and the bytes
/// of its value.
#[verifier::external_body]
pub(crate) fn map_fields(map: &http::HeaderMap<http::HeaderValue>) -> (headers: Vec<Header>)
    ensures
        fields_of(headers@) == header_fields(*map),
{
    map.iter()
        .map(|(name, value)| Header {
            name: name.as_str().to_string(),
            value: value.as_bytes().to_vec(),
        })
        .collect()
}

/// A request of the web view.
pub struct Request {
    pub method: String,
    pub uri: RequestUri,
    pub headers: http::HeaderMap<http::HeaderValue>,
    pub body: Vec<u8>,
}

/// A response to the web view. The header fields are set one after the other.
pub struct Response {
    pub status: u16,
    pub headers: Vec<Header>,
    pub body: Vec<u8>,
}

/// A response, as mathematical values.
#[verifier::ext_equal]
pub ghost struct ResponseView {
    pub status: u16,
    pub fields: Seq<(Seq<char>, Seq<u8>)>,
    pub body: Seq<u8>,
}

impl View for Response {
    type V = ResponseView;

    open spec fn view(&self) -> ResponseView {
        ResponseView {
            status: self.status,
            fields: fields_of(self.headers@),
            body: self.body@,
        }
    }
}

/// A field with a text as its value.
pub open spec fn text_field(name: Seq<char>, value: Seq<char>) -> (Seq<char>, Seq<u8>) {
    (name, encode_utf8(value))
}

/// A field with a text as its value.
pub fn text_header(name: &str, value: &str) -> (header: Header)
    ensures
        header@ == text_field(name@, value@),
{
    Header { name: name.to_owned(), value: slice_to_vec(value.as_bytes()) }
}

/// A byte that a field's value can hold to count as text: visible ASCII, a space or a tab.
pub open spec fn is_text_byte(byte: u8) -> bool {
    32 <= byte < 127 || byte == 9
}

/// A value that counts as text.
pub open spec fn is_text_value(value: Seq<u8>) -> bool {
    forall|i: int| 0 <= i < value.len() ==> is_text_byte(#[trigger] value[i])
}

/// The value of the first field with this name, if it counts as text.
pub open spec fn first_text(fields: Seq<(Seq<char>, Seq<u8>)>, name: Seq<char>) -> Option<Seq<u8>> {
    match first_value(fields, name) {
        Some(value) if is_text_value(value) => Some(value),
        _ => None,
    }
}

fn is_text(value: &[u8]) -> (text: bool)
    ensures
        text == is_text_value(value@),
{
    let mut i: usize = 0;
    while i < value.len()
        invariant
            i <= value@.len(),
            forall|j: int| 0 <= j < i ==> is_text_byte(#[trigger] value@[j]),
        decreases value@.len() - i,
    {
        let byte = value[i];
        if !(32 <= byte && byte < 127 || byte == 9) {
            assert(!is_text_byte(value@[i as int]));
            return false;
        }
        i += 1;
    }
    true
}

/// The value of the first field with this name, if it counts as text. The name is taken in any
/// case. A short name with characters that no name can hold finds nothing. Which field a long name
/// finds is up to `http::HeaderMap`.
pub fn get_text(map: &http::HeaderMap<http::HeaderValue>, name: &str) -> (value: Option<Vec<u8>>)
    ensures
        value matches Some(bytes) ==> is_text_value(bytes@),
        is_field_name(name@) ==> match value {
            Some(bytes) => first_text(header_fields(*map), lower_text(name@)) == Some(bytes@),
            None => first_text(header_fields(*map), lower_text(name@)) is None,
        },
        !is_field_name(name@) && encode_utf8(name@).len() <= 64 ==> value is None,
{
    match map_get(map, name) {
        Some(value) => if is_text(value.as_slice()) {
            Some(value)
        } else {
            None
        },
        None => None,
    }
}

} // verus!
