//! The header collection of a request.

use crate::text::chars_of;
use reqwest::header::{HeaderMap, HeaderName, HeaderValue};
use vstd::prelude::*;
use vstd::utf8::encode_utf8;

verus! {

/// `reqwest::header::HeaderValue`, the value of a header.
#[verifier::external_type_specification]
#[verifier::external_body]
pub struct ExHeaderValue(HeaderValue);

/// `reqwest::header::HeaderMap`, a multimap from header names to values.
#[verifier::external_type_specification]
#[verifier::external_body]
#[verifier::reject_recursive_types(T)]
pub struct ExHeaderMap<T>(HeaderMap<T>);

/// For each name in lower case, the bytes of its values in order.
pub type HeaderEntries = Map<Seq<char>, Seq<Seq<u8>>>;

/// What a header collection holds.
pub uninterp spec fn header_entries(headers: HeaderMap<HeaderValue>) -> HeaderEntries;

/// Whether a header value can hold `c`: any character but the control
/// characters of ASCII, of which only the tab is allowed.
pub open spec fn is_header_char(c: char) -> bool {
    c == '\t' || (c >= ' ' && c != '\u{7f}')
}

/// Whether `text` can be a header value.
pub open spec fn is_header_text(text: Seq<char>) -> bool {
    forall|i: int| 0 <= i < text.len() ==> is_header_char(#[trigger] text[i])
}

/// A header name in lower case, of letters and hyphens only.
pub open spec fn is_header_name(name: Seq<char>) -> bool {
    &&& 0 < name.len() <= 64
    &&& forall|i: int|
        0 <= i < name.len() ==> ('a' <= #[trigger] name[i] <= 'z' || name[i] == '-')
}

/// `HeaderMap::new`: a collection without headers.
#[verifier::external_body]
pub(crate) fn new_headers() -> (headers: HeaderMap<HeaderValue>)
    ensures
        header_entries(headers) == HeaderEntries::empty(),
{
    HeaderMap::new()
}

/// `HeaderMap::insert`, with the name and the value converted by
/// `HeaderName::from_bytes` and `HeaderValue::from_str`.
///
/// The value takes the place of all earlier values of that name; the other
/// names keep theirs. The collection refuses to grow beyond some thousands of
/// names, so the number of names before the call is bounded.
#[verifier::external_body]
pub(crate) fn insert_header(headers: &mut HeaderMap<HeaderValue>, name: &str, value: &str)
    requires
        is_header_name(name@),
        is_header_text(value@),
        header_entries(*old(headers)).dom().finite(),
        header_entries(*old(headers)).dom().len() < 4096,
    ensures
        header_entries(*final(headers)) == header_entries(*old(headers)).insert(
            name@,
            seq![encode_utf8(value@)],
        ),
{
    let name = HeaderName::from_bytes(name.as_bytes()).unwrap();
    let value = HeaderValue::from_str(value).unwrap();
    headers.insert(name, value);
}

/// Tells whether `text` can be a header value.
pub fn fits_header(text: &str) -> (r: bool)
    ensures
        r == is_header_text(text@),
{
    let source = chars_of(text);
    let mut i: usize = 0;
    while i < source.len()
        invariant
            i <= source@.len(),
            source@ == text@,
            forall|j: int| 0 <= j < i ==> is_header_char(#[trigger] text@[j]),
        decreases source@.len() - i,
    {
        let c = source[i];
        if !(c == '\t' || (c >= ' ' && c != '\u{7f}')) {
            assert(!is_header_char(text@[i as int]));
            return false;
        }
        i = i + 1;
    }
    true
}

} // verus!
