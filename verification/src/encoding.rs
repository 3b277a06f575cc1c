//! The outside computations that tokens rest on: the URL-safe Base64 encoding,
//! the HMAC-SHA1 digest and the clock.

use base64::prelude::{Engine, BASE64_URL_SAFE};
use vstd::prelude::*;

verus! {

/// The byte at `i`, or zero past the end.
pub open spec fn byte_at(data: Seq<u8>, i: int) -> int {
    if 0 <= i < data.len() {
        data[i] as int
    } else {
        0
    }
}

/// The `i`-th group of six bits of `data`, which continues with zeros.
pub open spec fn sextet(data: Seq<u8>, i: int) -> int {
    let at = i / 4 * 3;
    if i % 4 == 0 {
        byte_at(data, at) / 4
    } else if i % 4 == 1 {
        byte_at(data, at) % 4 * 16 + byte_at(data, at + 1) / 16
    } else if i % 4 == 2 {
        byte_at(data, at + 1) % 16 * 4 + byte_at(data, at + 2) / 64
    } else {
        byte_at(data, at + 2) % 64
    }
}

/// The symbol of six bits in the URL-safe alphabet.
pub open spec fn symbol(bits: int) -> char {
    if bits < 26 {
        (65 + bits) as char
    } else if bits < 52 {
        (97 + bits - 26) as char
    } else if bits < 62 {
        (48 + bits - 52) as char
    } else if bits == 62 {
        '-'
    } else {
        '_'
    }
}

/// The Base64 encoding of `data` with the URL-safe alphabet and padding.
pub open spec fn base64_url_safe(data: Seq<u8>) -> Seq<char> {
    Seq::new(
        ((data.len() + 2) / 3 * 4) as nat,
        |i: int|
            if 3 * i < 4 * data.len() {
                symbol(sextet(data, i))
            } else {
                '='
            },
    )
}

/// `Engine::encode_string` of `base64`, on the engine `BASE64_URL_SAFE`.
///
/// It appends the Base64 encoding of the input, with the URL-safe alphabet and
/// with padding, to the output.
#[verifier::external_body]
pub(crate) fn encode_string(input: &[u8], output: &mut String)
    ensures
        final(output)@ == old(output)@ + base64_url_safe(input@),
{
    BASE64_URL_SAFE.encode_string(input, output)
}

/// The HMAC-SHA1 digest of a message under a key.
pub uninterp spec fn hmac_sha1_digest(key: Seq<u8>, message: Seq<u8>) -> Seq<u8>;

/// `hmac_sha1::hmac_sha1`: the digest of `message` under `key`, which takes keys
/// of any length. What the digest is on given bytes is not stated.
#[verifier::external_body]
pub(crate) fn hmac_sha1(key: &[u8], message: &[u8]) -> (digest: [u8; 20])
    ensures
        digest@ == hmac_sha1_digest(key@, message@),
{
    hmac_sha1::hmac_sha1(key, message)
}

/// Whether `now` is a time, in seconds since the Unix epoch, that the clock can
/// show: from the years -262143 to 262142.
pub open spec fn clock_reading(now: int) -> bool {
    -8_334_601_228_800 <= now <= 8_210_266_876_799
}

/// `chrono::Local::now().timestamp()`: the current time in seconds since the
/// Unix epoch. Of it only the range of a `chrono::DateTime` is stated.
#[verifier::external_body]
pub(crate) fn unix_now() -> (now: i64)
    ensures
        clock_reading(now as int),
{
    chrono::Local::now().timestamp()
}

/// The characters that Base64 text is made of.
pub open spec fn is_base64_char(c: char) -> bool {
    ||| 'A' <= c <= 'Z'
    ||| 'a' <= c <= 'z'
    ||| '0' <= c <= '9'
    ||| c == '-'
    ||| c == '_'
    ||| c == '='
}

proof fn lemma_sextet_range(data: Seq<u8>, i: int)
    requires
        i >= 0,
    ensures
        0 <= sextet(data, i) < 64,
{
}

/// Encoded text holds only letters, digits, `-`, `_` and `=`: it can stand in a
/// path segment of a URL and in a header as it is.
pub proof fn lemma_base64_chars(data: Seq<u8>)
    ensures
        forall|i: int|
            0 <= i < base64_url_safe(data).len() ==> is_base64_char(
                #[trigger] base64_url_safe(data)[i],
            ),
{
    assert forall|i: int| 0 <= i < base64_url_safe(data).len() implies is_base64_char(
        #[trigger] base64_url_safe(data)[i],
    ) by {
        lemma_sextet_range(data, i);
    }
}

/// Different bytes have different encodings.
pub proof fn lemma_base64_injective(a: Seq<u8>, b: Seq<u8>)
    requires
        base64_url_safe(a) == base64_url_safe(b),
    ensures
        a == b,
{
    let text = base64_url_safe(a);
    assert(a.len() == b.len()) by {
        let n = text.len() as int;
        if n > 0 {
            lemma_sextet_range(a, n - 1);
            lemma_sextet_range(b, n - 1);
            lemma_sextet_range(a, n - 2);
            lemma_sextet_range(b, n - 2);
            assert(text[n - 1] == base64_url_safe(b)[n - 1]);
            assert(text[n - 2] == base64_url_safe(b)[n - 2]);
        }
    }
    assert forall|i: int| 0 <= i < 4 * a.len() && 3 * i < 4 * a.len() implies #[trigger] sextet(
        a,
        i,
    ) == sextet(b, i) by {
        lemma_sextet_range(a, i);
        lemma_sextet_range(b, i);
        assert(i < text.len());
        assert(text[i] == base64_url_safe(b)[i]);
        assert(symbol(sextet(a, i)) == symbol(sextet(b, i)));
    }
    assert forall|j: int| 0 <= j < a.len() implies a[j] == b[j] by {
        let first = j / 3 * 4 + j % 3;
        assert(first / 4 == j / 3);
        assert((first + 1) / 4 == j / 3);
        assert(sextet(a, first) == sextet(b, first));
        assert(sextet(a, first + 1) == sextet(b, first + 1));
    }
    assert(a =~= b);
}

} // verus!
