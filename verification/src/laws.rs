//! What callers can rely on, said of inputs and results themselves.

use crate::direct::{is_form_at, UploadForm};
use crate::encoding::{
    base64_url_safe, hmac_sha1_digest, is_base64_char, lemma_base64_chars, sextet, symbol,
};
use crate::error::{
    failure_text, reply_step, reports_rejection, Failure, Rejection, ReplyStep, Stage, UploadError,
};
use crate::headers::{header_entries, is_header_text};
use crate::policy::put_policy_text;
use crate::region::{lemma_upload_hosts_differ, upload_host};
use crate::request::{
    is_abort_request, is_complete_request, is_initial_request, is_part_request, Method, Request,
};
use crate::text::{converts_to, decimal, digits, last_segment, lemma_last_segment, replaced};
use crate::uploader::{
    authorization, encoded_key, part_headers, token_at, token_log, token_text, uploads_url,
    UploaderView,
};
use vstd::prelude::*;
use vstd::utf8::{encode_utf8, encode_utf8_decode_utf8};

verus! {

/// An uploader keeps a text that is given to it as a slice.
pub proof fn lemma_slice_is_kept(source: &str, text: Seq<char>)
    requires
        converts_to(source, text),
    ensures
        text == source@,
{
}

/// An uploader keeps a text that is given to it as a string.
pub proof fn lemma_string_is_kept(source: String, text: Seq<char>)
    requires
        converts_to(source, text),
    ensures
        text == source@,
{
}

/// The number that a row of digits stands for.
pub open spec fn number_of(text: Seq<char>) -> int
    decreases text.len(),
{
    if text.len() == 0 {
        0
    } else {
        number_of(text.drop_last()) * 10 + (text.last() as int - '0' as int)
    }
}

proof fn lemma_digits_read_back(n: nat)
    ensures
        number_of(digits(n)) == n,
        digits(n).len() > 0,
        forall|i: int| 0 <= i < digits(n).len() ==> '0' <= #[trigger] digits(n)[i] <= '9',
        digits(n).len() > 1 ==> digits(n)[0] != '0',
        n >= 10 ==> digits(n).len() > 1,
        n < 10 ==> digits(n).len() == 1,
        n > 0 ==> digits(n)[0] != '0',
    decreases n,
{
    reveal_with_fuel(number_of, 2);
    if n >= 10 {
        let before = digits(n / 10);
        lemma_digits_read_back(n / 10);
        assert(digits(n).drop_last() =~= before);
        assert forall|i: int| 0 <= i < digits(n).len() implies '0' <= #[trigger] digits(n)[i]
            <= '9' by {
            if i < before.len() {
                assert(digits(n)[i] == before[i]);
            }
        }
        assert(digits(n)[0] == before[0]);
    } else {
        assert(digits(n).drop_last() =~= seq![]);
    }
}

/// A number that is written down reads back as itself: its text is digits only,
/// behind a minus sign where it is negative, and has no leading zero.
pub proof fn lemma_decimal_reads_back(n: int)
    ensures
        n >= 0 ==> number_of(decimal(n)) == n,
        n < 0 ==> decimal(n)[0] == '-' && number_of(decimal(n).skip(1)) == -n,
        ({
            let row = if n < 0 {
                decimal(n).skip(1)
            } else {
                decimal(n)
            };
            &&& row.len() > 0
            &&& forall|i: int| 0 <= i < row.len() ==> '0' <= #[trigger] row[i] <= '9'
            &&& row.len() > 1 ==> row[0] != '0'
        }),
{
    if n < 0 {
        lemma_digits_read_back((-n) as nat);
        assert(decimal(n).skip(1) =~= digits((-n) as nat));
    } else {
        lemma_digits_read_back(n as nat);
    }
}

/// A header value may hold any character but the control characters of ASCII,
/// of which it may hold the tab.
pub proof fn lemma_header_text(text: Seq<char>)
    ensures
        is_header_text(text) <==> forall|i: int|
            0 <= i < text.len() ==> (#[trigger] text[i] as int == 9 || (text[i] as int >= 32
                && text[i] as int != 127)),
{
    if forall|i: int|
        0 <= i < text.len() ==> (#[trigger] text[i] as int == 9 || (text[i] as int >= 32
            && text[i] as int != 127)) {
        assert(is_header_text(text));
    }
    if is_header_text(text) {
        assert forall|i: int| 0 <= i < text.len() implies (#[trigger] text[i] as int == 9 || (
        text[i] as int >= 32 && text[i] as int != 127)) by {
            assert(crate::headers::is_header_char(text[i]));
        }
    }
}

/// The six bits that a Base64 character of the URL-safe alphabet stands for.
pub open spec fn bits_of(c: char) -> int {
    if 'A' <= c <= 'Z' {
        c as int - 'A' as int
    } else if 'a' <= c <= 'z' {
        c as int - 'a' as int + 26
    } else if '0' <= c <= '9' {
        c as int - '0' as int + 52
    } else if c == '-' {
        62
    } else {
        63
    }
}

/// Encoded text reads back as the bytes: three bytes stand in four characters,
/// and a rest of one or two bytes in two or three, filled up with `=`.
pub proof fn lemma_base64_reads_back(data: Seq<u8>, group: int)
    requires
        0 <= group,
        3 * group < data.len(),
    ensures
        base64_url_safe(data).len() == (data.len() + 2) / 3 * 4,
        ({
            let text = base64_url_safe(data);
            let at = 4 * group;
            let left = data.len() - 3 * group;
            let first = data[3 * group] as int;
            let second = if left > 1 {
                data[3 * group + 1] as int
            } else {
                0
            };
            let third = if left > 2 {
                data[3 * group + 2] as int
            } else {
                0
            };
            let value = (first * 256 + second) * 256 + third;
            &&& left > 1 || text[at + 2] == '='
            &&& left > 2 || text[at + 3] == '='
            &&& left > 1 ==> text[at + 2] != '='
            &&& left > 2 ==> text[at + 3] != '='
            &&& value == ((bits_of(text[at]) * 64 + bits_of(text[at + 1])) * 64 + if left > 1 {
                bits_of(text[at + 2])
            } else {
                0
            }) * 64 + if left > 2 {
                bits_of(text[at + 3])
            } else {
                0
            }
        }),
{
    let at = 4 * group;
    assert(at / 4 == group && at % 4 == 0);
    assert((at + 1) / 4 == group && (at + 1) % 4 == 1);
    assert((at + 2) / 4 == group && (at + 2) % 4 == 2);
    assert((at + 3) / 4 == group && (at + 3) % 4 == 3);
    let text = base64_url_safe(data);
    assert(text[at] == symbol(sextet(data, at)));
    assert(text[at + 1] == symbol(sextet(data, at + 1)));
    assert(forall|bits: int| 0 <= bits < 64 ==> bits_of(#[trigger] symbol(bits)) == bits);
    assert(forall|bits: int| 0 <= bits < 64 ==> #[trigger] symbol(bits) != '=');
    assert(0 <= sextet(data, at) < 64);
    assert(0 <= sextet(data, at + 1) < 64);
    assert(0 <= sextet(data, at + 2) < 64);
    assert(0 <= sextet(data, at + 3) < 64);
}

/// A text in which the pattern does not occur is left as it is.
pub proof fn lemma_absent_pattern_changes_nothing(
    text: Seq<char>,
    pattern: Seq<char>,
    with: Seq<char>,
)
    requires
        pattern.len() > 0,
        forall|at: int|
            0 <= at <= text.len() - pattern.len() ==> #[trigger] text.subrange(
                at,
                at + pattern.len(),
            ) != pattern,
    ensures
        replaced(text, pattern, with) == text,
    decreases text.len(),
{
    if text.len() > 0 {
        let rest = text.skip(1);
        if text.len() >= pattern.len() {
            assert(text.subrange(0, 0int + pattern.len()) != pattern);
        }
        assert forall|at: int|
            0 <= at <= rest.len() - pattern.len() implies #[trigger] rest.subrange(
            at,
            at + pattern.len(),
        ) != pattern by {
            assert(rest.subrange(at, at + pattern.len()) =~= text.subrange(
                at + 1,
                at + 1 + pattern.len(),
            ));
        }
        lemma_absent_pattern_changes_nothing(rest, pattern, with);
        assert(text =~= seq![text[0]] + rest);
    }
}

/// The first occurrence of the pattern is replaced, what stands before it is
/// kept, and what follows it is treated in the same way.
pub proof fn lemma_first_occurrence_is_replaced(
    before: Seq<char>,
    pattern: Seq<char>,
    after: Seq<char>,
    with: Seq<char>,
)
    requires
        pattern.len() > 0,
        forall|at: int|
            0 <= at < before.len() ==> #[trigger] (before + pattern + after).subrange(
                at,
                at + pattern.len(),
            ) != pattern,
    ensures
        replaced(before + pattern + after, pattern, with) == before + with + replaced(
            after,
            pattern,
            with,
        ),
    decreases before.len(),
{
    let text = before + pattern + after;
    if before.len() == 0 {
        assert(text.subrange(0, pattern.len() as int) =~= pattern);
        assert(text.skip(pattern.len() as int) =~= after);
        assert(before + with + replaced(after, pattern, with) =~= with + replaced(
            after,
            pattern,
            with,
        ));
    } else {
        let shorter = before.skip(1);
        let rest = shorter + pattern + after;
        assert(text.subrange(0, 0int + pattern.len()) != pattern);
        assert(text.skip(1) =~= rest);
        assert forall|at: int| 0 <= at < shorter.len() implies #[trigger] rest.subrange(
            at,
            at + pattern.len(),
        ) != pattern by {
            assert(rest.subrange(at, at + pattern.len()) =~= text.subrange(
                at + 1,
                at + 1 + pattern.len(),
            ));
        }
        lemma_first_occurrence_is_replaced(shorter, pattern, after, with);
        assert(before + with + replaced(after, pattern, with) =~= seq![text[0]] + (shorter + with
            + replaced(after, pattern, with)));
    }
}

/// A token is signed with the whole secret key: it is the access key, the
/// signature of what stands behind the last colon, and that text, which is the
/// encoded policy for one hour from `now`.
pub proof fn lemma_token_fields(
    u: UploaderView,
    key: Seq<char>,
    now: int,
    first: int,
    last: int,
)
    requires
        0 <= first < last < token_at(u, key, now).len(),
        token_at(u, key, now)[first] == ':',
        token_at(u, key, now)[last] == ':',
        forall|i: int|
            first < i < token_at(u, key, now).len() && i != last ==> #[trigger] token_at(
                u,
                key,
                now,
            )[i] != ':',
    ensures
        token_at(u, key, now).take(first) == u.access_key,
        token_at(u, key, now).subrange(first + 1, last) == base64_url_safe(
            hmac_sha1_digest(
                encode_utf8(u.secret_key),
                encode_utf8(token_at(u, key, now).skip(last + 1)),
            ),
        ),
        token_at(u, key, now).skip(last + 1) == base64_url_safe(
            encode_utf8(put_policy_text(u.bucket, key, now + 3600)),
        ),
{
    let token = token_at(u, key, now);
    let policy = base64_url_safe(encode_utf8(put_policy_text(u.bucket, key, now + 3600)));
    let digest = hmac_sha1_digest(encode_utf8(u.secret_key), encode_utf8(policy));
    let sign = base64_url_safe(digest);
    lemma_token_parts(u, key, now);
    lemma_base64_chars(digest);
    lemma_base64_chars(encode_utf8(put_policy_text(u.bucket, key, now + 3600)));
    reveal_strlit(":");
    let a = u.access_key.len() as int;
    let b = a + 1 + sign.len();
    assert(token[a] == ':');
    assert(token[b] == ':');
    assert forall|i: int| a < i < token.len() && i != b implies #[trigger] token[i] != ':' by {
        if i < b {
            assert(token[i] == sign[i - a - 1]);
            assert(is_base64_char(sign[i - a - 1]));
        } else {
            assert(token[i] == policy[i - b - 1]);
            assert(is_base64_char(policy[i - b - 1]));
        }
    }
    assert(last == b && first == a) by {
        if last != b {
            if last > b {
                assert(token[last] != ':');
            } else {
                assert(token[b] != ':');
            }
        }
        if first != a {
            if first > a {
                assert(token[first] != ':');
            } else {
                assert(token[a] != ':');
            }
        }
    }
    assert(token.take(a) =~= u.access_key);
    assert(token.subrange(a + 1, b) =~= sign);
    assert(token.skip(b + 1) =~= policy);
}

/// A token has these parts, for every uploader, key and time.
pub proof fn lemma_token_parts(u: UploaderView, key: Seq<char>, now: int)
    ensures
        ({
            let policy = base64_url_safe(encode_utf8(put_policy_text(u.bucket, key, now + 3600)));
            token_at(u, key, now) == u.access_key + ":"@ + base64_url_safe(
                hmac_sha1_digest(encode_utf8(u.secret_key), encode_utf8(policy)),
            ) + ":"@ + policy
        }),
{
}

/// The address of the uploads of an object starts with the host, `/buckets/` and
/// the bucket of the uploader, goes on with the encoded key and ends there.
pub proof fn lemma_address_names_bucket(u: UploaderView, key: Seq<char>)
    ensures
        ({
            let start = upload_host(u.region) + "/buckets/"@ + u.bucket;
            let url = uploads_url(u, key);
            &&& start.is_prefix_of(url)
            &&& url.skip(start.len() as int) == "/objects/"@ + base64_url_safe(encode_utf8(key))
                + "/uploads"@
        }),
{
    let start = upload_host(u.region) + "/buckets/"@ + u.bucket;
    let url = uploads_url(u, key);
    assert(url.subrange(0, start.len() as int) =~= start);
    assert(url.skip(start.len() as int) =~= "/objects/"@ + base64_url_safe(encode_utf8(key))
        + "/uploads"@);
}

/// Uploads of one key to different buckets of a region, or to one bucket name in
/// different regions, have different addresses.
pub proof fn lemma_addresses_tell_buckets(a: UploaderView, b: UploaderView, key: Seq<char>)
    requires
        uploads_url(a, key) == uploads_url(b, key),
    ensures
        a.region == b.region ==> a.bucket == b.bucket,
        a.bucket == b.bucket ==> a.region == b.region,
{
    lemma_address_names_bucket(a, key);
    lemma_address_names_bucket(b, key);
    let url = uploads_url(a, key);
    let tail = "/objects/"@ + base64_url_safe(encode_utf8(key)) + "/uploads"@;
    let end = url.len() - tail.len();
    let start_a = upload_host(a.region) + "/buckets/"@ + a.bucket;
    let start_b = upload_host(b.region) + "/buckets/"@ + b.bucket;
    assert(start_a.len() == end && start_b.len() == end);
    assert(url.take(end) =~= start_a);
    assert(url.take(end) =~= start_b);
    if a.region == b.region {
        let n = upload_host(a.region).len() + "/buckets/"@.len();
        assert(start_a.skip(n as int) =~= a.bucket);
        assert(start_b.skip(n as int) =~= b.bucket);
    }
    if a.bucket == b.bucket {
        let n = upload_host(a.region).len() as int;
        assert(start_a.take(n) =~= upload_host(a.region));
        assert(start_b.take(n) =~= upload_host(b.region));
        lemma_upload_hosts_differ(a.region, b.region);
    }
}

/// The request that starts an upload: where it goes, what it carries and what is
/// printed.
pub proof fn lemma_initial_request(request: Request, u: UploaderView, key: Seq<char>, now: int)
    requires
        is_initial_request(request, u, key, now),
    ensures
        request.method == Method::Post,
        request.url@ == upload_host(u.region) + "/buckets/"@ + u.bucket + "/objects/"@
            + base64_url_safe(encode_utf8(key)) + "/uploads"@,
        header_entries(request.headers).dom() == set!["authorization"@],
        header_entries(request.headers)["authorization"@] == seq![
            encode_utf8("UpToken "@ + token_at(u, key, now)),
        ],
        u.debug ==> (request.log matches Some(line) && line@ == "key: "@ + key + ", token: "@
            + token_at(u, key, now)),
        !u.debug ==> request.log is None,
{
    assert(header_entries(request.headers).dom() =~= set!["authorization"@]);
}

/// The request that stores a part: it goes to the upload and the number that it
/// is given, and its length is that of the part.
pub proof fn lemma_part_request(
    request: Request,
    u: UploaderView,
    key: Seq<char>,
    upload_id: Seq<char>,
    part_number: int,
    size: int,
    now: int,
)
    requires
        is_part_request(request, u, key, upload_id, part_number, size, now),
    ensures
        request.method == Method::Put,
        request.url@ == upload_host(u.region) + "/buckets/"@ + u.bucket + "/objects/"@
            + base64_url_safe(encode_utf8(key)) + "/uploads/"@ + upload_id + "/"@ + decimal(
            part_number,
        ),
        header_entries(request.headers).dom() == set![
            "authorization"@,
            "content-type"@,
            "content-length"@,
        ],
        header_entries(request.headers)["authorization"@] == seq![
            encode_utf8("UpToken "@ + token_at(u, key, now)),
        ],
        header_entries(request.headers)["content-type"@] == seq![
            encode_utf8("application/octet-stream"@),
        ],
        header_entries(request.headers)["content-length"@] == seq![encode_utf8(decimal(size))],
        u.debug ==> (request.log matches Some(line) && line@ == "key: "@ + key + ", token: "@
            + token_at(u, key, now)),
        !u.debug ==> request.log is None,
{
    reveal_strlit("authorization");
    reveal_strlit("content-type");
    reveal_strlit("content-length");
    lemma_slash();
    let head = upload_host(u.region) + "/buckets/"@ + u.bucket + "/objects/"@ + base64_url_safe(
        encode_utf8(key),
    );
    assert("authorization"@[0] == 'a');
    assert("content-type"@[0] == 'c');
    assert("content-type"@.len() == 12);
    assert("content-length"@.len() == 14);
    assert(request.url@ == head + "/uploads"@ + "/"@ + upload_id + "/"@ + decimal(part_number));
    assert(head + "/uploads"@ + "/"@ =~= head + "/uploads/"@);
    assert(header_entries(request.headers).dom() =~= set![
        "authorization"@,
        "content-type"@,
        "content-length"@,
    ]);
}

/// The request that ends an upload goes to the upload that it is given.
pub proof fn lemma_complete_request(
    request: Request,
    u: UploaderView,
    key: Seq<char>,
    upload_id: Seq<char>,
    now: int,
)
    requires
        is_complete_request(request, u, key, upload_id, now),
    ensures
        request.method == Method::Post,
        request.url@ == upload_host(u.region) + "/buckets/"@ + u.bucket + "/objects/"@
            + base64_url_safe(encode_utf8(key)) + "/uploads/"@ + upload_id,
        header_entries(request.headers).dom() == set!["authorization"@, "content-type"@],
        header_entries(request.headers)["authorization"@] == seq![
            encode_utf8("UpToken "@ + token_at(u, key, now)),
        ],
        header_entries(request.headers)["content-type"@] == seq![encode_utf8("application/json"@)],
        u.debug ==> (request.log matches Some(line) && line@ == "key: "@ + key + ", token: "@
            + token_at(u, key, now)),
        !u.debug ==> request.log is None,
{
    reveal_strlit("authorization");
    reveal_strlit("content-type");
    lemma_slash();
    let head = upload_host(u.region) + "/buckets/"@ + u.bucket + "/objects/"@ + base64_url_safe(
        encode_utf8(key),
    );
    assert("authorization"@[0] == 'a');
    assert("content-type"@[0] == 'c');
    assert(head + "/uploads"@ + "/"@ =~= head + "/uploads/"@);
    assert(header_entries(request.headers).dom() =~= set!["authorization"@, "content-type"@]);
}

/// The request that cancels an upload goes to the upload that it is given.
pub proof fn lemma_abort_request(
    request: Request,
    u: UploaderView,
    key: Seq<char>,
    upload_id: Seq<char>,
    now: int,
)
    requires
        is_abort_request(request, u, key, upload_id, now),
    ensures
        request.method == Method::Delete,
        request.url@ == upload_host(u.region) + "/buckets/"@ + u.bucket + "/objects/"@
            + base64_url_safe(encode_utf8(key)) + "/uploads/"@ + upload_id,
        header_entries(request.headers).dom() == set!["authorization"@],
        header_entries(request.headers)["authorization"@] == seq![
            encode_utf8("UpToken "@ + token_at(u, key, now)),
        ],
        u.debug ==> (request.log matches Some(line) && line@ == "key: "@ + key + ", token: "@
            + token_at(u, key, now)),
        !u.debug ==> request.log is None,
{
    lemma_slash();
    let head = upload_host(u.region) + "/buckets/"@ + u.bucket + "/objects/"@ + base64_url_safe(
        encode_utf8(key),
    );
    assert(head + "/uploads"@ + "/"@ =~= head + "/uploads/"@);
    assert(header_entries(request.headers).dom() =~= set!["authorization"@]);
}

proof fn lemma_slash()
    ensures
        "/uploads"@ + "/"@ == "/uploads/"@,
{
    reveal_strlit("/uploads");
    reveal_strlit("/");
    reveal_strlit("/uploads/");
    assert("/uploads"@ + "/"@ =~= "/uploads/"@);
}

/// Requests to different uploads of one object have different addresses, and so
/// have the requests for different parts of one upload.
pub proof fn lemma_uploads_are_told_apart(
    a: Request,
    b: Request,
    u: UploaderView,
    key: Seq<char>,
    id_a: Seq<char>,
    id_b: Seq<char>,
    now_a: int,
    now_b: int,
)
    requires
        a.url@ == b.url@,
    ensures
        is_abort_request(a, u, key, id_a, now_a) && is_abort_request(b, u, key, id_b, now_b)
            ==> id_a == id_b,
        is_complete_request(a, u, key, id_a, now_a) && is_complete_request(b, u, key, id_b, now_b)
            ==> id_a == id_b,
        is_complete_request(a, u, key, id_a, now_a) && is_abort_request(b, u, key, id_b, now_b)
            ==> id_a == id_b,
        forall|n: int, size_a: int, size_b: int|
            (#[trigger] is_part_request(a, u, key, id_a, n, size_a, now_a))
                && #[trigger] is_part_request(b, u, key, id_b, n, size_b, now_b) ==> id_a == id_b,
        forall|n: int, m: int, size_a: int, size_b: int|
            (#[trigger] is_part_request(a, u, key, id_a, n, size_a, now_a))
                && #[trigger] is_part_request(b, u, key, id_a, m, size_b, now_b) && n >= 0 && m
                >= 0 ==> n == m,
{
    let head = upload_host(u.region) + "/buckets/"@ + u.bucket + "/objects/"@ + base64_url_safe(
        encode_utf8(key),
    ) + "/uploads/"@;
    let h = head.len() as int;
    assert((head + id_a).skip(h) =~= id_a);
    assert((head + id_b).skip(h) =~= id_b);
    if is_abort_request(a, u, key, id_a, now_a) {
        lemma_abort_request(a, u, key, id_a, now_a);
    }
    if is_abort_request(b, u, key, id_b, now_b) {
        lemma_abort_request(b, u, key, id_b, now_b);
    }
    if is_complete_request(a, u, key, id_a, now_a) {
        lemma_complete_request(a, u, key, id_a, now_a);
    }
    if is_complete_request(b, u, key, id_b, now_b) {
        lemma_complete_request(b, u, key, id_b, now_b);
    }
    assert forall|n: int, size_a: int, size_b: int|
        (#[trigger] is_part_request(a, u, key, id_a, n, size_a, now_a))
            && #[trigger] is_part_request(b, u, key, id_b, n, size_b, now_b) implies id_a
        == id_b by {
        lemma_part_request(a, u, key, id_a, n, size_a, now_a);
        lemma_part_request(b, u, key, id_b, n, size_b, now_b);
        let t = a.url@.len() - decimal(n).len() - "/"@.len();
        assert(a.url@.subrange(h, t) =~= id_a);
        assert(b.url@.subrange(h, t) =~= id_b);
    }
    assert forall|n: int, m: int, size_a: int, size_b: int|
        (#[trigger] is_part_request(a, u, key, id_a, n, size_a, now_a))
            && #[trigger] is_part_request(b, u, key, id_a, m, size_b, now_b) && n >= 0 && m
            >= 0 implies n == m by {
        lemma_part_request(a, u, key, id_a, n, size_a, now_a);
        lemma_part_request(b, u, key, id_a, m, size_b, now_b);
        let t = (head + id_a + "/"@).len() as int;
        assert(a.url@.skip(t) =~= decimal(n));
        assert(b.url@.skip(t) =~= decimal(m));
        lemma_decimal_reads_back(n);
        lemma_decimal_reads_back(m);
    }
}

/// The form of a direct upload carries the media type that it is given, both as
/// the type of the file and as the only header of the file, the file name of the
/// key, and the key, the token and the file name as its text fields.
pub proof fn lemma_form(
    form: UploadForm,
    u: UploaderView,
    key: Seq<char>,
    essence: Seq<char>,
    now: int,
)
    requires
        is_form_at(form, u, key, essence, now),
    ensures
        form.file.mime@ == essence,
        header_entries(form.file.headers).dom() == set!["content-type"@],
        header_entries(form.file.headers)["content-type"@] == seq![encode_utf8(essence)],
        form.file.field@ == "file"@,
        form.fields@.len() == 3,
        form.fields@[0].name@ == "key"@,
        form.fields@[0].value@ == key,
        form.fields@[1].name@ == "token"@,
        form.fields@[1].value@ == token_at(u, key, now),
        form.fields@[2].name@ == "filename"@,
        form.fields@[2].value@ == form.file.file_name@,
        form.file.file_name@.len() <= key.len(),
        !form.file.file_name@.contains('/'),
        key.skip(key.len() - form.file.file_name@.len()) == form.file.file_name@,
        form.file.file_name@.len() < key.len() ==> key[key.len() - form.file.file_name@.len() - 1]
            == '/',
        u.debug ==> (form.log matches Some(line) && line@ == "key: "@ + key + ", token: "@
            + token_at(u, key, now)),
        !u.debug ==> form.log is None,
{
    assert(header_entries(form.file.headers).dom() =~= set!["content-type"@]);
    lemma_last_segment(key);
    let name = last_segment(key);
    assert(key.skip(key.len() - name.len()) =~= name);
}

/// Forms for different media types differ in the type of the file and in its
/// header.
pub proof fn lemma_forms_tell_media_types(
    a: UploadForm,
    b: UploadForm,
    u: UploaderView,
    key: Seq<char>,
    essence_a: Seq<char>,
    essence_b: Seq<char>,
    now: int,
)
    requires
        is_form_at(a, u, key, essence_a, now),
        is_form_at(b, u, key, essence_b, now),
        essence_a != essence_b,
    ensures
        a.file.mime@ != b.file.mime@,
        header_entries(a.file.headers)["content-type"@] != header_entries(
            b.file.headers,
        )["content-type"@],
{
    lemma_form(a, u, key, essence_a, now);
    lemma_form(b, u, key, essence_b, now);
    encode_utf8_decode_utf8(essence_a);
    encode_utf8_decode_utf8(essence_b);
    if header_entries(a.file.headers)["content-type"@] == header_entries(
        b.file.headers,
    )["content-type"@] {
        assert(seq![encode_utf8(essence_a)][0] == seq![encode_utf8(essence_b)][0]);
    }
}

/// A status from 200 to 299 ends a request with success; any other has the body
/// read and is kept together with what was asked; an error of the transport is
/// handed on.
pub proof fn lemma_reply<E>(stage: Stage, reply: Result<u16, E>)
    ensures
        match reply {
            Ok(status) => if 200 <= status <= 299 {
                reply_step(stage, reply) == ReplyStep::<E>::Finished(Ok(()))
            } else {
                reply_step(stage, reply) matches ReplyStep::ReadBody(rejection)
                    && rejection.stage == stage && rejection.status == status
            },
            Err(e) => reply_step(stage, reply) == ReplyStep::Finished(
                Err::<(), UploadError<E>>(UploadError::Outside(e)),
            ),
        },
{
}

/// A refusal is reported with its status and with the whole body, or with the
/// words `Unknown error` where the body could not be read.
pub proof fn lemma_refusal_text(failure: Failure, rejection: Rejection, body: Option<String>)
    requires
        reports_rejection(failure, rejection, body),
    ensures
        ({
            let reason = match body {
                Some(text) => text@,
                None => "Unknown error"@,
            };
            &&& rejection.stage == Stage::Upload ==> failure_text(failure)
                == "Failed to upload file: "@ + decimal(rejection.status as int) + " "@ + reason
            &&& rejection.stage == Stage::Complete ==> failure_text(failure)
                == "Failed to complete_part_upload: "@ + decimal(rejection.status as int) + " "@
                + reason
        }),
{
}

/// A cancelled upload is reported with the whole cause.
pub proof fn lemma_cancellation_text(cause: String)
    ensures
        failure_text(Failure::PartCancelled { cause }) == "上传任务发生异常，已取消, "@ + cause@,
{
}

/// Any digest and any policy are put together whole, with the access key first.
pub proof fn lemma_assembled_token(access_key: Seq<char>, digest: Seq<u8>, policy: Seq<char>)
    ensures
        token_text(access_key, digest, policy) == access_key + ":"@ + base64_url_safe(digest)
            + ":"@ + policy,
{
}

/// Any token is carried whole: behind the word `UpToken` in the one header that
/// the requests of an upload in parts share, and in the line that is printed.
pub proof fn lemma_carried_token(u: UploaderView, key: Seq<char>, token: Seq<char>)
    ensures
        authorization(token) == "UpToken "@ + token,
        part_headers(token).dom() == set!["authorization"@],
        part_headers(token)["authorization"@] == seq![encode_utf8("UpToken "@ + token)],
        u.debug ==> token_log(u, key, token) == Some("key: "@ + key + ", token: "@ + token),
        !u.debug ==> token_log(u, key, token) is None,
{
    assert(part_headers(token).dom() =~= set!["authorization"@]);
}

/// A key stands in an address as the Base64 text of all of its bytes.
pub proof fn lemma_encoded_key_is_whole(key: Seq<char>)
    ensures
        encoded_key(key) == base64_url_safe(encode_utf8(key)),
{
}

} // verus!
