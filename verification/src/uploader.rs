//! The uploader: its credentials, the tokens it signs and the addresses and
//! headers of its requests.

use crate::encoding::{
    base64_url_safe, clock_reading, encode_string, hmac_sha1, hmac_sha1_digest, is_base64_char,
    lemma_base64_chars, lemma_base64_injective, unix_now,
};
use crate::headers::{
    fits_header, header_entries, insert_header, is_header_char, is_header_text, new_headers,
    HeaderEntries,
};
use crate::policy::{put_policy, put_policy_text};
use crate::region::{upload_host, QiniuRegionEnum};
use crate::text::converts_to;
use reqwest::header::{HeaderMap, HeaderValue};
use vstd::prelude::*;
use vstd::utf8::{encode_utf8, encode_utf8_decode_utf8};

verus! {

/// For how many seconds a token is valid.
pub const TOKEN_LIFETIME: i64 = 3600;

/// An uploader to one bucket.
#[derive(Debug)]
pub struct QiniuUploader {
    access_key: String,
    secret_key: String,
    bucket: String,
    region: QiniuRegionEnum,
    debug: bool,
}

/// What an uploader holds.
pub struct UploaderView {
    pub access_key: Seq<char>,
    pub secret_key: Seq<char>,
    pub bucket: Seq<char>,
    pub region: QiniuRegionEnum,
    pub debug: bool,
}

impl View for QiniuUploader {
    type V = UploaderView;

    closed spec fn view(&self) -> UploaderView {
        UploaderView {
            access_key: self.access_key@,
            secret_key: self.secret_key@,
            bucket: self.bucket@,
            region: self.region,
            debug: self.debug,
        }
    }
}

impl Clone for QiniuUploader {
    fn clone(&self) -> (copy: Self)
        ensures
            copy@ == self@,
    {
        QiniuUploader {
            access_key: self.access_key.clone(),
            secret_key: self.secret_key.clone(),
            bucket: self.bucket.clone(),
            region: self.region,
            debug: self.debug,
        }
    }
}

/// The policy of an upload of `key`, as it stands in a token.
pub open spec fn encoded_policy(u: UploaderView, key: Seq<char>, deadline: int) -> Seq<char> {
    base64_url_safe(encode_utf8(put_policy_text(u.bucket, key, deadline)))
}

/// The parts of a token: who signs, the signature and what is signed.
pub open spec fn token_text(
    access_key: Seq<char>,
    digest: Seq<u8>,
    policy: Seq<char>,
) -> Seq<char> {
    access_key + ":"@ + base64_url_safe(digest) + ":"@ + policy
}

/// The digest of the encoded policy under the secret key.
pub open spec fn token_digest(u: UploaderView, key: Seq<char>, deadline: int) -> Seq<u8> {
    hmac_sha1_digest(
        encode_utf8(u.secret_key),
        encode_utf8(encoded_policy(u, key, deadline)),
    )
}

/// The token that lets `key` be uploaded until `deadline`: the encoded policy,
/// signed with the secret key.
pub open spec fn upload_token(u: UploaderView, key: Seq<char>, deadline: int) -> Seq<char> {
    token_text(u.access_key, token_digest(u, key, deadline), encoded_policy(u, key, deadline))
}

/// The token that is signed at the time `now`.
pub open spec fn token_at(u: UploaderView, key: Seq<char>, now: int) -> Seq<char> {
    upload_token(u, key, now + TOKEN_LIFETIME)
}

/// The authorization of the requests of an upload in parts.
pub open spec fn authorization(token: Seq<char>) -> Seq<char> {
    "UpToken "@ + token
}

/// The headers that every request of an upload in parts carries.
pub open spec fn part_headers(token: Seq<char>) -> HeaderEntries {
    HeaderEntries::empty().insert("authorization"@, seq![encode_utf8(authorization(token))])
}

/// An object key as it stands in an address.
pub open spec fn encoded_key(key: Seq<char>) -> Seq<char> {
    base64_url_safe(encode_utf8(key))
}

/// The address of the uploads in parts of one object.
pub open spec fn uploads_url(u: UploaderView, key: Seq<char>) -> Seq<char> {
    upload_host(u.region) + "/buckets/"@ + u.bucket + "/objects/"@ + encoded_key(key) + "/uploads"@
}

/// The line that is printed for a token where debugging is on.
pub open spec fn token_log(u: UploaderView, key: Seq<char>, token: Seq<char>) -> Option<Seq<char>> {
    if u.debug {
        Some("key: "@ + key + ", token: "@ + token)
    } else {
        None
    }
}

/// The characters of an optional text.
pub open spec fn text_of(text: Option<String>) -> Option<Seq<char>> {
    match text {
        Some(s) => Some(s@),
        None => None,
    }
}

/// Whether `now` leaves room for the lifetime of a token.
pub open spec fn can_sign_at(now: i64) -> bool {
    now + TOKEN_LIFETIME <= i64::MAX
}

impl QiniuUploader {
    /// Makes an uploader; the region is `z0` where none is given.
    pub fn new<A: Into<String>, S: Into<String>, B: Into<String>>(
        access_key: A,
        secret_key: S,
        bucket: B,
        region: Option<QiniuRegionEnum>,
        debug: bool,
    ) -> (uploader: Self)
        ensures
            converts_to(access_key, uploader@.access_key),
            converts_to(secret_key, uploader@.secret_key),
            converts_to(bucket, uploader@.bucket),
            uploader@.region == (match region {
                Some(given) => given,
                None => QiniuRegionEnum::Z0,
            }),
            uploader@.debug == debug,
    {
        let region = match region {
            Some(given) => given,
            None => QiniuRegionEnum::Z0,
        };
        QiniuUploader {
            access_key: access_key.into(),
            secret_key: secret_key.into(),
            bucket: bucket.into(),
            region,
            debug,
        }
    }

    /// Whether debugging output is wanted.
    pub fn debug(&self) -> (r: bool)
        ensures
            r == self@.debug,
    {
        self.debug
    }

    /// Puts a token together from the digest of an encoded policy.
    pub fn assemble_token(&self, digest: &[u8], policy: &str) -> (token: String)
        ensures
            token@ == token_text(self@.access_key, digest@, policy@),
    {
        let mut sign = String::new();
        encode_string(digest, &mut sign);
        let mut token = self.access_key.clone();
        token.append(":");
        token.append(sign.as_str());
        token.append(":");
        token.append(policy);
        assert(token@ =~= token_text(self@.access_key, digest@, policy@));
        token
    }

    /// The token for an upload of `key`, signed at the time `now`.
    pub fn get_upload_token_at(&self, key: &str, now: i64) -> (token: String)
        requires
            can_sign_at(now),
        ensures
            token@ == token_at(self@, key@, now as int),
            token_digest(self@, key@, now + TOKEN_LIFETIME).len() == 20,
            base64_url_safe(token_digest(self@, key@, now + TOKEN_LIFETIME)).len() == 28,
    {
        let deadline: i64 = now + TOKEN_LIFETIME;
        let policy = put_policy(self.bucket.as_str(), key, deadline);
        let mut buf = String::new();
        encode_string(policy.as_str().as_bytes(), &mut buf);
        assert(buf@ == encoded_policy(self@, key@, deadline as int));
        let digest = hmac_sha1(self.secret_key.as_str().as_bytes(), buf.as_str().as_bytes());
        self.assemble_token(digest.as_slice(), buf.as_str())
    }

    /// The token for an upload of `key`, signed now.
    pub fn get_upload_token(&self, key: &str) -> (token: String)
        ensures
            exists|now: i64|
                #[trigger] clock_reading(now as int) && token@ == token_at(
                    self@,
                    key@,
                    now as int,
                ) && token_digest(self@, key@, now + TOKEN_LIFETIME).len() == 20,
    {
        let now = unix_now();
        self.get_upload_token_at(key, now)
    }

    /// The line to print for a token, where debugging is on.
    pub fn log_of_token(&self, key: &str, token: &str) -> (log: Option<String>)
        ensures
            text_of(log) == token_log(self@, key@, token@),
    {
        if self.debug {
            let mut line = String::from("key: ");
            line.append(key);
            line.append(", token: ");
            line.append(token);
            Some(line)
        } else {
            None
        }
    }

    /// The authorization for an upload of `key` in parts, signed at the time `now`.
    pub fn get_part_upload_token_at(&self, key: &str, now: i64) -> (text: String)
        requires
            can_sign_at(now),
        ensures
            text@ == authorization(token_at(self@, key@, now as int)),
    {
        let token = self.get_upload_token_at(key, now);
        authorization_of(token.as_str())
    }

    /// The authorization for an upload of `key` in parts, signed now.
    pub fn get_part_upload_token(&self, key: &str) -> (text: String)
        ensures
            exists|now: i64|
                #[trigger] clock_reading(now as int) && text@ == authorization(
                    token_at(self@, key@, now as int),
                ),
    {
        let now = unix_now();
        self.get_part_upload_token_at(key, now)
    }

    /// An object key as it stands in an address.
    pub fn get_base64encode_key(&self, key: &str) -> (text: String)
        ensures
            text@ == encoded_key(key@),
    {
        let mut res = String::new();
        encode_string(key.as_bytes(), &mut res);
        assert(res@ =~= encoded_key(key@));
        res
    }

    /// The headers that every request of an upload in parts carries, signed at
    /// the time `now`.
    pub fn get_part_headers_at(&self, key: &str, now: i64) -> (headers: HeaderMap<HeaderValue>)
        requires
            can_sign_at(now),
            is_header_text(self@.access_key),
        ensures
            header_entries(headers) == part_headers(token_at(self@, key@, now as int)),
    {
        let token = self.get_upload_token_at(key, now);
        proof {
            lemma_token_fits_header(self@, key@, now + TOKEN_LIFETIME);
        }
        headers_of_token(token.as_str())
    }

    /// The headers that every request of an upload in parts carries, signed now.
    pub fn get_part_headers(&self, key: &str) -> (headers: HeaderMap<HeaderValue>)
        requires
            is_header_text(self@.access_key),
        ensures
            exists|now: i64|
                #[trigger] clock_reading(now as int) && header_entries(headers) == part_headers(
                    token_at(self@, key@, now as int),
                ),
    {
        let now = unix_now();
        self.get_part_headers_at(key, now)
    }

    /// Whether the access key can stand in a header, as the requests of an
    /// upload in parts need it to.
    pub fn can_authorize(&self) -> (r: bool)
        ensures
            r == is_header_text(self@.access_key),
    {
        fits_header(self.access_key.as_str())
    }

    /// The address that direct uploads are sent to.
    pub fn upload_address(&self) -> (url: String)
        ensures
            url@ == upload_host(self@.region),
    {
        self.region.get_upload_host()
    }

    /// The address of the uploads in parts of one object.
    pub fn uploads_address(&self, key: &str) -> (url: String)
        ensures
            url@ == uploads_url(self@, key@),
    {
        let mut url = self.region.get_upload_host();
        url.append("/buckets/");
        url.append(self.bucket.as_str());
        url.append("/objects/");
        let encoded = self.get_base64encode_key(key);
        url.append(encoded.as_str());
        url.append("/uploads");
        assert(url@ =~= uploads_url(self@, key@));
        url
    }
}

/// The authorization that carries `token`.
pub fn authorization_of(token: &str) -> (text: String)
    ensures
        text@ == authorization(token@),
{
    let mut text = String::from("UpToken ");
    text.append(token);
    text
}

/// The headers that carry `token`.
pub fn headers_of_token(token: &str) -> (headers: HeaderMap<HeaderValue>)
    requires
        is_header_text(token@),
    ensures
        header_entries(headers) == part_headers(token@),
{
    proof {
        reveal_strlit("authorization");
        reveal_strlit("UpToken ");
    }
    let text = authorization_of(token);
    let mut headers = new_headers();
    insert_header(&mut headers, "authorization", text.as_str());
    headers
}

/// A token can stand in a header wherever the access key can: what follows the
/// access key in it is always safe.
pub proof fn lemma_token_fits_header(u: UploaderView, key: Seq<char>, deadline: int)
    ensures
        is_header_text(upload_token(u, key, deadline)) <==> is_header_text(u.access_key),
{
    let policy = encoded_policy(u, key, deadline);
    let digest = token_digest(u, key, deadline);
    let sign = base64_url_safe(digest);
    let token = upload_token(u, key, deadline);
    lemma_base64_chars(digest);
    lemma_base64_chars(encode_utf8(put_policy_text(u.bucket, key, deadline)));
    reveal_strlit(":");
    let a = u.access_key.len() as int;
    assert forall|i: int| a <= i < token.len() implies is_header_char(#[trigger] token[i]) by {
        if i == a || i == a + 1 + sign.len() {
        } else if i < a + 1 + sign.len() {
            assert(token[i] == sign[i - a - 1]);
        } else {
            assert(token[i] == policy[i - a - 2 - sign.len()]);
        }
    }
    assert forall|i: int| 0 <= i < a implies #[trigger] token[i] == u.access_key[i] by {}
    if is_header_text(token) {
        assert forall|i: int| 0 <= i < a implies is_header_char(#[trigger] u.access_key[i]) by {
            assert(token[i] == u.access_key[i]);
        }
    }
}

/// Objects with different keys have different addresses.
pub proof fn lemma_addresses_differ(u: UploaderView, a: Seq<char>, b: Seq<char>)
    requires
        uploads_url(u, a) == uploads_url(u, b),
    ensures
        a == b,
{
    let head = upload_host(u.region) + "/buckets/"@ + u.bucket + "/objects/"@;
    let tail = "/uploads"@;
    let start = head.len() as int;
    let end = uploads_url(u, a).len() - tail.len();
    assert(encoded_key(a) == uploads_url(u, a).subrange(start, end));
    assert(encoded_key(b) == uploads_url(u, b).subrange(start, end));
    lemma_base64_injective(encode_utf8(a), encode_utf8(b));
    encode_utf8_decode_utf8(a);
    encode_utf8_decode_utf8(b);
}

/// An encoded key is one segment of an address: it holds no slash and no other
/// character that an address gives a meaning to.
pub proof fn lemma_encoded_key_is_segment(key: Seq<char>)
    ensures
        forall|i: int|
            0 <= i < encoded_key(key).len() ==> is_base64_char(#[trigger] encoded_key(key)[i]),
{
    lemma_base64_chars(encode_utf8(key));
}

/// The policy of a token is what follows its last colon.
pub proof fn lemma_token_ends_in_policy(u: UploaderView, key: Seq<char>, deadline: int)
    ensures
        ({
            let policy = encoded_policy(u, key, deadline);
            let token = upload_token(u, key, deadline);
            let at = token.len() - policy.len() - 1;
            &&& 0 <= at
            &&& token[at] == ':'
            &&& token.skip(at + 1) == policy
            &&& !policy.contains(':')
        }),
{
    let policy = encoded_policy(u, key, deadline);
    let token = upload_token(u, key, deadline);
    let at = token.len() - policy.len() - 1;
    reveal_strlit(":");
    lemma_base64_chars(encode_utf8(put_policy_text(u.bucket, key, deadline)));
    assert(token[at] == ':');
    assert(token.skip(at + 1) =~= policy);
}

/// Tokens of one uploader that are equal were signed for the same policy.
pub proof fn lemma_token_determines_policy(
    u: UploaderView,
    a: Seq<char>,
    b: Seq<char>,
    deadline_a: int,
    deadline_b: int,
)
    requires
        upload_token(u, a, deadline_a) == upload_token(u, b, deadline_b),
    ensures
        put_policy_text(u.bucket, a, deadline_a) == put_policy_text(u.bucket, b, deadline_b),
{
    let token = upload_token(u, a, deadline_a);
    let policy_a = encoded_policy(u, a, deadline_a);
    let policy_b = encoded_policy(u, b, deadline_b);
    lemma_token_ends_in_policy(u, a, deadline_a);
    lemma_token_ends_in_policy(u, b, deadline_b);
    let at_a = token.len() - policy_a.len() - 1;
    let at_b = token.len() - policy_b.len() - 1;
    if at_a < at_b {
        assert(policy_a[at_b - at_a - 1] == token[at_b]);
        assert(policy_a.contains(':'));
    } else if at_b < at_a {
        assert(policy_b[at_a - at_b - 1] == token[at_a]);
        assert(policy_b.contains(':'));
    }
    let text_a = put_policy_text(u.bucket, a, deadline_a);
    let text_b = put_policy_text(u.bucket, b, deadline_b);
    lemma_base64_injective(encode_utf8(text_a), encode_utf8(text_b));
    encode_utf8_decode_utf8(text_a);
    encode_utf8_decode_utf8(text_b);
}

} // verus!
