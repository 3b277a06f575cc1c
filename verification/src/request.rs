//! The requests of an upload in parts.

use crate::encoding::{clock_reading, unix_now};
use crate::headers::{
    header_entries, insert_header, is_header_char, is_header_text, HeaderEntries,
};
use crate::text::{decimal, decimal_signed, decimal_unsigned, digits};
use crate::uploader::{
    can_sign_at, headers_of_token, lemma_token_fits_header, part_headers, text_of, token_at,
    token_log, uploads_url, QiniuUploader, UploaderView, TOKEN_LIFETIME,
};
use reqwest::header::{HeaderMap, HeaderValue};
use vstd::prelude::*;
use vstd::utf8::encode_utf8;

verus! {

/// The method of a request.
#[derive(Debug, Clone, Copy, PartialEq, Eq, Structural)]
pub enum Method {
    Post,
    Put,
    Delete,
}

/// A request to be sent, without its body.
#[derive(Debug)]
pub struct Request {
    pub method: Method,
    pub url: String,
    pub headers: HeaderMap<HeaderValue>,
    /// A line to print before sending.
    pub log: Option<String>,
}

/// The answer to the start of an upload in parts.
#[derive(Debug)]
pub struct InitialPartUploadResponse {
    pub upload_id: String,
    pub expire_at: i64,
}

/// The answer to a part.
#[derive(Debug)]
pub struct PartUploadResponse {
    pub etag: String,
    pub md5: String,
}

/// One part in the list that ends an upload in parts.
#[derive(Debug)]
pub struct CompletePartUploadParam {
    pub etag: String,
    pub part_number: i64,
}

/// The request that ends an upload in parts, with the list of parts that its
/// body holds.
#[derive(Debug)]
pub struct CompleteRequest {
    pub request: Request,
    pub parts: Vec<CompletePartUploadParam>,
}

/// The address of one upload in parts.
pub open spec fn upload_url(u: UploaderView, key: Seq<char>, upload_id: Seq<char>) -> Seq<char> {
    uploads_url(u, key) + "/"@ + upload_id
}

/// The address of one part.
pub open spec fn part_url(
    u: UploaderView,
    key: Seq<char>,
    upload_id: Seq<char>,
    part_number: int,
) -> Seq<char> {
    upload_url(u, key, upload_id) + "/"@ + decimal(part_number)
}

/// `headers` with the given header set to one value.
pub open spec fn with_header(
    headers: HeaderEntries,
    name: Seq<char>,
    value: Seq<char>,
) -> HeaderEntries {
    headers.insert(name, seq![encode_utf8(value)])
}

/// The headers of a part of `size` bytes.
pub open spec fn data_headers(token: Seq<char>, size: int) -> HeaderEntries {
    with_header(
        with_header(part_headers(token), "content-type"@, "application/octet-stream"@),
        "content-length"@,
        decimal(size),
    )
}

/// The headers of the request that ends an upload in parts.
pub open spec fn list_headers(token: Seq<char>) -> HeaderEntries {
    with_header(part_headers(token), "content-type"@, "application/json"@)
}

/// Whether a request has the given parts, and prints the line of `token`.
pub open spec fn is_request(
    request: Request,
    method: Method,
    url: Seq<char>,
    headers: HeaderEntries,
    log: Option<Seq<char>>,
) -> bool {
    &&& request.method == method
    &&& request.url@ == url
    &&& header_entries(request.headers) == headers
    &&& text_of(request.log) == log
}

/// Whether `request` starts an upload in parts, signed at the time `now`.
pub open spec fn is_initial_request(
    request: Request,
    u: UploaderView,
    key: Seq<char>,
    now: int,
) -> bool {
    let token = token_at(u, key, now);
    is_request(
        request,
        Method::Post,
        uploads_url(u, key),
        part_headers(token),
        token_log(u, key, token),
    )
}

/// Whether `request` stores a part of `size` bytes, signed at the time `now`.
pub open spec fn is_part_request(
    request: Request,
    u: UploaderView,
    key: Seq<char>,
    upload_id: Seq<char>,
    part_number: int,
    size: int,
    now: int,
) -> bool {
    let token = token_at(u, key, now);
    is_request(
        request,
        Method::Put,
        part_url(u, key, upload_id, part_number),
        data_headers(token, size),
        token_log(u, key, token),
    )
}

/// Whether `request` ends an upload in parts, signed at the time `now`.
pub open spec fn is_complete_request(
    request: Request,
    u: UploaderView,
    key: Seq<char>,
    upload_id: Seq<char>,
    now: int,
) -> bool {
    let token = token_at(u, key, now);
    is_request(
        request,
        Method::Post,
        upload_url(u, key, upload_id),
        list_headers(token),
        token_log(u, key, token),
    )
}

/// Whether `request` cancels an upload in parts, signed at the time `now`.
pub open spec fn is_abort_request(
    request: Request,
    u: UploaderView,
    key: Seq<char>,
    upload_id: Seq<char>,
    now: int,
) -> bool {
    let token = token_at(u, key, now);
    is_request(
        request,
        Method::Delete,
        upload_url(u, key, upload_id),
        part_headers(token),
        token_log(u, key, token),
    )
}

/// `mime::APPLICATION_OCTET_STREAM.essence_str()`: the text of the media type
/// of plain bytes.
#[verifier::external_body]
fn octet_stream() -> (essence: String)
    ensures
        essence@ == "application/octet-stream"@,
{
    mime::APPLICATION_OCTET_STREAM.essence_str().to_string()
}

/// `mime::APPLICATION_JSON.essence_str()`: the text of the media type of JSON.
#[verifier::external_body]
fn json() -> (essence: String)
    ensures
        essence@ == "application/json"@,
{
    mime::APPLICATION_JSON.essence_str().to_string()
}

proof fn lemma_decimal_fits_header(n: int)
    ensures
        is_header_text(decimal(n)),
{
    if n < 0 {
        lemma_digits_fit_header((-n) as nat);
    } else {
        lemma_digits_fit_header(n as nat);
    }
}

proof fn lemma_digits_fit_header(n: nat)
    ensures
        is_header_text(digits(n)),
    decreases n,
{
    if n >= 10 {
        lemma_digits_fit_header(n / 10);
        let before = digits(n / 10);
        assert forall|i: int| 0 <= i < digits(n).len() implies is_header_char(
            #[trigger] digits(n)[i],
        ) by {
            if i < before.len() {
                assert(digits(n)[i] == before[i]);
            }
        }
    }
}

impl QiniuUploader {
    fn upload_address_of(&self, key: &str, upload_id: &str) -> (url: String)
        ensures
            url@ == upload_url(self@, key@, upload_id@),
    {
        let mut url = self.uploads_address(key);
        url.append("/");
        url.append(upload_id);
        url
    }

    /// A request that carries the token signed at the time `now`.
    fn signed_request_at(&self, method: Method, url: String, key: &str, now: i64) -> (request:
        Request)
        requires
            can_sign_at(now),
            is_header_text(self@.access_key),
        ensures
            ({
                let token = token_at(self@, key@, now as int);
                is_request(
                    request,
                    method,
                    url@,
                    part_headers(token),
                    token_log(self@, key@, token),
                )
            }),
    {
        let token = self.get_upload_token_at(key, now);
        let log = self.log_of_token(key, token.as_str());
        proof {
            lemma_token_fits_header(self@, key@, now + TOKEN_LIFETIME);
        }
        let headers = headers_of_token(token.as_str());
        Request { method, url, headers, log }
    }

    /// The request that starts an upload of `key` in parts, signed at the time
    /// `now`, see <https://developer.qiniu.com/kodo/6365/initialize-multipartupload>.
    pub fn initial_part_upload_at(&self, key: &str, now: i64) -> (request: Request)
        requires
            can_sign_at(now),
            is_header_text(self@.access_key),
        ensures
            is_initial_request(request, self@, key@, now as int),
    {
        let url = self.uploads_address(key);
        self.signed_request_at(Method::Post, url, key, now)
    }

    /// The request that starts an upload of `key` in parts.
    pub fn initial_part_upload(&self, key: &str) -> (request: Request)
        requires
            is_header_text(self@.access_key),
        ensures
            exists|now: i64|
                #[trigger] clock_reading(now as int) && is_initial_request(
                    request,
                    self@,
                    key@,
                    now as int,
                ),
    {
        let now = unix_now();
        self.initial_part_upload_at(key, now)
    }

    /// The request that stores one part, signed at the time `now`, see
    /// <https://developer.qiniu.com/kodo/6366/upload-part>.
    pub fn part_upload_no_progress_bar_at(
        &self,
        key: &str,
        upload_id: &str,
        part_number: i32,
        file_size: usize,
        now: i64,
    ) -> (request: Request)
        requires
            can_sign_at(now),
            is_header_text(self@.access_key),
        ensures
            is_part_request(
                request,
                self@,
                key@,
                upload_id@,
                part_number as int,
                file_size as int,
                now as int,
            ),
    {
        let mut url = self.upload_address_of(key, upload_id);
        url.append("/");
        let number = decimal_signed(part_number as i64);
        url.append(number.as_str());
        let mut request = self.signed_request_at(Method::Put, url, key, now);
        let content_type = octet_stream();
        let length = decimal_unsigned(file_size as u64);
        proof {
            reveal_strlit("content-type");
            reveal_strlit("content-length");
            reveal_strlit("application/octet-stream");
            lemma_decimal_fits_header(file_size as int);
        }
        insert_header(&mut request.headers, "content-type", content_type.as_str());
        insert_header(&mut request.headers, "content-length", length.as_str());
        request
    }

    /// The request that stores one part.
    pub fn part_upload_no_progress_bar(
        &self,
        key: &str,
        upload_id: &str,
        part_number: i32,
        file_size: usize,
    ) -> (request: Request)
        requires
            is_header_text(self@.access_key),
        ensures
            exists|now: i64|
                #[trigger] clock_reading(now as int) && is_part_request(
                    request,
                    self@,
                    key@,
                    upload_id@,
                    part_number as int,
                    file_size as int,
                    now as int,
                ),
    {
        let now = unix_now();
        self.part_upload_no_progress_bar_at(key, upload_id, part_number, file_size, now)
    }

    /// The request that ends an upload in parts, signed at the time `now`, see
    /// <https://developer.qiniu.com/kodo/6368/complete-multipart-upload>.
    pub fn complete_part_upload_at(
        &self,
        key: &str,
        upload_id: &str,
        parts: Vec<CompletePartUploadParam>,
        now: i64,
    ) -> (end: CompleteRequest)
        requires
            can_sign_at(now),
            is_header_text(self@.access_key),
        ensures
            is_complete_request(end.request, self@, key@, upload_id@, now as int),
            end.parts == parts,
    {
        let url = self.upload_address_of(key, upload_id);
        let mut request = self.signed_request_at(Method::Post, url, key, now);
        let content_type = json();
        proof {
            reveal_strlit("content-type");
            reveal_strlit("application/json");
        }
        insert_header(&mut request.headers, "content-type", content_type.as_str());
        CompleteRequest { request, parts }
    }

    /// The request that ends an upload in parts.
    pub fn complete_part_upload(
        &self,
        key: &str,
        upload_id: &str,
        parts: Vec<CompletePartUploadParam>,
    ) -> (end: CompleteRequest)
        requires
            is_header_text(self@.access_key),
        ensures
            exists|now: i64|
                #[trigger] clock_reading(now as int) && is_complete_request(
                    end.request,
                    self@,
                    key@,
                    upload_id@,
                    now as int,
                ),
            end.parts == parts,
    {
        let now = unix_now();
        self.complete_part_upload_at(key, upload_id, parts, now)
    }

    /// The request that cancels an upload in parts, signed at the time `now`, see
    /// <https://developer.qiniu.com/kodo/6367/abort-multipart-upload>.
    pub fn part_abort_at(&self, key: &str, upload_id: &str, now: i64) -> (request: Request)
        requires
            can_sign_at(now),
            is_header_text(self@.access_key),
        ensures
            is_abort_request(request, self@, key@, upload_id@, now as int),
    {
        let url = self.upload_address_of(key, upload_id);
        self.signed_request_at(Method::Delete, url, key, now)
    }

    /// The request that cancels an upload in parts.
    pub fn part_abort(&self, key: &str, upload_id: &str) -> (request: Request)
        requires
            is_header_text(self@.access_key),
        ensures
            exists|now: i64|
                #[trigger] clock_reading(now as int) && is_abort_request(
                    request,
                    self@,
                    key@,
                    upload_id@,
                    now as int,
                ),
    {
        let now = unix_now();
        self.part_abort_at(key, upload_id, now)
    }
}

} // verus!
