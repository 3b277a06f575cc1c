//! The direct upload of a file in one form.

use crate::encoding::{clock_reading, unix_now};
use crate::error::{judge_reply, reply_step, ReplyStep, Stage};
use crate::headers::{
    header_entries, insert_header, is_header_text, new_headers, HeaderEntries,
};
use crate::region::upload_host;
use crate::request::with_header;
use crate::text::{file_name_of, last_segment};
use crate::uploader::{can_sign_at, text_of, token_at, token_log, QiniuUploader, UploaderView};
use reqwest::header::{HeaderMap, HeaderValue};
use vstd::prelude::*;

verus! {

/// The part of a form that holds the file.
#[derive(Debug)]
pub struct FilePart {
    /// The name of the form field.
    pub field: String,
    pub file_name: String,
    /// The essence of the media type of the file.
    pub mime: String,
    pub headers: HeaderMap<HeaderValue>,
}

/// A text field of a form.
#[derive(Debug)]
pub struct TextField {
    pub name: String,
    pub value: String,
}

/// A form to be sent: the file first, then the text fields in order.
#[derive(Debug)]
pub struct UploadForm {
    pub file: FilePart,
    pub fields: Vec<TextField>,
    /// A line to print before sending.
    pub log: Option<String>,
}

/// A direct upload: where the form goes, and what a progress bar counts up to.
#[derive(Debug)]
pub struct DirectUpload {
    pub url: String,
    pub form: UploadForm,
    pub progress: Option<u64>,
}

/// Whether `field` has the given name and value.
pub open spec fn is_field(field: TextField, name: Seq<char>, value: Seq<char>) -> bool {
    field.name@ == name && field.value@ == value
}

/// Whether `form` uploads the object `key` of the given media type with `token`.
pub open spec fn is_form(
    form: UploadForm,
    key: Seq<char>,
    essence: Seq<char>,
    token: Seq<char>,
    log: Option<Seq<char>>,
) -> bool {
    &&& form.file.field@ == "file"@
    &&& form.file.file_name@ == last_segment(key)
    &&& form.file.mime@ == essence
    &&& header_entries(form.file.headers) == with_header(
        HeaderEntries::empty(),
        "content-type"@,
        essence,
    )
    &&& form.fields@.len() == 3
    &&& is_field(form.fields@[0], "key"@, key)
    &&& is_field(form.fields@[1], "token"@, token)
    &&& is_field(form.fields@[2], "filename"@, last_segment(key))
    &&& text_of(form.log) == log
}

/// Whether `form` was made by an uploader at the time `now`.
pub open spec fn is_form_at(
    form: UploadForm,
    u: UploaderView,
    key: Seq<char>,
    essence: Seq<char>,
    now: int,
) -> bool {
    let token = token_at(u, key, now);
    is_form(form, key, essence, token, token_log(u, key, token))
}

impl QiniuUploader {
    /// The form for a direct upload, signed at the time `now`, see
    /// <https://developer.qiniu.com/kodo/1312/upload>.
    pub fn make_multi_part_at(&self, key: &str, essence: &str, now: i64) -> (form: UploadForm)
        requires
            can_sign_at(now),
            is_header_text(essence@),
        ensures
            is_form_at(form, self@, key@, essence@, now as int),
    {
        let token = self.get_upload_token_at(key, now);
        let log = self.log_of_token(key, token.as_str());
        proof {
            reveal_strlit("content-type");
        }
        let mut headers = new_headers();
        insert_header(&mut headers, "content-type", essence);
        let file_name = file_name_of(key);
        let mut fields: Vec<TextField> = Vec::new();
        fields.push(TextField { name: String::from("key"), value: key.to_owned() });
        fields.push(TextField { name: String::from("token"), value: token });
        fields.push(TextField { name: String::from("filename"), value: file_name.clone() });
        let file = FilePart {
            field: String::from("file"),
            file_name,
            mime: essence.to_owned(),
            headers,
        };
        UploadForm { file, fields, log }
    }

    /// The form for a direct upload.
    pub fn make_multi_part(&self, key: &str, essence: &str) -> (form: UploadForm)
        requires
            is_header_text(essence@),
        ensures
            exists|now: i64|
                #[trigger] clock_reading(now as int) && is_form_at(
                    form,
                    self@,
                    key@,
                    essence@,
                    now as int,
                ),
    {
        let now = unix_now();
        self.make_multi_part_at(key, essence, now)
    }

    /// Starts a direct upload with a progress bar over `file_size` bytes.
    ///
    /// `essence` is the essence of the media type of the file.
    pub fn upload_file(&self, key: &str, essence: &str, file_size: usize) -> (upload: DirectUpload)
        requires
            is_header_text(essence@),
        ensures
            upload.url@ == upload_host(self@.region),
            exists|now: i64|
                #[trigger] clock_reading(now as int) && is_form_at(
                    upload.form,
                    self@,
                    key@,
                    essence@,
                    now as int,
                ),
            upload.progress == Some(file_size as u64),
    {
        let mut upload = self.upload_file_no_progress_bar(key, essence);
        upload.progress = Some(file_size as u64);
        upload
    }

    /// Starts a direct upload without a progress bar.
    pub fn upload_file_no_progress_bar(&self, key: &str, essence: &str) -> (upload: DirectUpload)
        requires
            is_header_text(essence@),
        ensures
            upload.url@ == upload_host(self@.region),
            exists|now: i64|
                #[trigger] clock_reading(now as int) && is_form_at(
                    upload.form,
                    self@,
                    key@,
                    essence@,
                    now as int,
                ),
            upload.progress == None::<u64>,
    {
        let form = self.make_multi_part(key, essence);
        DirectUpload { url: self.upload_address(), form, progress: None }
    }
}

/// Decides what the reply to the form of a direct upload leads to: the status of
/// the answer, or the error where none came.
pub fn judge_upload<E>(reply: Result<u16, E>) -> (step: ReplyStep<E>)
    ensures
        step == reply_step(Stage::Upload, reply),
{
    judge_reply(Stage::Upload, reply)
}

} // verus!
