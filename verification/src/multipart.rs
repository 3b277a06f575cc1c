//! The course of an upload in parts: which part comes next, what an answer
//! leads to, and how the upload ends.

use crate::encoding::{clock_reading, unix_now};
use crate::error::{Failure, UploadError};
use crate::headers::is_header_text;
use crate::plan::{
    compute_next_part_size, compute_part_size, lemma_part_count, part_count, part_count_of,
    part_size_of, part_sizes, valid_part_size,
};
use crate::request::{
    is_abort_request, is_complete_request, is_initial_request, is_part_request,
    CompletePartUploadParam, CompleteRequest, InitialPartUploadResponse, PartUploadResponse, Request,
};
use crate::uploader::{can_sign_at, QiniuUploader, UploaderView};
use vstd::prelude::*;

verus! {

/// What became of the request of a part.
pub enum PartReply<E> {
    /// The request could not be sent, or no answer came.
    SendFailed(E),
    /// The answer was read.
    Stored(PartUploadResponse),
    /// The answer could not be read; the text says why.
    Unreadable(String),
}

/// What the reply to a part leads to.
pub enum PartStep<E> {
    /// The part is done with.
    Finished(Result<PartUploadResponse, UploadError<E>>),
    /// The upload is to be cancelled first, by this request.
    Cancel(Request, CancelledPart),
}

/// A part that led to the upload being cancelled.
#[derive(Debug)]
pub struct CancelledPart {
    pub cause: String,
}

/// One part on its way.
#[derive(Debug)]
pub struct PartUpload {
    pub uploader: QiniuUploader,
    pub key: String,
    pub upload_id: String,
    pub number: i32,
    pub size: usize,
    /// What a progress bar for the part counts up to.
    pub progress: Option<u64>,
}

impl PartUpload {
    /// The request that stores the part.
    pub fn request(&self) -> (request: Request)
        requires
            is_header_text(self.uploader@.access_key),
        ensures
            exists|now: i64|
                #[trigger] clock_reading(now as int) && is_part_request(
                    request,
                    self.uploader@,
                    self.key@,
                    self.upload_id@,
                    self.number as int,
                    self.size as int,
                    now as int,
                ),
    {
        self.uploader.part_upload_no_progress_bar(
            self.key.as_str(),
            self.upload_id.as_str(),
            self.number,
            self.size,
        )
    }

    /// Decides what a reply that comes in at the time `now` leads to: an answer
    /// that cannot be read cancels the whole upload, a request that was not
    /// answered does not.
    pub fn on_reply_at<E>(&self, reply: PartReply<E>, now: i64) -> (step: PartStep<E>)
        requires
            is_header_text(self.uploader@.access_key),
            can_sign_at(now),
        ensures
            match reply {
                PartReply::SendFailed(e) => step == PartStep::<E>::Finished(
                    Err(UploadError::Outside(e)),
                ),
                PartReply::Stored(response) => step == PartStep::<E>::Finished(Ok(response)),
                PartReply::Unreadable(cause) => step matches PartStep::Cancel(request, part)
                    && part.cause == cause && is_abort_request(
                    request,
                    self.uploader@,
                    self.key@,
                    self.upload_id@,
                    now as int,
                ),
            },
    {
        match reply {
            PartReply::SendFailed(e) => PartStep::Finished(Err(UploadError::Outside(e))),
            PartReply::Stored(response) => PartStep::Finished(Ok(response)),
            PartReply::Unreadable(cause) => {
                let request = self.uploader.part_abort_at(
                    self.key.as_str(),
                    self.upload_id.as_str(),
                    now,
                );
                PartStep::Cancel(request, CancelledPart { cause })
            },
        }
    }

    /// Decides what a reply leads to.
    pub fn on_reply<E>(&self, reply: PartReply<E>) -> (step: PartStep<E>)
        requires
            is_header_text(self.uploader@.access_key),
        ensures
            match reply {
                PartReply::SendFailed(e) => step == PartStep::<E>::Finished(
                    Err(UploadError::Outside(e)),
                ),
                PartReply::Stored(response) => step == PartStep::<E>::Finished(Ok(response)),
                PartReply::Unreadable(cause) => step matches PartStep::Cancel(request, part)
                    && part.cause == cause && exists|now: i64|
                    #[trigger] clock_reading(now as int) && is_abort_request(
                        request,
                        self.uploader@,
                        self.key@,
                        self.upload_id@,
                        now as int,
                    ),
            },
    {
        let now = unix_now();
        self.on_reply_at(reply, now)
    }
}

impl CancelledPart {
    /// The error of the part, once the request to cancel was sent or could not
    /// be sent.
    pub fn on_reply<E>(self, reply: Result<(), E>) -> (error: UploadError<E>)
        ensures
            match reply {
                Ok(_) => error == UploadError::<E>::Failed(
                    Failure::PartCancelled { cause: self.cause },
                ),
                Err(e) => error == UploadError::Outside(e),
            },
    {
        match reply {
            Ok(_) => UploadError::Failed(Failure::PartCancelled { cause: self.cause }),
            Err(e) => UploadError::Outside(e),
        }
    }
}

/// What an upload in parts was asked to do.
pub struct UploadPlan {
    pub uploader: UploaderView,
    pub key: Seq<char>,
    pub file_size: int,
    pub part_size: int,
    /// Whether each part has a progress bar.
    pub progress: bool,
}

/// Whether an upload can be carried out: its access key can stand in headers,
/// its part size is one that the service takes and its parts can be numbered.
pub open spec fn is_feasible(plan: UploadPlan) -> bool {
    &&& is_header_text(plan.uploader.access_key)
    &&& valid_part_size(plan.part_size)
    &&& plan.file_size >= 0
    &&& part_count_of(plan.part_size, plan.file_size) <= i32::MAX
}

/// An upload in parts that is not started yet.
#[derive(Debug)]
pub struct MultipartStart {
    uploader: QiniuUploader,
    key: String,
    file_size: usize,
    part_size: usize,
    progress: bool,
}

impl View for MultipartStart {
    type V = UploadPlan;

    closed spec fn view(&self) -> UploadPlan {
        UploadPlan {
            uploader: self.uploader@,
            key: self.key@,
            file_size: self.file_size as int,
            part_size: self.part_size as int,
            progress: self.progress,
        }
    }
}

/// What an upload in parts has come to.
pub struct UploadProgress {
    pub plan: UploadPlan,
    pub upload_id: Seq<char>,
    /// How many parts were handed out.
    pub handed_out: int,
    /// The etags of the parts that were stored, in order.
    pub etags: Seq<Seq<char>>,
}

impl UploadProgress {
    /// The sizes of all parts of the file.
    pub open spec fn sizes(self) -> Seq<int> {
        part_sizes(self.plan.part_size, self.plan.file_size)
    }
}

/// Whether `part` is the part at position `i`, counted from 0, of an upload.
pub open spec fn is_part(part: PartUpload, upload: UploadProgress, i: int) -> bool {
    &&& part.size == upload.sizes()[i]
    &&& part.number == i + 1
    &&& part.uploader@ == upload.plan.uploader
    &&& part.key@ == upload.plan.key
    &&& part.upload_id@ == upload.upload_id
    &&& part.progress == (if upload.plan.progress {
        Some(part.size as u64)
    } else {
        None::<u64>
    })
}

/// An upload in parts.
#[derive(Debug)]
pub struct MultipartUpload {
    uploader: QiniuUploader,
    key: String,
    upload_id: String,
    file_size: usize,
    part_size: usize,
    progress: bool,
    upload_bytes: usize,
    part_number: i32,
    parts: Vec<CompletePartUploadParam>,
}

impl View for MultipartUpload {
    type V = UploadProgress;

    closed spec fn view(&self) -> UploadProgress {
        UploadProgress {
            plan: UploadPlan {
                uploader: self.uploader@,
                key: self.key@,
                file_size: self.file_size as int,
                part_size: self.part_size as int,
                progress: self.progress,
            },
            upload_id: self.upload_id@,
            handed_out: self.part_number as int,
            etags: self.parts@.map_values(|part: CompletePartUploadParam| part.etag@),
        }
    }
}

/// The list that ends an upload names the `i`-th etag as part `i + 1`.
pub open spec fn is_part_list(parts: Seq<CompletePartUploadParam>, etags: Seq<Seq<char>>) -> bool {
    &&& parts.len() == etags.len()
    &&& forall|i: int|
        0 <= i < parts.len() ==> (#[trigger] parts[i]).etag@ == etags[i] && parts[i].part_number
            == i + 1
}

impl QiniuUploader {
    /// Prepares an upload in parts with a progress bar for each part.
    ///
    /// - `file_size`: the size of the file in bytes
    /// - `part_size`: the size of a part in bytes, from 1 MB to 1 GB; it is used
    ///   before `threads` is looked at
    /// - `threads`: the number of parts where `part_size` is not given, 5 by default
    pub fn part_upload_file(
        self,
        key: &str,
        file_size: usize,
        part_size: Option<usize>,
        threads: Option<u8>,
    ) -> (start: MultipartStart)
        requires
            is_header_text(self@.access_key),
            part_size is Some || threads != Some(0u8),
            part_count_of(part_size_of(file_size as int, part_size, threads), file_size as int)
                <= i32::MAX,
        ensures
            start@ == (UploadPlan {
                uploader: self@,
                key: key@,
                file_size: file_size as int,
                part_size: part_size_of(file_size as int, part_size, threads),
                progress: true,
            }),
            is_feasible(start@),
    {
        let part_size = compute_part_size(file_size, part_size, threads);
        MultipartStart { uploader: self, key: key.to_owned(), file_size, part_size, progress: true }
    }

    /// Prepares an upload in parts without progress bars.
    pub fn part_upload_file_no_progress_bar(
        self,
        key: &str,
        file_size: usize,
        part_size: Option<usize>,
        threads: Option<u8>,
    ) -> (start: MultipartStart)
        requires
            is_header_text(self@.access_key),
            part_size is Some || threads != Some(0u8),
            part_count_of(part_size_of(file_size as int, part_size, threads), file_size as int)
                <= i32::MAX,
        ensures
            start@ == (UploadPlan {
                uploader: self@,
                key: key@,
                file_size: file_size as int,
                part_size: part_size_of(file_size as int, part_size, threads),
                progress: false,
            }),
            is_feasible(start@),
    {
        let part_size = compute_part_size(file_size, part_size, threads);
        MultipartStart { uploader: self, key: key.to_owned(), file_size, part_size, progress: false }
    }
}

impl QiniuUploader {
    /// Tells whether an upload in parts can be prepared: the access key can stand
    /// in headers, a part size can be found and the parts can be numbered.
    pub fn can_upload_parts(
        &self,
        file_size: usize,
        part_size: Option<usize>,
        threads: Option<u8>,
    ) -> (r: bool)
        ensures
            r == (is_header_text(self@.access_key) && (part_size is Some || threads != Some(0u8))
                && part_count_of(
                part_size_of(file_size as int, part_size, threads),
                file_size as int,
            ) <= i32::MAX),
    {
        let no_size = match (part_size, threads) {
            (None, Some(count)) => count == 0,
            _ => false,
        };
        if no_size || !self.can_authorize() {
            return false;
        }
        let size = compute_part_size(file_size, part_size, threads);
        part_count(file_size, size) <= i32::MAX as usize
    }
}

impl MultipartStart {
    /// The request that starts the upload, signed at the time `now`.
    pub fn request_at(&self, now: i64) -> (request: Request)
        requires
            is_feasible(self@),
            can_sign_at(now),
        ensures
            is_initial_request(request, self@.uploader, self@.key, now as int),
    {
        self.uploader.initial_part_upload_at(self.key.as_str(), now)
    }

    /// Goes on once the service has answered, or hands on the error.
    pub fn on_reply<E>(self, reply: Result<InitialPartUploadResponse, E>) -> (next: Result<
        MultipartUpload,
        UploadError<E>,
    >)
        requires
            is_feasible(self@),
        ensures
            match reply {
                Ok(response) => next matches Ok(upload) && upload.wf() && upload@ == (
                UploadProgress {
                    plan: self@,
                    upload_id: response.upload_id@,
                    handed_out: 0,
                    etags: seq![],
                }),
                Err(e) => next == Err::<MultipartUpload, UploadError<E>>(UploadError::Outside(e)),
            },
    {
        match reply {
            Ok(response) => {
                let upload = MultipartUpload {
                    uploader: self.uploader,
                    key: self.key,
                    upload_id: response.upload_id,
                    file_size: self.file_size,
                    part_size: self.part_size,
                    progress: self.progress,
                    upload_bytes: 0,
                    part_number: 0,
                    parts: Vec::new(),
                };
                assert(upload@.etags =~= seq![]);
                assert(upload@.sizes().skip(0) =~= upload@.sizes());
                Ok(upload)
            },
            Err(e) => Err(UploadError::Outside(e)),
        }
    }
}

impl MultipartUpload {
    /// The upload is feasible, the bytes sent are those of the parts handed out,
    /// and the parts stored are listed under their numbers.
    pub closed spec fn wf(&self) -> bool {
        &&& is_feasible(self@.plan)
        &&& 0 <= self.part_number <= self@.sizes().len()
        &&& self.upload_bytes <= self.file_size
        &&& self@.sizes().skip(self.part_number as int) == part_sizes(
            self.part_size as int,
            self.file_size - self.upload_bytes,
        )
        &&& self.parts@.len() <= self.part_number
        &&& is_part_list(self.parts@, self@.etags)
    }

    /// Hands out the next part of the file, or nothing where all of it was
    /// handed out.
    pub fn next_part(&mut self) -> (part: Option<PartUpload>)
        requires
            old(self).wf(),
        ensures
            final(self).wf(),
            match part {
                None => {
                    &&& old(self)@.handed_out == old(self)@.sizes().len()
                    &&& final(self)@ == old(self)@
                },
                Some(p) => {
                    &&& old(self)@.handed_out < old(self)@.sizes().len()
                    &&& is_part(p, old(self)@, old(self)@.handed_out)
                    &&& final(self)@ == (UploadProgress {
                        handed_out: old(self)@.handed_out + 1,
                        ..old(self)@
                    })
                },
            },
    {
        let ghost sizes = self@.sizes();
        let ghost rest = sizes.skip(self.part_number as int);
        proof {
            lemma_part_count(self.part_size as int, self.file_size as int);
        }
        if self.upload_bytes >= self.file_size {
            assert(rest.len() == 0);
            return None;
        }
        let left: usize = self.file_size - self.upload_bytes;
        let size = compute_next_part_size(self.part_size, left);
        assert(rest == seq![size as int] + part_sizes(self.part_size as int, left - size));
        assert(rest.len() > 0);
        assert(sizes[self.part_number as int] == rest[0]);
        assert(sizes.skip(self.part_number + 1) =~= rest.skip(1));
        assert(rest.skip(1) =~= part_sizes(self.part_size as int, left - size));
        self.part_number = self.part_number + 1;
        self.upload_bytes = self.upload_bytes + size;
        let progress = if self.progress {
            Some(size as u64)
        } else {
            None
        };
        Some(
            PartUpload {
                uploader: self.uploader.clone(),
                key: self.key.clone(),
                upload_id: self.upload_id.clone(),
                number: self.part_number,
                size,
                progress,
            },
        )
    }

    /// Takes the result of the next part in order; an error ends the upload.
    pub fn on_part<E>(&mut self, result: Result<PartUploadResponse, UploadError<E>>) -> (r: Result<
        (),
        UploadError<E>,
    >)
        requires
            old(self).wf(),
            old(self)@.etags.len() < old(self)@.handed_out,
        ensures
            final(self).wf(),
            match result {
                Ok(response) => {
                    &&& r == Ok::<(), UploadError<E>>(())
                    &&& final(self)@ == (UploadProgress {
                        etags: old(self)@.etags.push(response.etag@),
                        ..old(self)@
                    })
                },
                Err(e) => {
                    &&& r == Err::<(), UploadError<E>>(e)
                    &&& final(self)@ == old(self)@
                },
            },
    {
        match result {
            Ok(response) => {
                let i: usize = self.parts.len();
                let ghost before = self@;
                proof {
                    lemma_part_count(self.part_size as int, self.file_size as int);
                }
                self.parts.push(
                    CompletePartUploadParam { etag: response.etag, part_number: (i + 1) as i64 },
                );
                assert(self@.etags =~= before.etags.push(response.etag@));
                Ok(())
            },
            Err(e) => Err(e),
        }
    }

    /// No more parts are stored than were handed out, and no more were handed out
    /// than the file has.
    pub proof fn lemma_wf(&self)
        requires
            self.wf(),
        ensures
            is_feasible(self@.plan),
            0 <= self@.handed_out <= self@.sizes().len(),
            self@.etags.len() <= self@.handed_out,
    {
    }

    /// Whether every part that was handed out is stored.
    pub fn all_stored(&self) -> (r: bool)
        requires
            self.wf(),
        ensures
            r == (self@.etags.len() == self@.handed_out),
            !r ==> self@.etags.len() < self@.handed_out,
    {
        assert(self.parts@.len() == self@.etags.len());
        self.parts.len() == self.part_number as usize
    }

    /// Ends an upload with the parts that were stored, at the time `now`.
    pub fn complete_at(self, now: i64) -> (end: CompleteRequest)
        requires
            self.wf(),
            can_sign_at(now),
        ensures
            is_complete_request(
                end.request,
                self@.plan.uploader,
                self@.plan.key,
                self@.upload_id,
                now as int,
            ),
            is_part_list(end.parts@, self@.etags),
            end.parts@.len() == self@.etags.len(),
            forall|i: int|
                0 <= i < end.parts@.len() ==> (#[trigger] end.parts@[i]).etag@ == self@.etags[i]
                    && end.parts@[i].part_number == i + 1,
    {
        self.uploader.complete_part_upload_at(
            self.key.as_str(),
            self.upload_id.as_str(),
            self.parts,
            now,
        )
    }
}

} // verus!
