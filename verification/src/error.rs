//! The ways in which an upload fails.

use crate::text::{decimal, decimal_unsigned};
use vstd::prelude::*;

verus! {

/// A request whose answer is judged by its status.
#[derive(Debug, Clone, Copy, PartialEq, Eq, Structural)]
pub enum Stage {
    /// The direct upload of a file.
    Upload,
    /// The end of an upload in parts.
    Complete,
}

/// A failure that the upload protocol itself finds.
#[derive(Debug)]
pub enum Failure {
    /// The service refused a request.
    Rejected { stage: Stage, status: u16, body: String },
    /// The answer to a part could not be read, and the upload was cancelled.
    PartCancelled { cause: String },
}

/// Why an upload failed.
#[derive(Debug)]
pub enum UploadError<E> {
    /// An error of the transport or of the data source, handed on as it came.
    Outside(E),
    /// A failure of the protocol.
    Failed(Failure),
}

/// The text of a failure.
pub open spec fn failure_text(failure: Failure) -> Seq<char> {
    match failure {
        Failure::Rejected { stage, status, body } => {
            let head = match stage {
                Stage::Upload => "Failed to upload file: "@,
                Stage::Complete => "Failed to complete_part_upload: "@,
            };
            head + decimal(status as int) + " "@ + body@
        },
        Failure::PartCancelled { cause } => "上传任务发生异常，已取消, "@ + cause@,
    }
}

/// Whether a status tells success: those from 200 to 299.
pub open spec fn is_success(status: u16) -> bool {
    200 <= status < 300
}

/// The body that a refusal is reported with, where it could be read.
pub open spec fn reported_body(body: Option<String>) -> Seq<char> {
    match body {
        Some(text) => text@,
        None => "Unknown error"@,
    }
}

/// What the reply to a request that is judged by its status leads to.
pub enum ReplyStep<E> {
    /// The request is done with; the body of the answer is not read.
    Finished(Result<(), UploadError<E>>),
    /// The request was refused; the body of the answer says why.
    ReadBody(Rejection),
}

/// A refused request whose body is still to be read.
#[derive(Debug)]
pub struct Rejection {
    pub stage: Stage,
    pub status: u16,
}

impl Failure {
    /// The text of the failure.
    pub fn message(&self) -> (text: String)
        ensures
            text@ == failure_text(*self),
    {
        match self {
            Failure::Rejected { stage, status, body } => {
                let mut text = match stage {
                    Stage::Upload => String::from("Failed to upload file: "),
                    Stage::Complete => String::from("Failed to complete_part_upload: "),
                };
                let number = decimal_unsigned(*status as u64);
                text.append(number.as_str());
                text.append(" ");
                text.append(body.as_str());
                text
            },
            Failure::PartCancelled { cause } => {
                let mut text = String::from("上传任务发生异常，已取消, ");
                text.append(cause.as_str());
                text
            },
        }
    }
}

/// What a reply leads to: an error of the transport is handed on, and an answer
/// is judged by its status.
pub open spec fn reply_step<E>(stage: Stage, reply: Result<u16, E>) -> ReplyStep<E> {
    match reply {
        Err(e) => ReplyStep::Finished(Err(UploadError::Outside(e))),
        Ok(status) => if is_success(status) {
            ReplyStep::Finished(Ok(()))
        } else {
            ReplyStep::ReadBody(Rejection { stage, status })
        },
    }
}

/// Decides what the reply to a request leads to: the status of the answer, or
/// the error where none came.
pub fn judge_reply<E>(stage: Stage, reply: Result<u16, E>) -> (step: ReplyStep<E>)
    ensures
        step == reply_step(stage, reply),
{
    match reply {
        Err(e) => ReplyStep::Finished(Err(UploadError::Outside(e))),
        Ok(status) => if 200 <= status && status < 300 {
            ReplyStep::Finished(Ok(()))
        } else {
            ReplyStep::ReadBody(Rejection { stage, status })
        },
    }
}

/// Whether `failure` reports the refusal of a request.
pub open spec fn reports_rejection(
    failure: Failure,
    rejection: Rejection,
    body: Option<String>,
) -> bool {
    failure matches Failure::Rejected { stage, status, body: text } && stage == rejection.stage
        && status == rejection.status && text@ == reported_body(body)
}

impl Rejection {
    /// The failure to report, once the body was read or could not be read.
    pub fn with_body(self, body: Option<String>) -> (failure: Failure)
        ensures
            reports_rejection(failure, self, body),
    {
        let text = match body {
            Some(text) => text,
            None => String::from("Unknown error"),
        };
        Failure::Rejected { stage: self.stage, status: self.status, body: text }
    }
}

} // verus!
