//! An upload in parts from its first request to its end, as a machine: each
//! step takes what happened and says what is to be done next.

use crate::encoding::{clock_reading, unix_now};
use crate::error::{
    judge_reply, reply_step, reports_rejection, Rejection, ReplyStep, Stage, UploadError,
};
use crate::multipart::{
    is_feasible, is_part, is_part_list, MultipartStart, MultipartUpload, PartUpload, UploadPlan,
    UploadProgress,
};
use crate::plan::part_sizes;
use crate::request::{
    is_complete_request, is_initial_request, CompleteRequest, InitialPartUploadResponse,
    PartUploadResponse, Request,
};
use crate::uploader::can_sign_at;
use vstd::pervasive::unreached;
use vstd::prelude::*;

verus! {

/// What is to be done next.
pub enum Action<E> {
    /// Send the request that starts the upload and read its answer.
    Start(Request),
    /// Read the next so many bytes of the file.
    ReadPart(usize),
    /// Send the bytes that were read as this part, without waiting for it.
    Launch(PartUpload),
    /// Wait for the first part that was not waited for yet.
    AwaitPart,
    /// Send the request that ends the upload.
    Complete(CompleteRequest),
    /// Read the body of the answer to that request.
    ReadBody,
    /// The upload is over.
    Finish(Result<(), UploadError<E>>),
}

/// What happened.
pub enum Event<E> {
    Started(Result<InitialPartUploadResponse, E>),
    Read(Result<(), E>),
    Launched,
    PartFinished(Result<PartUploadResponse, UploadError<E>>),
    /// The request that ends the upload was answered with this status.
    Completed(Result<u16, E>),
    /// The body was read, or could not be read.
    BodyRead(Option<String>),
}

/// Where an upload stands.
enum Phase {
    Starting(MultipartStart),
    Reading(MultipartUpload, PartUpload),
    Launching(MultipartUpload),
    Collecting(MultipartUpload),
    Completing,
    Refused(Rejection),
    Over,
}

/// An upload in parts on its way.
pub struct Course {
    phase: Phase,
}

/// Where an upload stands, and what it has come to.
pub enum CourseView {
    /// The answer to the first request is awaited.
    Starting(UploadPlan),
    /// The bytes of the part that was handed out last are read.
    Reading(UploadProgress),
    /// The part that was handed out last is sent off.
    Launching(UploadProgress),
    /// All parts were sent off; their results come in.
    Collecting(UploadProgress),
    /// All parts are stored; the answer to the last request is awaited.
    Completing,
    /// The last request was refused; the reason is read.
    Refused(Rejection),
    Over,
}

impl View for Course {
    type V = CourseView;

    closed spec fn view(&self) -> CourseView {
        match self.phase {
            Phase::Starting(start) => CourseView::Starting(start@),
            Phase::Reading(upload, _) => CourseView::Reading(upload@),
            Phase::Launching(upload) => CourseView::Launching(upload@),
            Phase::Collecting(upload) => CourseView::Collecting(upload@),
            Phase::Completing => CourseView::Completing,
            Phase::Refused(rejection) => CourseView::Refused(rejection),
            Phase::Over => CourseView::Over,
        }
    }
}

/// What can happen next.
pub open spec fn expects<E>(course: CourseView, event: Event<E>) -> bool {
    match course {
        CourseView::Starting(_) => event is Started,
        CourseView::Reading(_) => event is Read,
        CourseView::Launching(_) => event is Launched,
        CourseView::Collecting(_) => event is PartFinished,
        CourseView::Completing => event is Completed,
        CourseView::Refused(_) => event is BodyRead,
        CourseView::Over => false,
    }
}

/// The upload ends with an error.
pub open spec fn fails<E>(next: CourseView, action: Action<E>, error: UploadError<E>) -> bool {
    next == CourseView::Over && action == Action::Finish(Err::<(), UploadError<E>>(error))
}

/// With all parts sent off, the next result is awaited; with all of them stored,
/// the upload is ended at the time `now` with the list of their etags.
pub open spec fn collects<E>(
    upload: UploadProgress,
    next: CourseView,
    action: Action<E>,
    now: int,
) -> bool {
    if upload.etags.len() < upload.handed_out {
        next == CourseView::Collecting(upload) && action is AwaitPart
    } else {
        &&& next == CourseView::Completing
        &&& action matches Action::Complete(end) && is_complete_request(
            end.request,
            upload.plan.uploader,
            upload.plan.key,
            upload.upload_id,
            now,
        ) && is_part_list(end.parts@, upload.etags) && end.parts@.len() == upload.sizes().len()
    }
}

/// The next part is read, or, where there is none, the results are collected.
pub open spec fn moves_on<E>(
    upload: UploadProgress,
    next: CourseView,
    action: Action<E>,
    now: int,
) -> bool {
    if upload.handed_out < upload.sizes().len() {
        &&& next == CourseView::Reading(
            UploadProgress { handed_out: upload.handed_out + 1, ..upload },
        )
        &&& action matches Action::ReadPart(size) && size == upload.sizes()[upload.handed_out]
    } else {
        collects(upload, next, action, now)
    }
}

/// What an event leads to.
pub open spec fn leads_to<E>(
    course: CourseView,
    event: Event<E>,
    next: CourseView,
    action: Action<E>,
    now: int,
) -> bool {
    match (course, event) {
        (CourseView::Starting(plan), Event::Started(reply)) => match reply {
            Ok(response) => moves_on(
                UploadProgress {
                    plan,
                    upload_id: response.upload_id@,
                    handed_out: 0,
                    etags: seq![],
                },
                next,
                action,
                now,
            ),
            Err(e) => fails(next, action, UploadError::Outside(e)),
        },
        (CourseView::Reading(upload), Event::Read(reply)) => match reply {
            Ok(_) => {
                &&& next == CourseView::Launching(upload)
                &&& action matches Action::Launch(part) && is_part(
                    part,
                    upload,
                    upload.handed_out - 1,
                )
            },
            Err(e) => fails(next, action, UploadError::Outside(e)),
        },
        (CourseView::Launching(upload), Event::Launched) => moves_on(upload, next, action, now),
        (CourseView::Collecting(upload), Event::PartFinished(result)) => match result {
            Ok(response) => collects(
                UploadProgress { etags: upload.etags.push(response.etag@), ..upload },
                next,
                action,
                now,
            ),
            Err(e) => fails(next, action, e),
        },
        (CourseView::Completing, Event::Completed(reply)) => match reply_step(
            Stage::Complete,
            reply,
        ) {
            ReplyStep::Finished(result) => next == CourseView::Over && action == Action::Finish(
                result,
            ),
            ReplyStep::ReadBody(rejection) => next == CourseView::Refused(rejection)
                && action is ReadBody,
        },
        (CourseView::Refused(rejection), Event::BodyRead(body)) => {
            &&& next == CourseView::Over
            &&& action matches Action::Finish(Err(UploadError::Failed(failure)))
                && reports_rejection(failure, rejection, body)
        },
        _ => false,
    }
}

/// A bound on the events that are still to come.
pub open spec fn steps_left(course: CourseView) -> int {
    match course {
        CourseView::Starting(plan) => (3 * part_sizes(plan.part_size, plan.file_size).len() + 5) as int,
        CourseView::Reading(upload) => 2 * (upload.sizes().len() - upload.handed_out) + (
        upload.sizes().len() - upload.etags.len()) + 4,
        CourseView::Launching(upload) => 2 * (upload.sizes().len() - upload.handed_out) + (
        upload.sizes().len() - upload.etags.len()) + 3,
        CourseView::Collecting(upload) => upload.sizes().len() - upload.etags.len() + 2,
        CourseView::Completing => 2,
        CourseView::Refused(_) => 1,
        CourseView::Over => 0,
    }
}

impl MultipartStart {
    /// Starts the upload at the time `now`.
    pub fn begin_at<E>(self, now: i64) -> (first: (Course, Action<E>))
        requires
            is_feasible(self@),
            can_sign_at(now),
        ensures
            first.0.wf(),
            first.0@ == CourseView::Starting(self@),
            first.1 matches Action::Start(request) && is_initial_request(
                request,
                self@.uploader,
                self@.key,
                now as int,
            ),
    {
        let request = self.request_at(now);
        (Course { phase: Phase::Starting(self) }, Action::Start(request))
    }

    /// Starts the upload.
    pub fn begin<E>(self) -> (first: (Course, Action<E>))
        requires
            is_feasible(self@),
        ensures
            first.0.wf(),
            first.0@ == CourseView::Starting(self@),
            first.1 matches Action::Start(request) && exists|now: i64|
                #[trigger] clock_reading(now as int) && is_initial_request(
                    request,
                    self@.uploader,
                    self@.key,
                    now as int,
                ),
    {
        let now = unix_now();
        self.begin_at(now)
    }
}

impl Course {
    /// The upload inside is sound and stands where the phase says.
    pub closed spec fn wf(&self) -> bool {
        match self.phase {
            Phase::Starting(start) => is_feasible(start@),
            Phase::Reading(upload, part) => {
                &&& upload.wf()
                &&& 0 < upload@.handed_out <= upload@.sizes().len()
                &&& upload@.etags.len() == 0
                &&& is_part(part, upload@, upload@.handed_out - 1)
            },
            Phase::Launching(upload) => {
                &&& upload.wf()
                &&& 0 < upload@.handed_out <= upload@.sizes().len()
                &&& upload@.etags.len() == 0
            },
            Phase::Collecting(upload) => {
                &&& upload.wf()
                &&& upload@.handed_out == upload@.sizes().len()
                &&& upload@.etags.len() < upload@.handed_out
            },
            _ => true,
        }
    }

    fn collect_at<E>(upload: MultipartUpload, now: i64) -> (next: (Course, Action<E>))
        requires
            upload.wf(),
            upload@.handed_out == upload@.sizes().len(),
            can_sign_at(now),
        ensures
            next.0.wf(),
            collects(upload@, next.0@, next.1, now as int),
    {
        proof {
            upload.lemma_wf();
        }
        if upload.all_stored() {
            let end = upload.complete_at(now);
            (Course { phase: Phase::Completing }, Action::Complete(end))
        } else {
            (Course { phase: Phase::Collecting(upload) }, Action::AwaitPart)
        }
    }

    fn move_on_at<E>(upload: MultipartUpload, now: i64) -> (next: (Course, Action<E>))
        requires
            upload.wf(),
            upload@.etags.len() == 0,
            can_sign_at(now),
        ensures
            next.0.wf(),
            moves_on(upload@, next.0@, next.1, now as int),
    {
        proof {
            upload.lemma_wf();
        }
        let mut upload = upload;
        match upload.next_part() {
            Some(part) => {
                let size = part.size;
                proof {
                    upload.lemma_wf();
                }
                (Course { phase: Phase::Reading(upload, part) }, Action::ReadPart(size))
            },
            None => Course::collect_at(upload, now),
        }
    }

    /// Takes what happened and decides, at the time `now`, what is to be done
    /// next. Every step brings the upload nearer to its end.
    pub fn step_at<E>(self, event: Event<E>, now: i64) -> (next: (Course, Action<E>))
        requires
            self.wf(),
            expects(self@, event),
            can_sign_at(now),
        ensures
            next.0.wf(),
            leads_to(self@, event, next.0@, next.1, now as int),
            0 <= steps_left(next.0@) < steps_left(self@),
            next.1 is Finish <==> next.0@ == CourseView::Over,
    {
        match (self.phase, event) {
            (Phase::Starting(start), Event::Started(reply)) => match start.on_reply(reply) {
                Ok(upload) => Course::move_on_at(upload, now),
                Err(e) => Course::fail(e),
            },
            (Phase::Reading(upload, part), Event::Read(reply)) => match reply {
                Ok(_) => (Course { phase: Phase::Launching(upload) }, Action::Launch(part)),
                Err(e) => Course::fail(UploadError::Outside(e)),
            },
            (Phase::Launching(upload), Event::Launched) => Course::move_on_at(upload, now),
            (Phase::Collecting(upload), Event::PartFinished(result)) => {
                let mut upload = upload;
                match upload.on_part(result) {
                    Ok(_) => Course::collect_at(upload, now),
                    Err(e) => Course::fail(e),
                }
            },
            (Phase::Completing, Event::Completed(reply)) => match judge_reply(
                Stage::Complete,
                reply,
            ) {
                ReplyStep::Finished(result) => (
                    Course { phase: Phase::Over },
                    Action::Finish(result),
                ),
                ReplyStep::ReadBody(rejection) => (
                    Course { phase: Phase::Refused(rejection) },
                    Action::ReadBody,
                ),
            },
            (Phase::Refused(rejection), Event::BodyRead(body)) => {
                let failure = rejection.with_body(body);
                Course::fail(UploadError::Failed(failure))
            },
            _ => unreached(),
        }
    }

    fn fail<E>(error: UploadError<E>) -> (next: (Course, Action<E>))
        ensures
            next.0.wf(),
            fails(next.0@, next.1, error),
    {
        (Course { phase: Phase::Over }, Action::Finish(Err(error)))
    }

    /// Takes what happened and decides what is to be done next.
    pub fn step<E>(self, event: Event<E>) -> (next: (Course, Action<E>))
        requires
            self.wf(),
            expects(self@, event),
        ensures
            next.0.wf(),
            exists|now: i64|
                #[trigger] clock_reading(now as int) && leads_to(
                    self@,
                    event,
                    next.0@,
                    next.1,
                    now as int,
                ),
            0 <= steps_left(next.0@) < steps_left(self@),
            next.1 is Finish <==> next.0@ == CourseView::Over,
    {
        let now = unix_now();
        self.step_at(event, now)
    }
}

} // verus!
