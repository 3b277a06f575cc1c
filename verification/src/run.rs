//! What holds of an upload in parts as a whole.

use crate::course::{expects, leads_to, steps_left, Action, CourseView, Event};
use crate::encoding::base64_url_safe;
use crate::error::{is_success, Failure, Stage, UploadError};
use crate::laws::lemma_complete_request;
use crate::multipart::{is_feasible, is_part, is_part_list, PartUpload, UploadPlan, UploadProgress};
use crate::plan::{lemma_parts_cover_file, part_sizes, total};
use crate::region::upload_host;
use crate::request::{is_complete_request, CompleteRequest};
use vstd::prelude::*;
use vstd::utf8::encode_utf8;

verus! {

/// A course of events from the start of an upload: where the upload stood before
/// each event, and what each event led to.
pub struct Run<E> {
    pub plan: UploadPlan,
    pub courses: Seq<CourseView>,
    pub events: Seq<Event<E>>,
    pub actions: Seq<Action<E>>,
    pub times: Seq<int>,
}

/// The sizes that were asked to be read, in order.
pub open spec fn sizes_read<E>(actions: Seq<Action<E>>) -> Seq<int>
    decreases actions.len(),
{
    if actions.len() == 0 {
        seq![]
    } else {
        let before = sizes_read(actions.drop_last());
        match actions.last() {
            Action::ReadPart(size) => before.push(size as int),
            _ => before,
        }
    }
}

/// The parts that were sent off, in order.
pub open spec fn parts_launched<E>(actions: Seq<Action<E>>) -> Seq<PartUpload>
    decreases actions.len(),
{
    if actions.len() == 0 {
        seq![]
    } else {
        let before = parts_launched(actions.drop_last());
        match actions.last() {
            Action::Launch(part) => before.push(part),
            _ => before,
        }
    }
}

/// The etags of the parts that were stored, in order.
pub open spec fn etags_stored<E>(events: Seq<Event<E>>) -> Seq<Seq<char>>
    decreases events.len(),
{
    if events.len() == 0 {
        seq![]
    } else {
        let before = etags_stored(events.drop_last());
        match events.last() {
            Event::PartFinished(Ok(response)) => before.push(response.etag@),
            _ => before,
        }
    }
}

impl<E> Run<E> {
    /// Every step follows from the one before it.
    pub open spec fn wf(self) -> bool {
        &&& is_feasible(self.plan)
        &&& self.courses.len() == self.events.len() + 1
        &&& self.actions.len() == self.events.len()
        &&& self.times.len() == self.events.len()
        &&& self.courses[0] == CourseView::Starting(self.plan)
        &&& forall|i: int|
            0 <= i < self.events.len() ==> expects(self.courses[i], #[trigger] self.events[i])
                && leads_to(
                self.courses[i],
                self.events[i],
                self.courses[i + 1],
                self.actions[i],
                self.times[i],
            )
    }

    /// The identifier that the service gave the upload at its start.
    pub open spec fn upload_id(self) -> Seq<char> {
        match self.events[0] {
            Event::Started(Ok(response)) => response.upload_id@,
            _ => seq![],
        }
    }

    /// The run without its last event.
    pub open spec fn shorter(self) -> Run<E> {
        Run {
            plan: self.plan,
            courses: self.courses.drop_last(),
            events: self.events.drop_last(),
            actions: self.actions.drop_last(),
            times: self.times.drop_last(),
        }
    }
}

/// Whether `part` is the part at position `i`, counted from 0, of the file of a
/// run, sent to the upload that the service started.
pub open spec fn is_part_of_run<E>(run: Run<E>, part: PartUpload, i: int) -> bool {
    &&& part.number == i + 1
    &&& part.size == part_sizes(run.plan.part_size, run.plan.file_size)[i]
    &&& part.uploader@ == run.plan.uploader
    &&& part.key@ == run.plan.key
    &&& part.upload_id@ == run.upload_id()
    &&& part.progress == (if run.plan.progress {
        Some(part.size as u64)
    } else {
        None::<u64>
    })
}

/// The upload stands where its events and actions brought it, with `launched`
/// parts sent off.
spec fn tracks<E>(run: Run<E>, upload: UploadProgress, launched: int) -> bool {
    let parts = parts_launched(run.actions);
    &&& upload.plan == run.plan
    &&& upload.upload_id == run.upload_id()
    &&& 0 <= launched <= upload.handed_out <= upload.sizes().len()
    &&& sizes_read(run.actions) == upload.sizes().take(upload.handed_out)
    &&& parts.len() == launched
    &&& forall|i: int| 0 <= i < launched ==> is_part(#[trigger] parts[i], upload, i)
    &&& upload.etags == etags_stored(run.events)
    &&& upload.etags.len() <= upload.handed_out
}

/// What the run did where all parts were stored.
spec fn did_all<E>(run: Run<E>) -> bool {
    let sizes = part_sizes(run.plan.part_size, run.plan.file_size);
    &&& sizes_read(run.actions) == sizes
    &&& parts_launched(run.actions).len() == sizes.len()
    &&& forall|i: int|
        0 <= i < sizes.len() ==> is_part_of_run(run, #[trigger] parts_launched(run.actions)[i], i)
    &&& etags_stored(run.events).len() == sizes.len()
}

/// Whether `end` ends the upload of a run with the etags that were stored.
pub open spec fn ends_run<E>(run: Run<E>, end: CompleteRequest) -> bool {
    &&& is_part_list(end.parts@, etags_stored(run.events))
    &&& is_complete_request(
        end.request,
        run.plan.uploader,
        run.plan.key,
        run.upload_id(),
        run.times.last(),
    )
}

spec fn stands<E>(run: Run<E>) -> bool {
    match run.courses.last() {
        CourseView::Starting(plan) => {
            &&& plan == run.plan
            &&& run.events.len() == 0
        },
        CourseView::Reading(upload) => tracks(run, upload, upload.handed_out - 1)
            && upload.etags.len() == 0,
        CourseView::Launching(upload) => tracks(run, upload, upload.handed_out)
            && upload.etags.len() == 0,
        CourseView::Collecting(upload) => tracks(run, upload, upload.handed_out)
            && upload.handed_out == upload.sizes().len(),
        CourseView::Completing => {
            &&& did_all(run)
            &&& run.actions.len() > 0
            &&& run.actions.last() matches Action::Complete(end) && ends_run(run, end)
        },
        _ => true,
    }
}

proof fn lemma_shorter<E>(run: Run<E>)
    requires
        run.wf(),
        run.events.len() > 0,
    ensures
        run.shorter().wf(),
        run.shorter().courses.last() == run.courses[run.events.len() - 1],
{
    let before = run.shorter();
    assert forall|i: int| 0 <= i < before.events.len() implies expects(
        before.courses[i],
        #[trigger] before.events[i],
    ) && leads_to(
        before.courses[i],
        before.events[i],
        before.courses[i + 1],
        before.actions[i],
        before.times[i],
    ) by {
        assert(run.events[i] == before.events[i]);
    }
}

proof fn lemma_stands<E>(run: Run<E>)
    requires
        run.wf(),
    ensures
        stands(run),
    decreases run.events.len(),
{
    if run.events.len() > 0 {
        let n = run.events.len() - 1;
        let before = run.shorter();
        lemma_shorter(run);
        lemma_stands(before);
        assert(before.courses.last() == run.courses[n]);
        assert(run.courses.last() == run.courses[n + 1]);
        assert(run.actions.last() == run.actions[n]);
        assert(run.events.last() == run.events[n]);
        assert(expects(run.courses[n], run.events[n]));
        let sizes = part_sizes(run.plan.part_size, run.plan.file_size);
        match run.courses[n] {
            CourseView::Starting(_) => {
                assert(sizes_read(before.actions) =~= seq![]);
                assert(etags_stored(before.events) =~= seq![]);
                assert(parts_launched(before.actions) =~= seq![]);
                if let Event::Started(Ok(response)) = run.events[n] {
                    let first = UploadProgress {
                        plan: run.plan,
                        upload_id: response.upload_id@,
                        handed_out: 1,
                        etags: seq![],
                    };
                    if sizes.len() > 0 {
                        assert(sizes.take(1) =~= seq![].push(sizes[0]));
                        assert(tracks(run, first, 0));
                    } else {
                        assert(sizes =~= seq![]);
                        assert(did_all(run));
                    }
                }
                assert(stands(run));
            },
            CourseView::Reading(upload) => {
                if let Event::Read(Ok(_)) = run.events[n] {
                    let parts = parts_launched(run.actions);
                    let earlier = parts_launched(before.actions);
                    assert(run.actions[n] is Launch);
                    assert forall|i: int| 0 <= i < parts.len() implies is_part(
                        #[trigger] parts[i],
                        upload,
                        i,
                    ) by {
                        if i < earlier.len() {
                            assert(parts[i] == earlier[i]);
                        }
                    }
                    assert(tracks(run, upload, upload.handed_out));
                }
            },
            CourseView::Launching(upload) => {
                if upload.handed_out < sizes.len() {
                    assert(sizes.take(upload.handed_out + 1) =~= sizes.take(
                        upload.handed_out,
                    ).push(sizes[upload.handed_out]));
                    let further = UploadProgress { handed_out: upload.handed_out + 1, ..upload };
                    assert(tracks(run, further, upload.handed_out));
                } else {
                    assert(sizes.take(sizes.len() as int) =~= sizes);
                    if upload.etags.len() < upload.handed_out {
                        assert(tracks(run, upload, upload.handed_out));
                    } else {
                        assert(did_all(run));
                    }
                }
            },
            CourseView::Collecting(upload) => {
                if let Event::PartFinished(Ok(response)) = run.events[n] {
                    let further = UploadProgress {
                        etags: upload.etags.push(response.etag@),
                        ..upload
                    };
                    assert(sizes.take(sizes.len() as int) =~= sizes);
                    if further.etags.len() < further.handed_out {
                        assert(tracks(run, further, further.handed_out));
                    } else {
                        assert(did_all(run));
                    }
                }
            },
            _ => {},
        }
        assert(stands(run));
    }
}

/// When the last request of an upload is due, the whole file was read in order,
/// every part of it was sent off once under its number to the upload that the
/// service started, and the request ends that upload with the etag of every part
/// under the number of the part.
pub proof fn lemma_completion_covers_file<E>(run: Run<E>)
    requires
        run.wf(),
        run.courses.last() == CourseView::Completing,
    ensures
        sizes_read(run.actions) == part_sizes(run.plan.part_size, run.plan.file_size),
        total(sizes_read(run.actions)) == run.plan.file_size,
        parts_launched(run.actions).len() == sizes_read(run.actions).len(),
        forall|i: int|
            0 <= i < parts_launched(run.actions).len() ==> is_part_of_run(
                run,
                #[trigger] parts_launched(run.actions)[i],
                i,
            ),
        etags_stored(run.events).len() == parts_launched(run.actions).len(),
        run.actions.len() > 0,
        run.actions.last() matches Action::Complete(end) && ends_run(run, end),
{
    lemma_stands(run);
    lemma_parts_cover_file(run.plan.part_size, run.plan.file_size);
}

/// An upload succeeds only by an answer of success to its last request.
pub proof fn lemma_success_follows_completion<E>(
    course: CourseView,
    event: Event<E>,
    next: CourseView,
    action: Action<E>,
    now: int,
)
    requires
        leads_to(course, event, next, action, now),
        action == Action::Finish(Ok::<(), UploadError<E>>(())),
    ensures
        course == CourseView::Completing,
        event matches Event::Completed(Ok(status)) && is_success(status),
{
}

/// An upload that succeeds has sent off the whole file and had every part of it
/// stored.
pub proof fn lemma_success_covers_file<E>(run: Run<E>)
    requires
        run.wf(),
        run.actions.len() > 0,
        run.actions.last() == Action::Finish(Ok::<(), UploadError<E>>(())),
    ensures
        sizes_read(run.actions) == part_sizes(run.plan.part_size, run.plan.file_size),
        total(sizes_read(run.actions)) == run.plan.file_size,
        parts_launched(run.actions).len() == sizes_read(run.actions).len(),
        etags_stored(run.events).len() == parts_launched(run.actions).len(),
{
    let n = run.events.len() - 1;
    let before = run.shorter();
    lemma_shorter(run);
    assert(expects(run.courses[n], run.events[n]));
    lemma_success_follows_completion(
        run.courses[n],
        run.events[n],
        run.courses[n + 1],
        run.actions[n],
        run.times[n],
    );
    lemma_completion_covers_file(before);
}

/// The error of a part, or of the data source, ends the upload and is handed on
/// as it came.
pub proof fn lemma_errors_end_upload<E>(
    course: CourseView,
    event: Event<E>,
    next: CourseView,
    action: Action<E>,
    now: int,
)
    requires
        leads_to(course, event, next, action, now),
    ensures
        event matches Event::PartFinished(Err(e)) ==> next == CourseView::Over && action
            == Action::Finish(Err::<(), UploadError<E>>(e)),
        event matches Event::Read(Err(e)) ==> next == CourseView::Over && action == Action::Finish(
            Err::<(), UploadError<E>>(UploadError::Outside(e)),
        ),
        event matches Event::Started(Err(e)) ==> next == CourseView::Over && action
            == Action::Finish(Err::<(), UploadError<E>>(UploadError::Outside(e))),
        event matches Event::Completed(Err(e)) ==> next == CourseView::Over && action
            == Action::Finish(Err::<(), UploadError<E>>(UploadError::Outside(e))),
{
}

/// An upload comes to an end: it takes no more than three events for each part
/// and five more.
pub proof fn lemma_run_is_bounded<E>(run: Run<E>)
    requires
        run.wf(),
    ensures
        0 <= steps_left(run.courses.last()),
        run.events.len() + steps_left(run.courses.last()) <= 3 * part_sizes(
            run.plan.part_size,
            run.plan.file_size,
        ).len() + 5,
    decreases run.events.len(),
{
    lemma_stands(run);
    if run.events.len() > 0 {
        let n = run.events.len() - 1;
        let before = run.shorter();
        lemma_shorter(run);
        lemma_run_is_bounded(before);
        lemma_stands(before);
        assert(expects(run.courses[n], run.events[n]));
    }
}

/// The list that ends an upload names, in order, the etag of every part under the
/// number that the part was sent off with, and the numbers run from 1 without a
/// gap or a repetition.
pub proof fn lemma_list_follows_parts<E>(run: Run<E>)
    requires
        run.wf(),
        run.courses.last() == CourseView::Completing,
    ensures
        run.actions.last() matches Action::Complete(end) && {
            &&& end.parts@.len() == parts_launched(run.actions).len()
            &&& end.parts@.len() == part_sizes(run.plan.part_size, run.plan.file_size).len()
            &&& forall|i: int|
                0 <= i < end.parts@.len() ==> {
                    &&& (#[trigger] end.parts@[i]).part_number == parts_launched(
                        run.actions,
                    )[i].number
                    &&& end.parts@[i].part_number == i + 1
                    &&& end.parts@[i].etag@ == etags_stored(run.events)[i]
                }
            &&& forall|i: int, j: int|
                0 <= i < j < end.parts@.len() ==> (#[trigger] end.parts@[i]).part_number < (
                #[trigger] end.parts@[j]).part_number
        },
{
    lemma_completion_covers_file(run);
    if let Action::Complete(end) = run.actions.last() {
        assert forall|i: int| 0 <= i < end.parts@.len() implies (#[trigger] end.parts@[i]).part_number
            == parts_launched(run.actions)[i].number && end.parts@[i].part_number == i + 1
            && end.parts@[i].etag@ == etags_stored(run.events)[i] by {
            assert(is_part_of_run(run, parts_launched(run.actions)[i], i));
        }
    }
}

/// The request that ends an upload, and every part sent off before, go to the
/// upload that the service named at the start, for the key and the uploader of
/// the plan.
pub proof fn lemma_requests_go_to_one_upload<E>(run: Run<E>)
    requires
        run.wf(),
        run.courses.last() == CourseView::Completing,
    ensures
        run.events[0] matches Event::Started(Ok(response)) && {
            &&& forall|i: int|
                0 <= i < parts_launched(run.actions).len() ==> {
                    &&& (#[trigger] parts_launched(run.actions)[i]).upload_id@
                        == response.upload_id@
                    &&& parts_launched(run.actions)[i].key@ == run.plan.key
                    &&& parts_launched(run.actions)[i].uploader@ == run.plan.uploader
                }
            &&& run.actions.last() matches Action::Complete(end) && end.request.url@
                == upload_host(run.plan.uploader.region) + "/buckets/"@ + run.plan.uploader.bucket
                + "/objects/"@ + base64_url_safe(encode_utf8(run.plan.key)) + "/uploads/"@
                + response.upload_id@
        },
{
    lemma_completion_covers_file(run);
    assert(expects(run.courses[0], run.events[0]));
    lemma_starts(run);
    assert forall|i: int| 0 <= i < parts_launched(run.actions).len() implies (
    #[trigger] parts_launched(run.actions)[i]).upload_id@ == run.upload_id() && parts_launched(
        run.actions,
    )[i].key@ == run.plan.key && parts_launched(run.actions)[i].uploader@
        == run.plan.uploader by {
        assert(is_part_of_run(run, parts_launched(run.actions)[i], i));
    }
    if let Action::Complete(end) = run.actions.last() {
        lemma_complete_request(
            end.request,
            run.plan.uploader,
            run.plan.key,
            run.upload_id(),
            run.times.last(),
        );
    }
}

/// A run that went on after its first event was started with success.
proof fn lemma_starts<E>(run: Run<E>)
    requires
        run.wf(),
        run.courses.last() == CourseView::Completing,
    ensures
        run.events.len() > 0,
        run.events[0] matches Event::Started(Ok(_)),
{
    lemma_stands(run);
    assert(expects(run.courses[0], run.events[0]));
    if let Event::Started(Err(e)) = run.events[0] {
        assert(run.courses[1] == CourseView::Over);
        if run.events.len() > 1 {
            assert(expects(run.courses[1], run.events[1]));
        }
    }
}

/// At any time the sizes read are those of the first parts of the file, and the
/// parts sent off are its first parts, in order and under their numbers.
pub proof fn lemma_parts_in_order<E>(run: Run<E>)
    requires
        run.wf(),
    ensures
        sizes_read(run.actions).len() <= part_sizes(
            run.plan.part_size,
            run.plan.file_size,
        ).len(),
        forall|i: int|
            0 <= i < sizes_read(run.actions).len() ==> #[trigger] sizes_read(run.actions)[i]
                == part_sizes(run.plan.part_size, run.plan.file_size)[i],
        parts_launched(run.actions).len() <= sizes_read(run.actions).len(),
        forall|i: int|
            0 <= i < parts_launched(run.actions).len() ==> {
                &&& (#[trigger] parts_launched(run.actions)[i]).number == i + 1
                &&& parts_launched(run.actions)[i].size == part_sizes(
                    run.plan.part_size,
                    run.plan.file_size,
                )[i]
                &&& parts_launched(run.actions)[i].key@ == run.plan.key
                &&& parts_launched(run.actions)[i].uploader@ == run.plan.uploader
                &&& run.plan.progress ==> parts_launched(run.actions)[i].progress == Some(
                    parts_launched(run.actions)[i].size as u64,
                )
                &&& !run.plan.progress ==> parts_launched(run.actions)[i].progress == None::<u64>
            },
    decreases run.events.len(),
{
    lemma_stands(run);
    let sizes = part_sizes(run.plan.part_size, run.plan.file_size);
    if run.events.len() > 0 {
        let n = run.events.len() - 1;
        lemma_shorter(run);
        lemma_parts_in_order(run.shorter());
        assert(expects(run.courses[n], run.events[n]));
        assert(run.actions.last() == run.actions[n]);
        match run.courses.last() {
            CourseView::Reading(upload) => {
                let parts = parts_launched(run.actions);
                assert(tracks(run, upload, upload.handed_out - 1));
                assert forall|i: int| 0 <= i < parts.len() implies is_part(
                    #[trigger] parts[i],
                    upload,
                    i,
                ) by {}
            },
            CourseView::Launching(upload) => {
                let parts = parts_launched(run.actions);
                assert(tracks(run, upload, upload.handed_out));
                assert forall|i: int| 0 <= i < parts.len() implies is_part(
                    #[trigger] parts[i],
                    upload,
                    i,
                ) by {}
            },
            _ => {
                assert(!(run.actions[n] is ReadPart) && !(run.actions[n] is Launch));
            },
        }
    }
}

/// With every part stored, a status from 200 to 299 ends the upload with success;
/// any other status has the body read, and the upload then ends with a report of
/// the status and the body.
pub proof fn lemma_last_answer_decides<E>(
    course: CourseView,
    event: Event<E>,
    next: CourseView,
    action: Action<E>,
    now: int,
)
    requires
        leads_to(course, event, next, action, now),
    ensures
        event matches Event::Completed(Ok(status)) ==> if 200 <= status <= 299 {
            next == CourseView::Over && action == Action::Finish(Ok::<(), UploadError<E>>(()))
        } else {
            &&& action is ReadBody
            &&& next matches CourseView::Refused(rejection) && rejection.stage == Stage::Complete
                && rejection.status == status
        },
        event matches Event::BodyRead(body) ==> {
            &&& next == CourseView::Over
            &&& course matches CourseView::Refused(rejection) && (action matches Action::Finish(
                Err(UploadError::Failed(Failure::Rejected { stage, status, body: text })),
            ) && stage == rejection.stage && status == rejection.status && text@ == (match body {
                Some(read) => read@,
                None => "Unknown error"@,
            }))
        },
{
}

/// An upload fails only by an event that reports an error, or by a refusal of
/// its last request.
pub proof fn lemma_no_failure_without_cause<E>(
    course: CourseView,
    event: Event<E>,
    next: CourseView,
    action: Action<E>,
    now: int,
)
    requires
        leads_to(course, event, next, action, now),
        action matches Action::Finish(Err(_)),
    ensures
        match event {
            Event::Started(reply) => reply is Err,
            Event::Read(reply) => reply is Err,
            Event::Launched => false,
            Event::PartFinished(result) => result is Err,
            Event::Completed(reply) => reply is Err,
            Event::BodyRead(_) => true,
        },
{
}

/// A part that is handed out has its place in the file: its number counts from
/// 1, and its size is that of the part of the file at that place.
pub proof fn lemma_part_has_its_place(part: PartUpload, upload: UploadProgress, i: int)
    requires
        is_part(part, upload, i),
    ensures
        part.number == i + 1,
        part.size == part_sizes(upload.plan.part_size, upload.plan.file_size)[i],
        part.uploader@ == upload.plan.uploader,
        part.key@ == upload.plan.key,
        part.upload_id@ == upload.upload_id,
        upload.plan.progress ==> part.progress == Some(part.size as u64),
        !upload.plan.progress ==> part.progress == None::<u64>,
{
}

} // verus!
