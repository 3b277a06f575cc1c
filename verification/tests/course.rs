use qiniu_uploader::course::{Action, Course, Event};
use qiniu_uploader::error::{Failure, UploadError};
use qiniu_uploader::multipart::{MultipartStart, PartReply, PartStep, PartUpload};
use qiniu_uploader::request::{
    CompleteRequest, InitialPartUploadResponse, Method, PartUploadResponse,
};
use qiniu_uploader::QiniuUploader;

const MB: usize = 1024 * 1024;
const NOW: i64 = 1700000000;

type Step = (Course, Action<String>);

fn uploader() -> QiniuUploader {
    QiniuUploader::new("access_key", "secret_key", "bucket", None, false)
}

fn start(file_size: usize) -> MultipartStart {
    uploader().part_upload_file("k", file_size, Some(MB), None)
}

fn started(file_size: usize) -> Step {
    let (course, action) = start(file_size).begin_at::<String>(NOW);
    match action {
        Action::Start(request) => {
            assert_eq!(request.method, Method::Post);
            assert_eq!(
                request.url,
                "https://up-z0.qiniup.com/buckets/bucket/objects/aw==/uploads"
            );
        }
        _ => panic!("not started"),
    }
    let answer = InitialPartUploadResponse { upload_id: String::from("id"), expire_at: 9 };
    course.step_at(Event::Started(Ok(answer)), NOW)
}

fn stored(etag: &str) -> PartUploadResponse {
    PartUploadResponse { etag: String::from(etag), md5: String::from("m") }
}

/// Hands out all parts and returns them with the step that follows.
fn handed_out(file_size: usize) -> (Vec<PartUpload>, Step) {
    let (mut course, mut action) = started(file_size);
    let mut parts = Vec::new();
    while let Action::ReadPart(size) = action {
        (course, action) = course.step_at(Event::Read(Ok(())), NOW);
        match action {
            Action::Launch(part) => {
                assert_eq!(part.size, size);
                parts.push(part);
            }
            _ => panic!("not launched"),
        }
        (course, action) = course.step_at(Event::Launched, NOW);
    }
    (parts, (course, action))
}

fn completed(file_size: usize) -> (Course, CompleteRequest) {
    let (parts, (mut course, mut action)) = handed_out(file_size);
    for i in 0..parts.len() {
        assert!(matches!(action, Action::AwaitPart));
        let etag = format!("e{}", i);
        (course, action) = course.step_at(Event::PartFinished(Ok(stored(&etag))), NOW);
    }
    match action {
        Action::Complete(end) => (course, end),
        _ => panic!("not complete"),
    }
}

fn error_of(action: Action<String>) -> UploadError<String> {
    match action {
        Action::Finish(Err(e)) => e,
        _ => panic!("no error"),
    }
}

#[test]
fn parts_are_handed_out_in_order() {
    let (parts, _) = handed_out(4 * MB + 5);
    let sizes: Vec<usize> = parts.iter().map(|p| p.size).collect();
    let numbers: Vec<i32> = parts.iter().map(|p| p.number).collect();
    assert_eq!(sizes, vec![MB, MB, MB, MB + 5]);
    assert_eq!(numbers, vec![1, 2, 3, 4]);
    for part in &parts {
        assert_eq!(part.key, "k");
        assert_eq!(part.upload_id, "id");
        assert_eq!(part.progress, Some(part.size as u64));
        let request = part.request();
        assert_eq!(request.method, Method::Put);
        assert_eq!(
            request.url,
            format!(
                "https://up-z0.qiniup.com/buckets/bucket/objects/aw==/uploads/id/{}",
                part.number
            )
        );
        assert_eq!(
            request.headers.get("content-length").unwrap(),
            format!("{}", part.size).as_str()
        );
    }
}

#[test]
fn parts_without_progress_bars_have_none() {
    let start = uploader().part_upload_file_no_progress_bar("k", 5, None, Some(3));
    let (course, _) = start.begin::<String>();
    let answer = InitialPartUploadResponse { upload_id: String::from("id"), expire_at: 9 };
    let (course, action) = course.step::<String>(Event::Started(Ok(answer)));
    assert!(matches!(action, Action::ReadPart(5)));
    match course.step::<String>(Event::Read(Ok(()))).1 {
        Action::Launch(part) => assert_eq!(part.progress, None),
        _ => panic!("not launched"),
    }
}

#[test]
fn one_gigabyte_with_a_short_tail_is_one_part() {
    let start =
        uploader().part_upload_file_no_progress_bar("k", 1073741824, Some(1073217536), None);
    let (course, _) = start.begin::<String>();
    let answer = InitialPartUploadResponse { upload_id: String::from("id"), expire_at: 9 };
    let (course, action) = course.step::<String>(Event::Started(Ok(answer)));
    assert!(matches!(action, Action::ReadPart(1073741824)));
    let (course, action) = course.step::<String>(Event::Read(Ok(())));
    match action {
        Action::Launch(part) => assert_eq!((part.number, part.size), (1, 1073741824)),
        _ => panic!("not launched"),
    }
    let (course, action) = course.step::<String>(Event::Launched);
    assert!(matches!(action, Action::AwaitPart));
    let (course, action) = course.step::<String>(Event::PartFinished(Ok(stored("e"))));
    match action {
        Action::Complete(end) => assert_eq!(end.parts.len(), 1),
        _ => panic!("not complete"),
    }
    let (_, action) = course.step::<String>(Event::Completed(Ok(200)));
    assert!(matches!(action, Action::Finish(Ok(()))));
}

#[test]
fn completion_lists_every_part() {
    let (_, end) = completed(3 * MB);
    let list: Vec<(&str, i64)> =
        end.parts.iter().map(|p| (p.etag.as_str(), p.part_number)).collect();
    assert_eq!(list, vec![("e0", 1), ("e1", 2), ("e2", 3)]);
    assert_eq!(end.request.method, Method::Post);
    assert_eq!(
        end.request.url,
        "https://up-z0.qiniup.com/buckets/bucket/objects/aw==/uploads/id"
    );
}

#[test]
fn empty_files_are_completed_without_parts() {
    let (_, end) = completed(0);
    assert_eq!(end.parts.len(), 0);
}

#[test]
fn upload_succeeds_by_the_last_status() {
    let (course, _) = completed(2 * MB);
    let (_, action) = course.step_at::<String>(Event::Completed(Ok(200)), NOW);
    assert!(matches!(action, Action::Finish(Ok(()))));
}

#[test]
fn refused_completion_is_reported() {
    for (body, text) in [
        (Some(String::from("bad part")), "Failed to complete_part_upload: 400 bad part"),
        (None, "Failed to complete_part_upload: 400 Unknown error"),
    ] {
        let (course, _) = completed(2 * MB);
        let (course, action) = course.step_at::<String>(Event::Completed(Ok(400)), NOW);
        assert!(matches!(action, Action::ReadBody));
        let (_, action) = course.step_at::<String>(Event::BodyRead(body), NOW);
        match error_of(action) {
            UploadError::Failed(failure) => assert_eq!(failure.message(), text),
            UploadError::Outside(_) => panic!("outside"),
        }
    }
}

#[test]
fn outside_errors_end_the_upload() {
    let oops = || String::from("oops");
    let (course, _) = start(5).begin_at::<String>(NOW);
    let (_, action) = course.step_at(Event::Started(Err(oops())), NOW);
    assert!(matches!(error_of(action), UploadError::Outside(e) if e == "oops"));

    let (course, _) = started(5);
    let (_, action) = course.step_at(Event::Read(Err(oops())), NOW);
    assert!(matches!(error_of(action), UploadError::Outside(e) if e == "oops"));

    let (course, _) = completed(5);
    let (_, action) = course.step_at(Event::Completed(Err(oops())), NOW);
    assert!(matches!(error_of(action), UploadError::Outside(e) if e == "oops"));
}

#[test]
fn first_failed_part_ends_the_upload() {
    let (_, (course, _)) = handed_out(3 * MB);
    let (course, action) = course.step_at(Event::PartFinished(Ok(stored("e0"))), NOW);
    assert!(matches!(action, Action::<String>::AwaitPart));
    let failure = Failure::PartCancelled { cause: String::from("EOF") };
    let failed: UploadError<String> = UploadError::Failed(failure);
    let (_, action) = course.step_at(Event::PartFinished(Err(failed)), NOW);
    match error_of(action) {
        UploadError::Failed(failure) => {
            assert_eq!(failure.message(), "上传任务发生异常，已取消, EOF");
        }
        UploadError::Outside(_) => panic!("outside"),
    }
}

#[test]
fn upload_takes_three_events_per_part() {
    let (mut course, mut action) = started(7 * MB);
    let mut events = 1;
    loop {
        let event = match action {
            Action::ReadPart(_) => Event::Read(Ok(())),
            Action::Launch(_) => Event::Launched,
            Action::AwaitPart => Event::PartFinished(Ok(stored("e"))),
            Action::Complete(_) => Event::Completed(Ok(500)),
            Action::ReadBody => Event::BodyRead(None),
            Action::Start(_) => panic!("started twice"),
            Action::Finish(_) => break,
        };
        (course, action) = course.step_at(event, NOW);
        events += 1;
    }
    assert_eq!(events, 3 * 7 + 3);
}

#[test]
fn stored_parts_are_done_with() {
    let (parts, _) = handed_out(5);
    match parts[0].on_reply::<String>(PartReply::Stored(stored("e"))) {
        PartStep::Finished(Ok(answer)) => assert_eq!(answer.etag, "e"),
        _ => panic!("not stored"),
    }
}

#[test]
fn unsent_parts_do_not_cancel() {
    let (parts, _) = handed_out(5);
    match parts[0].on_reply(PartReply::SendFailed(String::from("reset"))) {
        PartStep::Finished(Err(UploadError::Outside(e))) => assert_eq!(e, "reset"),
        _ => panic!("not handed on"),
    }
}

#[test]
fn unreadable_answers_cancel_the_upload() {
    let (parts, _) = handed_out(5);
    let replies: [(Result<(), String>, Option<&str>); 2] =
        [(Ok(()), None), (Err(String::from("offline")), Some("offline"))];
    for (sent, outside) in replies {
        let reply = PartReply::Unreadable(String::from("EOF"));
        match parts[0].on_reply_at::<String>(reply, NOW) {
            PartStep::Cancel(request, part) => {
                assert_eq!(request.method, Method::Delete);
                assert_eq!(
                    request.url,
                    "https://up-z0.qiniup.com/buckets/bucket/objects/aw==/uploads/id"
                );
                match part.on_reply(sent) {
                    UploadError::Failed(failure) => {
                        assert_eq!(outside, None);
                        assert_eq!(failure.message(), "上传任务发生异常，已取消, EOF");
                    }
                    UploadError::Outside(e) => assert_eq!(outside, Some(e.as_str())),
                }
            }
            PartStep::Finished(_) => panic!("not cancelled"),
        }
    }
}

#[test]
fn feasibility_is_told() {
    let u = uploader();
    assert!(u.can_upload_parts(0, None, None));
    assert!(u.can_upload_parts(10 * MB, None, Some(1)));
    assert!(u.can_upload_parts(10 * MB, Some(1), Some(0)));
    assert!(!u.can_upload_parts(10 * MB, None, Some(0)));
    assert!(!u.can_upload_parts(usize::MAX, Some(MB), None));
    assert!(!QiniuUploader::new("\n", "s", "b", None, false).can_upload_parts(5, None, None));
}
