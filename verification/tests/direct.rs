use qiniu_uploader::direct::judge_upload;
use qiniu_uploader::error::{Failure, ReplyStep, Stage, UploadError};
use qiniu_uploader::QiniuUploader;

fn uploader() -> QiniuUploader {
    QiniuUploader::new("access_key", "secret_key", "bucket", None, false)
}

#[test]
fn form_holds_file_and_fields() {
    let form = uploader().make_multi_part_at("test/Cargo.lock", "text/plain", 1700000000);
    assert_eq!(form.file.field, "file");
    assert_eq!(form.file.file_name, "Cargo.lock");
    assert_eq!(form.file.mime, "text/plain");
    assert_eq!(form.file.headers.len(), 1);
    assert_eq!(form.file.headers.get("Content-Type").unwrap(), "text/plain");
    let token = uploader().get_upload_token_at("test/Cargo.lock", 1700000000);
    let fields: Vec<(&str, &str)> =
        form.fields.iter().map(|f| (f.name.as_str(), f.value.as_str())).collect();
    assert_eq!(
        fields,
        vec![("key", "test/Cargo.lock"), ("token", token.as_str()), ("filename", "Cargo.lock")]
    );
    assert_eq!(form.log, None);
}

#[test]
fn direct_upload_goes_to_the_host() {
    let upload = uploader().upload_file("a/b", "image/png", 77);
    assert_eq!(upload.url, "https://up-z0.qiniup.com");
    assert_eq!(upload.progress, Some(77));
    assert_eq!(upload.form.fields[2].value, "b");
    let upload = uploader().upload_file_no_progress_bar("a/b", "image/png");
    assert_eq!(upload.url, "https://up-z0.qiniup.com");
    assert_eq!(upload.progress, None);
    assert!(upload.form.fields[1].value.starts_with("access_key:"));
}

#[test]
fn access_keys_outside_headers_do_for_direct_uploads() {
    let strange = QiniuUploader::new("a\nb", "s", "b", None, true);
    let form = strange.make_multi_part("k", "text/plain");
    assert!(form.fields[1].value.starts_with("a\nb:"));
    assert_eq!(form.log, Some(format!("key: k, token: {}", form.fields[1].value)));
}

#[test]
fn statuses_from_200_to_299_are_success() {
    for status in [200u16, 201, 299] {
        assert!(matches!(
            judge_upload::<String>(Ok(status)),
            ReplyStep::Finished(Ok(()))
        ));
    }
    for status in [0u16, 100, 199, 300, 401, 599, 65535] {
        match judge_upload::<String>(Ok(status)) {
            ReplyStep::ReadBody(rejection) => {
                assert_eq!(rejection.stage, Stage::Upload);
                assert_eq!(rejection.status, status);
            }
            ReplyStep::Finished(_) => panic!("{}", status),
        }
    }
}

#[test]
fn transport_errors_are_handed_on() {
    match judge_upload(Err(String::from("no route"))) {
        ReplyStep::Finished(Err(UploadError::Outside(e))) => assert_eq!(e, "no route"),
        _ => panic!("not handed on"),
    }
}

#[test]
fn refusals_are_reported_with_their_body() {
    for (body, expected) in [
        (Some(String::from("bad token")), "Failed to upload file: 401 bad token"),
        (Some(String::new()), "Failed to upload file: 401 "),
        (None, "Failed to upload file: 401 Unknown error"),
    ] {
        match judge_upload::<String>(Ok(401)) {
            ReplyStep::ReadBody(rejection) => {
                assert_eq!(rejection.with_body(body).message(), expected);
            }
            ReplyStep::Finished(_) => panic!("accepted"),
        }
    }
}

#[test]
fn failures_have_texts() {
    let refused =
        Failure::Rejected { stage: Stage::Complete, status: 612, body: String::from("gone") };
    assert_eq!(refused.message(), "Failed to complete_part_upload: 612 gone");
    let cancelled = Failure::PartCancelled { cause: String::from("EOF") };
    assert_eq!(cancelled.message(), "上传任务发生异常，已取消, EOF");
}
