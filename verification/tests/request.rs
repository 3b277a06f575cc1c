use qiniu_uploader::request::{CompletePartUploadParam, Method, Request};
use qiniu_uploader::{QiniuRegionEnum, QiniuUploader};

const NOW: i64 = 1700000000;
const UPLOADS: &str =
    "https://up-z2.qiniup.com/buckets/bucket/objects/dGVzdC9DYXJnby5sb2Nr/uploads";

fn uploader(debug: bool) -> QiniuUploader {
    QiniuUploader::new("access_key", "secret_key", "bucket", Some(QiniuRegionEnum::Z2), debug)
}

fn header<'a>(request: &'a Request, name: &str) -> Option<&'a str> {
    request.headers.get(name).map(|value| value.to_str().unwrap())
}

fn authorization() -> String {
    format!("UpToken {}", uploader(false).get_upload_token_at("test/Cargo.lock", NOW))
}

#[test]
fn initial_request() {
    let request = uploader(false).initial_part_upload_at("test/Cargo.lock", NOW);
    assert_eq!(request.method, Method::Post);
    assert_eq!(request.url, UPLOADS);
    assert_eq!(request.headers.len(), 1);
    assert_eq!(header(&request, "Authorization"), Some(authorization().as_str()));
    assert_eq!(request.log, None);
}

#[test]
fn part_request() {
    let request =
        uploader(false).part_upload_no_progress_bar_at("test/Cargo.lock", "id", 12, 1048576, NOW);
    assert_eq!(request.method, Method::Put);
    assert_eq!(request.url, format!("{}/id/12", UPLOADS));
    assert_eq!(request.headers.len(), 3);
    assert_eq!(header(&request, "authorization"), Some(authorization().as_str()));
    assert_eq!(header(&request, "content-type"), Some("application/octet-stream"));
    assert_eq!(header(&request, "content-length"), Some("1048576"));
}

#[test]
fn complete_request() {
    let parts = vec![CompletePartUploadParam { etag: String::from("e"), part_number: 1 }];
    let end = uploader(false).complete_part_upload_at("test/Cargo.lock", "id", parts, NOW);
    assert_eq!(end.request.method, Method::Post);
    assert_eq!(end.request.url, format!("{}/id", UPLOADS));
    assert_eq!(end.request.headers.len(), 2);
    assert_eq!(header(&end.request, "authorization"), Some(authorization().as_str()));
    assert_eq!(header(&end.request, "content-type"), Some("application/json"));
    assert_eq!(end.parts.len(), 1);
    assert_eq!(end.parts[0].etag, "e");
}

#[test]
fn abort_request() {
    let request = uploader(false).part_abort_at("test/Cargo.lock", "id", NOW);
    assert_eq!(request.method, Method::Delete);
    assert_eq!(request.url, format!("{}/id", UPLOADS));
    assert_eq!(request.headers.len(), 1);
    assert_eq!(header(&request, "authorization"), Some(authorization().as_str()));
}

#[test]
fn requests_of_now_carry_a_token() {
    let u = uploader(false);
    let key = "test/Cargo.lock";
    let requests = [
        u.initial_part_upload(key),
        u.part_upload_no_progress_bar(key, "id", 1, 5),
        u.complete_part_upload(key, "id", Vec::new()).request,
        u.part_abort(key, "id"),
    ];
    for request in &requests {
        assert!(request.url.starts_with(UPLOADS));
        assert!(header(request, "authorization").unwrap().starts_with("UpToken access_key:"));
    }
    let headers = u.get_part_headers(key);
    assert_eq!(headers.len(), 1);
    assert_eq!(
        u.get_part_headers_at(key, NOW).get("authorization").unwrap(),
        authorization().as_str()
    );
}

#[test]
fn debugging_logs_the_token_of_a_request() {
    let request = uploader(true).part_abort_at("test/Cargo.lock", "id", NOW);
    let token = uploader(false).get_upload_token_at("test/Cargo.lock", NOW);
    assert_eq!(request.log, Some(format!("key: test/Cargo.lock, token: {}", token)));
}

#[test]
fn different_keys_have_different_addresses() {
    let u = uploader(false);
    let keys = ["", "a", "a/b", "a/b/", "A", "b/a", "a b", "\0"];
    for a in keys {
        for b in keys {
            assert_eq!(u.uploads_address(a) == u.uploads_address(b), a == b);
        }
    }
}
