use base64::prelude::{Engine, BASE64_URL_SAFE};
use qiniu_uploader::headers::fits_header;
use qiniu_uploader::policy::put_policy;
use qiniu_uploader::{QiniuRegionEnum, QiniuUploader};

const TOKEN: &str = "access_key:82080ca-mxbuBquB7UDOBzTKMi4=:eyJzY29wZSI6ICJidWNrZXQ6dGVzdC9DYXJnby5sb2NrIiwgImRlYWRsaW5lIjogMTcwMDAwMzYwMCwgImZzaXplTGltaXQiOiAxMDczNzQxODI0LCAicmV0dXJuQm9keSI6ICJ7XCJoYXNoXCI6ICQoZXRhZyksIFwia2V5XCI6ICQoa2V5KX0ifQ==";

fn uploader() -> QiniuUploader {
    QiniuUploader::new("access_key", "secret_key", "bucket", None, false)
}

#[test]
fn policy_names_bucket_key_and_deadline() {
    assert_eq!(
        put_policy("bucket", "test/Cargo.lock", 1700003600),
        r#"{"scope": "bucket:test/Cargo.lock", "deadline": 1700003600, "fsizeLimit": 1073741824, "returnBody": "{\"hash\": $(etag), \"key\": $(key)}"}"#
    );
}

#[test]
fn placeholders_in_a_bucket_are_filled_in() {
    assert_eq!(
        put_policy("b{key}", "k{deadline}", -1400),
        r#"{"scope": "bk{deadline}:k{deadline}", "deadline": -1400, "fsizeLimit": 1073741824, "returnBody": "{\"hash\": $(etag), \"key\": $(key)}"}"#
    );
    assert_eq!(
        put_policy("{deadline}", "k", 12),
        r#"{"scope": "12:k", "deadline": 12, "fsizeLimit": 1073741824, "returnBody": "{\"hash\": $(etag), \"key\": $(key)}"}"#
    );
}

#[test]
fn placeholders_in_a_key_stay() {
    assert_eq!(
        put_policy("b", "{bucket}{key}{deadline}", 1),
        r#"{"scope": "b:{bucket}{key}{deadline}", "deadline": 1, "fsizeLimit": 1073741824, "returnBody": "{\"hash\": $(etag), \"key\": $(key)}"}"#
    );
    assert_eq!(
        put_policy("{key}", "{key}", 1),
        r#"{"scope": "{key}:{key}", "deadline": 1, "fsizeLimit": 1073741824, "returnBody": "{\"hash\": $(etag), \"key\": $(key)}"}"#
    );
}

#[test]
fn token_signs_the_policy() {
    assert_eq!(uploader().get_upload_token_at("test/Cargo.lock", 1700000000), TOKEN);
    assert_eq!(
        uploader().get_part_upload_token_at("test/Cargo.lock", 1700000000),
        format!("UpToken {}", TOKEN)
    );
    let other = QiniuUploader::new("ak", "", "桶", Some(QiniuRegionEnum::NA0), false);
    assert_eq!(
        other.get_upload_token_at("", 0),
        "ak:IFYTDdmckjTMC_8BkHNLI8XtZAc=:eyJzY29wZSI6ICLmobY6IiwgImRlYWRsaW5lIjogMzYwMCwgImZzaXplTGltaXQiOiAxMDczNzQxODI0LCAicmV0dXJuQm9keSI6ICJ7XCJoYXNoXCI6ICQoZXRhZyksIFwia2V5XCI6ICQoa2V5KX0ifQ=="
    );
    let tricky = QiniuUploader::new("ak", "sk", "b{key}", None, false);
    assert_eq!(
        tricky.get_upload_token_at("k{deadline}", -5000),
        "ak:lGG-jwWvyeoMbjrp3uV6nUZltuc=:eyJzY29wZSI6ICJia3tkZWFkbGluZX06a3tkZWFkbGluZX0iLCAiZGVhZGxpbmUiOiAtMTQwMCwgImZzaXplTGltaXQiOiAxMDczNzQxODI0LCAicmV0dXJuQm9keSI6ICJ7XCJoYXNoXCI6ICQoZXRhZyksIFwia2V5XCI6ICQoa2V5KX0ifQ=="
    );
}

#[test]
fn signatures_have_28_characters() {
    for (key, now) in [("", 0), ("k", 1), ("test/Cargo.lock", 1700000000)] {
        let token = uploader().get_upload_token_at(key, now);
        assert_eq!(token.split(':').nth(1).unwrap().len(), 28);
    }
}

#[test]
fn token_is_put_together_from_its_parts() {
    assert_eq!(uploader().assemble_token(&[0, 0, 0], "policy"), "access_key:AAAA:policy");
    assert_eq!(uploader().assemble_token(&[0xff], ""), "access_key:_w==:");
    assert_eq!(uploader().assemble_token(&[], "p"), "access_key::p");
}

#[test]
fn policy_follows_the_last_colon_of_a_token() {
    let strange = QiniuUploader::new("a:b:", "s", "b:c", None, false);
    let token = strange.get_upload_token_at("k:1", 50);
    let policy = token.rsplit(':').next().unwrap();
    let decoded = BASE64_URL_SAFE.decode(policy).unwrap();
    assert_eq!(String::from_utf8(decoded).unwrap(), put_policy("b:c", "k:1", 3650));
}

#[test]
fn token_of_now_is_valid_for_an_hour() {
    let before = chrono::Utc::now().timestamp();
    let token = uploader().get_upload_token("k");
    let after = chrono::Utc::now().timestamp();
    let expected: Vec<String> =
        (before..=after).map(|now| uploader().get_upload_token_at("k", now)).collect();
    assert!(expected.contains(&token));
    assert!(uploader().get_part_upload_token("k").starts_with("UpToken access_key:"));
}

#[test]
fn keys_are_encoded_for_addresses() {
    let u = uploader();
    for (key, encoded) in [
        ("test/Cargo.lock", "dGVzdC9DYXJnby5sb2Nr"),
        ("", ""),
        ("a", "YQ=="),
        ("ab", "YWI="),
        ("abc", "YWJj"),
        ("中文/文件?.txt", "5Lit5paHL-aWh-S7tj8udHh0"),
        ("~~~???", "fn5-Pz8_"),
    ] {
        assert_eq!(u.get_base64encode_key(key), encoded);
    }
}

#[test]
fn long_texts_are_encoded() {
    let u = uploader();
    for length in [767, 768, 769, 2000] {
        let key = "xyz?".repeat(length);
        let encoded = u.get_base64encode_key(&key);
        assert_eq!(encoded.len(), (key.len() + 2) / 3 * 4);
        assert_eq!(BASE64_URL_SAFE.decode(&encoded).unwrap(), key.as_bytes());
        assert!(!encoded.contains('/') && !encoded.contains('+'));
    }
}

#[test]
fn strings_and_slices_make_the_same_uploader() {
    let a = QiniuUploader::new(
        String::from("access_key"),
        String::from("secret_key"),
        String::from("bucket"),
        Some(QiniuRegionEnum::Z0),
        false,
    );
    let copy = a.clone();
    assert_eq!(copy.get_upload_token_at("test/Cargo.lock", 1700000000), TOKEN);
    assert_eq!(copy.upload_address(), "https://up-z0.qiniup.com");
    assert!(!copy.debug());
}

#[test]
fn region_is_z0_by_default() {
    assert_eq!(uploader().upload_address(), "https://up-z0.qiniup.com");
    let na = QiniuUploader::new("a", "s", "b", Some(QiniuRegionEnum::NA0), true);
    assert_eq!(na.upload_address(), "https://up-na0.qiniup.com");
    assert!(na.debug());
}

#[test]
fn only_some_texts_fit_headers() {
    assert!(fits_header(""));
    assert!(fits_header("UpToken a:b\t~"));
    assert!(fits_header("键"));
    assert!(!fits_header("a\nb"));
    assert!(!fits_header("\u{7f}"));
    assert!(!fits_header("\0"));
    assert!(uploader().can_authorize());
    assert!(!QiniuUploader::new("a\n", "s", "b", None, false).can_authorize());
}

#[test]
fn tokens_are_logged_where_debugging_is_on() {
    let quiet = uploader();
    assert_eq!(quiet.log_of_token("k", "t"), None);
    let loud = QiniuUploader::new("a", "s", "b", None, true);
    assert_eq!(loud.log_of_token("k", "t"), Some(String::from("key: k, token: t")));
}
