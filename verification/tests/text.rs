use qiniu_uploader::text::{
    chars_of, decimal_signed, decimal_unsigned, file_name_of, replace_all, same_text,
};

#[test]
fn numbers_are_written_in_decimal() {
    for n in [0i64, 7, 10, 99, 100, 1_700_003_600, -1, -10, -1400, i64::MAX, i64::MIN] {
        assert_eq!(decimal_signed(n), format!("{}", n));
    }
    for n in [0u64, 9, 10, 1_073_741_824, u64::MAX] {
        assert_eq!(decimal_unsigned(n), format!("{}", n));
    }
}

#[test]
fn every_occurrence_is_replaced() {
    let cases = [
        ("", "a", "b"),
        ("aaa", "a", "bb"),
        ("aaa", "aa", "b"),
        ("a{key}b{key}", "{key}", ""),
        ("{ke{key}y}", "{key}", "{key}"),
        ("no match", "{key}", "x"),
        ("{key", "{key}", "x"),
        ("键{key}值", "{key}", "中"),
    ];
    for (text, pattern, with) in cases {
        assert_eq!(replace_all(text, pattern, with), text.replace(pattern, with));
    }
}

#[test]
fn file_name_follows_the_last_slash() {
    assert_eq!(file_name_of("test/Cargo.lock"), "Cargo.lock");
    assert_eq!(file_name_of("Cargo.lock"), "Cargo.lock");
    assert_eq!(file_name_of("a/b/"), "");
    assert_eq!(file_name_of("/"), "");
    assert_eq!(file_name_of(""), "");
    assert_eq!(file_name_of("目录/文件.txt"), "文件.txt");
}

#[test]
fn texts_are_compared_by_characters() {
    assert!(same_text("z0", "z0"));
    assert!(!same_text("z0", "z1"));
    assert!(!same_text("z0", "z00"));
    assert_eq!(chars_of("a中b"), vec!['a', '中', 'b']);
}
