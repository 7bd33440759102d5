use fsbridge::error::FsError;
use fsbridge::path::{file_name, from_encoded, normalize_path, normalize_with, percent_decode};

#[test]
fn normalize_mixed_separators_to_backslash() {
    assert_eq!(normalize_with("a/b\\c", '\\'), "a\\b\\c");
}

#[test]
fn normalize_mixed_separators_to_slash() {
    assert_eq!(normalize_with("a/b\\c", '/'), "a/b/c");
}

#[test]
fn normalize_keeps_segments_in_order() {
    let out = normalize_with("/x\\yy/zzz\\", '/');
    let segments: Vec<&str> = out.split('/').collect();
    assert_eq!(segments, vec!["", "x", "yy", "zzz", ""]);
}

#[test]
fn normalize_path_uses_host_separator() {
    let sep = std::path::MAIN_SEPARATOR;
    let out = normalize_path("a/b\\c");
    let expected: String = ['a', sep, 'b', sep, 'c'].iter().collect();
    assert_eq!(out, expected);
}

#[test]
fn normalize_empty_path() {
    assert_eq!(normalize_with("", '/'), "");
}

#[test]
fn percent_decode_escapes() {
    assert_eq!(percent_decode(b"a%20b%2Fc"), Some(b"a b/c".to_vec()));
    assert_eq!(percent_decode(b"%e4%B8%ad"), Some(vec![0xe4, 0xb8, 0xad]));
}

#[test]
fn percent_decode_malformed() {
    assert_eq!(percent_decode(b"abc%"), None);
    assert_eq!(percent_decode(b"abc%4"), None);
    assert_eq!(percent_decode(b"%zz"), None);
}

#[test]
fn from_encoded_decodes_then_normalizes() {
    let sep = std::path::MAIN_SEPARATOR;
    let expected: String = ['m', 'y', ' ', 'd', 'i', 'r', sep, 'f', '.', 't', 'x', 't']
        .iter()
        .collect();
    assert_eq!(from_encoded("my%20dir%2Ff.txt"), Ok(expected));
}

#[test]
fn from_encoded_non_ascii() {
    let out = from_encoded("%E4%B8%AD").unwrap();
    assert_eq!(out, "\u{4e2d}");
}

#[test]
fn from_encoded_malformed_escape() {
    assert_eq!(from_encoded("a%2"), Err(FsError::DecodeError));
    assert_eq!(from_encoded("a%g0"), Err(FsError::DecodeError));
}

#[test]
fn from_encoded_not_utf8() {
    assert_eq!(from_encoded("%FF"), Err(FsError::DecodeError));
}

#[test]
fn from_encoded_nul_byte() {
    assert_eq!(from_encoded("a%00b"), Err(FsError::InvalidPath));
}

#[test]
fn file_name_cases() {
    assert_eq!(file_name("a/b.txt"), Some("b.txt".to_string()));
    assert_eq!(file_name("a/b/"), Some("b".to_string()));
    assert_eq!(file_name("a/b/."), Some("b".to_string()));
    assert_eq!(file_name("c:\\dir\\f"), Some("f".to_string()));
    assert_eq!(file_name("name"), Some("name".to_string()));
    assert_eq!(file_name("a/.."), None);
    assert_eq!(file_name("/"), None);
    assert_eq!(file_name(""), None);
    assert_eq!(file_name("./"), None);
}
