use fsbridge::codec::{decode_contents, encode_contents, plan_base64_write, plan_write};
use fsbridge::error::FsError;

#[test]
fn encode_known_value() {
    assert_eq!(encode_contents(b"hello"), "aGVsbG8=");
    assert_eq!(encode_contents(b""), "");
}

#[test]
fn decode_known_value() {
    assert_eq!(decode_contents("aGVsbG8="), Ok(b"hello".to_vec()));
}

#[test]
fn decode_malformed() {
    assert_eq!(decode_contents("not base64!"), Err(FsError::DecodeError));
    assert_eq!(decode_contents("aGVsbG8"), Err(FsError::DecodeError));
}

#[test]
fn encode_then_decode_gives_bytes_back() {
    let data: Vec<u8> = (0u8..=255).collect();
    let text = encode_contents(&data);
    assert_eq!(decode_contents(&text), Ok(data));
}

#[test]
fn utf8_bytes_round_trip_through_text() {
    let data = "h\u{e9}llo, \u{4e16}\u{754c}".as_bytes().to_vec();
    let text = encode_contents(&data);
    assert_eq!(decode_contents(&text), Ok(data));
}

#[test]
fn malformed_base64_plans_no_write() {
    let r = plan_base64_write("@@@", "dir/out.bin");
    assert_eq!(r, Err(FsError::DecodeError));
}

#[test]
fn base64_write_plan_holds_decoded_bytes() {
    let w = plan_base64_write("AAEC", "dir\\out.bin").unwrap();
    assert_eq!(w.data, vec![0u8, 1, 2]);
    let sep = std::path::MAIN_SEPARATOR;
    let expected: String = ['d', 'i', 'r', sep, 'o', 'u', 't', '.', 'b', 'i', 'n'].iter().collect();
    assert_eq!(w.path, expected);
}

#[test]
fn write_plan_keeps_bytes() {
    let w = plan_write("a/b", vec![9, 8, 7]);
    assert_eq!(w.data, vec![9, 8, 7]);
    let sep = std::path::MAIN_SEPARATOR;
    let expected: String = ['a', sep, 'b'].iter().collect();
    assert_eq!(w.path, expected);
}
