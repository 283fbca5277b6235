use deepseek_harness::percent::{percent_decode, percent_decode_bytes};

#[test]
fn escapes_are_decoded() {
    assert_eq!(percent_decode("session%20log.txt"), "session log.txt");
    assert_eq!(percent_decode("%41%62%7e"), "Ab~");
    assert_eq!(percent_decode("%e2%82%AC"), "\u{20ac}");
}

#[test]
fn anything_else_is_passed_through() {
    assert_eq!(percent_decode(""), "");
    assert_eq!(percent_decode("plain.txt"), "plain.txt");
    assert_eq!(percent_decode("na\u{ef}ve+\u{1f600}"), "na\u{ef}ve+\u{1f600}");
    assert_eq!(percent_decode("100%"), "100%");
    assert_eq!(percent_decode("100%2"), "100%2");
    assert_eq!(percent_decode("%zz%4"), "%zz%4");
    assert_eq!(percent_decode("%+5"), "%+5");
    assert_eq!(percent_decode("%%41"), "%A");
}

#[test]
fn decoding_happens_once() {
    assert_eq!(percent_decode("%2541"), "%41");
}

#[test]
fn bytes_that_are_no_utf8_raise_no_error() {
    assert_eq!(percent_decode("a%FFb"), "a\u{fffd}b");
    assert_eq!(percent_decode("%E2%82"), "\u{fffd}");
}

#[test]
fn bytes_are_decoded_exactly() {
    assert_eq!(percent_decode_bytes(b"%00%fF-%2"), vec![0u8, 255, b'-', b'%', b'2']);
    assert_eq!(percent_decode_bytes(b""), Vec::<u8>::new());
}

#[test]
fn decoding_undoes_encoding() {
    let text = "50% of \u{e9}t\u{e9}/2";
    let mut encoded = String::new();
    for b in text.bytes() {
        encoded.push_str(&format!("%{:02X}", b));
    }
    assert_eq!(percent_decode(&encoded), text);
}
