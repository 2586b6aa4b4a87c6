use base64::engine::general_purpose::STANDARD;
use base64::Engine;
use ptybridge::control::{base64_input, decode_input, signal_number, str_equals};

#[test]
fn utf8_passthrough_when_encoding_absent() {
    assert_eq!(decode_input(None, "ls\r").unwrap(), b"ls\r");
    assert_eq!(decode_input(Some("utf8"), "あ").unwrap(), "あ".as_bytes());
}

#[test]
fn base64_is_decoded() {
    // "\x1b[A" (up arrow) base64-encoded.
    let encoded = STANDARD.encode(b"\x1b[A");
    assert_eq!(decode_input(Some("base64"), &encoded).unwrap(), b"\x1b[A");
}

#[test]
fn malformed_base64_is_an_error() {
    assert!(decode_input(Some("base64"), "not base64!!!").is_err());
}

#[test]
fn unknown_encoding_is_an_error() {
    assert!(decode_input(Some("rot13"), "abc").is_err());
}

#[test]
fn known_signal_names_map_to_numbers() {
    assert_eq!(signal_number("INT"), Some(2));
    assert_eq!(signal_number("TERM"), Some(15));
    assert_eq!(signal_number("HUP"), Some(1));
    assert_eq!(signal_number("WINCH"), None);
}

#[test]
fn every_accepted_signal_name_has_its_number() {
    assert_eq!(signal_number("QUIT"), Some(3));
    assert_eq!(signal_number("KILL"), Some(9));
    assert_eq!(signal_number("int"), None);
    assert_eq!(signal_number(""), None);
}

#[test]
fn unknown_encoding_error_names_the_encoding() {
    assert_eq!(
        decode_input(Some("rot13"), "abc").unwrap_err(),
        "unknown input encoding: rot13"
    );
}

#[test]
fn malformed_base64_error_is_prefixed() {
    let message = decode_input(Some("base64"), "not base64!!!").unwrap_err();
    assert!(message.starts_with("invalid base64 input: "));
    // The wrapper's own decoding differs from the input: it is no passthrough.
    assert_ne!(decode_input(Some("base64"), "aGk=").unwrap(), b"aGk=");
    assert_eq!(decode_input(Some("base64"), "aGk=").unwrap(), b"hi");
}

#[test]
fn base64_input_prefixes_only_errors() {
    assert_eq!(base64_input(Ok(vec![1, 2])).unwrap(), vec![1, 2]);
    assert_eq!(
        base64_input(Err("bad".to_string())).unwrap_err(),
        "invalid base64 input: bad"
    );
}

#[test]
fn str_equals_compares_characters() {
    assert!(str_equals("あい", "あい"));
    assert!(!str_equals("あい", "あ"));
    assert!(!str_equals("ab", "ac"));
    assert!(str_equals("", ""));
}
