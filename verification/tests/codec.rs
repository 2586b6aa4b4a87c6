use ptybridge::protocol::{Control, Event};
use ptybridge::transport::codec::{
    classify_fields, classify_tag, decode_line, error, parse_error, trim_line_end, Decoded, Format,
};

fn error_code(decoded: Decoded) -> String {
    match decoded {
        Decoded::Error(Event::Error { code, .. }) => code,
        other => panic!("expected an error, got {other:?}"),
    }
}

#[test]
fn missing_tag_is_a_parse_error() {
    assert_eq!(error_code(classify_tag(None).unwrap()), "parse");
}

#[test]
fn event_tag_is_a_direction_error() {
    assert_eq!(error_code(classify_tag(Some("grid_line")).unwrap()), "direction");
    assert_eq!(error_code(classify_tag(Some("flush")).unwrap()), "direction");
    assert_eq!(error_code(classify_tag(Some("scrollback_push")).unwrap()), "direction");
    match classify_tag(Some("hello")).unwrap() {
        Decoded::Error(Event::Error { message, .. }) => {
            assert_eq!(message, "event type sent as control: hello")
        }
        other => panic!("expected an error, got {other:?}"),
    }
}

#[test]
fn known_control_tags_need_their_fields() {
    for tag in ["input", "resize", "signal", "ping", "shutdown"] {
        assert!(classify_tag(Some(tag)).is_none(), "{tag}");
    }
}

#[test]
fn unknown_tag_is_ignored() {
    assert!(matches!(classify_tag(Some("frobnicate")), Some(Decoded::Ignore)));
}

#[test]
fn bad_fields_are_a_bad_message_error() {
    assert_eq!(
        error_code(classify_fields(Err("invalid type".to_string()))),
        "bad_message"
    );
    match classify_fields(Ok(Control::Resize { cols: 120, rows: 40 })) {
        Decoded::Control(ctrl) => assert_eq!(ctrl, Control::Resize { cols: 120, rows: 40 }),
        other => panic!("expected a control, got {other:?}"),
    }
}

#[test]
fn malformed_json_is_a_parse_error() {
    assert_eq!(error_code(parse_error("expected value".to_string())), "parse");
}

#[test]
fn error_event_carries_code_and_message() {
    assert_eq!(
        error("spawn", "no such file".to_string()),
        Event::Error {
            code: "spawn".to_string(),
            message: "no such file".to_string()
        }
    );
}

#[test]
fn jsonl_is_the_default_format() {
    assert_eq!(Format::default(), Format::Jsonl);
}

#[test]
fn malformed_line_is_a_parse_error() {
    assert_eq!(error_code(decode_line("not json").unwrap()), "parse");
}

#[test]
fn missing_type_is_a_parse_error() {
    assert_eq!(error_code(decode_line(r#"{"cols":1}"#).unwrap()), "parse");
}

#[test]
fn event_type_sent_as_control_is_a_direction_error() {
    assert_eq!(
        error_code(decode_line(r#"{"t":"grid_line","row":0,"col":0,"cells":[]}"#).unwrap()),
        "direction"
    );
}

#[test]
fn unknown_type_is_ignored() {
    assert!(matches!(
        decode_line(r#"{"t":"frobnicate","x":1}"#),
        Some(Decoded::Ignore)
    ));
}

#[test]
fn a_known_control_line_is_left_to_field_decoding() {
    assert!(decode_line("{\"t\":\"resize\",\"cols\":120,\"rows\":40}\r\n").is_none());
    assert!(decode_line(r#"{"t":"ping","id":1}"#).is_none());
}

#[test]
fn a_non_string_tag_counts_as_missing() {
    match decode_line(r#"{"t":5}"#).unwrap() {
        Decoded::Error(Event::Error { code, message }) => {
            assert_eq!(code, "parse");
            assert_eq!(message, "missing string field \"t\"");
        }
        other => panic!("expected an error, got {other:?}"),
    }
}

#[test]
fn the_parse_error_carries_the_parser_message() {
    match decode_line("{\"t\":").unwrap() {
        Decoded::Error(Event::Error { code, message }) => {
            assert_eq!(code, "parse");
            assert!(message.contains("EOF"), "got: {message}");
        }
        other => panic!("expected an error, got {other:?}"),
    }
}

#[test]
fn line_endings_are_trimmed() {
    assert_eq!(trim_line_end("{}\r\n"), "{}");
    assert_eq!(trim_line_end("{}\n\n"), "{}");
    assert_eq!(trim_line_end("a\rb"), "a\rb");
    assert_eq!(trim_line_end(""), "");
}
