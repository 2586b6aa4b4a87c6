use ptybridge::engine::{
    clamp_grid, features, handle, open_session, step_marks_dirty, step_stops, is_overlong, line_chunk, overlong_line_error, skip_chunk, Incoming, Step,
    MAX_COLS, MAX_CONTROL_LINE, MAX_ROWS,
};
use ptybridge::protocol::{Control, Event};

#[test]
fn grid_size_is_clamped() {
    assert_eq!(clamp_grid(0, 0), (1, 1));
    assert_eq!(clamp_grid(80, 24), (80, 24));
    assert_eq!(clamp_grid(u16::MAX, u16::MAX), (MAX_COLS, MAX_ROWS));
}

#[test]
fn output_feeds_and_stream_ends_stop() {
    assert!(matches!(handle(Incoming::Output(vec![1, 2])), Step::Feed(b) if b == vec![1, 2]));
    assert!(matches!(handle(Incoming::OutputEnd), Step::Stop));
    assert!(matches!(handle(Incoming::ControlEnd), Step::Stop));
    assert!(matches!(handle(Incoming::Control(Control::Shutdown)), Step::Stop));
}

#[test]
fn ping_is_answered_with_pong_of_same_id() {
    match handle(Incoming::Control(Control::Ping { id: 42 })) {
        Step::Reply(event) => assert_eq!(event, Event::Pong { id: 42 }),
        _ => panic!("expected a reply"),
    }
}

#[test]
fn input_is_written_or_rejected() {
    match handle(Incoming::Control(Control::Input { enc: None, data: "hi\r".to_string() })) {
        Step::WritePty(bytes) => assert_eq!(bytes, b"hi\r"),
        _ => panic!("expected a write"),
    }
    match handle(Incoming::Control(Control::Input {
        enc: Some("rot13".to_string()),
        data: "abc".to_string(),
    })) {
        Step::Reply(Event::Error { code, message }) => {
            assert_eq!(code, "bad_message");
            assert_eq!(message, "unknown input encoding: rot13");
        }
        _ => panic!("expected a bad_message reply"),
    }
}

#[test]
fn resize_is_clamped_and_signals_are_named() {
    assert!(matches!(
        handle(Incoming::Control(Control::Resize { cols: 9999, rows: 0 })),
        Step::Resize { cols: 4096, rows: 1 }
    ));
    assert!(matches!(
        handle(Incoming::Control(Control::Signal { name: "TERM".to_string() })),
        Step::Signal(15)
    ));
    match handle(Incoming::Control(Control::Signal { name: "WINCH".to_string() })) {
        Step::Reply(Event::Error { code, message }) => {
            assert_eq!(code, "bad_message");
            assert_eq!(message, "unknown signal: WINCH");
        }
        _ => panic!("expected a bad_message reply"),
    }
}

#[test]
fn control_errors_are_replied() {
    let event = overlong_line_error();
    match handle(Incoming::ControlError(event)) {
        Step::Reply(Event::Error { code, message }) => {
            assert_eq!(code, "parse");
            assert_eq!(message, "control line exceeds maximum length");
        }
        _ => panic!("expected a reply"),
    }
}

#[test]
fn line_chunks_stop_at_the_first_newline_or_the_cap() {
    assert_eq!(line_chunk(b"ab\ncd\n", 0), (3, true));
    assert_eq!(line_chunk(b"abcd", 0), (4, false));
    assert_eq!(line_chunk(b"abcd", MAX_CONTROL_LINE - 1), (2, false));
    assert_eq!(line_chunk(b"", 5), (0, false));
}

#[test]
fn a_newline_past_the_cap_does_not_complete_the_line() {
    // One byte of room is left: the newline two bytes on lies past the cap.
    assert_eq!(line_chunk(b"xx\n", MAX_CONTROL_LINE), (1, false));
    // The newline that is exactly the byte past the cap still completes it.
    assert_eq!(line_chunk(b"\nxx", MAX_CONTROL_LINE), (1, true));
    assert_eq!(line_chunk(b"x\n", MAX_CONTROL_LINE - 1), (2, true));
    assert_eq!(line_chunk(b"xx\n", MAX_CONTROL_LINE - 1), (2, false));
}

#[test]
fn a_capped_read_of_an_overlong_line_is_rejected() {
    // Simulate the capped read over a 2 MiB line followed by a short one.
    let mut stream = vec![b'x'; 2 * MAX_CONTROL_LINE];
    stream.push(b'\n');
    stream.extend_from_slice(b"{}\n");
    let mut buf: Vec<u8> = Vec::new();
    let mut pos = 0;
    while buf.len() <= MAX_CONTROL_LINE && pos < stream.len() {
        let end = (pos + 4096).min(stream.len());
        let (take, complete) = line_chunk(&stream[pos..end], buf.len());
        buf.extend_from_slice(&stream[pos..pos + take]);
        pos += take;
        if complete {
            break;
        }
    }
    assert_eq!(buf.len(), MAX_CONTROL_LINE + 1);
    assert!(is_overlong(&buf));
    // Resynchronizing discards through the newline; the next line follows.
    loop {
        let end = (pos + 4096).min(stream.len());
        let (skip, found) = skip_chunk(&stream[pos..end]);
        pos += skip;
        if found {
            break;
        }
    }
    assert_eq!(&stream[pos..], b"{}\n");
}

#[test]
fn skipping_discards_through_the_newline() {
    assert_eq!(skip_chunk(b"xx\nyy"), (3, true));
    assert_eq!(skip_chunk(b"xxxx"), (4, false));
}

#[test]
fn overlong_lines_are_detected() {
    let mut line = vec![b'a'; MAX_CONTROL_LINE + 1];
    assert!(is_overlong(&line));
    line[MAX_CONTROL_LINE] = b'\n';
    assert!(!is_overlong(&line));
    assert!(!is_overlong(b"short"));
}

#[test]
fn the_handshake_advertises_scrollback_only_when_it_is_pushed() {
    let names = |v: Vec<String>| v;
    assert_eq!(
        names(features(false)),
        vec!["scroll".to_string(), "alt_screen".to_string(), "title".to_string()]
    );
    assert_eq!(
        names(features(true)),
        vec![
            "scroll".to_string(),
            "scrollback".to_string(),
            "alt_screen".to_string(),
            "title".to_string()
        ]
    );
    let (hello, _renderer) = open_session(80, 24, false);
    assert_eq!(
        hello,
        Event::Hello {
            proto: "ptybridge".to_string(),
            v: 1,
            cols: 80,
            rows: 24,
            features: features(false),
        }
    );
}

#[test]
fn only_output_and_resizes_mark_the_screen_dirty() {
    assert!(step_marks_dirty(&Step::Feed(vec![1])));
    assert!(step_marks_dirty(&Step::Resize { cols: 2, rows: 2 }));
    assert!(!step_marks_dirty(&Step::WritePty(vec![1])));
    assert!(!step_marks_dirty(&Step::Signal(2)));
    assert!(!step_marks_dirty(&Step::Stop));
    assert!(step_stops(&Step::Stop));
    assert!(!step_stops(&Step::Signal(2)));
}
