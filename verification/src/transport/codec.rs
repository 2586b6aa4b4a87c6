//! Wire encodings and the classification of incoming messages.
//!
//! - **JSONL** (default): one JSON object per line, separated by `\n`.
//! - **MessagePack**: each message a self-delimiting binary value, no separator.
//!
//! Both carry the same message shapes; whichever decodes a message object,
//! its `t` tag decides what happens to it, by the protocol's error rules.

use vstd::prelude::*;
use vstd::string::StrSliceExecFns;

use crate::control::str_equals;
use crate::protocol::{Control, ControlV, Event, EventV};

verus! {

/// On-the-wire encoding selected for a session.
#[derive(Debug, Clone, Copy, PartialEq, Eq, Structural)]
pub enum Format {
    /// One JSON object per line, separated by `\n`.
    Jsonl,
    /// MessagePack: each message a self-delimiting binary value.
    Msgpack,
}

impl Default for Format {
    fn default() -> (format: Self)
        ensures
            format == Format::Jsonl,
    {
        Format::Jsonl
    }
}

/// Outcome of decoding one control message, mirroring the protocol's error
/// rules.
#[derive(Debug)]
pub enum Decoded {
    /// A well-formed, understood control message.
    Control(Control),
    /// An error to send back to the host (`parse`, `direction`, `bad_message`).
    Error(Event),
    /// An unknown message type: logged and ignored (forward compatibility).
    Ignore,
}

/// The mathematical value of a [`Decoded`].
pub enum DecodedV {
    Control(ControlV),
    Error(EventV),
    Ignore,
}

impl View for Decoded {
    type V = DecodedV;

    open spec fn view(&self) -> DecodedV {
        match self {
            Decoded::Control(c) => DecodedV::Control(c@),
            Decoded::Error(e) => DecodedV::Error(e@),
            Decoded::Ignore => DecodedV::Ignore,
        }
    }
}

/// The message types the bridge emits: receiving one as a control is a
/// direction violation.
pub open spec fn is_event_type(t: Seq<char>) -> bool {
    ||| t == "hello"@
    ||| t == "grid_resize"@
    ||| t == "default_colors"@
    ||| t == "hl_attr"@
    ||| t == "grid_clear"@
    ||| t == "grid_scroll"@
    ||| t == "grid_line"@
    ||| t == "scrollback_push"@
    ||| t == "cursor"@
    ||| t == "mode"@
    ||| t == "title"@
    ||| t == "bell"@
    ||| t == "flush"@
    ||| t == "child_exit"@
    ||| t == "pong"@
    ||| t == "error"@
}

/// The control message types this bridge understands.
pub open spec fn is_control_type(t: Seq<char>) -> bool {
    ||| t == "input"@
    ||| t == "resize"@
    ||| t == "signal"@
    ||| t == "ping"@
    ||| t == "shutdown"@
}

fn event_type(t: &str) -> (is_event: bool)
    ensures
        is_event == is_event_type(t@),
{
    str_equals(t, "hello") || str_equals(t, "grid_resize") || str_equals(t, "default_colors")
        || str_equals(t, "hl_attr") || str_equals(t, "grid_clear") || str_equals(t, "grid_scroll")
        || str_equals(t, "grid_line") || str_equals(t, "scrollback_push") || str_equals(t, "cursor")
        || str_equals(t, "mode") || str_equals(t, "title") || str_equals(t, "bell") || str_equals(
        t,
        "flush",
    ) || str_equals(t, "child_exit") || str_equals(t, "pong") || str_equals(t, "error")
}

fn control_type(t: &str) -> (is_control: bool)
    ensures
        is_control == is_control_type(t@),
{
    str_equals(t, "input") || str_equals(t, "resize") || str_equals(t, "signal") || str_equals(
        t,
        "ping",
    ) || str_equals(t, "shutdown")
}

/// An `error` event with the given code and message.
pub fn error(code: &str, message: String) -> (event: Event)
    ensures
        event@ == (EventV::Error { code: code@, message: message@ }),
{
    Event::Error { code: String::from_str(code), message }
}

/// What the tag of a message object decides on its own: a missing tag is a
/// `parse` error, an event type a `direction` error, an unknown type is
/// ignored; for a known control type (`None`) the fields must be decoded.
pub open spec fn tag_decision(tag: Option<Seq<char>>) -> Option<DecodedV> {
    match tag {
        None => Some(
            DecodedV::Error(EventV::Error { code: "parse"@, message: "missing string field \"t\""@ }),
        ),
        Some(t) => if is_event_type(t) {
            Some(
                DecodedV::Error(
                    EventV::Error { code: "direction"@, message: "event type sent as control: "@ + t },
                ),
            )
        } else if is_control_type(t) {
            None
        } else {
            Some(DecodedV::Ignore)
        },
    }
}

/// Classify a message object by its string `t` field (`None` when it has
/// none): event types are `direction` errors, unknown types are ignored, a
/// missing tag is a `parse` error, and a known control type returns `None`,
/// leaving its fields to be decoded into a [`Control`].
pub fn classify_tag(tag: Option<&str>) -> (decision: Option<Decoded>)
    ensures
        match decision {
            Some(d) => tag_decision(
                match tag {
                    Some(t) => Some(t@),
                    None => None,
                },
            ) == Some(d@),
            None => tag_decision(
                match tag {
                    Some(t) => Some(t@),
                    None => None,
                },
            ) is None,
        },
{
    match tag {
        None => Some(Decoded::Error(error("parse", String::from_str("missing string field \"t\"")))),
        Some(t) => {
            if event_type(t) {
                let mut message = String::from_str("event type sent as control: ");
                message.append(t);
                Some(Decoded::Error(error("direction", message)))
            } else if control_type(t) {
                None
            } else {
                Some(Decoded::Ignore)
            }
        },
    }
}

/// Finish classifying a known control type from the decoding of its fields:
/// the control, or a `bad_message` error carrying the decoder's message.
pub fn classify_fields(parsed: Result<Control, String>) -> (decoded: Decoded)
    ensures
        decoded@ == match parsed {
            Ok(c) => DecodedV::Control(c@),
            Err(m) => DecodedV::Error(EventV::Error { code: "bad_message"@, message: m@ }),
        },
{
    match parsed {
        Ok(control) => Decoded::Control(control),
        Err(message) => Decoded::Error(error("bad_message", message)),
    }
}

/// A JSONL line that is not valid JSON: a `parse` error carrying the
/// decoder's message.
pub fn parse_error(message: String) -> (decoded: Decoded)
    ensures
        decoded@ == DecodedV::Error(EventV::Error { code: "parse"@, message: message@ }),
{
    Decoded::Error(error("parse", message))
}

/// The tag rules: a message without a string `t` is a `parse` error; each
/// event type the bridge emits (`hello`, `grid_resize`, `default_colors`,
/// `hl_attr`, `grid_clear`, `grid_scroll`, `grid_line`, `scrollback_push`,
/// `cursor`, `mode`, `title`, `bell`, `flush`, `child_exit`, `pong`, `error`)
/// is a `direction` error naming it; each control type (`input`, `resize`,
/// `signal`, `ping`, `shutdown`) has its fields decoded; any other type is
/// ignored.
pub proof fn lemma_tag_rules(t: Seq<char>)
    ensures
        tag_decision(None) == Some(
            DecodedV::Error(EventV::Error { code: "parse"@, message: "missing string field \"t\""@ }),
        ),
        seq![
            "hello"@, "grid_resize"@, "default_colors"@, "hl_attr"@, "grid_clear"@, "grid_scroll"@,
            "grid_line"@, "scrollback_push"@, "cursor"@, "mode"@, "title"@, "bell"@, "flush"@,
            "child_exit"@, "pong"@, "error"@,
        ].contains(t) ==> tag_decision(Some(t)) == Some(
            DecodedV::Error(EventV::Error { code: "direction"@, message: "event type sent as control: "@ + t }),
        ),
        seq!["input"@, "resize"@, "signal"@, "ping"@, "shutdown"@].contains(t) ==> tag_decision(Some(t))
            is None,
        !seq![
            "hello"@, "grid_resize"@, "default_colors"@, "hl_attr"@, "grid_clear"@, "grid_scroll"@,
            "grid_line"@, "scrollback_push"@, "cursor"@, "mode"@, "title"@, "bell"@, "flush"@,
            "child_exit"@, "pong"@, "error"@, "input"@, "resize"@, "signal"@, "ping"@, "shutdown"@,
        ].contains(t) ==> tag_decision(Some(t)) == Some(DecodedV::Ignore),
{
    reveal_strlit("hello");
    reveal_strlit("grid_resize");
    reveal_strlit("default_colors");
    reveal_strlit("hl_attr");
    reveal_strlit("grid_clear");
    reveal_strlit("grid_scroll");
    reveal_strlit("grid_line");
    reveal_strlit("scrollback_push");
    reveal_strlit("cursor");
    reveal_strlit("mode");
    reveal_strlit("title");
    reveal_strlit("bell");
    reveal_strlit("flush");
    reveal_strlit("child_exit");
    reveal_strlit("pong");
    reveal_strlit("error");
    reveal_strlit("input");
    reveal_strlit("resize");
    reveal_strlit("signal");
    reveal_strlit("ping");
    reveal_strlit("shutdown");
    let events = seq![
        "hello"@, "grid_resize"@, "default_colors"@, "hl_attr"@, "grid_clear"@, "grid_scroll"@,
        "grid_line"@, "scrollback_push"@, "cursor"@, "mode"@, "title"@, "bell"@, "flush"@,
        "child_exit"@, "pong"@, "error"@,
    ];
    let controls = seq!["input"@, "resize"@, "signal"@, "ping"@, "shutdown"@];
    let all = events + controls;
    if events.contains(t) {
        let i = choose|i: int| 0 <= i < events.len() && events[i] == t;
        assert(is_event_type(t));
    }
    if controls.contains(t) {
        let i = choose|i: int| 0 <= i < controls.len() && controls[i] == t;
        assert(is_control_type(t));
        assert(!is_event_type(t)) by {
            assert forall|k: int| 0 <= k < events.len() implies events[k] != t by {
                assert(events[k].len() != t.len() || events[k][0] != t[0] || events[k][1] != t[1]
                    || events[k][2] != t[2]);
            }
        }
    }
    if !(seq![
        "hello"@, "grid_resize"@, "default_colors"@, "hl_attr"@, "grid_clear"@, "grid_scroll"@,
        "grid_line"@, "scrollback_push"@, "cursor"@, "mode"@, "title"@, "bell"@, "flush"@,
        "child_exit"@, "pong"@, "error"@, "input"@, "resize"@, "signal"@, "ping"@, "shutdown"@,
    ].contains(t)) {
        assert(!is_event_type(t)) by {
            if is_event_type(t) {
                assert(seq![
                    "hello"@, "grid_resize"@, "default_colors"@, "hl_attr"@, "grid_clear"@, "grid_scroll"@,
                    "grid_line"@, "scrollback_push"@, "cursor"@, "mode"@, "title"@, "bell"@, "flush"@,
                    "child_exit"@, "pong"@, "error"@, "input"@, "resize"@, "signal"@, "ping"@, "shutdown"@,
                ].contains(t));
            }
        }
        assert(!is_control_type(t));
    }
}

/// A JSONL line without its line ending: every trailing `\r` and `\n` removed.
pub open spec fn without_line_end(line: Seq<char>) -> Seq<char>
    decreases line.len(),
{
    if line.len() > 0 && (line.last() == '\r' || line.last() == '\n') {
        without_line_end(line.drop_last())
    } else {
        line
    }
}

/// Strip the line ending (any trailing `\r` and `\n`) from a JSONL line.
pub fn trim_line_end(line: &str) -> (text: &str)
    ensures
        text@ == without_line_end(line@),
{
    let mut n = line.unicode_len();
    proof {
        assert(line@.subrange(0, n as int) =~= line@);
    }
    while n > 0 && (line.get_char(n - 1) == '\r' || line.get_char(n - 1) == '\n')
        invariant
            n <= line@.len(),
            without_line_end(line@) == without_line_end(line@.subrange(0, n as int)),
        decreases n,
    {
        proof {
            assert(line@.subrange(0, n as int).drop_last() =~= line@.subrange(0, n - 1));
        }
        n = n - 1;
    }
    proof {
        if n > 0 {
            assert(line@.subrange(0, n as int).last() == line@[n - 1]);
        } else {
            assert(line@.subrange(0, 0) =~= Seq::<char>::empty());
        }
    }
    line.substring_char(0, n)
}

/// What parsing `text` as JSON (`serde_json::from_str` into a
/// `serde_json::Value`) and reading its string field `t` gives: the tag
/// (`None` when the value has no string `t`), or the parser's error message.
pub uninterp spec fn json_tag_of(text: Seq<char>) -> Result<Option<Seq<char>>, Seq<char>>;

/// The value of a tag-reading outcome.
pub open spec fn tag_outcome(tag: Result<Option<String>, String>) -> Result<Option<Seq<char>>, Seq<char>> {
    match tag {
        Ok(Some(t)) => Ok(Some(t@)),
        Ok(None) => Ok(None),
        Err(message) => Err(message@),
    }
}

/// Parse `text` with `serde_json::from_str::<serde_json::Value>` and read the
/// string field `t` (`Value::get`, then `Value::as_str`). The result is
/// serde_json's: the tag or its absence, or the parse error rendered as text;
/// which texts are valid JSON is only named here, not stated.
#[verifier::external_body]
fn json_tag(text: &str) -> (tag: Result<Option<String>, String>)
    ensures
        tag_outcome(tag) == json_tag_of(text@),
{
    match serde_json::from_str::<serde_json::Value>(text) {
        Ok(value) => match value.get("t") {
            Some(t) => Ok(t.as_str().map(String::from)),
            None => Ok(None),
        },
        Err(err) => Err(err.to_string()),
    }
}

/// What a JSONL control line decides before its fields are read: malformed
/// JSON is a `parse` error carrying the parser's message; otherwise its tag
/// decides by [`tag_decision`] (`None` for a known control type, whose fields
/// must then be decoded).
pub open spec fn line_decision(line: Seq<char>) -> Option<DecodedV> {
    match json_tag_of(without_line_end(line)) {
        Err(message) => Some(DecodedV::Error(EventV::Error { code: "parse"@, message })),
        Ok(tag) => tag_decision(tag),
    }
}

/// Decode one JSONL control line as far as its tag decides: a `parse` error
/// for malformed JSON, a `parse` error for a missing tag, a `direction` error
/// for an event type, `Ignore` for an unknown type, and `None` for a known
/// control type, whose fields are decoded next.
pub fn decode_line(line: &str) -> (decision: Option<Decoded>)
    ensures
        match decision {
            Some(d) => line_decision(line@) == Some(d@),
            None => line_decision(line@) is None,
        },
{
    let text = trim_line_end(line);
    match json_tag(text) {
        Err(message) => Some(parse_error(message)),
        Ok(tag) => {
            let tag_str = match &tag {
                Some(t) => Some(t.as_str()),
                None => None,
            };
            classify_tag(tag_str)
        },
    }
}

} // verus!
