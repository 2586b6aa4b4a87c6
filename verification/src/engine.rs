//! Session decisions: what the bridge does with each message that reaches it,
//! and how it frames control lines read from the host.
//!
//! PTY output and host controls arrive on one channel; each message becomes a
//! [`Step`] for the session loop to perform (feed the emulator, write to the
//! PTY, resize, signal, reply, or stop).

use vstd::prelude::*;

use crate::control::{decode_input, input_outcome, signal_number, signal_of};
use crate::protocol::{Control, ControlV, Event, EventV, PROTO, VERSION};
use crate::render::{frame_events, frame_state, initial_renderer, Renderer, RendererV, SnapshotV};
use crate::transport::codec::{error, Format};

verus! {

/// Bound on in-flight messages, applying backpressure to the PTY (and thus the
/// child) when the host cannot keep up.
pub const CHANNEL_CAPACITY: usize = 64;

/// Upper bound on a requested grid width, so a host cannot request a grid that
/// exhausts memory.
pub const MAX_COLS: u16 = 4096;

/// Upper bound on a requested grid height.
pub const MAX_ROWS: u16 = 1024;

/// Cap on a single control line (1 MiB). An over-long line is rejected with a
/// `parse` error and the reader resynchronizes at the next newline.
pub const MAX_CONTROL_LINE: usize = 1048576;

/// Per-session parameters.
pub struct SessionConfig<'a> {
    pub command: &'a [String],
    pub cols: u16,
    pub rows: u16,
    pub max_fps: u16,
    pub format: Format,
}

/// The features a session's `hello` advertises: `scroll`, `alt_screen` and
/// `title` always, and `scrollback` when committed lines are pushed.
pub open spec fn session_features(scrollback: bool) -> Seq<Seq<char>> {
    if scrollback {
        seq!["scroll"@, "scrollback"@, "alt_screen"@, "title"@]
    } else {
        seq!["scroll"@, "alt_screen"@, "title"@]
    }
}

/// The feature names a session's `hello` advertises.
pub fn features(scrollback: bool) -> (names: Vec<String>)
    ensures
        names@.map_values(|s: String| s@) == session_features(scrollback),
{
    let mut names: Vec<String> = Vec::new();
    names.push(String::from_str("scroll"));
    if scrollback {
        names.push(String::from_str("scrollback"));
    }
    names.push(String::from_str("alt_screen"));
    names.push(String::from_str("title"));
    proof {
        reveal_strlit("scroll");
        reveal_strlit("scrollback");
        reveal_strlit("alt_screen");
        reveal_strlit("title");
        assert(names@.map_values(|s: String| s@) =~= session_features(scrollback));
    }
    names
}

/// Open a session's stream: the `hello` handshake for a `cols` x `rows`
/// grid, and the renderer for its frames. The handshake advertises
/// `scrollback` exactly when the renderer pushes committed lines.
pub fn open_session(cols: u16, rows: u16, scrollback: bool) -> (start: (Event, Renderer))
    ensures
        start.0@ == (EventV::Hello {
            proto: PROTO@,
            v: VERSION,
            cols,
            rows,
            features: session_features(scrollback),
        }),
        start.1.wf(),
        start.1@ == initial_renderer(scrollback),
{
    (Event::hello(cols, rows, features(scrollback)), Renderer::with_scrollback(scrollback))
}

/// A session pushes committed lines only when its `hello` advertised
/// `scrollback`: no frame of a renderer whose session did not advertise it
/// holds a `scrollback_push`, and frames keep that setting.
pub proof fn lemma_scrollback_only_when_advertised(r: RendererV, s: SnapshotV)
    ensures
        frame_state(r, s).scrollback == r.scrollback,
        session_features(r.scrollback).contains("scrollback"@) <==> r.scrollback,
        !r.scrollback ==> forall|i: int|
            0 <= i < frame_events(r, s).len() ==> !(#[trigger] frame_events(r, s)[i] is ScrollbackPush),
{
    crate::render::lemma_no_push_without_scrollback(r, s);
    reveal_strlit("scroll");
    reveal_strlit("scrollback");
    reveal_strlit("alt_screen");
    reveal_strlit("title");
    if r.scrollback {
        assert(session_features(true)[1] == "scrollback"@);
    } else {
        assert forall|i: int| 0 <= i < session_features(false).len() implies session_features(false)[i]
            != "scrollback"@ by {
            assert(session_features(false)[i].len() != "scrollback"@.len()
                || session_features(false)[i][0] != "scrollback"@[0]);
        }
    }
}

/// `value` kept within `lo..=hi`.
pub open spec fn clamped(value: int, lo: int, hi: int) -> int {
    if value < lo {
        lo
    } else if value > hi {
        hi
    } else {
        value
    }
}

/// Clamp a requested grid size to at least 1x1 and at most
/// `MAX_COLS` x `MAX_ROWS`.
pub fn clamp_grid(cols: u16, rows: u16) -> (size: (u16, u16))
    ensures
        size.0 == clamped(cols as int, 1, MAX_COLS as int),
        size.1 == clamped(rows as int, 1, MAX_ROWS as int),
        1 <= size.0 <= 4096,
        1 <= size.1 <= 1024,
        1 <= cols <= 4096 ==> size.0 == cols,
        1 <= rows <= 1024 ==> size.1 == rows,
{
    let c = if cols < 1 {
        1
    } else if cols > MAX_COLS {
        MAX_COLS
    } else {
        cols
    };
    let r = if rows < 1 {
        1
    } else if rows > MAX_ROWS {
        MAX_ROWS
    } else {
        rows
    };
    (c, r)
}

/// A message arriving at the session from either input source.
pub enum Incoming {
    /// A chunk of PTY output.
    Output(Vec<u8>),
    /// The child's output ended.
    OutputEnd,
    /// A decoded host control.
    Control(Control),
    /// An error to report about a host message that could not be used.
    ControlError(Event),
    /// The host hung up.
    ControlEnd,
}

/// The mathematical value of an [`Incoming`].
pub enum IncomingV {
    Output(Seq<u8>),
    OutputEnd,
    Control(ControlV),
    ControlError(EventV),
    ControlEnd,
}

impl View for Incoming {
    type V = IncomingV;

    open spec fn view(&self) -> IncomingV {
        match self {
            Incoming::Output(bytes) => IncomingV::Output(bytes@),
            Incoming::OutputEnd => IncomingV::OutputEnd,
            Incoming::Control(c) => IncomingV::Control(c@),
            Incoming::ControlError(e) => IncomingV::ControlError(e@),
            Incoming::ControlEnd => IncomingV::ControlEnd,
        }
    }
}

/// What the session does with one message.
pub enum Step {
    /// Feed PTY output to the emulator; the screen is dirty.
    Feed(Vec<u8>),
    /// Write bytes to the PTY.
    WritePty(Vec<u8>),
    /// Resize the PTY and the emulator; the screen is dirty.
    Resize { cols: u16, rows: u16 },
    /// Send a signal to the child.
    Signal(i32),
    /// Send an event to the host right away (outside any frame).
    Reply(Event),
    /// End the session.
    Stop,
}

/// The mathematical value of a [`Step`].
pub enum StepV {
    Feed(Seq<u8>),
    WritePty(Seq<u8>),
    Resize { cols: u16, rows: u16 },
    Signal(i32),
    Reply(EventV),
    Stop,
}

impl View for Step {
    type V = StepV;

    open spec fn view(&self) -> StepV {
        match self {
            Step::Feed(bytes) => StepV::Feed(bytes@),
            Step::WritePty(bytes) => StepV::WritePty(bytes@),
            Step::Resize { cols, rows } => StepV::Resize { cols: *cols, rows: *rows },
            Step::Signal(n) => StepV::Signal(*n),
            Step::Reply(e) => StepV::Reply(e@),
            Step::Stop => StepV::Stop,
        }
    }
}

/// A `bad_message` error with the given message.
pub open spec fn bad_message(message: Seq<char>) -> EventV {
    EventV::Error { code: "bad_message"@, message }
}

/// What the session does with a message: output feeds the emulator; the end
/// of either stream and `shutdown` stop; an unusable message is answered with
/// its error; `input` writes its decoded bytes (or answers `bad_message`);
/// `resize` resizes within bounds; `signal` signals the child when the name is
/// known (else `bad_message`); `ping` is answered with `pong` of the same id.
pub open spec fn step_for(msg: IncomingV) -> StepV {
    match msg {
        IncomingV::Output(bytes) => StepV::Feed(bytes),
        IncomingV::OutputEnd => StepV::Stop,
        IncomingV::ControlEnd => StepV::Stop,
        IncomingV::ControlError(event) => StepV::Reply(event),
        IncomingV::Control(control) => match control {
            ControlV::Input { enc, data } => match input_outcome(enc, data) {
                Ok(bytes) => StepV::WritePty(bytes),
                Err(message) => StepV::Reply(bad_message(message)),
            },
            ControlV::Resize { cols, rows } => StepV::Resize {
                cols: clamped(cols as int, 1, MAX_COLS as int) as u16,
                rows: clamped(rows as int, 1, MAX_ROWS as int) as u16,
            },
            ControlV::Signal { name } => match signal_of(name) {
                Some(n) => StepV::Signal(n),
                None => StepV::Reply(bad_message("unknown signal: "@ + name)),
            },
            ControlV::Ping { id } => StepV::Reply(EventV::Pong { id }),
            ControlV::Shutdown => StepV::Stop,
        },
    }
}

/// What the session does with each kind of message: PTY output is fed to
/// the emulator as it is; the end of either stream and `shutdown` stop; an
/// unusable message is answered with its own error; `ping` is answered with
/// `pong` of the same id; `input` without an encoding or with `utf8` writes
/// the text's UTF-8 bytes to the PTY, and with another encoding than
/// `base64` is answered with an error naming it; `resize` resizes to the
/// requested size kept within 1x1 and `MAX_COLS` x `MAX_ROWS`, unchanged
/// when already within.
pub proof fn lemma_session_steps(msg: IncomingV)
    ensures
        msg matches IncomingV::Output(bytes) ==> step_for(msg) == StepV::Feed(bytes),
        msg is OutputEnd ==> step_for(msg) == StepV::Stop,
        msg is ControlEnd ==> step_for(msg) == StepV::Stop,
        msg == IncomingV::Control(ControlV::Shutdown) ==> step_for(msg) == StepV::Stop,
        msg matches IncomingV::ControlError(e) ==> step_for(msg) == StepV::Reply(e),
        msg matches IncomingV::Control(ControlV::Ping { id }) ==> step_for(msg) == StepV::Reply(
            EventV::Pong { id },
        ),
        msg matches IncomingV::Control(ControlV::Input { enc: None, data }) ==> step_for(msg)
            == StepV::WritePty(vstd::utf8::encode_utf8(data)),
        msg matches IncomingV::Control(ControlV::Input { enc: Some(e), data }) ==> (e == "utf8"@
            ==> step_for(msg) == StepV::WritePty(vstd::utf8::encode_utf8(data))),
        msg matches IncomingV::Control(ControlV::Input { enc: Some(e), data }) ==> (e != "utf8"@ && e
            != "base64"@ ==> step_for(msg) == StepV::Reply(
            EventV::Error { code: "bad_message"@, message: "unknown input encoding: "@ + e },
        )),
        msg matches IncomingV::Control(ControlV::Resize { cols, rows }) ==> {
            &&& step_for(msg) is Resize
            &&& 1 <= step_for(msg)->Resize_cols <= 4096
            &&& 1 <= step_for(msg)->Resize_rows <= 1024
            &&& (1 <= cols <= 4096 ==> step_for(msg)->Resize_cols == cols)
            &&& (1 <= rows <= 1024 ==> step_for(msg)->Resize_rows == rows)
            &&& (cols > 4096 ==> step_for(msg)->Resize_cols == 4096)
            &&& (rows > 1024 ==> step_for(msg)->Resize_rows == 1024)
            &&& (cols == 0 ==> step_for(msg)->Resize_cols == 1)
            &&& (rows == 0 ==> step_for(msg)->Resize_rows == 1)
        },
{
}

/// Signals: a host's `signal` reaches the child as the signal it names,
/// `HUP` as 1, `INT` as 2, `QUIT` as 3, `KILL` as 9 and `TERM` as 15; any
/// other name sends nothing and is answered with a `bad_message` error that
/// names it.
pub proof fn lemma_signals_reach_the_child(name: Seq<char>)
    ensures
        name == "HUP"@ ==> step_for(IncomingV::Control(ControlV::Signal { name })) == StepV::Signal(1),
        name == "INT"@ ==> step_for(IncomingV::Control(ControlV::Signal { name })) == StepV::Signal(2),
        name == "QUIT"@ ==> step_for(IncomingV::Control(ControlV::Signal { name })) == StepV::Signal(3),
        name == "KILL"@ ==> step_for(IncomingV::Control(ControlV::Signal { name })) == StepV::Signal(9),
        name == "TERM"@ ==> step_for(IncomingV::Control(ControlV::Signal { name })) == StepV::Signal(15),
        name != "HUP"@ && name != "INT"@ && name != "QUIT"@ && name != "KILL"@ && name != "TERM"@
            ==> step_for(IncomingV::Control(ControlV::Signal { name })) == StepV::Reply(
            EventV::Error { code: "bad_message"@, message: "unknown signal: "@ + name },
        ),
{
    reveal_strlit("HUP");
    reveal_strlit("INT");
    reveal_strlit("QUIT");
    reveal_strlit("KILL");
    reveal_strlit("TERM");
    if name == "INT"@ {
        assert(name[0] != "HUP"@[0]);
    }
    if name == "TERM"@ {
        assert(name.len() != "HUP"@.len() && name.len() != "INT"@.len() && name[0] != "QUIT"@[0]
            && name[0] != "KILL"@[0]);
    }
    if name == "KILL"@ {
        assert(name.len() != "HUP"@.len() && name.len() != "INT"@.len() && name[0] != "QUIT"@[0]);
    }
}

/// Decide what to do with one incoming message.
pub fn handle(msg: Incoming) -> (step: Step)
    ensures
        step@ == step_for(msg@),
{
    match msg {
        Incoming::Output(chunk) => Step::Feed(chunk),
        Incoming::OutputEnd => Step::Stop,
        Incoming::ControlEnd => Step::Stop,
        Incoming::ControlError(event) => Step::Reply(event),
        Incoming::Control(control) => match control {
            Control::Input { enc, data } => {
                let enc_str = match &enc {
                    Some(e) => Some(e.as_str()),
                    None => None,
                };
                match decode_input(enc_str, data.as_str()) {
                    Ok(bytes) => Step::WritePty(bytes),
                    Err(message) => Step::Reply(error("bad_message", message)),
                }
            },
            Control::Resize { cols, rows } => {
                let (cols, rows) = clamp_grid(cols, rows);
                Step::Resize { cols, rows }
            },
            Control::Signal { name } => match signal_number(name.as_str()) {
                Some(n) => Step::Signal(n),
                None => {
                    let mut message = String::from_str("unknown signal: ");
                    message.append(name.as_str());
                    Step::Reply(error("bad_message", message))
                },
            },
            Control::Ping { id } => Step::Reply(Event::Pong { id }),
            Control::Shutdown => Step::Stop,
        },
    }
}

/// Whether carrying out a step changes the screen, so that a frame must be
/// rendered: feeding output and resizing do; writing to the PTY, signalling,
/// replying and stopping do not.
pub fn step_marks_dirty(step: &Step) -> (dirty: bool)
    ensures
        dirty == (step@ is Feed || step@ is Resize),
{
    match step {
        Step::Feed(_) => true,
        Step::Resize { .. } => true,
        _ => false,
    }
}

/// Whether a step ends the session.
pub fn step_stops(step: &Step) -> (stop: bool)
    ensures
        stop == step@ is Stop,
{
    match step {
        Step::Stop => true,
        _ => false,
    }
}

/// The error reported for a control line longer than [`MAX_CONTROL_LINE`].
pub fn overlong_line_error() -> (event: Event)
    ensures
        event@ == (EventV::Error {
            code: "parse"@,
            message: "control line exceeds maximum length"@,
        }),
{
    error("parse", String::from_str("control line exceeds maximum length"))
}

/// `i` is the position of the first newline in `bytes`.
pub open spec fn is_first_newline(bytes: Seq<u8>, i: int) -> bool {
    &&& 0 <= i < bytes.len()
    &&& bytes[i] == 10
    &&& forall|j: int| 0 <= j < i ==> bytes[j] != 10
}

/// Position of the first newline in `bytes`, if any.
fn find_newline(bytes: &[u8]) -> (pos: Option<usize>)
    ensures
        match pos {
            Some(i) => is_first_newline(bytes@, i as int),
            None => forall|j: int| 0 <= j < bytes@.len() ==> bytes@[j] != 10,
        },
{
    let n = bytes.len();
    let mut i: usize = 0;
    while i < n
        invariant
            n == bytes@.len(),
            i <= n,
            forall|j: int| 0 <= j < i ==> bytes@[j] != 10,
        decreases n - i,
    {
        if bytes[i] == 10 {
            return Some(i);
        }
        i = i + 1;
    }
    None
}

/// How much of the reader's available bytes a capped line read takes, given
/// `buffered` bytes already read into the line. A line holds at most one byte
/// past the cap: the read takes through the first newline when that newline
/// lies within the room left (which completes the line); otherwise it takes
/// what fits in the room, so the rest of an over-long line stays in the reader.
pub fn line_chunk(available: &[u8], buffered: usize) -> (chunk: (usize, bool))
    requires
        buffered <= MAX_CONTROL_LINE,
    ensures
        chunk.0 <= MAX_CONTROL_LINE + 1 - buffered,
        chunk.1 ==> is_first_newline(available@, chunk.0 - 1),
        !chunk.1 ==> {
            &&& forall|j: int| 0 <= j < chunk.0 ==> available@[j] != 10
            &&& chunk.0 == if available@.len() <= MAX_CONTROL_LINE + 1 - buffered {
                available@.len() as int
            } else {
                MAX_CONTROL_LINE + 1 - buffered
            }
        },
{
    let n = available.len();
    let room = MAX_CONTROL_LINE + 1 - buffered;
    let take = if n <= room {
        n
    } else {
        room
    };
    match find_newline(available) {
        Some(i) => {
            if i < room {
                (i + 1, true)
            } else {
                (take, false)
            }
        },
        None => (take, false),
    }
}

/// How much of the reader's available bytes resynchronizing after an
/// over-long line discards: through the first newline (which ends the
/// discarding), or all of them.
pub fn skip_chunk(available: &[u8]) -> (chunk: (usize, bool))
    ensures
        chunk.1 ==> is_first_newline(available@, chunk.0 - 1),
        !chunk.1 ==> {
            &&& forall|j: int| 0 <= j < available@.len() ==> available@[j] != 10
            &&& chunk.0 == available@.len()
        },
{
    let n = available.len();
    match find_newline(available) {
        Some(i) => (i + 1, true),
        None => (n, false),
    }
}

/// Whether a line read with the cap is over-long: it passed the cap without
/// reaching a newline.
pub fn is_overlong(line: &[u8]) -> (overlong: bool)
    ensures
        overlong == (line@.len() > MAX_CONTROL_LINE && line@.last() != 10),
{
    line.len() > MAX_CONTROL_LINE && line[line.len() - 1] != 10
}

} // verus!
