//! Wire protocol types.
//!
//! Every message is a map keyed by `t`; these are the values the bridge emits
//! (events) and receives (controls). The cell-array form of a grid cell is
//! `[text, hl_id?, repeat?]`.

use vstd::prelude::*;

verus! {

/// Protocol identifier carried in `hello.proto`.
pub const PROTO: &'static str = "ptybridge";

/// Protocol version carried in `hello.v`.
pub const VERSION: u32 = 1;

/// One grid cell on the wire: `[text, hl_id?, repeat?]`.
///
/// - `hl_id` omitted (`None`) inherits the previous cell's highlight.
/// - `repeat` (`None` = 1) compresses a run of identical cells; when present the
///   encoder also emits `hl_id`.
///
/// `text` holds exactly one grapheme; a double-width character is followed by
/// an empty-text cell.
#[derive(Debug, PartialEq, Eq)]
pub struct Cell {
    pub text: String,
    pub hl_id: Option<u32>,
    pub repeat: Option<u32>,
}

/// The mathematical value of a [`Cell`].
pub struct CellV {
    pub text: Seq<char>,
    pub hl_id: Option<u32>,
    pub repeat: Option<u32>,
}

impl View for Cell {
    type V = CellV;

    open spec fn view(&self) -> CellV {
        CellV { text: self.text@, hl_id: self.hl_id, repeat: self.repeat }
    }
}

/// The values of a sequence of cells.
pub open spec fn cells_view(cells: Seq<Cell>) -> Seq<CellV> {
    cells.map_values(|c: Cell| c@)
}

/// The cell arrays of a sequence of encoded rows.
pub open spec fn cell_lines_view(lines: Seq<Vec<Cell>>) -> Seq<Seq<CellV>> {
    lines.map_values(|l: Vec<Cell>| cells_view(l@))
}

/// Columns a cell advances: its `repeat`, defaulting to 1.
pub open spec fn span_of(cell: CellV) -> nat {
    match cell.repeat {
        Some(r) => r as nat,
        None => 1,
    }
}

impl Clone for Cell {
    fn clone(&self) -> (copy: Self)
        ensures
            copy@ == self@,
    {
        Cell { text: self.text.clone(), hl_id: self.hl_id, repeat: self.repeat }
    }
}

impl Cell {
    /// A single cell with an explicit highlight id and no repeat.
    pub fn new(text: &str, hl_id: u32) -> (cell: Self)
        ensures
            cell@ == (CellV { text: text@, hl_id: Some(hl_id), repeat: None }),
    {
        Cell { text: String::from_str(text), hl_id: Some(hl_id), repeat: None }
    }

    /// A cell that inherits the previous cell's highlight id.
    pub fn inherit(text: &str) -> (cell: Self)
        ensures
            cell@ == (CellV { text: text@, hl_id: None, repeat: None }),
    {
        Cell { text: String::from_str(text), hl_id: None, repeat: None }
    }

    /// A run of `repeat` identical cells with an explicit highlight id.
    pub fn run(text: &str, hl_id: u32, repeat: u32) -> (cell: Self)
        ensures
            cell@ == (CellV { text: text@, hl_id: Some(hl_id), repeat: Some(repeat) }),
    {
        Cell { text: String::from_str(text), hl_id: Some(hl_id), repeat: Some(repeat) }
    }

    /// Number of columns this cell advances (`repeat`, defaulting to 1).
    pub fn span(&self) -> (columns: u32)
        ensures
            columns == span_of(self@),
    {
        match self.repeat {
            Some(r) => r,
            None => 1,
        }
    }

    /// The array elements that follow `text` on the wire, shortest form:
    /// `[hl]`, `[hl, repeat]`, `[null, repeat]` for a run that inherits its
    /// highlight (the explicit null keeps `repeat` at index 2), or nothing.
    pub fn wire_tail(&self) -> (tail: Vec<Option<u32>>)
        ensures
            tail@ == wire_tail_of(self@),
    {
        let mut tail: Vec<Option<u32>> = Vec::new();
        match (self.hl_id, self.repeat) {
            (Some(hl), Some(rep)) => {
                tail.push(Some(hl));
                tail.push(Some(rep));
            },
            (Some(hl), None) => {
                tail.push(Some(hl));
            },
            (None, Some(rep)) => {
                tail.push(None);
                tail.push(Some(rep));
            },
            (None, None) => {},
        }
        tail
    }

    /// Rebuild a cell from its wire array: `text`, then the optional second
    /// and third elements, where an explicit null counts as absent.
    pub fn from_wire(text: String, hl_id: Option<Option<u32>>, repeat: Option<Option<u32>>) -> (cell:
        Self)
        ensures
            cell@ == (CellV { text: text@, hl_id: flatten(hl_id), repeat: flatten(repeat) }),
    {
        let hl_id = match hl_id {
            Some(inner) => inner,
            None => None,
        };
        let repeat = match repeat {
            Some(inner) => inner,
            None => None,
        };
        Cell { text, hl_id, repeat }
    }
}

/// `Some(Some(x))` is `Some(x)`; any other value is `None`.
pub open spec fn flatten(v: Option<Option<u32>>) -> Option<u32> {
    match v {
        Some(Some(x)) => Some(x),
        _ => None,
    }
}

/// The elements after `text` in a cell's shortest wire array.
pub open spec fn wire_tail_of(cell: CellV) -> Seq<Option<u32>> {
    match (cell.hl_id, cell.repeat) {
        (Some(hl), Some(rep)) => seq![Some(hl), Some(rep)],
        (Some(hl), None) => seq![Some(hl)],
        (None, Some(rep)) => seq![None, Some(rep)],
        (None, None) => seq![],
    }
}

/// The cell a host rebuilds from a wire array: its text, then the elements
/// that follow (an absent or null element counts as absent).
pub open spec fn cell_from_wire(text: Seq<char>, tail: Seq<Option<u32>>) -> CellV {
    CellV {
        text,
        hl_id: if tail.len() > 0 {
            tail[0]
        } else {
            None
        },
        repeat: if tail.len() > 1 {
            tail[1]
        } else {
            None
        },
    }
}

/// The shortest wire array of a cell reads back as the same cell.
pub proof fn lemma_cell_wire_roundtrip(cell: CellV)
    ensures
        cell_from_wire(cell.text, wire_tail_of(cell)) == cell,
{
}

/// Whether a boolean attribute is off, and so omitted on the wire.
pub fn is_false(value: &bool) -> (off: bool)
    ensures
        off == !*value,
{
    !*value
}

/// A highlight attribute set: the source of `hl_attr` and the key the highlight
/// cache interns. Colors are `0xRRGGBB` or `None` for the terminal default;
/// boolean attributes default to false and are omitted on the wire when false.
#[derive(Debug, Clone, Copy, PartialEq, Eq, Hash, Structural)]
pub struct Attrs {
    pub fg: Option<u32>,
    pub bg: Option<u32>,
    pub sp: Option<u32>,
    pub bold: bool,
    pub italic: bool,
    pub underline: bool,
    pub undercurl: bool,
    pub reverse: bool,
    pub strikethrough: bool,
    pub dim: bool,
    pub blink: bool,
}

/// The default attribute set: default colors, every flag off.
pub open spec fn default_attrs() -> Attrs {
    Attrs {
        fg: None,
        bg: None,
        sp: None,
        bold: false,
        italic: false,
        underline: false,
        undercurl: false,
        reverse: false,
        strikethrough: false,
        dim: false,
        blink: false,
    }
}

impl Default for Attrs {
    fn default() -> (attrs: Self)
        ensures
            attrs == default_attrs(),
    {
        Attrs {
            fg: None,
            bg: None,
            sp: None,
            bold: false,
            italic: false,
            underline: false,
            undercurl: false,
            reverse: false,
            strikethrough: false,
            dim: false,
            blink: false,
        }
    }
}

/// Cursor shape reported to the host.
#[derive(Debug, Clone, Copy, PartialEq, Eq, Structural)]
pub enum CursorShape {
    Block,
    Bar,
    Underline,
}

/// Messages emitted by the bridge (Bridge to Host).
#[allow(inconsistent_fields)]
#[derive(Debug, PartialEq)]
pub enum Event {
    Hello { proto: String, v: u32, cols: u16, rows: u16, features: Vec<String> },
    GridResize { cols: u16, rows: u16 },
    DefaultColors { fg: u32, bg: u32, sp: u32 },
    HlAttr { id: u32, attrs: Attrs },
    GridClear,
    GridScroll {
        top: u16,
        bot: u16,
        left: u16,
        right: u16,
        /// Lines scrolled; positive is up.
        rows: i32,
        cols: i32,
    },
    GridLine { row: u16, col: u16, cells: Vec<Cell> },
    /// Lines that scrolled off the top of the primary screen, oldest first;
    /// each has the same shape as `grid_line.cells`.
    ScrollbackPush { lines: Vec<Vec<Cell>> },
    Cursor { row: u16, col: u16, visible: bool, shape: CursorShape },
    Mode { alt_screen: bool },
    Title { text: String },
    Bell,
    Flush,
    ChildExit { code: Option<i32>, signal: Option<String> },
    Pong { id: u64 },
    Error { code: String, message: String },
}

/// The mathematical value of an [`Event`]: strings as character sequences,
/// cell arrays as sequences of cell values.
#[allow(inconsistent_fields)]
pub enum EventV {
    Hello { proto: Seq<char>, v: u32, cols: u16, rows: u16, features: Seq<Seq<char>> },
    GridResize { cols: u16, rows: u16 },
    DefaultColors { fg: u32, bg: u32, sp: u32 },
    HlAttr { id: u32, attrs: Attrs },
    GridClear,
    GridScroll { top: u16, bot: u16, left: u16, right: u16, rows: i32, cols: i32 },
    GridLine { row: u16, col: u16, cells: Seq<CellV> },
    ScrollbackPush { lines: Seq<Seq<CellV>> },
    Cursor { row: u16, col: u16, visible: bool, shape: CursorShape },
    Mode { alt_screen: bool },
    Title { text: Seq<char> },
    Bell,
    Flush,
    ChildExit { code: Option<i32>, signal: Option<Seq<char>> },
    Pong { id: u64 },
    Error { code: Seq<char>, message: Seq<char> },
}

impl View for Event {
    type V = EventV;

    open spec fn view(&self) -> EventV {
        match self {
            Event::Hello { proto, v, cols, rows, features } => EventV::Hello {
                proto: proto@,
                v: *v,
                cols: *cols,
                rows: *rows,
                features: features@.map_values(|s: String| s@),
            },
            Event::GridResize { cols, rows } => EventV::GridResize { cols: *cols, rows: *rows },
            Event::DefaultColors { fg, bg, sp } => EventV::DefaultColors { fg: *fg, bg: *bg, sp: *sp },
            Event::HlAttr { id, attrs } => EventV::HlAttr { id: *id, attrs: *attrs },
            Event::GridClear => EventV::GridClear,
            Event::GridScroll { top, bot, left, right, rows, cols } => EventV::GridScroll {
                top: *top,
                bot: *bot,
                left: *left,
                right: *right,
                rows: *rows,
                cols: *cols,
            },
            Event::GridLine { row, col, cells } => EventV::GridLine {
                row: *row,
                col: *col,
                cells: cells_view(cells@),
            },
            Event::ScrollbackPush { lines } => EventV::ScrollbackPush { lines: cell_lines_view(lines@) },
            Event::Cursor { row, col, visible, shape } => EventV::Cursor {
                row: *row,
                col: *col,
                visible: *visible,
                shape: *shape,
            },
            Event::Mode { alt_screen } => EventV::Mode { alt_screen: *alt_screen },
            Event::Title { text } => EventV::Title { text: text@ },
            Event::Bell => EventV::Bell,
            Event::Flush => EventV::Flush,
            Event::ChildExit { code, signal } => EventV::ChildExit {
                code: *code,
                signal: match signal {
                    Some(s) => Some(s@),
                    None => None,
                },
            },
            Event::Pong { id } => EventV::Pong { id: *id },
            Event::Error { code, message } => EventV::Error { code: code@, message: message@ },
        }
    }
}

/// The values of a sequence of events.
#[verifier::opaque]
pub open spec fn events_view(events: Seq<Event>) -> Seq<EventV> {
    events.map_values(|e: Event| e@)
}

/// The values of events pushed one at a time.
pub proof fn lemma_events_push(events: Seq<Event>, e: Event)
    ensures
        events_view(events.push(e)) == events_view(events).push(e@),
{
    reveal(events_view);
    assert(events_view(events.push(e)) =~= events_view(events).push(e@));
}

/// The values of two event sequences joined.
pub proof fn lemma_events_append(a: Seq<Event>, b: Seq<Event>)
    ensures
        events_view(a + b) == events_view(a) + events_view(b),
{
    reveal(events_view);
    assert(events_view(a + b) =~= events_view(a) + events_view(b));
}

/// Append one event to an event list.
pub(crate) fn push_event(events: &mut Vec<Event>, event: Event)
    ensures
        events_view(final(events)@) == events_view(old(events)@).push(event@),
{
    let ghost e = event;
    events.push(event);
    proof {
        assert(events@ =~= old(events)@.push(e));
        lemma_events_push(old(events)@, e);
    }
}

/// Move every event of `more` to the end of `events`.
pub(crate) fn append_events(events: &mut Vec<Event>, more: &mut Vec<Event>)
    ensures
        events_view(final(events)@) == events_view(old(events)@) + events_view(old(more)@),
        final(more)@.len() == 0,
{
    events.append(more);
    proof {
        lemma_events_append(old(events)@, old(more)@);
    }
}

/// No events, no values.
pub proof fn lemma_events_empty(events: Seq<Event>)
    requires
        events.len() == 0,
    ensures
        events_view(events) == Seq::<EventV>::empty(),
{
    reveal(events_view);
    assert(events_view(events) =~= Seq::<EventV>::empty());
}

impl Event {
    /// The initial handshake with the protocol's own identity and version.
    pub fn hello(cols: u16, rows: u16, features: Vec<String>) -> (event: Self)
        ensures
            event@ == (EventV::Hello {
                proto: PROTO@,
                v: VERSION,
                cols,
                rows,
                features: features@.map_values(|s: String| s@),
            }),
    {
        Event::Hello { proto: String::from_str(PROTO), v: VERSION, cols, rows, features }
    }
}

/// Messages received from the host (Host to Bridge).
#[allow(inconsistent_fields)]
#[derive(Debug, PartialEq)]
pub enum Control {
    Input { enc: Option<String>, data: String },
    Resize { cols: u16, rows: u16 },
    Signal { name: String },
    Ping { id: u64 },
    Shutdown,
}

/// The mathematical value of a [`Control`].
#[allow(inconsistent_fields)]
pub enum ControlV {
    Input { enc: Option<Seq<char>>, data: Seq<char> },
    Resize { cols: u16, rows: u16 },
    Signal { name: Seq<char> },
    Ping { id: u64 },
    Shutdown,
}

impl View for Control {
    type V = ControlV;

    open spec fn view(&self) -> ControlV {
        match self {
            Control::Input { enc, data } => ControlV::Input {
                enc: match enc {
                    Some(e) => Some(e@),
                    None => None,
                },
                data: data@,
            },
            Control::Resize { cols, rows } => ControlV::Resize { cols: *cols, rows: *rows },
            Control::Signal { name } => ControlV::Signal { name: name@ },
            Control::Ping { id } => ControlV::Ping { id: *id },
            Control::Shutdown => ControlV::Shutdown,
        }
    }
}

} // verus!
