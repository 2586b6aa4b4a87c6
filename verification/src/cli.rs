//! Command-line parameters of a bridge session.

use vstd::prelude::*;

use crate::transport::codec::Format;

verus! {

/// Allocate a PTY, emulate the terminal, and stream screen state on stdout,
/// reading control messages on stdin.
#[derive(Debug)]
pub struct Cli {
    /// Wire encoding: `jsonl` (one JSON object per line) or `msgpack`.
    pub format: Format,
    /// Initial grid width in columns.
    pub cols: u16,
    /// Initial grid height in rows.
    pub rows: u16,
    /// Upper bound on coalesced frames per second.
    pub max_fps: u16,
    /// Write debug logs to this path instead of stderr.
    pub log: Option<String>,
    /// Command (and arguments) to run on the PTY, after `--`.
    pub command: Vec<String>,
}

} // verus!
