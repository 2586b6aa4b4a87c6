//! ptybridge: a headless terminal whose screen state streams to a host as
//! protocol events (grid-line diffs, highlights, cursor, scroll).

pub mod cli;
pub mod control;
pub mod engine;
pub mod hlcache;
pub mod host;
pub mod palette;
pub mod protocol;
pub mod pty;
pub mod render;
pub mod term;
pub mod transport;
