//! Wire framing and message classification for the two encodings.

pub mod codec;
