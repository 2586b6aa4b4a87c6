# ptybridge

A headless terminal bridge: it runs a child program on a PTY, feeds the output
to a terminal emulator, and streams the screen to a host as protocol events
(`grid_line` diffs, highlight definitions, scrolls, cursor, mode, title),
reading control messages (`input`, `resize`, `signal`, `ping`, `shutdown`)
back. Events go out as JSON lines or MessagePack.

## Layout

- `src/` is the library, verified with Verus:
  - `render.rs`: the diff renderer. It interns highlights, detects scrolls,
    run-length encodes rows and orders each frame; a spec model gives every
    frame's events and the renderer's next state.
  - `host.rs`: a model of a host applying events, with the laws that the
    events rebuild every screen and define each highlight id exactly once.
  - `hlcache.rs`, `palette.rs`, `protocol.rs`: highlight table, colours and
    the protocol's messages.
  - `engine.rs`, `control.rs`, `transport/codec.rs`, `pty.rs`, `term.rs`: the
    session's decisions (what each message does, the handshake, the capped
    control-line reader), control payloads, message classification, child
    exit reports, and the emulator's cells turned into protocol cells.
- `tests/`: tests of the library.
- `app/`: the program around it: argument parsing, the PTY, the
  `alacritty_terminal` emulator, serde encodings, threads and the session loop.
