use ptybridge::hlcache::HlCache;
use ptybridge::protocol::{Attrs, Cell, CursorShape, Event};
use ptybridge::render::{compress, expand, Cursor, Renderer, RowCell, Screen, Snapshot};

fn cursor() -> Cursor {
    Cursor {
        row: 0,
        col: 0,
        visible: true,
        shape: CursorShape::Block,
    }
}

fn snapshot(lines: Vec<Vec<RowCell>>, cols: u16) -> Snapshot {
    let rows = lines.len() as u16;
    Snapshot {
        screen: Screen { cols, rows, lines },
        cursor: cursor(),
        alt_screen: false,
        title: None,
        bell: false,
        committed: Vec::new(),
    }
}

fn grid_lines(events: &[Event]) -> Vec<&Event> {
    events
        .iter()
        .filter(|e| matches!(e, Event::GridLine { .. }))
        .collect()
}

#[test]
fn compress_collapses_blank_runs_and_inherits_hl() {
    let columns = vec![
        ("h".to_string(), 7),
        ("i".to_string(), 7),
        (" ".to_string(), 0),
        (" ".to_string(), 0),
    ];
    assert_eq!(
        compress(&columns),
        vec![Cell::new("h", 7), Cell::inherit("i"), Cell::run(" ", 0, 2)]
    );
}

#[test]
fn expand_materializes_wide_spacer() {
    let mut cache = HlCache::default();
    let mut hl = Vec::new();
    let columns = expand(
        &vec![RowCell::wide("あ"), RowCell::narrow("x")],
        &mut cache,
        &mut hl,
    );
    assert_eq!(
        columns,
        vec![
            ("あ".to_string(), 0),
            (String::new(), 0),
            ("x".to_string(), 0)
        ]
    );
}

#[test]
fn column_advance_equals_input_width() {
    let mut cache = HlCache::default();
    let mut hl = Vec::new();
    let row = vec![
        RowCell::narrow("a"),
        RowCell::wide("日"),
        RowCell::wide("本"),
        RowCell::narrow(" "),
    ];
    let cells = compress(&expand(&row, &mut cache, &mut hl));
    let span: u32 = cells.iter().map(Cell::span).sum();
    let width: u32 = row.iter().map(|c| c.width as u32).sum();
    assert_eq!(span, width);
    assert_eq!(span, 6);
}

#[test]
fn first_frame_is_a_full_redraw_with_defaults() {
    let mut renderer = Renderer::default();
    let events = renderer.frame(&snapshot(
        vec![vec![RowCell::narrow("a")], vec![RowCell::narrow("b")]],
        1,
    ));
    assert!(matches!(events[0], Event::DefaultColors { .. }));
    assert!(events.iter().any(|e| matches!(e, Event::GridClear)));
    assert_eq!(grid_lines(&events).len(), 2);
    assert_eq!(*events.last().unwrap(), Event::Flush);
}

#[test]
fn unchanged_screen_emits_no_grid_lines_on_resend() {
    let mut renderer = Renderer::default();
    let snap = snapshot(vec![vec![RowCell::narrow("a")]], 1);
    renderer.frame(&snap);
    let second = renderer.frame(&snap);
    assert!(grid_lines(&second).is_empty());
    assert!(!second.iter().any(|e| matches!(e, Event::GridClear)));
    assert_eq!(*second.last().unwrap(), Event::Flush);
}

#[test]
fn only_changed_rows_are_resent() {
    let mut renderer = Renderer::default();
    let first = snapshot(
        vec![vec![RowCell::narrow("a")], vec![RowCell::narrow("b")]],
        1,
    );
    renderer.frame(&first);
    let second = snapshot(
        vec![vec![RowCell::narrow("a")], vec![RowCell::narrow("X")]],
        1,
    );
    let events = renderer.frame(&second);
    let lines = grid_lines(&events);
    assert_eq!(lines.len(), 1);
    assert!(matches!(lines[0], Event::GridLine { row: 1, .. }));
}

#[test]
fn new_highlight_is_defined_before_the_grid_line_that_uses_it() {
    let mut renderer = Renderer::default();
    let red = Attrs {
        fg: Some(0xff0000),
        ..Attrs::default()
    };
    let events = renderer.frame(&snapshot(
        vec![vec![RowCell::narrow("a").with_attrs(red)]],
        1,
    ));
    let hl_pos = events
        .iter()
        .position(|e| matches!(e, Event::HlAttr { .. }))
        .expect("hl_attr present");
    let line_pos = events
        .iter()
        .position(|e| matches!(e, Event::GridLine { .. }))
        .expect("grid_line present");
    assert!(hl_pos < line_pos);
}

fn lines(texts: &[&str]) -> Vec<Vec<RowCell>> {
    texts
        .iter()
        .map(|t| {
            t.chars()
                .map(|c| RowCell::narrow(&c.to_string()))
                .collect()
        })
        .collect()
}

#[test]
fn scroll_up_by_one_emits_grid_scroll_and_only_the_new_row() {
    let mut renderer = Renderer::default();
    renderer.frame(&snapshot(lines(&["a", "b", "c"]), 1));
    // Content scrolled up by one: a is gone, d appears at the bottom.
    let events = renderer.frame(&snapshot(lines(&["b", "c", "d"]), 1));

    let scroll = events
        .iter()
        .find_map(|e| match e {
            Event::GridScroll { rows, top, bot, .. } => Some((*rows, *top, *bot)),
            _ => None,
        })
        .expect("grid_scroll emitted");
    assert_eq!(scroll, (1, 0, 3));

    // Only the newly exposed bottom row is repainted.
    let grid = grid_lines(&events);
    assert_eq!(grid.len(), 1);
    assert!(matches!(grid[0], Event::GridLine { row: 2, .. }));

    // grid_scroll must precede the grid_line (frame ordering).
    let scroll_pos = events
        .iter()
        .position(|e| matches!(e, Event::GridScroll { .. }))
        .unwrap();
    let line_pos = events
        .iter()
        .position(|e| matches!(e, Event::GridLine { .. }))
        .unwrap();
    assert!(scroll_pos < line_pos);
}

#[test]
fn sustained_scrolling_sends_far_fewer_grid_lines_than_full_repaint() {
    // A 10-row screen scrolling one line at a time for many frames: with
    // grid_scroll each frame repaints ~one new row instead of all ten.
    let rows = 10usize;
    let frames = 30usize;
    let mut renderer = Renderer::default();
    let mut grid_line_total = 0;
    for f in 0..frames {
        let window: Vec<Vec<RowCell>> = (f..f + rows)
            .map(|n| {
                format!("line{n}")
                    .chars()
                    .map(|c| RowCell::narrow(&c.to_string()))
                    .collect()
            })
            .collect();
        let events = renderer.frame(&snapshot(window, 6));
        grid_line_total += grid_lines(&events).len();
    }
    // Full repaint would be frames * rows; scrolling keeps it near frames.
    assert!(
        grid_line_total < frames * 2,
        "expected far fewer than {} grid_lines, got {grid_line_total}",
        frames * rows
    );
}

#[test]
fn unchanged_screen_does_not_emit_grid_scroll() {
    let mut renderer = Renderer::default();
    let snap = snapshot(lines(&["a", "b", "c"]), 1);
    renderer.frame(&snap);
    let events = renderer.frame(&snap);
    assert!(!events.iter().any(|e| matches!(e, Event::GridScroll { .. })));
    assert!(grid_lines(&events).is_empty());
}

#[test]
fn in_place_edit_on_a_mostly_blank_screen_does_not_scroll() {
    // Content in the top row, blanks below (a shell prompt). Editing the top
    // row must not be mistaken for a scroll just because the blanks shift.
    let mut renderer = Renderer::default();
    renderer.frame(&snapshot(lines(&["$ ", "", "", "", "", ""]), 4));
    let events = renderer.frame(&snapshot(lines(&["$ x", "", "", "", "", ""]), 4));
    assert!(!events.iter().any(|e| matches!(e, Event::GridScroll { .. })));
    let grid = grid_lines(&events);
    assert_eq!(grid.len(), 1);
    assert!(matches!(grid[0], Event::GridLine { row: 0, .. }));
}

/// Apply one frame's events to a host-side row buffer, mirroring how a host
/// renders: scroll shifts rows up and leaves the bottom stale, then each
/// grid_line overwrites a row's text.
fn apply(host: &mut [String], events: &[Event]) {
    for event in events {
        match event {
            Event::GridScroll { rows: k, .. } => {
                let k = *k as usize;
                for r in 0..host.len() {
                    if r + k < host.len() {
                        host[r] = host[r + k].clone();
                    }
                    // bottom k rows keep their (now stale) content
                }
            }
            Event::GridLine { row, cells, .. } => {
                let mut text = String::new();
                for cell in cells {
                    for _ in 0..cell.span() {
                        text.push_str(&cell.text);
                    }
                }
                host[*row as usize] = text;
            }
            _ => {}
        }
    }
}

#[test]
fn emitted_events_reconstruct_the_screen_across_scrolls() {
    // Drive several frames including a clean scroll and the real-terminal
    // pattern (new line at row n-2, blank cursor line at the bottom), then
    // verify the host buffer rebuilt purely from events equals each screen.
    let frames = [
        lines(&["a", "b", "c", "d"]),
        lines(&["b", "c", "d", "e"]), // clean scroll: new line at bottom
        lines(&["c", "d", "f", ""]),  // new line at row n-2, blank below
        lines(&["c", "d", "f", "g"]), // fill the blank
    ];
    let mut renderer = Renderer::default();
    let mut host = vec![String::new(); 4];
    for frame in &frames {
        let events = renderer.frame(&snapshot(frame.clone(), 1));
        apply(&mut host, &events);
        let expected: Vec<String> = frame
            .iter()
            .map(|row| row.iter().map(|c| c.text.clone()).collect())
            .collect();
        assert_eq!(host, expected);
    }
}

#[test]
fn cursor_move_without_cell_change_still_emits_cursor() {
    let mut renderer = Renderer::default();
    let mut snap = snapshot(vec![vec![RowCell::narrow("a")]], 1);
    renderer.frame(&snap);
    snap.cursor.col = 5;
    let events = renderer.frame(&snap);
    assert!(grid_lines(&events).is_empty());
    assert!(events
        .iter()
        .any(|e| matches!(e, Event::Cursor { col: 5, .. })));
}

#[test]
fn first_frame_has_the_protocol_order_and_default_colors() {
    let mut renderer = Renderer::default();
    let red = Attrs {
        fg: Some(0xff0000),
        ..Attrs::default()
    };
    let events = renderer.frame(&snapshot(
        vec![vec![RowCell::narrow("a").with_attrs(red), RowCell::narrow(" ")]],
        2,
    ));
    assert_eq!(
        events,
        vec![
            Event::DefaultColors {
                fg: 0xd0d0d0,
                bg: 0x000000,
                sp: 0xd0d0d0
            },
            Event::HlAttr { id: 1, attrs: red },
            Event::GridClear,
            Event::GridLine {
                row: 0,
                col: 0,
                cells: vec![Cell::new("a", 1), Cell::new(" ", 0)]
            },
            Event::Cursor {
                row: 0,
                col: 0,
                visible: true,
                shape: CursorShape::Block
            },
            Event::Mode { alt_screen: false },
            Event::Flush,
        ]
    );
}

#[test]
fn resize_emits_grid_resize_and_full_repaint() {
    let mut renderer = Renderer::default();
    renderer.frame(&snapshot(lines(&["ab"]), 2));
    let events = renderer.frame(&snapshot(lines(&["abc", "d"]), 3));
    assert_eq!(events[0], Event::GridResize { cols: 3, rows: 2 });
    assert!(events.iter().any(|e| matches!(e, Event::GridClear)));
    assert_eq!(grid_lines(&events).len(), 2);
    assert!(!events.iter().any(|e| matches!(e, Event::DefaultColors { .. })));
}

#[test]
fn committed_lines_become_scrollback_push_after_their_highlights() {
    let mut renderer = Renderer::with_scrollback(true);
    let bold = Attrs {
        bold: true,
        ..Attrs::default()
    };
    let mut snap = snapshot(lines(&["x"]), 1);
    snap.committed = vec![vec![RowCell::narrow("o").with_attrs(bold), RowCell::wide("日")]];
    let events = renderer.frame(&snap);
    let hl_pos = events
        .iter()
        .position(|e| matches!(e, Event::HlAttr { .. }))
        .unwrap();
    let push_pos = events
        .iter()
        .position(|e| matches!(e, Event::ScrollbackPush { .. }))
        .unwrap();
    let clear_pos = events
        .iter()
        .position(|e| matches!(e, Event::GridClear))
        .unwrap();
    assert!(hl_pos < push_pos && push_pos < clear_pos);
    assert_eq!(
        events[push_pos],
        Event::ScrollbackPush {
            lines: vec![vec![Cell::new("o", 1), Cell::new("日", 0), Cell::inherit("")]]
        }
    );
}

#[test]
fn title_and_bell_are_reported_then_flush() {
    let mut renderer = Renderer::default();
    let mut snap = snapshot(lines(&["a"]), 1);
    renderer.frame(&snap);
    snap.title = Some("hi".to_string());
    snap.bell = true;
    snap.alt_screen = true;
    let events = renderer.frame(&snap);
    assert_eq!(
        events,
        vec![
            Event::Mode { alt_screen: true },
            Event::Title {
                text: "hi".to_string()
            },
            Event::Bell,
            Event::Flush
        ]
    );
}

#[test]
fn has_id_room_for_ordinary_frames() {
    let renderer = Renderer::default();
    assert!(renderer.has_id_room(&snapshot(lines(&["abc", "def"]), 3)));
}

#[test]
fn rows_equal_and_clone_keep_cells() {
    let row = RowCell::wide("日").with_attrs(Attrs {
        italic: true,
        ..Attrs::default()
    });
    let copy = row.clone();
    assert_eq!(copy, row);
    assert_eq!(copy.width, 2);
    assert!(copy.attrs.italic);
}

#[test]
fn committed_lines_are_not_pushed_without_the_scrollback_feature() {
    let mut renderer = Renderer::default();
    let mut snap = snapshot(lines(&["x"]), 1);
    snap.committed = vec![vec![RowCell::narrow("o").with_attrs(Attrs {
        bold: true,
        ..Attrs::default()
    })]];
    let events = renderer.frame(&snap);
    assert!(!events.iter().any(|e| matches!(e, Event::ScrollbackPush { .. })));
    // The committed line's highlight is not defined either.
    assert!(!events.iter().any(|e| matches!(e, Event::HlAttr { .. })));
}

#[test]
fn a_resize_to_the_same_size_is_acknowledged_with_a_repaint() {
    let mut renderer = Renderer::default();
    let snap = snapshot(lines(&["ab", "cd"]), 2);
    renderer.frame(&snap);
    renderer.note_resize();
    let events = renderer.frame(&snap);
    assert_eq!(events[0], Event::GridResize { cols: 2, rows: 2 });
    assert!(events.iter().any(|e| matches!(e, Event::GridClear)));
    assert_eq!(grid_lines(&events).len(), 2);
    // Acknowledged once: the next frame of the same screen sends nothing new.
    let again = renderer.frame(&snap);
    assert_eq!(again, vec![Event::Flush]);
}

#[test]
fn a_frame_keeps_the_protocol_order() {
    let mut renderer = Renderer::with_scrollback(true);
    let red = Attrs {
        fg: Some(0xff0000),
        ..Attrs::default()
    };
    let mut snap = snapshot(vec![vec![RowCell::narrow("a").with_attrs(red)], lines(&["b"]).remove(0)], 1);
    snap.committed = lines(&["z"]);
    snap.title = Some("t".to_string());
    snap.bell = true;
    let events = renderer.frame(&snap);
    let rank = |e: &Event| match e {
        Event::GridResize { .. } => 0,
        Event::DefaultColors { .. } => 1,
        Event::HlAttr { .. } => 2,
        Event::ScrollbackPush { .. } => 3,
        Event::GridClear => 4,
        Event::GridScroll { .. } => 5,
        Event::GridLine { .. } => 6,
        Event::Cursor { .. } => 7,
        Event::Mode { .. } => 8,
        Event::Title { .. } => 9,
        Event::Bell => 10,
        Event::Flush => 11,
        _ => 12,
    };
    let ranks: Vec<i32> = events.iter().map(rank).collect();
    assert_eq!(ranks, vec![1, 2, 3, 4, 6, 6, 7, 8, 9, 10, 11]);
}

#[test]
fn compress_makes_runs_maximal_and_names_ids_only_when_they_change() {
    let columns = vec![
        ("a".to_string(), 1),
        ("a".to_string(), 1),
        ("b".to_string(), 1),
        ("b".to_string(), 2),
        ("c".to_string(), 2),
    ];
    assert_eq!(
        compress(&columns),
        vec![
            Cell::run("a", 1, 2),
            Cell::inherit("b"),
            Cell::new("b", 2),
            Cell::inherit("c"),
        ]
    );
}

#[test]
fn highlight_ids_across_frames_are_consecutive_and_never_resent() {
    let mut renderer = Renderer::default();
    let color = |fg: u32| Attrs {
        fg: Some(fg),
        ..Attrs::default()
    };
    let mut ids = Vec::new();
    for frame in [vec![1, 2], vec![2, 3], vec![1, 3, 4]] {
        let row: Vec<RowCell> = frame
            .iter()
            .map(|&fg| RowCell::narrow("x").with_attrs(color(fg)))
            .collect();
        for event in renderer.frame(&snapshot(vec![row], frame.len() as u16)) {
            if let Event::HlAttr { id, .. } = event {
                ids.push(id);
            }
        }
    }
    assert_eq!(ids, vec![1, 2, 3, 4]);
}

#[test]
fn committed_lines_are_not_pushed_while_the_alt_screen_is_active() {
    let mut renderer = Renderer::with_scrollback(true);
    let mut snap = snapshot(lines(&["x"]), 1);
    snap.alt_screen = true;
    snap.committed = lines(&["old"]);
    let events = renderer.frame(&snap);
    assert!(!events.iter().any(|e| matches!(e, Event::ScrollbackPush { .. })));
    // Back on the primary screen, committed lines are pushed again.
    snap.alt_screen = false;
    let events = renderer.frame(&snap);
    assert!(events.iter().any(|e| matches!(e, Event::ScrollbackPush { .. })));
}
