use ptybridge::palette::Color;
use ptybridge::protocol::CursorShape;
use ptybridge::pty::{child_exit_event, exit_of, failed_wait, spawn_failure_events};
use ptybridge::protocol::Event;
use ptybridge::term::{
    cell_attrs, cursor_at, map_shape, palette_color, row_to_cells, CellFlags, EmuCell, EmuColor,
    EmuCursorShape, NamedColor,
};

fn flags() -> CellFlags {
    CellFlags {
        bold: false,
        italic: false,
        underline: false,
        double_underline: false,
        dotted_underline: false,
        dashed_underline: false,
        undercurl: false,
        inverse: false,
        strikeout: false,
        dim: false,
        wide_char: false,
        wide_char_spacer: false,
    }
}

fn cell(c: char) -> EmuCell {
    EmuCell {
        c,
        zerowidth: vec![],
        fg: EmuColor::Named(NamedColor::Foreground),
        bg: EmuColor::Named(NamedColor::Background),
        flags: flags(),
    }
}

#[test]
fn named_colors_map_to_palette_indices() {
    assert_eq!(palette_color(EmuColor::Named(NamedColor::Red)), Color::Indexed(1));
    assert_eq!(palette_color(EmuColor::Named(NamedColor::BrightWhite)), Color::Indexed(15));
    assert_eq!(palette_color(EmuColor::Named(NamedColor::DimCyan)), Color::Indexed(6));
    assert_eq!(palette_color(EmuColor::Named(NamedColor::Foreground)), Color::Default);
    assert_eq!(palette_color(EmuColor::Named(NamedColor::DimForeground)), Color::Default);
    assert_eq!(palette_color(EmuColor::Spec(1, 2, 3)), Color::Rgb(1, 2, 3));
    assert_eq!(palette_color(EmuColor::Indexed(200)), Color::Indexed(200));
}

#[test]
fn sgr_bold_red_becomes_attributes() {
    let mut x = cell('X');
    x.fg = EmuColor::Named(NamedColor::Red);
    x.flags.bold = true;
    x.flags.dotted_underline = true;
    let attrs = cell_attrs(&x);
    assert!(attrs.bold);
    assert!(attrs.underline);
    assert_eq!(attrs.fg, Some(0x800000));
    assert_eq!(attrs.bg, None);
    assert!(!attrs.blink);
}

#[test]
fn wide_char_spacer_is_dropped_and_width_kept() {
    let mut wide = cell('あ');
    wide.flags.wide_char = true;
    let mut spacer = cell(' ');
    spacer.flags.wide_char_spacer = true;
    let mut combined = cell('e');
    combined.zerowidth = vec!['\u{0301}'];
    let cells = row_to_cells(&vec![wide, spacer, combined, cell(' ')]);
    assert_eq!(cells.len(), 3);
    assert_eq!(cells[0].text, "あ");
    assert_eq!(cells[0].width, 2);
    assert_eq!(cells[1].text, "e\u{0301}");
    assert_eq!(cells[1].width, 1);
    let span: u32 = cells.iter().map(|c| c.width as u32).sum();
    assert_eq!(span, 4);
}

#[test]
fn cursor_shapes_and_positions() {
    assert_eq!(map_shape(EmuCursorShape::Beam), CursorShape::Bar);
    assert_eq!(map_shape(EmuCursorShape::Underline), CursorShape::Underline);
    assert_eq!(map_shape(EmuCursorShape::HollowBlock), CursorShape::Block);
    let hidden = cursor_at(-3, 4, EmuCursorShape::Hidden);
    assert_eq!(hidden.row, 0);
    assert_eq!(hidden.col, 4);
    assert!(!hidden.visible);
    assert!(cursor_at(2, 0, EmuCursorShape::Block).visible);
}

#[test]
fn child_exit_reports_code_or_signal() {
    let by_signal = exit_of(Some("SIGTERM".to_string()), 0);
    assert_eq!(by_signal.code, None);
    assert_eq!(by_signal.signal.as_deref(), Some("SIGTERM"));
    let normal = exit_of(None, 3);
    assert_eq!(normal.code, Some(3));
    assert_eq!(normal.signal, None);
    assert_eq!(failed_wait().code, Some(-1));
    assert_eq!(
        child_exit_event(normal),
        Event::ChildExit {
            code: Some(3),
            signal: None
        }
    );
    let events = spawn_failure_events("boom".to_string());
    assert_eq!(
        events,
        vec![
            Event::Error {
                code: "spawn".to_string(),
                message: "boom".to_string()
            },
            Event::ChildExit {
                code: None,
                signal: None
            }
        ]
    );
}
