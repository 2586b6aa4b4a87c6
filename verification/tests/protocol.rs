use ptybridge::protocol::{is_false, Attrs, Cell, Event, PROTO, VERSION};

#[test]
fn cell_constructors_set_fields() {
    assert_eq!(
        Cell::new("h", 7),
        Cell {
            text: "h".to_string(),
            hl_id: Some(7),
            repeat: None
        }
    );
    assert_eq!(
        Cell::inherit("e"),
        Cell {
            text: "e".to_string(),
            hl_id: None,
            repeat: None
        }
    );
    assert_eq!(
        Cell::run(" ", 0, 5),
        Cell {
            text: " ".to_string(),
            hl_id: Some(0),
            repeat: Some(5)
        }
    );
}

#[test]
fn span_defaults_to_one() {
    assert_eq!(Cell::new("h", 7).span(), 1);
    assert_eq!(Cell::run("l", 7, 3).span(), 3);
}

#[test]
fn wire_tail_is_the_shortest_array() {
    assert_eq!(Cell::new("h", 7).wire_tail(), vec![Some(7)]);
    assert_eq!(Cell::inherit("e").wire_tail(), Vec::<Option<u32>>::new());
    assert_eq!(Cell::run(" ", 0, 5).wire_tail(), vec![Some(0), Some(5)]);
    let inherit_run = Cell {
        text: "l".to_string(),
        hl_id: None,
        repeat: Some(3),
    };
    assert_eq!(inherit_run.wire_tail(), vec![None, Some(3)]);
}

#[test]
fn cell_wire_roundtrips_through_all_shapes() {
    for cell in [Cell::new("h", 7), Cell::inherit("e"), Cell::run(" ", 0, 5)] {
        let tail = cell.wire_tail();
        let back = Cell::from_wire(
            cell.text.clone(),
            tail.first().copied(),
            tail.get(1).copied(),
        );
        assert_eq!(back, cell);
    }
}

#[test]
fn wire_null_hl_reads_as_inherit() {
    let cell = Cell::from_wire("l".to_string(), Some(None), Some(Some(3)));
    assert_eq!(
        cell,
        Cell {
            text: "l".into(),
            hl_id: None,
            repeat: Some(3)
        }
    );
}

#[test]
fn hello_has_protocol_identity() {
    assert_eq!(
        Event::hello(80, 24, vec![]),
        Event::Hello {
            proto: "ptybridge".to_string(),
            v: 1,
            cols: 80,
            rows: 24,
            features: vec![]
        }
    );
    assert_eq!(PROTO, "ptybridge");
    assert_eq!(VERSION, 1);
}

#[test]
fn false_flags_are_omitted() {
    assert!(is_false(&false));
    assert!(!is_false(&true));
    let attrs = Attrs::default();
    assert_eq!(attrs.fg, None);
    assert!(!attrs.bold && !attrs.blink);
}
