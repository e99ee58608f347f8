use human_panic::trace::{render_trace, Frame, Symbol, SKIP_FRAMES};

fn sym(name: Option<&str>, file: Option<&str>, line: Option<u32>) -> Symbol {
    Symbol {
        name: name.map(|s| s.to_string()),
        file: file.map(|s| s.to_string()),
        line,
    }
}

fn render(frames: &Vec<Frame>, skip: usize) -> String {
    render_trace(frames, skip).iter().collect()
}

#[test]
fn unresolved_frame_renders_one_line() {
    let frames = vec![Frame { ip: 0x1000, symbols: vec![] }];
    let out = render(&frames, 0);
    assert_eq!(out, "\n   0:     0x1000 - <unresolved>");
    assert_eq!(out.matches('\n').count(), 1);
    assert!(out.ends_with("<unresolved>"));
}

#[test]
fn named_symbol_with_location() {
    let frames = vec![Frame {
        ip: 0xabc,
        symbols: vec![sym(Some("alpha"), Some("src/a.rs"), Some(42))],
    }];
    let out = render(&frames, 0);
    assert_eq!(
        out,
        "\n   0:      0xabc - alpha\n                at src/a.rs:42"
    );
}

#[test]
fn multiple_symbols_indent_under_address_field() {
    let frames = vec![Frame {
        ip: 0xff,
        symbols: vec![
            sym(Some("inner"), None, None),
            sym(Some("outer"), None, None),
            sym(None, None, None),
        ],
    }];
    let out = render(&frames, 0);
    let lines: Vec<&str> = out.split('\n').collect();
    // Leading newline gives an empty first piece; then one line per symbol.
    assert_eq!(lines.len(), 4);
    assert_eq!(lines[0], "");
    assert_eq!(lines[1], "   0:       0xff - inner");
    assert_eq!(lines[2], "                 - outer");
    assert_eq!(lines[3], "                 - <unknown>");
    // Continuation lines are indented by exactly 16 spaces before " - ".
    assert!(lines[2].starts_with("                 - "));
    assert!(!lines[2].starts_with("                  "));
}

#[test]
fn symbol_without_name_renders_unknown() {
    let frames = vec![Frame { ip: 0, symbols: vec![sym(None, Some("f.rs"), None)] }];
    let out = render(&frames, 0);
    // File without line: the location line is omitted.
    assert_eq!(out, "\n   0:        0x0 - <unknown>");
}

#[test]
fn rendering_is_deterministic() {
    let frames = vec![
        Frame { ip: 0xdeadbeef, symbols: vec![sym(Some("f"), Some("x.rs"), Some(7))] },
        Frame { ip: 0x2, symbols: vec![] },
    ];
    let once = render(&frames, 0);
    let twice = render(&frames, 0);
    assert_eq!(once, twice);
}

#[test]
fn skip_drops_leading_frames_and_reindexes() {
    let frames = vec![
        Frame { ip: 0x1, symbols: vec![] },
        Frame { ip: 0x2, symbols: vec![] },
        Frame { ip: 0x3, symbols: vec![] },
    ];
    let out = render(&frames, 2);
    // The surviving frame is displayed with index 0.
    assert_eq!(out, "\n   0:        0x3 - <unresolved>");
}

#[test]
fn shallow_capture_renders_empty_trace() {
    let mut frames: Vec<Frame> = Vec::new();
    for i in 0..SKIP_FRAMES {
        frames.push(Frame { ip: i, symbols: vec![] });
    }
    // Exactly the skip count: nothing survives.
    assert_eq!(render(&frames, SKIP_FRAMES), "");
    // Fewer than the skip count: still nothing, still no error.
    let few = vec![Frame { ip: 0x1, symbols: vec![] }];
    assert_eq!(render(&few, SKIP_FRAMES), "");
    // And an empty capture renders an empty trace.
    assert_eq!(render(&Vec::new(), SKIP_FRAMES), "");
}

#[test]
fn large_index_widens_field() {
    let mut frames: Vec<Frame> = Vec::new();
    for i in 0..11 {
        frames.push(Frame { ip: i, symbols: vec![] });
    }
    let out = render(&frames, 0);
    let lines: Vec<&str> = out.split('\n').collect();
    assert_eq!(lines[1], "   0:        0x0 - <unresolved>");
    assert_eq!(lines[10], "   9:        0x9 - <unresolved>");
    assert_eq!(lines[11], "  10:        0xa - <unresolved>");
}
