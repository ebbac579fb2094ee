use ducka::document::Doc;
use ducka::geometry::Frac;
use ducka::surface::{Surface, Write};
use ducka::window::{Axis, WinType, WindowSystem};

fn plain(col: u16, row: u16, glyph: &str) -> Write {
    Write { col, row, glyph: String::from(glyph), inverted: false }
}

fn sep(col: u16, row: u16, glyph: &str) -> Write {
    Write { col, row, glyph: String::from(glyph), inverted: true }
}

/// Root sized 10x4, split vertically in half with text on both sides:
/// `A` at (0,0), `B` at (5,0), and a vertical separator down column 4.
fn two_text_windows() -> WindowSystem {
    let mut ws = WindowSystem::new((10, 4));
    let root = ws.root;
    ws.split_at(root, WinType::Text(String::from("A")), WinType::Text(String::from("B")), Axis::Vertical, Frac::half())
        .unwrap();
    ws
}

#[test]
fn renders_two_text_windows_and_their_separator() {
    let ws = two_text_windows();
    let mut surface = Surface::new(10, 4);
    ws.render(ws.root, &mut surface);
    let expected = vec![
        plain(0, 0, "A"),
        sep(4, 0, "|"),
        sep(4, 1, "|"),
        sep(4, 2, "|"),
        sep(4, 3, "|"),
        plain(5, 0, "B"),
        sep(4, 0, "|"),
        sep(4, 1, "|"),
        sep(4, 2, "|"),
        sep(4, 3, "|"),
    ];
    assert_eq!(surface.writes(), &expected);
}

#[test]
fn rendering_twice_queues_identical_writes() {
    let ws = two_text_windows();
    let mut s1 = Surface::new(10, 4);
    let mut s2 = Surface::new(10, 4);
    ws.render(ws.root, &mut s1);
    ws.render(ws.root, &mut s2);
    assert_eq!(s1.writes(), s2.writes());
    // Rendering into the same surface again appends the same block once more.
    ws.render(ws.root, &mut s2);
    let once = s1.writes().clone();
    let twice: Vec<Write> = once.iter().chain(once.iter()).cloned().collect();
    assert_eq!(s2.writes(), &twice);
}

#[test]
fn split_focused_shrinks_the_focused_leaf_in_place() {
    let mut ws = WindowSystem::new((10, 4));
    let root = ws.root;
    let (a, _b) = ws
        .split_at(root, WinType::Text(String::from("A")), WinType::Text(String::from("B")), Axis::Vertical, Frac::half())
        .unwrap();
    ws.focused = a;
    ws.split_focused(WinType::Text(String::from("C")), Axis::Horizontal, Frac::half()).unwrap();
    let mut surface = Surface::new(10, 4);
    ws.render(ws.root, &mut surface);
    let writes = surface.writes();
    // The new container covers the old left leaf: C in its top half, the
    // original A shrunk to the bottom half, B untouched on the right.
    assert!(writes.contains(&plain(0, 0, "C")));
    assert!(writes.contains(&plain(0, 2, "A")));
    assert!(writes.contains(&plain(5, 0, "B")));
    // The new horizontal separator runs across the old leaf's columns at
    // row 1; the old vertical separator still runs down column 4.
    for col in 0..4 {
        assert!(writes.contains(&sep(col, 1, "-")));
    }
    for row in 0..4 {
        assert!(writes.contains(&sep(4, row, "|")));
    }
    assert_eq!(writes.len(), 19);
}

#[test]
fn document_windows_paint_one_grapheme_cluster_per_column() {
    let mut doc = Doc::new();
    doc.load_text(String::from("d"), "h\u{00e9}llo\nab");
    let mut ws = WindowSystem::new((10, 4));
    let root = ws.root;
    ws.split_at(root, WinType::Document(doc), WinType::Text(String::from("X")), Axis::Vertical, Frac::half())
        .unwrap();
    let mut surface = Surface::new(10, 4);
    ws.render(ws.root, &mut surface);
    let writes = surface.writes();
    // The document's window spans columns 0-3, so the five clusters of the
    // first line are clipped to four, one per column; the second line is
    // shorter than the window.
    assert!(writes.contains(&plain(0, 0, "h")));
    assert!(writes.contains(&plain(1, 0, "\u{00e9}")));
    assert!(writes.contains(&plain(2, 0, "l")));
    assert!(writes.contains(&plain(3, 0, "l")));
    assert!(!writes.iter().any(|w| w.glyph == "o"));
    assert!(writes.contains(&plain(0, 1, "a")));
    assert!(writes.contains(&plain(1, 1, "b")));
}

#[test]
fn document_rows_beyond_the_window_are_not_drawn() {
    let mut doc = Doc::new();
    doc.load_text(String::from("d"), "1\n2\n3\n4\n5\n6");
    let mut ws = WindowSystem::new((10, 2));
    let root = ws.root;
    ws.split_at(root, WinType::Document(doc), WinType::Empty, Axis::Vertical, Frac::half())
        .unwrap();
    let mut surface = Surface::new(10, 2);
    ws.render(ws.root, &mut surface);
    let writes = surface.writes();
    assert!(writes.contains(&plain(0, 0, "1")));
    assert!(writes.contains(&plain(0, 1, "2")));
    assert!(!writes.iter().any(|w| w.glyph == "3"));
}

#[test]
fn render_window_paints_only_that_window() {
    let mut ws = WindowSystem::new((10, 4));
    let root = ws.root;
    let (a, _b) = ws
        .split_at(root, WinType::Text(String::from("A")), WinType::Text(String::from("B")), Axis::Vertical, Frac::half())
        .unwrap();
    let mut surface = Surface::new(10, 4);
    ws.render_window(a, &mut surface);
    assert_eq!(surface.writes(), &vec![plain(0, 0, "A")]);
    // A container paints nothing of its own.
    let mut surface = Surface::new(10, 4);
    ws.render_window(root, &mut surface);
    assert!(surface.writes().is_empty());
}

#[test]
fn empty_windows_render_nothing() {
    let mut ws = WindowSystem::new((10, 4));
    let root = ws.root;
    ws.split_at(root, WinType::Empty, WinType::Empty, Axis::Vertical, Frac::half()).unwrap();
    let mut surface = Surface::new(10, 4);
    ws.render(ws.root, &mut surface);
    // Only the separator is drawn: empty children paint nothing and have
    // no children of their own to recurse into.
    assert!(surface.writes().iter().all(|w| w.inverted));
    assert_eq!(surface.writes().len(), 8);
}
