use prompt_store::display::{EditorAdditionMap, EditorAdditionOffset, TextBuffer};

fn buffer(lines: &[&str]) -> TextBuffer {
    TextBuffer { lines: lines.iter().map(|s| String::from(*s)).collect() }
}

#[test]
fn snapshot_passes_text_through() {
    let (_map, snap) = EditorAdditionMap::new(buffer(&["abc", "", "de"]));
    assert_eq!(snap.version, 0);
    assert_eq!(snap.text(), "abc\n\nde");
    assert_eq!(snap.buffer_snapshot().lines.len(), 3);
}

#[test]
fn empty_buffer_has_empty_text() {
    let (_map, snap) = EditorAdditionMap::new(buffer(&[]));
    assert_eq!(snap.text(), "");
}

#[test]
fn line_lengths_are_identity() {
    let (_map, snap) = EditorAdditionMap::new(buffer(&["abc", "", "de"]));
    assert_eq!(snap.line_len(0), 3);
    assert_eq!(snap.line_len(1), 0);
    assert_eq!(snap.line_len(2), 2);
}

#[test]
fn buffer_rows_walk_in_order() {
    let (_map, snap) = EditorAdditionMap::new(buffer(&["a", "b", "c"]));
    let mut rows = snap.buffer_rows(1);
    assert_eq!(rows.next(), Some(1));
    assert_eq!(rows.next(), Some(2));
    assert_eq!(rows.next(), None);
    assert_eq!(rows.next(), None);
}

#[test]
fn chunks_walk_the_lines() {
    let (_map, snap) = EditorAdditionMap::new(buffer(&["a", "b", "c"]));
    let mut chunks = snap.chunks(1);
    assert_eq!(chunks.next().as_deref(), Some("b"));
    assert_eq!(chunks.next().as_deref(), Some("c"));
    assert!(chunks.next().is_none());
}

#[test]
fn offsets_add() {
    let a = EditorAdditionOffset(3);
    let b = EditorAdditionOffset(4);
    assert_eq!(a.plus(b).0, 7);
}
