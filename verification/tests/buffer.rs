use uss_core::document::Document;
use uss_core::{Position, TextRange};

fn pos(line: u32, character: u32) -> Position {
    Position { line, character }
}

fn range(l1: u32, c1: u32, l2: u32, c2: u32) -> TextRange {
    TextRange { start: pos(l1, c1), end: pos(l2, c2) }
}

#[test]
fn position_offset_round_trip() {
    let doc = Document::new("Button {\n  width: 10px;\n}\n".to_string(), 1);
    let text_len = doc.get_text().chars().count();
    for o in 0..=text_len {
        let p = doc.offset_to_position(o);
        assert_eq!(doc.position_to_offset(p), Some(o));
    }
}

#[test]
fn position_offset_round_trip_crlf() {
    let doc = Document::new("a\r\nbb\rc\n".to_string(), 1);
    let text_len = doc.get_text().chars().count();
    for o in 0..=text_len {
        let p = doc.offset_to_position(o);
        assert_eq!(doc.position_to_offset(p), Some(o));
    }
}

#[test]
fn position_to_offset_clamps_column() {
    let doc = Document::new("ab\ncd".to_string(), 1);
    // column past the line end clamps to the line's end offset
    assert_eq!(doc.position_to_offset(pos(0, 99)), Some(3));
    assert_eq!(doc.position_to_offset(pos(1, 99)), Some(5));
    // line past the last line resolves to nothing
    assert_eq!(doc.position_to_offset(pos(9, 0)), None);
}

#[test]
fn apply_change_insert_delete_append() {
    let mut doc = Document::new("hello world".to_string(), 1);
    // pure insertion at an empty range
    doc.apply_change(range(0, 5, 0, 5), ",");
    assert_eq!(doc.get_text(), "hello, world");
    // pure deletion
    doc.apply_change(range(0, 5, 0, 6), "");
    assert_eq!(doc.get_text(), "hello world");
    // replacement
    doc.apply_change(range(0, 6, 0, 11), "there");
    assert_eq!(doc.get_text(), "hello there");
    // append at the end-of-document boundary
    let end = doc.get_text().chars().count() as u32;
    doc.apply_change(range(0, end, 0, end), "!");
    assert_eq!(doc.get_text(), "hello there!");
}

#[test]
fn apply_change_out_of_bounds_is_a_no_op() {
    let mut doc = Document::new("abc".to_string(), 1);
    doc.apply_change(range(5, 0, 5, 3), "zzz");
    assert_eq!(doc.get_text(), "abc");
}

#[test]
fn incremental_edits_match_full_replacement() {
    let mut incremental = Document::new("a { }".to_string(), 1);
    incremental.apply_change(range(0, 4, 0, 4), "color: red; ");
    incremental.apply_change(range(0, 0, 0, 1), ".btn");
    let composed = incremental.get_text();

    let mut full = Document::new("a { }".to_string(), 1);
    full.set_content(composed.clone());
    assert_eq!(full.get_text(), incremental.get_text());
    assert_eq!(composed, ".btn { color: red; }");
}

#[test]
fn a_whole_edit_sequence_composes() {
    let mut doc = Document::new("a { }".to_string(), 1);
    doc.apply_changes(&vec![
        (range(0, 4, 0, 4), "color: red; ".to_string()),
        (range(0, 0, 0, 1), ".btn".to_string()),
    ]);
    assert_eq!(doc.get_text(), ".btn { color: red; }");
}

#[test]
fn set_content_replaces_everything() {
    let mut doc = Document::new("old".to_string(), 3);
    doc.set_content("entirely new".to_string());
    assert_eq!(doc.get_text(), "entirely new");
    assert_eq!(doc.version, 3);
}

#[test]
fn get_line_excludes_the_terminator() {
    let doc = Document::new("one\ntwo\n".to_string(), 1);
    assert_eq!(doc.get_line(0), Some("one".to_string()));
    assert_eq!(doc.get_line(1), Some("two".to_string()));
    assert_eq!(doc.get_line(2), Some("".to_string()));
    assert_eq!(doc.get_line(3), None);
    assert_eq!(doc.line_count(), 3);
}

#[test]
fn get_line_excludes_a_crlf_terminator() {
    let doc = Document::new("one\r\ntwo\rlast".to_string(), 1);
    assert_eq!(doc.get_line(0), Some("one".to_string()));
    assert_eq!(doc.get_line(1), Some("two".to_string()));
    assert_eq!(doc.get_line(2), Some("last".to_string()));
}

#[test]
fn text_before_cursor() {
    let doc = Document::new("Button {\n  width: 10px;\n}".to_string(), 1);
    assert_eq!(doc.get_text_before_cursor(pos(1, 8)), Some("  width:".to_string()));
    // a column past the line end yields the whole line, terminator included
    assert_eq!(doc.get_text_before_cursor(pos(0, 99)), Some("Button {\n".to_string()));
    assert_eq!(doc.get_text_before_cursor(pos(7, 0)), None);
}

#[test]
fn word_at_position() {
    let doc = Document::new(".btn-primary { color: red; }".to_string(), 1);
    assert_eq!(doc.get_word_at_position(pos(0, 3)), Some("btn-primary".to_string()));
    // between two non-word characters there is no word
    assert_eq!(doc.get_word_at_position(pos(0, 13)), None);
    // `--` variables are single tokens
    let doc2 = Document::new(":root { --gap: 4px; }".to_string(), 1);
    assert_eq!(doc2.get_word_at_position(pos(0, 10)), Some("--gap".to_string()));
}
