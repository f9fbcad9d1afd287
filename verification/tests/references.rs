use uss_core::document::Document;
use uss_core::refs::{
    collect_class_names, collect_id_names, collect_variable_names, find_definition,
    find_definition_for_word, find_references, rename,
};
use uss_core::{Position, TextRange};

fn pos(line: u32, character: u32) -> Position {
    Position { line, character }
}

fn range(l1: u32, c1: u32, l2: u32, c2: u32) -> TextRange {
    TextRange { start: pos(l1, c1), end: pos(l2, c2) }
}

const SHEET: &str = "\
:root { --gap: 4px; }\n\
.row { margin: var(--gap); }\n\
.col { padding: var(--gap); }\n";

#[test]
fn references_finds_every_whole_token_occurrence() {
    let doc = Document::new(SHEET.to_string(), 1);
    // cursor inside the first `--gap`
    let refs = find_references(&doc, pos(0, 10));
    assert_eq!(
        refs,
        vec![range(0, 8, 0, 13), range(1, 19, 1, 24), range(2, 20, 2, 25)]
    );
}

#[test]
fn references_respect_token_boundaries() {
    let doc = Document::new("--gap: 1px; --gap-x: 2px; a--gap: 3;".to_string(), 1);
    // `--gap-x` and `a--gap` are different tokens and must not count
    let refs = find_references(&doc, pos(0, 2));
    assert_eq!(refs, vec![range(0, 0, 0, 5)]);
}

#[test]
fn references_empty_when_no_word_surrounds_the_cursor() {
    let doc = Document::new("a  b".to_string(), 1);
    // both neighbours of the cursor are spaces: no token, no references
    assert_eq!(find_references(&doc, pos(0, 2)), vec![]);
}

#[test]
fn rename_replaces_all_occurrences_atomically() {
    let doc = Document::new(SHEET.to_string(), 1);
    let edits = rename(&doc, pos(0, 10), "--space").expect("rename must produce edits");
    assert_eq!(edits.len(), 3);
    for e in &edits {
        assert_eq!(e.new_text, "--space");
    }
    assert_eq!(edits[0].range, range(0, 8, 0, 13));
    assert_eq!(edits[1].range, range(1, 19, 1, 24));
    assert_eq!(edits[2].range, range(2, 20, 2, 25));
}

#[test]
fn rename_without_a_token_reports_no_changes() {
    let doc = Document::new("a { }".to_string(), 1);
    // position between two non-word characters: no token, no edits
    assert!(rename(&doc, pos(0, 2), "new-name").is_none());
}

#[test]
fn definition_of_a_variable() {
    let doc = Document::new(SHEET.to_string(), 1);
    // cursor on the `--gap` inside var(...) on line 1
    let def = find_definition(&doc, pos(1, 21));
    assert_eq!(def, Some(range(0, 8, 0, 13)));
}

#[test]
fn definition_with_space_before_colon_excludes_the_delimiter() {
    let doc = Document::new("--pad : 1px;\nvar(--pad)".to_string(), 1);
    let def = find_definition(&doc, pos(1, 6));
    assert_eq!(def, Some(range(0, 0, 0, 6)));
}

#[test]
fn definition_of_a_class_token() {
    let doc = Document::new(".btn { color: red; }".to_string(), 1);
    let def = find_definition_for_word(&doc, ".btn");
    assert_eq!(def, Some(range(0, 0, 0, 4)));
}

#[test]
fn definition_absent_for_plain_words() {
    let doc = Document::new("Button { color: red; }".to_string(), 1);
    assert_eq!(find_definition(&doc, pos(0, 2)), None);
}

#[test]
fn collects_distinct_class_names_in_first_occurrence_order() {
    let doc = Document::new(".b { } .a { } .b:hover { }".to_string(), 1);
    assert_eq!(collect_class_names(&doc), vec!["b".to_string(), "a".to_string()]);
}

#[test]
fn collects_distinct_id_names() {
    let doc = Document::new("#x { } #y { } #x { }".to_string(), 1);
    assert_eq!(collect_id_names(&doc), vec!["x".to_string(), "y".to_string()]);
}

#[test]
fn collects_defined_variable_names_only() {
    let doc = Document::new(
        ":root { --gap: 4px; --pad: 2px; }\na { margin: var(--other); }".to_string(),
        1,
    );
    // `--other` is only referenced, never defined with a colon
    assert_eq!(
        collect_variable_names(&doc),
        vec!["--gap".to_string(), "--pad".to_string()]
    );
}
