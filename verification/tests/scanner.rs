use uss_core::diagnostics::{get_diagnostics, Diagnostic, Severity};
use uss_core::document::Document;
use uss_core::uss_data::get_property_names;

fn known() -> Vec<String> {
    get_property_names().iter().map(|s| s.to_string()).collect()
}

fn scan(text: &str) -> Vec<Diagnostic> {
    let doc = Document::new(text.to_string(), 1);
    get_diagnostics(&doc, &known())
}

#[test]
fn hex_color_of_length_seven_gets_exactly_one_error() {
    let diags = scan("color: #1234567;");
    assert_eq!(diags.len(), 1);
    let d = &diags[0];
    assert_eq!(d.severity, Severity::Error);
    assert_eq!(d.message, "Invalid hex color length: 7. Expected 3, 4, 6, or 8 characters.");
    assert_eq!(d.range.start.character, 7);
    assert_eq!(d.range.end.character, 15);
}

#[test]
fn valid_hex_lengths_pass() {
    assert_eq!(scan("a { color: #fff; }").len(), 0);
    assert_eq!(scan("a { color: #ffff; }").len(), 0);
    assert_eq!(scan("a { color: #ffffff; }").len(), 0);
    assert_eq!(scan("a { color: #ffffffff; }").len(), 0);
}

#[test]
fn one_unmatched_open_brace_gives_one_error_on_the_last_line() {
    let diags = scan("Button {\n  width: 10px;");
    assert_eq!(diags.len(), 1);
    let d = &diags[0];
    assert_eq!(d.severity, Severity::Error);
    assert_eq!(d.message, "Unclosed brace(s): 1 opening brace(s) without closing");
    assert_eq!(d.range.start.line, 1);
    assert_eq!(d.range.start.character, 0);
}

#[test]
fn extra_closing_braces_give_one_error() {
    let diags = scan("a { color: red; }\n}");
    assert_eq!(diags.len(), 1);
    assert_eq!(diags[0].severity, Severity::Error);
    assert_eq!(diags[0].message, "Extra closing brace(s): 1 more closing than opening");
    assert_eq!(diags[0].range.start.line, 1);
}

#[test]
fn unknown_property_warning_names_the_property() {
    let diags = scan("a {\n  colr: red;\n}");
    assert_eq!(diags.len(), 1);
    let d = &diags[0];
    assert_eq!(d.severity, Severity::Warning);
    assert_eq!(d.message, "Unknown USS property: 'colr'");
    assert_eq!(d.range.start.line, 1);
    assert_eq!(d.range.start.character, 2);
    assert_eq!(d.range.end.character, 6);
}

#[test]
fn custom_properties_are_always_accepted() {
    assert_eq!(scan("a {\n  --gap: 4px;\n}").len(), 0);
}

#[test]
fn known_property_passes() {
    assert_eq!(scan("a {\n  color: red;\n}").len(), 0);
}

#[test]
fn empty_value_is_an_error() {
    let diags = scan("a {\n  color: ;\n}");
    assert_eq!(diags.len(), 1);
    let d = &diags[0];
    assert_eq!(d.severity, Severity::Error);
    assert_eq!(d.message, "Property value is empty");
    assert_eq!(d.range.start.line, 1);
    assert_eq!(d.range.start.character, 7);
}

#[test]
fn missing_semicolon_is_a_warning_at_the_line_end() {
    let diags = scan("a {\n  color: red\n}");
    assert_eq!(diags.len(), 1);
    let d = &diags[0];
    assert_eq!(d.severity, Severity::Warning);
    assert_eq!(d.message, "Missing semicolon at end of declaration");
    assert_eq!(d.range.start.line, 1);
    assert_eq!(d.range.start.character, 11);
    assert_eq!(d.range.end.character, 12);
}

#[test]
fn url_lines_do_not_warn_about_semicolons() {
    let diags = scan("a {\n  background-image: url(\n}");
    // the unclosed parenthesis is still flagged, but no semicolon warning
    assert!(diags.iter().all(|d| d.message != "Missing semicolon at end of declaration"));
    assert!(diags.iter().any(|d| d.message == "Unclosed parenthesis"));
}

#[test]
fn unmatched_closing_paren_is_flagged_once() {
    let diags = scan("a { width: calc(1px));\n}");
    // counts differ on line 0: the second `)` has no opener
    let parens: Vec<&Diagnostic> =
        diags.iter().filter(|d| d.message == "Unmatched closing parenthesis").collect();
    assert_eq!(parens.len(), 1);
    assert_eq!(parens[0].range.start.character, 20);
}

#[test]
fn unclosed_paren_is_flagged_at_the_opener() {
    let diags = scan("a { width: calc(1px; }");
    let parens: Vec<&Diagnostic> =
        diags.iter().filter(|d| d.message == "Unclosed parenthesis").collect();
    assert_eq!(parens.len(), 1);
    assert_eq!(parens[0].range.start.character, 15);
}

#[test]
fn unclosed_paren_anchors_at_the_first_unmatched_opener() {
    // the second '(' is matched; the unmatched one sits at column 0
    let diags = scan("((a)");
    let parens: Vec<&Diagnostic> =
        diags.iter().filter(|d| d.message == "Unclosed parenthesis").collect();
    assert_eq!(parens.len(), 1);
    assert_eq!(parens[0].range.start.character, 0);
}

#[test]
fn comment_and_empty_lines_are_skipped() {
    assert_eq!(scan("/* colr: red; */\n\n// nope: x\n").len(), 0);
}

#[test]
fn diagnostics_are_recomputed_from_current_content() {
    let mut doc = Document::new("a {".to_string(), 1);
    let k = known();
    assert_eq!(get_diagnostics(&doc, &k).len(), 1);
    doc.set_content("a { }".to_string());
    assert_eq!(get_diagnostics(&doc, &k).len(), 0);
}
