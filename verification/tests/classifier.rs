use uss_core::classify::{get_completion_context, CompletionContext};
use uss_core::document::Document;
use uss_core::Position;

fn pos(line: u32, character: u32) -> Position {
    Position { line, character }
}

fn classify(text: &str, line: u32, character: u32) -> CompletionContext {
    let doc = Document::new(text.to_string(), 1);
    get_completion_context(&doc, pos(line, character))
}

#[test]
fn class_selector_after_dot() {
    assert_eq!(classify(".foo { color: red; }", 0, 1), CompletionContext::ClassSelector);
}

#[test]
fn id_selector_after_hash() {
    assert_eq!(classify("#main", 0, 1), CompletionContext::IdSelector);
}

#[test]
fn property_value_after_colon_space() {
    assert_eq!(
        classify("Button {\n  width: ", 1, 9),
        CompletionContext::PropertyValue("width".to_string())
    );
}

#[test]
fn pseudo_class_after_bare_selector_colon() {
    assert_eq!(classify("Button:", 0, 7), CompletionContext::PseudoClass);
}

#[test]
fn property_value_right_after_colon_inside_block() {
    assert_eq!(
        classify("Button {\n  width:", 1, 8),
        CompletionContext::PropertyValue("width".to_string())
    );
}

#[test]
fn double_colon_is_not_a_pseudo_class_cue() {
    assert_ne!(classify("Button::", 0, 8), CompletionContext::PseudoClass);
}

#[test]
fn variable_argument_inside_var() {
    assert_eq!(classify("a { color: var(", 0, 15), CompletionContext::Variable);
    assert_eq!(classify("a { color: var(--x", 0, 18), CompletionContext::Variable);
}

#[test]
fn url_argument_inside_url() {
    assert_eq!(classify("a { background-image: url(", 0, 26), CompletionContext::Url);
    assert_eq!(classify("a { background-image: resource(", 0, 31), CompletionContext::Url);
}

#[test]
fn a_paren_before_the_var_does_not_close_it() {
    // the ')' stands before the var(, so the var( is still open
    assert_eq!(classify(") var(", 0, 6), CompletionContext::Variable);
}

#[test]
fn a_nested_paren_does_not_close_the_url() {
    // the ')' closes the inner '(', not the url(
    assert_eq!(classify("x: url( (a)", 0, 11), CompletionContext::Url);
}

#[test]
fn a_closed_url_falls_through_to_later_rules() {
    // the url( is matched by its ')', so the trailing '#' decides
    assert_eq!(classify("url(a) #", 0, 8), CompletionContext::IdSelector);
}

#[test]
fn a_closed_url_lets_a_block_line_be_a_property_name() {
    assert_eq!(classify("a {\n  url(b); ", 1, 9), CompletionContext::PropertyName);
}

#[test]
fn closed_var_is_no_longer_an_argument() {
    assert_ne!(classify("a { color: var(--x) ", 0, 20), CompletionContext::Variable);
}

#[test]
fn property_name_inside_block() {
    assert_eq!(classify("Button {\n  ", 1, 2), CompletionContext::PropertyName);
    assert_eq!(classify("Button {\n  wid", 1, 5), CompletionContext::PropertyName);
    assert_eq!(classify("Button {\n  width: 1px;\n  ", 2, 2), CompletionContext::PropertyName);
}

#[test]
fn selector_outside_blocks() {
    assert_eq!(classify("Butt", 0, 4), CompletionContext::Selector);
    assert_eq!(classify("a { } Butt", 0, 10), CompletionContext::Selector);
}

#[test]
fn unknown_past_last_line() {
    assert_eq!(classify("a", 5, 0), CompletionContext::Unknown);
}

#[test]
fn classification_is_deterministic() {
    let doc = Document::new(".foo { color: red; }\n.bar {}".to_string(), 1);
    for (l, c) in [(0u32, 1u32), (0, 10), (0, 14), (1, 3)] {
        let first = get_completion_context(&doc, pos(l, c));
        let second = get_completion_context(&doc, pos(l, c));
        assert_eq!(first, second);
    }
}
