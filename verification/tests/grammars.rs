use peg2pest::convert::convert_source;

fn lines(text: &str) -> Vec<String> {
    convert_source("grammar.peg", text)
}

#[test]
fn two_literals_in_a_row() {
    assert_eq!(lines("foo <- 'a' 'b'"), vec!["foo = ${ \"a\" ~ \"b\" }"]);
}

#[test]
fn a_class_of_one_range() {
    assert_eq!(lines("bar <- [a-z]"), vec!["bar = ${ ('a'..'z') }"]);
}

#[test]
fn not_any_is_the_end_of_input() {
    assert_eq!(lines("baz <- !."), vec!["baz = ${ EOI }"]);
}

#[test]
fn a_bare_trailing_slash_makes_the_expression_optional() {
    assert_eq!(lines("qux <- 'x' /"), vec!["qux = ${ ( \"x\" )? }"]);
}

#[test]
fn a_syntax_error_gives_one_diagnostic_line() {
    let out = lines("foo <- 'a'\nbar <- (");
    assert_eq!(out.len(), 1);
    assert_eq!(
        out[0],
        "grammar.peg: Error: expected a rule `name <- expression` at character 11"
    );
}

#[test]
fn an_empty_text_is_no_grammar() {
    assert_eq!(
        lines(""),
        vec!["grammar.peg: Error: expected a rule `name <- expression` at character 0"]
    );
}

#[test]
fn one_line_for_each_definition_in_order() {
    let text = "# a small grammar\nfirst <- second third\nsecond <- 'x' # the letter\nthird <- [0-9]+\n";
    assert_eq!(
        lines(text),
        vec![
            "first = ${ second ~ third }",
            "second = ${ \"x\" }",
            "third = ${ ('0'..'9')+ }",
        ]
    );
}

#[test]
fn every_line_starts_with_the_name_of_its_definition() {
    let text = "alpha <- beta\nbeta <- gamma / 'g'\ngamma <- .";
    let out = lines(text);
    let names = ["alpha", "beta", "gamma"];
    assert_eq!(out.len(), names.len());
    for (line, name) in out.iter().zip(names.iter()) {
        assert!(line.starts_with(&format!("{} = ${{", name)));
    }
}

#[test]
fn a_reference_to_an_undefined_rule_passes_through() {
    assert_eq!(lines("a <- nowhere"), vec!["a = ${ nowhere }"]);
}

#[test]
fn definitions_are_neither_merged_nor_reordered() {
    assert_eq!(
        lines("b <- 'x'\na <- 'y'\nb <- 'z'"),
        vec!["b = ${ \"x\" }", "a = ${ \"y\" }", "b = ${ \"z\" }"]
    );
}

#[test]
fn a_double_quoted_literal_is_case_insensitive() {
    assert_eq!(lines("a <- \"select\""), vec!["a = ${ ^\"select\" }"]);
}

#[test]
fn a_quote_inside_a_literal_is_escaped() {
    assert_eq!(lines("a <- 'say \"hi\"'"), vec!["a = ${ \"say \\\"hi\\\"\" }"]);
}

#[test]
fn a_negated_class_is_a_lookahead_and_any() {
    assert_eq!(lines("a <- [^a-z]"), vec!["a = ${ (!( 'a'..'z' ) ~ ANY) }"]);
}

#[test]
fn class_members_are_alternatives() {
    assert_eq!(lines("a <- [a-z0-9_]"), vec!["a = ${ ('a'..'z' | '0'..'9' | \"_\") }"]);
}

#[test]
fn a_double_range_of_letters_is_two_ranges() {
    assert_eq!(lines("a <- [[a-f]]"), vec!["a = ${ ('a'..'f' | 'A'..'F') }"]);
}

#[test]
fn a_double_range_of_digits_is_one_range() {
    assert_eq!(lines("a <- [[0-9]]"), vec!["a = ${ ('0'..'9') }"]);
}

#[test]
fn alternatives_are_joined_by_a_bar() {
    assert_eq!(lines("a <- b / c d / e"), vec!["a = ${ b | c ~ d | e }"]);
}

#[test]
fn predicates_and_quantifiers_attach() {
    assert_eq!(lines("a <- &b !c d* e+ f?"), vec!["a = ${ & b ~ ! c ~ d* ~ e+ ~ f? }"]);
}

#[test]
fn a_group_keeps_its_parentheses() {
    assert_eq!(lines("a <- (b / c) d"), vec!["a = ${ ( b | c ) ~ d }"]);
}

#[test]
fn a_negated_group() {
    assert_eq!(lines("a <- !(b c) d"), vec!["a = ${ ! ( b ~ c ) ~ d }"]);
}

#[test]
fn an_action_is_dropped() {
    assert_eq!(lines("a <- b { p.Add(text) } c"), vec!["a = ${ b ~ c }"]);
}

#[test]
fn an_alternative_of_an_action_alone_is_an_empty_alternative() {
    assert_eq!(lines("a <- b / { nothing() }"), vec!["a = ${ ( b )? }"]);
}

#[test]
fn several_empty_alternatives_give_one_optional_group() {
    assert_eq!(lines("a <- { x } / b / { y } / c /"), vec!["a = ${ ( b | c )? }"]);
}

#[test]
fn a_leading_action_is_dropped_without_a_trace() {
    assert_eq!(lines("a <- { start() } b c"), vec!["a = ${ b ~ c }"]);
}

#[test]
fn a_capture_is_its_expression() {
    assert_eq!(lines("a <- < [0-9]+ > b"), vec!["a = ${ ('0'..'9')+ ~ b }"]);
}

#[test]
fn the_wildcard_is_any() {
    assert_eq!(lines("a <- . b"), vec!["a = ${ ANY ~ b }"]);
}

#[test]
fn end_of_input_after_a_term() {
    assert_eq!(lines("a <- b !."), vec!["a = ${ b ~ EOI }"]);
}
