use peg2pest::literal::{append_escaped, convert_identifier_name, convert_literal};
use peg2pest::text::{to_ascii_lower, to_ascii_upper};

#[test]
fn a_single_quoted_literal() {
    assert_eq!(convert_literal("abc", true), " \"abc\"");
}

#[test]
fn a_double_quoted_literal() {
    assert_eq!(convert_literal("abc", false), " ^\"abc\"");
}

#[test]
fn an_empty_literal() {
    assert_eq!(convert_literal("", true), " \"\"");
}

#[test]
fn each_quote_gets_a_backslash_and_nothing_else_changes() {
    assert_eq!(convert_literal("a\"b\"\\n'c", true), " \"a\\\"b\\\"\\n'c\"");
}

#[test]
fn escaping_appends_to_what_is_there() {
    let mut out = String::from("x=");
    append_escaped(&mut out, "\"é\"");
    assert_eq!(out, "x=\\\"é\\\"");
}

#[test]
fn escaping_a_text_without_quotes_changes_nothing() {
    let mut out = String::new();
    append_escaped(&mut out, "plain text \\ 'single'");
    assert_eq!(out, "plain text \\ 'single'");
}

#[test]
fn a_reference_is_a_blank_and_the_name() {
    assert_eq!(convert_identifier_name("Rule_1"), " Rule_1");
}

#[test]
fn ascii_letters_change_case_and_nothing_else_does() {
    assert_eq!(to_ascii_lower('Q'), 'q');
    assert_eq!(to_ascii_lower('q'), 'q');
    assert_eq!(to_ascii_lower('7'), '7');
    assert_eq!(to_ascii_lower('É'), 'É');
    assert_eq!(to_ascii_upper('q'), 'Q');
    assert_eq!(to_ascii_upper('Q'), 'Q');
    assert_eq!(to_ascii_upper('['), '[');
    assert_eq!(to_ascii_upper('é'), 'é');
    assert_eq!(to_ascii_lower('A'), 'a');
    assert_eq!(to_ascii_lower('Z'), 'z');
    assert_eq!(to_ascii_upper('a'), 'A');
    assert_eq!(to_ascii_upper('z'), 'Z');
    assert_eq!(to_ascii_lower('@'), '@');
    assert_eq!(to_ascii_upper('{'), '{');
}
