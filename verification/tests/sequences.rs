use peg2pest::ast::{
    CharClass, ClassMember, Definition, Expression, Grammar, PredicateKind, QuantifierKind,
    Sequence, Term,
};
use peg2pest::definition::{convert_definition, convert_grammar};
use peg2pest::expression::convert_expression;
use peg2pest::sequence::{convert_sequence, convert_term, next_lead, Lead};

fn reference(name: &str) -> Term {
    Term::Reference(name.to_string())
}

fn literal(text: &str) -> Term {
    Term::Literal { text: text.to_string(), case_sensitive: true }
}

fn sequence(terms: Vec<Term>) -> Sequence {
    Sequence { terms }
}

fn choice(alternatives: Vec<Sequence>) -> Expression {
    Expression { alternatives, allows_trailing_empty: false }
}

fn not() -> Term {
    Term::Predicate(PredicateKind::Not)
}

fn and() -> Term {
    Term::Predicate(PredicateKind::And)
}

#[test]
fn an_empty_sequence_is_empty() {
    assert_eq!(convert_sequence(&sequence(vec![])), "");
}

#[test]
fn the_first_term_has_no_separator() {
    assert_eq!(convert_sequence(&sequence(vec![reference("a")])), " a");
}

#[test]
fn terms_are_joined_by_a_tilde() {
    assert_eq!(
        convert_sequence(&sequence(vec![reference("a"), literal("b"), Term::Dot])),
        " a ~ \"b\" ~ ANY"
    );
}

#[test]
fn the_lead_after_each_kind_of_term() {
    for lead in [Lead::Start, Lead::AfterAnd, Lead::AfterNot, Lead::AfterTerm] {
        assert_eq!(next_lead(lead, &and()), Lead::AfterAnd);
        assert_eq!(next_lead(lead, &not()), Lead::AfterNot);
        assert_eq!(next_lead(lead, &reference("a")), Lead::AfterTerm);
        assert_eq!(next_lead(lead, &Term::Dot), Lead::AfterTerm);
        assert_eq!(next_lead(lead, &Term::Quantifier(QuantifierKind::Star)), Lead::AfterTerm);
    }
}

#[test]
fn an_action_at_the_start_leaves_the_start() {
    assert_eq!(next_lead(Lead::Start, &Term::Action), Lead::Start);
    assert_eq!(next_lead(Lead::AfterTerm, &Term::Action), Lead::AfterTerm);
    assert_eq!(next_lead(Lead::AfterAnd, &Term::Action), Lead::AfterTerm);
    assert_eq!(next_lead(Lead::AfterNot, &Term::Action), Lead::AfterTerm);
}

#[test]
fn a_leading_action_leaves_no_operator_behind() {
    assert_eq!(convert_sequence(&sequence(vec![Term::Action, reference("a")])), " a");
    assert_eq!(
        convert_sequence(&sequence(vec![Term::Action, Term::Action, reference("a"), reference("b")])),
        " a ~ b"
    );
    assert_eq!(convert_sequence(&sequence(vec![Term::Action, Term::Action])), "");
}

#[test]
fn a_sequence_is_the_same_without_its_actions() {
    let with = sequence(vec![
        Term::Action,
        reference("a"),
        Term::Action,
        Term::Quantifier(QuantifierKind::Plus),
        Term::Action,
        not(),
        Term::Dot,
        Term::Action,
    ]);
    let without = sequence(vec![
        reference("a"),
        Term::Quantifier(QuantifierKind::Plus),
        not(),
        Term::Dot,
    ]);
    assert_eq!(convert_sequence(&with), convert_sequence(&without));
    assert_eq!(convert_sequence(&with), " a+ ~ EOI");
}

#[test]
fn an_action_after_a_predicate_takes_the_operator() {
    assert_eq!(convert_sequence(&sequence(vec![and(), Term::Action, reference("a")])), " & ~ a");
    assert_eq!(convert_sequence(&sequence(vec![not(), Term::Action, reference("a")])), " ! ~ a");
}

#[test]
fn a_reference_after_each_lead() {
    assert_eq!(convert_term(Lead::Start, &reference("a")), " a");
    assert_eq!(convert_term(Lead::AfterAnd, &reference("a")), " a");
    assert_eq!(convert_term(Lead::AfterNot, &reference("a")), " ! a");
    assert_eq!(convert_term(Lead::AfterTerm, &reference("a")), " ~ a");
}

#[test]
fn the_wildcard_after_each_lead() {
    assert_eq!(convert_term(Lead::Start, &Term::Dot), " ANY");
    assert_eq!(convert_term(Lead::AfterAnd, &Term::Dot), " ANY");
    assert_eq!(convert_term(Lead::AfterNot, &Term::Dot), " EOI");
    assert_eq!(convert_term(Lead::AfterTerm, &Term::Dot), " ~ ANY");
}

#[test]
fn a_quantifier_has_no_separator() {
    assert_eq!(convert_term(Lead::AfterTerm, &Term::Quantifier(QuantifierKind::Star)), "*");
    assert_eq!(convert_term(Lead::AfterTerm, &Term::Quantifier(QuantifierKind::Plus)), "+");
    assert_eq!(convert_term(Lead::AfterTerm, &Term::Quantifier(QuantifierKind::Question)), "?");
}

#[test]
fn an_action_has_no_text_and_no_separator() {
    assert_eq!(convert_term(Lead::AfterTerm, &Term::Action), "");
    assert_eq!(convert_term(Lead::Start, &Term::Action), "");
    assert_eq!(
        convert_sequence(&sequence(vec![reference("a"), Term::Action, reference("b")])),
        " a ~ b"
    );
    assert_eq!(convert_sequence(&sequence(vec![reference("a"), Term::Action])), " a");
}

#[test]
fn the_predicates() {
    assert_eq!(convert_term(Lead::Start, &and()), " &");
    assert_eq!(convert_term(Lead::AfterTerm, &and()), " ~ &");
    assert_eq!(convert_term(Lead::Start, &not()), "");
    assert_eq!(convert_term(Lead::AfterTerm, &not()), " ~");
    assert_eq!(convert_term(Lead::AfterNot, &not()), "");
    assert_eq!(convert_term(Lead::AfterNot, &and()), " ! &");
}

#[test]
fn not_then_the_wildcard_is_the_end_of_input() {
    assert_eq!(convert_sequence(&sequence(vec![not(), Term::Dot])), " EOI");
    assert_eq!(
        convert_sequence(&sequence(vec![reference("a"), not(), Term::Dot])),
        " a ~ EOI"
    );
}

#[test]
fn not_then_another_term_is_a_negative_lookahead() {
    assert_eq!(
        convert_sequence(&sequence(vec![not(), literal("x"), Term::Dot])),
        " ! \"x\" ~ ANY"
    );
}

#[test]
fn the_wildcard_after_and_is_any() {
    assert_eq!(convert_sequence(&sequence(vec![and(), Term::Dot])), " & ANY");
}

#[test]
fn a_class_is_put_in_parentheses() {
    let class = CharClass {
        negated: false,
        members: vec![ClassMember::Range("a-z".to_string()), ClassMember::Range("_".to_string())],
    };
    assert_eq!(
        convert_sequence(&sequence(vec![reference("x"), Term::CharClass(class)])),
        " x ~ ('a'..'z' | \"_\")"
    );
}

#[test]
fn a_negated_class_in_a_sequence() {
    let class = CharClass { negated: true, members: vec![ClassMember::Range("\"".to_string())] };
    assert_eq!(
        convert_sequence(&sequence(vec![Term::CharClass(class), Term::Quantifier(QuantifierKind::Star)])),
        " (!( \"\\\"\" ) ~ ANY)*"
    );
}

#[test]
fn a_group_is_put_in_spaced_parentheses() {
    let inner = choice(vec![sequence(vec![reference("a")]), sequence(vec![reference("b")])]);
    assert_eq!(
        convert_sequence(&sequence(vec![reference("x"), Term::Group(inner), reference("y")])),
        " x ~ ( a | b ) ~ y"
    );
}

#[test]
fn a_capture_is_its_expression_alone() {
    let inner = choice(vec![sequence(vec![reference("a"), reference("b")])]);
    assert_eq!(
        convert_sequence(&sequence(vec![reference("x"), Term::Capture(inner)])),
        " x ~ a ~ b"
    );
}

#[test]
fn an_unsupported_term_is_a_placeholder() {
    assert_eq!(
        convert_sequence(&sequence(vec![
            reference("a"),
            Term::Unsupported("Oddity".to_string()),
            reference("b")
        ])),
        " a ~ RULE(Oddity) ~ b"
    );
}

#[test]
fn a_literal_in_a_sequence() {
    let insensitive = Term::Literal { text: "or".to_string(), case_sensitive: false };
    assert_eq!(
        convert_sequence(&sequence(vec![literal("a\"b"), insensitive])),
        " \"a\\\"b\" ~ ^\"or\""
    );
}

#[test]
fn an_expression_of_one_alternative() {
    assert_eq!(convert_expression(&choice(vec![sequence(vec![reference("a")])])), " a");
}

#[test]
fn an_expression_joins_its_alternatives() {
    let expression = choice(vec![
        sequence(vec![reference("a")]),
        sequence(vec![reference("b"), reference("c")]),
        sequence(vec![literal("d")]),
    ]);
    assert_eq!(convert_expression(&expression), " a | b ~ c | \"d\"");
}

#[test]
fn a_trailing_empty_alternative_wraps_the_expression() {
    let expression = Expression {
        alternatives: vec![sequence(vec![reference("a")]), sequence(vec![reference("b")])],
        allows_trailing_empty: true,
    };
    assert_eq!(convert_expression(&expression), " ( a | b )?");
}

#[test]
fn an_empty_alternative_wraps_the_expression() {
    let expression = choice(vec![sequence(vec![reference("a")]), sequence(vec![])]);
    assert_eq!(convert_expression(&expression), " ( a )?");
}

#[test]
fn an_empty_first_alternative_leaves_no_leading_bar() {
    let expression = choice(vec![sequence(vec![]), sequence(vec![reference("a")])]);
    assert_eq!(convert_expression(&expression), " ( a )?");
}

#[test]
fn many_empty_alternatives_wrap_once() {
    let expression = Expression {
        alternatives: vec![
            sequence(vec![Term::Action]),
            sequence(vec![reference("a")]),
            sequence(vec![]),
            sequence(vec![reference("b")]),
            sequence(vec![Term::Action, Term::Action]),
        ],
        allows_trailing_empty: true,
    };
    assert_eq!(convert_expression(&expression), " ( a | b )?");
}

#[test]
fn only_empty_alternatives() {
    let expression = choice(vec![sequence(vec![]), sequence(vec![])]);
    assert_eq!(convert_expression(&expression), " ( )?");
}

#[test]
fn an_expression_without_alternatives() {
    assert_eq!(convert_expression(&choice(vec![])), "");
}

#[test]
fn an_optional_group_inside_an_optional_expression() {
    let inner = Expression {
        alternatives: vec![sequence(vec![reference("a")])],
        allows_trailing_empty: true,
    };
    let outer = Expression {
        alternatives: vec![sequence(vec![Term::Group(inner)])],
        allows_trailing_empty: true,
    };
    assert_eq!(convert_expression(&outer), " ( ( ( a )? ) )?");
}

#[test]
fn a_definition_is_one_rule() {
    let definition = Definition {
        name: "foo".to_string(),
        body: choice(vec![sequence(vec![literal("a"), literal("b")])]),
    };
    assert_eq!(convert_definition(&definition), "foo = ${ \"a\" ~ \"b\" }");
}

#[test]
fn a_grammar_gives_its_definitions_in_order() {
    let grammar = Grammar {
        definitions: vec![
            Definition { name: "z".to_string(), body: choice(vec![sequence(vec![reference("a")])]) },
            Definition { name: "a".to_string(), body: choice(vec![sequence(vec![Term::Dot])]) },
        ],
    };
    assert_eq!(convert_grammar(&grammar), vec!["z = ${ a }", "a = ${ ANY }"]);
}

#[test]
fn an_empty_grammar_gives_no_line() {
    let grammar = Grammar { definitions: vec![] };
    assert!(convert_grammar(&grammar).is_empty());
}
