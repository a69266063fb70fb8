use peg2pest::ast::{
    CharClass, ClassMember, Definition, Expression, Grammar, PredicateKind, QuantifierKind,
    Sequence, Term,
};
use peg2pest::parser::{MyParser, ParseError};

fn reference(name: &str) -> Term {
    Term::Reference(name.to_string())
}

fn one_rule(name: &str, alternatives: Vec<Vec<Term>>, allows_trailing_empty: bool) -> Grammar {
    Grammar {
        definitions: vec![Definition {
            name: name.to_string(),
            body: Expression {
                alternatives: alternatives.into_iter().map(|terms| Sequence { terms }).collect(),
                allows_trailing_empty,
            },
        }],
    }
}

#[test]
fn a_rule_of_references() {
    assert_eq!(
        MyParser::parse("a <- b c_1 _d"),
        Ok(one_rule("a", vec![vec![reference("b"), reference("c_1"), reference("_d")]], false))
    );
}

#[test]
fn blanks_and_comments_are_skipped() {
    assert_eq!(
        MyParser::parse("  # heading\n\t a<-b# note\r\n  c   # end"),
        Ok(one_rule("a", vec![vec![reference("b"), reference("c")]], false))
    );
}

#[test]
fn alternatives_and_the_trailing_slash() {
    assert_eq!(
        MyParser::parse("a <- b / c /"),
        Ok(one_rule("a", vec![vec![reference("b")], vec![reference("c")]], true))
    );
    assert_eq!(
        MyParser::parse("a <- b / c"),
        Ok(one_rule("a", vec![vec![reference("b")], vec![reference("c")]], false))
    );
}

#[test]
fn predicates_and_quantifiers_are_terms_of_their_own() {
    assert_eq!(
        MyParser::parse("a <- &b* !c + d?"),
        Ok(one_rule(
            "a",
            vec![vec![
                Term::Predicate(PredicateKind::And),
                reference("b"),
                Term::Quantifier(QuantifierKind::Star),
                Term::Predicate(PredicateKind::Not),
                reference("c"),
                Term::Quantifier(QuantifierKind::Plus),
                reference("d"),
                Term::Quantifier(QuantifierKind::Question),
            ]],
            false
        ))
    );
}

#[test]
fn literals_keep_their_text_as_written() {
    assert_eq!(
        MyParser::parse("a <- 'it\\'s' \"say \\\"x\\\"\" ''"),
        Ok(one_rule(
            "a",
            vec![vec![
                Term::Literal { text: "it\\'s".to_string(), case_sensitive: true },
                Term::Literal { text: "say \\\"x\\\"".to_string(), case_sensitive: false },
                Term::Literal { text: "".to_string(), case_sensitive: true },
            ]],
            false
        ))
    );
}

#[test]
fn a_class_and_its_members() {
    let class = CharClass {
        negated: false,
        members: vec![
            ClassMember::Range("a-z".to_string()),
            ClassMember::Range("_".to_string()),
            ClassMember::Range("\\]".to_string()),
            ClassMember::Range("\\n-\\r".to_string()),
            ClassMember::Range("-".to_string()),
        ],
    };
    assert_eq!(
        MyParser::parse("a <- [a-z_\\]\\n-\\r-]"),
        Ok(one_rule("a", vec![vec![Term::CharClass(class)]], false))
    );
}

#[test]
fn a_negated_class() {
    let class = CharClass { negated: true, members: vec![ClassMember::Range("\"".to_string())] };
    assert_eq!(
        MyParser::parse("a <- [^\"]"),
        Ok(one_rule("a", vec![vec![Term::CharClass(class)]], false))
    );
}

#[test]
fn a_caret_alone_is_a_member() {
    let class = CharClass { negated: false, members: vec![ClassMember::Range("^".to_string())] };
    assert_eq!(
        MyParser::parse("a <- [^]"),
        Ok(one_rule("a", vec![vec![Term::CharClass(class)]], false))
    );
}

#[test]
fn an_empty_class_has_no_member() {
    let class = CharClass { negated: false, members: vec![] };
    assert_eq!(
        MyParser::parse("a <- []"),
        Ok(one_rule("a", vec![vec![Term::CharClass(class)]], false))
    );
}

#[test]
fn a_double_class() {
    let class = CharClass {
        negated: true,
        members: vec![
            ClassMember::DoubleRange("a-f".to_string()),
            ClassMember::DoubleRange("x".to_string()),
        ],
    };
    assert_eq!(
        MyParser::parse("a <- [[^a-fx]]"),
        Ok(one_rule("a", vec![vec![Term::CharClass(class)]], false))
    );
}

#[test]
fn a_double_bracket_that_does_not_close_twice_is_a_member() {
    let class = CharClass { negated: false, members: vec![ClassMember::Range("[".to_string()), ClassMember::Range("a".to_string())] };
    assert_eq!(
        MyParser::parse("a <- [[a]"),
        Ok(one_rule("a", vec![vec![Term::CharClass(class)]], false))
    );
}

#[test]
fn groups_captures_actions_and_the_wildcard() {
    let inner = Expression {
        alternatives: vec![
            Sequence { terms: vec![reference("b")] },
            Sequence { terms: vec![Term::Dot] },
        ],
        allows_trailing_empty: false,
    };
    let captured = Expression {
        alternatives: vec![Sequence { terms: vec![reference("c")] }],
        allows_trailing_empty: true,
    };
    assert_eq!(
        MyParser::parse("a <- ( b / . ) { x { y } z } < c / >"),
        Ok(one_rule(
            "a",
            vec![vec![Term::Group(inner), Term::Action, Term::Capture(captured)]],
            false
        ))
    );
}

#[test]
fn a_name_before_an_arrow_starts_the_next_rule() {
    let grammar = MyParser::parse("a <- b\nc <- d e\n").unwrap();
    assert_eq!(grammar.definitions.len(), 2);
    assert_eq!(grammar.definitions[0].name, "a");
    assert_eq!(grammar.definitions[0].body.alternatives[0].terms, vec![reference("b")]);
    assert_eq!(grammar.definitions[1].name, "c");
    assert_eq!(
        grammar.definitions[1].body.alternatives[0].terms,
        vec![reference("d"), reference("e")]
    );
}

#[test]
fn the_offset_is_where_no_rule_could_be_read() {
    assert_eq!(MyParser::parse(""), Err(ParseError { offset: 0 }));
    assert_eq!(MyParser::parse("   # nothing\n"), Err(ParseError { offset: 13 }));
    assert_eq!(MyParser::parse("a"), Err(ParseError { offset: 0 }));
    assert_eq!(MyParser::parse("a <-"), Err(ParseError { offset: 0 }));
    assert_eq!(MyParser::parse("a <- b\nc <- 'open"), Err(ParseError { offset: 7 }));
    assert_eq!(MyParser::parse("a <- b )"), Err(ParseError { offset: 7 }));
    assert_eq!(MyParser::parse("a <- b\n\nc <- [x"), Err(ParseError { offset: 8 }));
    assert_eq!(MyParser::parse("a <- { never closed"), Err(ParseError { offset: 0 }));
    assert_eq!(MyParser::parse("é <- b"), Err(ParseError { offset: 0 }));
    assert_eq!(MyParser::parse("a <- 'é' ? ]"), Err(ParseError { offset: 11 }));
}

#[test]
fn the_message_names_the_offset() {
    assert_eq!(
        ParseError { offset: 0 }.message(),
        "expected a rule `name <- expression` at character 0"
    );
    assert_eq!(
        ParseError { offset: 7 }.message(),
        "expected a rule `name <- expression` at character 7"
    );
    assert_eq!(
        ParseError { offset: 1234567890 }.message(),
        "expected a rule `name <- expression` at character 1234567890"
    );
}

#[test]
fn a_trailing_slash_before_the_next_rule() {
    let grammar = MyParser::parse("a <- b /\nc <- d").unwrap();
    assert_eq!(grammar.definitions.len(), 2);
    assert!(grammar.definitions[0].body.allows_trailing_empty);
    assert_eq!(grammar.definitions[0].body.alternatives.len(), 1);
    assert!(!grammar.definitions[1].body.allows_trailing_empty);
}

#[test]
fn no_blanks_are_needed() {
    assert_eq!(
        MyParser::parse("a<-b/c!d*"),
        Ok(one_rule(
            "a",
            vec![
                vec![reference("b")],
                vec![
                    reference("c"),
                    Term::Predicate(PredicateKind::Not),
                    reference("d"),
                    Term::Quantifier(QuantifierKind::Star),
                ],
            ],
            false
        ))
    );
}

#[test]
fn a_comment_inside_an_expression() {
    assert_eq!(
        MyParser::parse("a <- b # first\n   / c # second\n"),
        Ok(one_rule("a", vec![vec![reference("b")], vec![reference("c")]], false))
    );
}

#[test]
fn a_hash_inside_a_literal_or_class_is_no_comment() {
    let class = CharClass { negated: false, members: vec![ClassMember::Range("#".to_string())] };
    assert_eq!(
        MyParser::parse("a <- '#' [#] b"),
        Ok(one_rule(
            "a",
            vec![vec![
                Term::Literal { text: "#".to_string(), case_sensitive: true },
                Term::CharClass(class),
                reference("b"),
            ]],
            false
        ))
    );
}

#[test]
fn a_span_takes_the_bracket_along() {
    assert_eq!(MyParser::parse("a <- [a-]"), Err(ParseError { offset: 0 }));
    let class = CharClass { negated: false, members: vec![ClassMember::Range("a-]".to_string())] };
    assert_eq!(
        MyParser::parse("a <- [a-]]"),
        Ok(one_rule("a", vec![vec![Term::CharClass(class)]], false))
    );
}

#[test]
fn a_text_that_does_not_end_after_its_rules_is_no_grammar() {
    assert_eq!(MyParser::parse("a <- b &"), Err(ParseError { offset: 7 }));
    assert_eq!(MyParser::parse("a <- b\n<- c"), Err(ParseError { offset: 0 }));
    assert_eq!(MyParser::parse("a <- b\n= c"), Err(ParseError { offset: 7 }));
    assert_eq!(MyParser::parse("a <- (b"), Err(ParseError { offset: 0 }));
    assert_eq!(MyParser::parse("a <- b }"), Err(ParseError { offset: 7 }));
}

#[test]
fn every_parsed_expression_has_an_alternative_with_a_term() {
    let grammar = MyParser::parse("a <- (b / (c d)*) / { x }\ne <- [^f] /").unwrap();
    fn visit(expression: &Expression) {
        assert!(!expression.alternatives.is_empty());
        for sequence in &expression.alternatives {
            assert!(!sequence.terms.is_empty());
            for term in &sequence.terms {
                match term {
                    Term::Group(inner) | Term::Capture(inner) => visit(inner),
                    Term::CharClass(class) => {
                        assert!(class.members.iter().all(|member| *member != ClassMember::Negate))
                    }
                    _ => {}
                }
            }
        }
    }
    for definition in &grammar.definitions {
        visit(&definition.body);
    }
}
