//! The parser: from the text of a grammar to its tree.
//!
//! Every function here computes the function of the same purpose in
//! [`crate::syntax`], which says what the notation is.

use vstd::prelude::*;
use crate::ast::definitions_view;
use crate::ast::grammar_well_formed;
use crate::ast::members_view;
use crate::ast::sequences_view;
use crate::ast::terms_view;
use crate::ast::CharClass;
use crate::ast::ClassMemberView;
use crate::ast::ClassMember;
use crate::ast::Definition;
use crate::ast::DefinitionView;
use crate::ast::Expression;
use crate::ast::Grammar;
use crate::ast::PredicateKind;
use crate::ast::QuantifierKind;
use crate::ast::Sequence;
use crate::ast::Term;
use crate::ast::TermView;
use crate::syntax::action_end;
use crate::syntax::at_arrow;
use crate::syntax::at_class_end;
use crate::syntax::char_len;
use crate::syntax::identifier_end;
use crate::syntax::is_identifier_part;
use crate::syntax::lemma_parsed_grammar_is_well_formed;
use crate::syntax::line_end;
use crate::syntax::member_len;
use crate::syntax::parse_alternatives;
use crate::syntax::parse_class;
use crate::syntax::parse_class_body;
use crate::syntax::parse_definition;
use crate::syntax::parse_definitions;
use crate::syntax::parse_expression;
use crate::syntax::parse_grammar;
use crate::syntax::parse_identifier;
use crate::syntax::parse_literal;
use crate::syntax::parse_members;
use crate::syntax::parse_predicate;
use crate::syntax::parse_prefix;
use crate::syntax::parse_primary;
use crate::syntax::parse_quantifier;
use crate::syntax::parse_sequence;
use crate::syntax::parse_terms;
use crate::syntax::prefix_terms;
use crate::syntax::quoted_end;
use crate::syntax::skip_spacing;
use crate::text::is_ascii_letter;

verus! {

/// Why a text is no grammar: at `offset`, counted in characters, neither a
/// definition nor the end of the text stands.
#[derive(Clone, Copy, Debug, PartialEq, Eq)]
pub struct ParseError {
    pub offset: usize,
}

/// The parser of the source notation.
pub struct MyParser;

/// The characters of `text`, in order.
fn chars_of(text: &str) -> (chars: Vec<char>)
    ensures
        chars@ == text@,
{
    broadcast use vstd::string::group_string_axioms;

    let mut chars: Vec<char> = Vec::new();
    for c in it: text.chars()
        invariant
            it.seq() == text@,
            chars@ == text@.take(it.index() as int),
    {
        assert(text@.take(it.index() + 1) =~= text@.take(it.index() as int).push(c));
        chars.push(c);
    }
    assert(text@.take(text@.len() as int) =~= text@);
    chars
}

/// The characters of `input` from `from` up to `to`, as a string.
fn text_between(input: &Vec<char>, from: usize, to: usize) -> (out: String)
    requires
        from <= to <= input.len(),
    ensures
        out@ == input@.subrange(from as int, to as int),
{
    let mut out = String::new();
    let mut k = from;
    assert(input@.subrange(from as int, from as int) =~= Seq::<char>::empty());
    while k < to
        invariant
            from <= k <= to <= input.len(),
            out@ == input@.subrange(from as int, k as int),
        decreases to - k,
    {
        assert(input@.subrange(from as int, k + 1) =~= input@.subrange(from as int, k as int).push(
            input@[k as int],
        ));
        out.push(input[k]);
        k += 1;
    }
    out
}

/// Computes [`skip_spacing`].
fn skip_blanks(input: &Vec<char>, i: usize) -> (end: usize)
    requires
        i <= input.len(),
    ensures
        end == skip_spacing(input@, i as int),
        i <= end <= input.len(),
{
    let mut j = i;
    let mut in_comment = false;
    loop
        invariant_except_break
            !in_comment ==> skip_spacing(input@, j as int) == skip_spacing(input@, i as int),
            in_comment ==> skip_spacing(input@, line_end(input@, j as int)) == skip_spacing(
                input@,
                i as int,
            ),
        invariant
            i <= j <= input.len(),
        ensures
            j == skip_spacing(input@, i as int),
        decreases input.len() - j, if in_comment { 1int } else { 0int },
    {
        if j >= input.len() {
            break ;
        }
        let c = input[j];
        if in_comment {
            if c == '\n' || c == '\r' {
                in_comment = false;
            } else {
                j += 1;
            }
        } else if c == ' ' || c == '\t' || c == '\n' || c == '\r' {
            j += 1;
        } else if c == '#' {
            in_comment = true;
            j += 1;
        } else {
            break ;
        }
    }
    j
}

/// The name at `i`, and the position after it.
fn read_identifier(input: &Vec<char>, i: usize) -> (found: Option<(String, usize)>)
    requires
        i <= input.len(),
    ensures
        match found {
            Some((name, end)) => parse_identifier(input@, i as int) == Some((name@, end as int))
                && i < end <= input.len(),
            None => parse_identifier(input@, i as int) is None,
        },
{
    if i >= input.len() {
        return None;
    }
    let first = input[i];
    if !(is_letter(first) || first == '_') {
        return None;
    }
    let mut j = i + 1;
    while j < input.len() && is_name_part(input[j])
        invariant
            i < j <= input.len(),
            identifier_end(input@, j as int) == identifier_end(input@, i + 1),
        decreases input.len() - j,
    {
        j += 1;
    }
    let name = text_between(input, i, j);
    let end = skip_blanks(input, j);
    Some((name, end))
}

/// Whether `c` is an ASCII letter.
fn is_letter(c: char) -> (yes: bool)
    ensures
        yes == is_ascii_letter(c),
{
    ('a' <= c && c <= 'z') || ('A' <= c && c <= 'Z')
}

/// Whether a name can go on with `c`.
fn is_name_part(c: char) -> (yes: bool)
    ensures
        yes == is_identifier_part(c),
{
    is_letter(c) || c == '_' || ('0' <= c && c <= '9')
}

/// Whether the arrow `<-` stands at `i`.
fn arrow_at(input: &Vec<char>, i: usize) -> (yes: bool)
    requires
        i <= input.len(),
    ensures
        yes == at_arrow(input@, i as int),
{
    i < input.len() && input.len() - i >= 2 && input[i] == '<' && input[i + 1] == '-'
}

/// The literal at `i`.
fn read_literal(input: &Vec<char>, i: usize) -> (found: Option<(Term, usize)>)
    requires
        i < input.len(),
    ensures
        match found {
            Some((term, end)) => parse_literal(input@, i as int) == Some((term@, end as int)) && i
                < end <= input.len(),
            None => parse_literal(input@, i as int) is None,
        },
{
    let quote = input[i];
    if !(quote == '\'' || quote == '"') {
        return None;
    }
    let mut j = i + 1;
    loop
        invariant
            i < j <= input.len(),
            i < input.len(),
            quote == input@[i as int],
            quote == '\'' || quote == '"',
            quoted_end(input@, j as int, quote) == quoted_end(input@, i + 1, quote),
        ensures
            i < j < input.len(),
            quoted_end(input@, i + 1, quote) == Some(j as int),
        decreases input.len() - j,
    {
        if j >= input.len() {
            assert(quoted_end(input@, j as int, quote) is None);
            return None;
        }
        let c = input[j];
        if c == quote {
            break ;
        } else if c == '\\' {
            if input.len() - j < 2 {
                assert(quoted_end(input@, j as int, quote) is None);
                return None;
            }
            j += 2;
        } else {
            j += 1;
        }
    }
    let text = text_between(input, i + 1, j);
    let end = skip_blanks(input, j + 1);
    Some((Term::Literal { text, case_sensitive: quote == '\'' }, end))
}

/// Computes [`char_len`].
fn char_len_at(input: &Vec<char>, i: usize) -> (len: usize)
    ensures
        len == char_len(input@, i as int),
        i + len <= input.len() || len == 0,
{
    if i >= input.len() {
        0
    } else if input[i] == '\\' {
        if input.len() - i >= 2 {
            2
        } else {
            0
        }
    } else {
        1
    }
}

/// Computes [`member_len`].
fn member_len_at(input: &Vec<char>, i: usize) -> (len: usize)
    ensures
        len == member_len(input@, i as int),
        len == 0 || (i < input.len() && i + len <= input.len()),
{
    let first = char_len_at(input, i);
    if first == 0 {
        return 0;
    }
    let hyphen = i + first;
    if hyphen < input.len() && input[hyphen] == '-' {
        let second = char_len_at(input, hyphen + 1);
        if second > 0 {
            return first + 1 + second;
        }
    }
    first
}

/// Computes [`at_class_end`].
fn class_ends_at(input: &Vec<char>, i: usize, double: bool) -> (yes: bool)
    ensures
        yes == at_class_end(input@, i as int, double),
{
    if double {
        i < input.len() && input.len() - i >= 2 && input[i] == ']' && input[i + 1] == ']'
    } else {
        i < input.len() && input[i] == ']'
    }
}

/// The members of a class from `i` on.
fn read_members(input: &Vec<char>, i: usize, double: bool) -> (found: (Vec<ClassMember>, usize))
    ensures
        parse_members(input@, i as int, double) == (members_view(found.0@), found.1 as int),
        i <= found.1,
        found.1 <= input.len() || found.1 == i,
{
    let mut members: Vec<ClassMember> = Vec::new();
    let mut j = i;
    assert(members_view(members@) =~= Seq::<ClassMemberView>::empty());
    loop
        invariant_except_break
            parse_members(input@, i as int, double) == (
                members_view(members@) + parse_members(input@, j as int, double).0,
                parse_members(input@, j as int, double).1,
            ),
        invariant
            i <= j,
            j <= input.len() || j == i,
        ensures
            parse_members(input@, i as int, double) == (members_view(members@), j as int),
        decreases input.len() - j,
    {
        let len = member_len_at(input, j);
        if j >= input.len() || class_ends_at(input, j, double) || len == 0 {
            assert(members_view(members@) + Seq::<ClassMemberView>::empty()
                =~= members_view(members@));
            break ;
        }
        let span = text_between(input, j, j + len);
        let member = if double {
            ClassMember::DoubleRange(span)
        } else {
            ClassMember::Range(span)
        };
        proof {
            let rest = parse_members(input@, j + len, double);
            assert(parse_members(input@, j as int, double) == (seq![member@] + rest.0, rest.1));
            assert(members_view(members@.push(member)) =~= members_view(members@).push(member@));
            assert(members_view(members@) + (seq![member@] + rest.0) =~= members_view(
                members@,
            ).push(member@) + rest.0);
        }
        members.push(member);
        j += len;
    }
    (members, j)
}

/// The class whose opening bracket ends just before `i`.
fn read_class_body(input: &Vec<char>, i: usize, double: bool) -> (found: Option<(CharClass, usize)>)
    requires
        i <= input.len(),
    ensures
        match found {
            Some((class, end)) => parse_class_body(input@, i as int, double) == Some(
                (class@, end as int),
            ) && i < end <= input.len(),
            None => parse_class_body(input@, i as int, double) is None,
        },
{
    let mut negated = false;
    let mut members: Vec<ClassMember> = Vec::new();
    let mut end = i;
    if i < input.len() && input[i] == '^' {
        let after_mark = read_members(input, i + 1, double);
        if after_mark.0.len() > 0 {
            negated = true;
            members = after_mark.0;
            end = after_mark.1;
        }
    }
    if !negated {
        let plain = read_members(input, i, double);
        members = plain.0;
        end = plain.1;
    }
    if !class_ends_at(input, end, double) {
        return None;
    }
    let after = skip_blanks(
        input,
        if double {
            end + 2
        } else {
            end + 1
        },
    );
    Some((CharClass { negated, members }, after))
}

/// The class at `i`.
fn read_class(input: &Vec<char>, i: usize) -> (found: Option<(Term, usize)>)
    requires
        i < input.len(),
    ensures
        match found {
            Some((term, end)) => parse_class(input@, i as int) == Some((term@, end as int)) && i
                < end <= input.len(),
            None => parse_class(input@, i as int) is None,
        },
{
    if input[i] != '[' {
        return None;
    }
    if input.len() - i >= 2 && input[i + 1] == '[' {
        match read_class_body(input, i + 2, true) {
            Some((class, end)) => {
                return Some((Term::CharClass(class), end));
            },
            None => {},
        }
    }
    match read_class_body(input, i + 1, false) {
        Some((class, end)) => Some((Term::CharClass(class), end)),
        None => None,
    }
}

/// Computes [`action_end`] for an action whose text starts at `i`.
fn read_action_end(input: &Vec<char>, i: usize) -> (found: Option<usize>)
    requires
        i <= input.len(),
    ensures
        match found {
            Some(end) => action_end(input@, i as int, 0) == Some(end as int) && i < end
                <= input.len(),
            None => action_end(input@, i as int, 0) is None,
        },
{
    let mut j = i;
    let mut depth: usize = 0;
    loop
        invariant
            i <= j <= input.len(),
            depth <= j - i,
            action_end(input@, j as int, depth as nat) == action_end(input@, i as int, 0),
        decreases input.len() - j,
    {
        if j >= input.len() {
            return None;
        }
        let c = input[j];
        if c == '{' {
            depth += 1;
        } else if c == '}' {
            if depth == 0 {
                return Some(j + 1);
            }
            depth -= 1;
        }
        j += 1;
    }
}

/// Computes [`parse_predicate`].
fn read_predicate(input: &Vec<char>, i: usize) -> (found: (Option<PredicateKind>, usize))
    requires
        i <= input.len(),
    ensures
        parse_predicate(input@, i as int) == (found.0, found.1 as int),
        i <= found.1 <= input.len(),
{
    if i < input.len() && input[i] == '&' {
        (Some(PredicateKind::And), skip_blanks(input, i + 1))
    } else if i < input.len() && input[i] == '!' {
        (Some(PredicateKind::Not), skip_blanks(input, i + 1))
    } else {
        (None, i)
    }
}

/// Computes [`parse_quantifier`].
fn read_quantifier(input: &Vec<char>, i: usize) -> (found: (Option<QuantifierKind>, usize))
    requires
        i <= input.len(),
    ensures
        parse_quantifier(input@, i as int) == (found.0, found.1 as int),
        i <= found.1 <= input.len(),
{
    if i < input.len() && input[i] == '*' {
        (Some(QuantifierKind::Star), skip_blanks(input, i + 1))
    } else if i < input.len() && input[i] == '+' {
        (Some(QuantifierKind::Plus), skip_blanks(input, i + 1))
    } else if i < input.len() && input[i] == '?' {
        (Some(QuantifierKind::Question), skip_blanks(input, i + 1))
    } else {
        (None, i)
    }
}

/// The primary at `i`.
fn read_primary(input: &Vec<char>, i: usize) -> (found: Option<(Term, usize)>)
    requires
        i <= input.len(),
    ensures
        match found {
            Some((term, end)) => parse_primary(input@, i as int) == Some((term@, end as int)) && i
                < end <= input.len(),
            None => parse_primary(input@, i as int) is None,
        },
    decreases input.len() - i, 0nat,
{
    if i >= input.len() {
        return None;
    }
    let c = input[i];
    if c == '(' || c == '<' {
        let start = skip_blanks(input, i + 1);
        match read_expression(input, start) {
            Some((inner, end)) => {
                let close = if c == '(' {
                    ')'
                } else {
                    '>'
                };
                if end < input.len() && input[end] == close {
                    let after = skip_blanks(input, end + 1);
                    if c == '(' {
                        Some((Term::Group(inner), after))
                    } else {
                        Some((Term::Capture(inner), after))
                    }
                } else {
                    None
                }
            },
            None => None,
        }
    } else if c == '.' {
        Some((Term::Dot, skip_blanks(input, i + 1)))
    } else if c == '{' {
        match read_action_end(input, i + 1) {
            Some(end) => Some((Term::Action, skip_blanks(input, end))),
            None => None,
        }
    } else if c == '[' {
        read_class(input, i)
    } else if c == '\'' || c == '"' {
        read_literal(input, i)
    } else {
        match read_identifier(input, i) {
            Some((name, end)) => {
                if arrow_at(input, end) {
                    None
                } else {
                    Some((Term::Reference(name), end))
                }
            },
            None => None,
        }
    }
}

/// The terms of the prefixes that follow one another from `i`.
fn read_terms(input: &Vec<char>, i: usize) -> (found: (Vec<Term>, usize))
    requires
        i <= input.len(),
    ensures
        parse_terms(input@, i as int) == (terms_view(found.0@), found.1 as int),
        i <= found.1 <= input.len(),
        found.0.len() > 0 ==> i < found.1,
    decreases input.len() - i, 2nat,
{
    let mut terms: Vec<Term> = Vec::new();
    let mut j = i;
    assert(terms_view(terms@) =~= Seq::<TermView>::empty());
    loop
        invariant_except_break
            parse_terms(input@, i as int) == (
                terms_view(terms@) + parse_terms(input@, j as int).0,
                parse_terms(input@, j as int).1,
            ),
        invariant
            i <= j <= input.len(),
            terms.len() > 0 ==> i < j,
        ensures
            parse_terms(input@, i as int) == (terms_view(terms@), j as int),
        decreases input.len() - j,
    {
        let (predicate, start) = read_predicate(input, j);
        let primary = read_primary(input, start);
        match primary {
            None => {
                assert(parse_prefix(input@, j as int) is None);
                assert(terms_view(terms@) + Seq::<TermView>::empty() =~= terms_view(
                    terms@,
                ));
                break ;
            },
            Some((term, end)) => {
                let (quantifier, after) = read_quantifier(input, end);
                proof {
                    let added = prefix_terms(predicate, term@, quantifier);
                    assert(parse_prefix(input@, j as int) == Some((added, after as int)));
                    let rest = parse_terms(input@, after as int);
                    assert(parse_terms(input@, j as int) == (added + rest.0, rest.1));
                    assert(terms_view(terms@) + (added + rest.0) =~= (terms_view(terms@) + added)
                        + rest.0);
                }
                let ghost before = terms@;
                match predicate {
                    Some(kind) => {
                        terms.push(Term::Predicate(kind));
                    },
                    None => {},
                }
                terms.push(term);
                match quantifier {
                    Some(kind) => {
                        terms.push(Term::Quantifier(kind));
                    },
                    None => {},
                }
                assert(terms_view(terms@) =~= terms_view(before) + prefix_terms(
                    predicate,
                    term@,
                    quantifier,
                ));
                j = after;
            },
        }
    }
    (terms, j)
}

/// The sequence at `i`.
fn read_sequence(input: &Vec<char>, i: usize) -> (found: Option<(Sequence, usize)>)
    requires
        i <= input.len(),
    ensures
        match found {
            Some((sequence, end)) => parse_sequence(input@, i as int) == Some(
                (sequence@, end as int),
            ) && i < end <= input.len(),
            None => parse_sequence(input@, i as int) is None,
        },
    decreases input.len() - i, 3nat,
{
    let (terms, end) = read_terms(input, i);
    if terms.len() > 0 {
        Some((Sequence { terms }, end))
    } else {
        None
    }
}

/// The expression at `i`.
fn read_expression(input: &Vec<char>, i: usize) -> (found: Option<(Expression, usize)>)
    requires
        i <= input.len(),
    ensures
        match found {
            Some((expression, end)) => parse_expression(input@, i as int) == Some(
                (expression@, end as int),
            ) && i < end <= input.len(),
            None => parse_expression(input@, i as int) is None,
        },
    decreases input.len() - i, 5nat,
{
    let first = read_sequence(input, i);
    let (first, first_end) = match first {
        Some(found) => found,
        None => {
            return None;
        },
    };
    let ghost first_view = first@;
    let mut alternatives: Vec<Sequence> = Vec::new();
    alternatives.push(first);
    let mut trailing = false;
    let mut j = first_end;
    assert(sequences_view(alternatives@) =~= seq![first_view]);
    loop
        invariant_except_break
            !trailing,
            seq![first_view] + parse_alternatives(input@, first_end as int).0 == sequences_view(
                alternatives@,
            ) + parse_alternatives(input@, j as int).0,
            parse_alternatives(input@, first_end as int).1 == parse_alternatives(
                input@,
                j as int,
            ).1,
            parse_alternatives(input@, first_end as int).2 == parse_alternatives(
                input@,
                j as int,
            ).2,
        invariant
            i < first_end <= j <= input.len(),
            alternatives.len() > 0,
            parse_sequence(input@, i as int) == Some((first_view, first_end as int)),
        ensures
            seq![first_view] + parse_alternatives(input@, first_end as int).0 == sequences_view(
                alternatives@,
            ),
            parse_alternatives(input@, first_end as int).1 == trailing,
            parse_alternatives(input@, first_end as int).2 == j,
        decreases input.len() - j,
    {
        if !(j < input.len() && input[j] == '/') {
            assert(sequences_view(alternatives@) + Seq::<Seq<TermView>>::empty()
                =~= sequences_view(alternatives@));
            break ;
        }
        let start = skip_blanks(input, j + 1);
        match read_sequence(input, start) {
            Some((sequence, end)) => {
                proof {
                    let rest = parse_alternatives(input@, end as int);
                    assert(parse_alternatives(input@, j as int) == (
                        seq![sequence@] + rest.0,
                        rest.1,
                        rest.2,
                    ));
                    assert(sequences_view(alternatives@.push(sequence)) =~= sequences_view(
                        alternatives@,
                    ).push(sequence@));
                    assert(sequences_view(alternatives@) + (seq![sequence@] + rest.0)
                        =~= sequences_view(alternatives@).push(sequence@) + rest.0);
                }
                alternatives.push(sequence);
                j = end;
            },
            None => {
                assert(parse_alternatives(input@, j as int) == (
                    Seq::<Seq<TermView>>::empty(),
                    true,
                    start as int,
                ));
                assert(sequences_view(alternatives@) + Seq::<Seq<TermView>>::empty()
                    =~= sequences_view(alternatives@));
                trailing = true;
                j = start;
                break ;
            },
        }
    }
    Some((Expression { alternatives, allows_trailing_empty: trailing }, j))
}

/// The definition at `i`.
fn read_definition(input: &Vec<char>, i: usize) -> (found: Option<(Definition, usize)>)
    requires
        i <= input.len(),
    ensures
        match found {
            Some((definition, end)) => parse_definition(input@, i as int) == Some(
                (definition@, end as int),
            ) && i < end <= input.len(),
            None => parse_definition(input@, i as int) is None,
        },
{
    let (name, arrow) = match read_identifier(input, i) {
        Some(found) => found,
        None => {
            return None;
        },
    };
    if !arrow_at(input, arrow) {
        return None;
    }
    let start = skip_blanks(input, arrow + 2);
    match read_expression(input, start) {
        Some((body, end)) => Some((Definition { name, body }, end)),
        None => None,
    }
}

/// The definitions that follow one another from `i`.
fn read_definitions(input: &Vec<char>, i: usize) -> (found: (Vec<Definition>, usize))
    requires
        i <= input.len(),
    ensures
        parse_definitions(input@, i as int) == (definitions_view(found.0@), found.1 as int),
        i <= found.1 <= input.len(),
{
    let mut definitions: Vec<Definition> = Vec::new();
    let mut j = i;
    assert(definitions_view(definitions@) =~= Seq::<DefinitionView>::empty());
    loop
        invariant_except_break
            parse_definitions(input@, i as int) == (
                definitions_view(definitions@) + parse_definitions(input@, j as int).0,
                parse_definitions(input@, j as int).1,
            ),
        invariant
            i <= j <= input.len(),
        ensures
            parse_definitions(input@, i as int) == (definitions_view(definitions@), j as int),
        decreases input.len() - j,
    {
        match read_definition(input, j) {
            Some((definition, end)) => {
                proof {
                    let rest = parse_definitions(input@, end as int);
                    assert(parse_definitions(input@, j as int) == (
                        seq![definition@] + rest.0,
                        rest.1,
                    ));
                    assert(definitions_view(definitions@.push(definition)) =~= definitions_view(
                        definitions@,
                    ).push(definition@));
                    assert(definitions_view(definitions@) + (seq![definition@] + rest.0)
                        =~= definitions_view(definitions@).push(definition@) + rest.0);
                }
                definitions.push(definition);
                j = end;
            },
            None => {
                assert(definitions_view(definitions@) + Seq::<DefinitionView>::empty()
                    =~= definitions_view(definitions@));
                break ;
            },
        }
    }
    (definitions, j)
}

impl MyParser {
    /// Reads a grammar: blanks and comments, then definitions
    /// `name <- expression` up to the end of the text, at least one.
    ///
    /// The result is the grammar that [`parse_grammar`] finds in the text,
    /// which is well formed, or the position at which it finds no further
    /// definition.
    pub fn parse(input: &str) -> (result: Result<Grammar, ParseError>)
        ensures
            match result {
                Ok(grammar) => parse_grammar(input@) == Ok::<Seq<DefinitionView>, int>(grammar@)
                    && grammar_well_formed(grammar@),
                Err(error) => parse_grammar(input@) == Err::<Seq<DefinitionView>, int>(
                    error.offset as int,
                ),
            },
    {
        proof {
            lemma_parsed_grammar_is_well_formed(input@);
        }
        let chars = chars_of(input);
        let start = skip_blanks(&chars, 0);
        let (definitions, end) = read_definitions(&chars, start);
        if definitions.len() > 0 && end == chars.len() {
            Ok(Grammar { definitions })
        } else {
            Err(ParseError { offset: end })
        }
    }
}

} // verus!
