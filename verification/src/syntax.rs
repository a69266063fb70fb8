//! The notation of the source grammar.
//!
//! Each function here reads a text from a position and says what stands
//! there and where it ends. A position is an index into the text; every
//! token takes the blanks and comments after it along.

use vstd::prelude::*;
use crate::ast::class_well_formed;
use crate::ast::expression_well_formed;
use crate::ast::grammar_well_formed;
use crate::ast::sequence_well_formed;
use crate::ast::term_well_formed;
use crate::ast::CharClassView;
use crate::ast::ClassMemberView;
use crate::ast::DefinitionView;
use crate::ast::ExpressionView;
use crate::ast::PredicateKind;
use crate::ast::QuantifierKind;
use crate::ast::TermView;
use crate::text::is_ascii_letter;

verus! {

/// Whether `c` ends a line.
pub open spec fn is_line_end(c: char) -> bool {
    c == '\n' || c == '\r'
}

/// Whether `c` is a blank: a space, a tab or the end of a line.
pub open spec fn is_space(c: char) -> bool {
    c == ' ' || c == '\t' || is_line_end(c)
}

/// The end of the line that holds position `i`: the index of the next
/// character that ends a line, or the length of the text.
pub open spec fn line_end(s: Seq<char>, i: int) -> int
    decreases s.len() - i,
{
    if 0 <= i < s.len() && !is_line_end(s[i]) {
        line_end(s, i + 1)
    } else {
        i
    }
}

/// The end of a line lies at or after the position, and within the text.
pub proof fn lemma_line_end_bounds(s: Seq<char>, i: int)
    requires
        0 <= i <= s.len(),
    ensures
        i <= line_end(s, i) <= s.len(),
    decreases s.len() - i,
{
    if i < s.len() && !is_line_end(s[i]) {
        lemma_line_end_bounds(s, i + 1);
    }
}

/// The position after the blanks and comments that start at `i`. A comment
/// runs from `#` to the end of its line.
pub open spec fn skip_spacing(s: Seq<char>, i: int) -> int
    decreases s.len() - i,
{
    if 0 <= i < s.len() && is_space(s[i]) {
        skip_spacing(s, i + 1)
    } else if 0 <= i < s.len() && s[i] == '#' {
        proof {
            lemma_line_end_bounds(s, i + 1);
        }
        skip_spacing(s, line_end(s, i + 1))
    } else {
        i
    }
}

/// Skipping blanks leads forward, and not beyond the text.
pub proof fn lemma_skip_spacing_bounds(s: Seq<char>, i: int)
    requires
        0 <= i <= s.len(),
    ensures
        i <= skip_spacing(s, i) <= s.len(),
    decreases s.len() - i,
{
    if i < s.len() && is_space(s[i]) {
        lemma_skip_spacing_bounds(s, i + 1);
    } else if i < s.len() && s[i] == '#' {
        lemma_line_end_bounds(s, i + 1);
        lemma_skip_spacing_bounds(s, line_end(s, i + 1));
    }
}

/// Whether a name can start with `c`: an ASCII letter or `_`.
pub open spec fn is_identifier_start(c: char) -> bool {
    is_ascii_letter(c) || c == '_'
}

/// Whether a name can go on with `c`: as it can start, or an ASCII digit.
pub open spec fn is_identifier_part(c: char) -> bool {
    is_identifier_start(c) || ('0' <= c && c <= '9')
}

/// The end of the run of name characters that starts at `i`.
pub open spec fn identifier_end(s: Seq<char>, i: int) -> int
    decreases s.len() - i,
{
    if 0 <= i < s.len() && is_identifier_part(s[i]) {
        identifier_end(s, i + 1)
    } else {
        i
    }
}

/// A run of name characters ends at or after its start, within the text.
pub proof fn lemma_identifier_end_bounds(s: Seq<char>, i: int)
    requires
        0 <= i <= s.len(),
    ensures
        i <= identifier_end(s, i) <= s.len(),
    decreases s.len() - i,
{
    if i < s.len() && is_identifier_part(s[i]) {
        lemma_identifier_end_bounds(s, i + 1);
    }
}

/// The name at `i`, and the position after it.
pub open spec fn parse_identifier(s: Seq<char>, i: int) -> Option<(Seq<char>, int)> {
    if 0 <= i < s.len() && is_identifier_start(s[i]) {
        let end = identifier_end(s, i + 1);
        Some((s.subrange(i, end), skip_spacing(s, end)))
    } else {
        None
    }
}

/// Whether the arrow `<-` stands at `i`.
pub open spec fn at_arrow(s: Seq<char>, i: int) -> bool {
    0 <= i && i + 2 <= s.len() && s[i] == '<' && s[i + 1] == '-'
}

/// The index of the quote that closes a literal whose text starts at `i`. A
/// backslash takes the character after it along, so that an escaped quote
/// closes nothing.
pub open spec fn quoted_end(s: Seq<char>, i: int, quote: char) -> Option<int>
    decreases s.len() - i,
{
    if !(0 <= i < s.len()) {
        None
    } else if s[i] == quote {
        Some(i)
    } else if s[i] == '\\' {
        if i + 1 < s.len() {
            quoted_end(s, i + 2, quote)
        } else {
            None
        }
    } else {
        quoted_end(s, i + 1, quote)
    }
}

/// The literal at `i`: its text as written between the quotes, case-sensitive
/// between single quotes and not between double quotes.
pub open spec fn parse_literal(s: Seq<char>, i: int) -> Option<(TermView, int)> {
    if 0 <= i < s.len() && (s[i] == '\'' || s[i] == '"') {
        match quoted_end(s, i + 1, s[i]) {
            Some(end) => Some(
                (
                    TermView::Literal { text: s.subrange(i + 1, end), case_sensitive: s[i] == '\'' },
                    skip_spacing(s, end + 1),
                ),
            ),
            None => None,
        }
    } else {
        None
    }
}

/// The length of the character at `i` as it is written: 2 for a backslash
/// and the character after it, 1 for any other character, 0 where the text
/// has ended.
pub open spec fn char_len(s: Seq<char>, i: int) -> int {
    if !(0 <= i < s.len()) {
        0
    } else if s[i] == '\\' {
        if i + 1 < s.len() {
            2
        } else {
            0
        }
    } else {
        1
    }
}

/// The length of the class member at `i`: a character, a hyphen and a
/// character where that stands there, else one character.
pub open spec fn member_len(s: Seq<char>, i: int) -> int {
    let first = char_len(s, i);
    if first == 0 {
        0
    } else if i + first < s.len() && s[i + first] == '-' && char_len(s, i + first + 1) > 0 {
        first + 1 + char_len(s, i + first + 1)
    } else {
        first
    }
}

/// Whether the class ends at `i`: with `]`, or with `]]` where it started
/// with `[[`.
pub open spec fn at_class_end(s: Seq<char>, i: int, double: bool) -> bool {
    if double {
        0 <= i && i + 2 <= s.len() && s[i] == ']' && s[i + 1] == ']'
    } else {
        0 <= i < s.len() && s[i] == ']'
    }
}

/// The members of a class from `i` up to where the class ends or no member
/// stands, and that position.
pub open spec fn parse_members(s: Seq<char>, i: int, double: bool) -> (Seq<ClassMemberView>, int)
    decreases s.len() - i,
{
    let len = member_len(s, i);
    if 0 <= i < s.len() && !at_class_end(s, i, double) && len > 0 {
        let span = s.subrange(i, i + len);
        let member = if double {
            ClassMemberView::DoubleRange(span)
        } else {
            ClassMemberView::Range(span)
        };
        let (rest, end) = parse_members(s, i + len, double);
        (seq![member] + rest, end)
    } else {
        (Seq::empty(), i)
    }
}

/// The class whose opening bracket ends just before `i`. A `^` in front of
/// at least one member negates the class; a `^` with no member after it is
/// itself a member.
pub open spec fn parse_class_body(s: Seq<char>, i: int, double: bool) -> Option<
    (CharClassView, int),
> {
    let after_mark = parse_members(s, i + 1, double);
    let plain = parse_members(s, i, double);
    let negated = 0 <= i < s.len() && s[i] == '^' && after_mark.0.len() > 0;
    let (members, end) = if negated {
        after_mark
    } else {
        plain
    };
    if at_class_end(s, end, double) {
        Some(
            (
                CharClassView { negated, members },
                skip_spacing(
                    s,
                    end + if double {
                        2int
                    } else {
                        1int
                    },
                ),
            ),
        )
    } else {
        None
    }
}

/// The class at `i`: between `[[` and `]]` a class whose members match
/// irrespective of case, else between `[` and `]` a class whose members
/// match as they are written.
pub open spec fn parse_class(s: Seq<char>, i: int) -> Option<(TermView, int)> {
    if 0 <= i < s.len() && s[i] == '[' {
        let double = if i + 1 < s.len() && s[i + 1] == '[' {
            parse_class_body(s, i + 2, true)
        } else {
            None
        };
        let class = if double is Some {
            double
        } else {
            parse_class_body(s, i + 1, false)
        };
        match class {
            Some((class, end)) => Some((TermView::CharClass(class), end)),
            None => None,
        }
    } else {
        None
    }
}

/// The position after the brace that closes an action, read from `i` with
/// `depth` braces open inside the action.
pub open spec fn action_end(s: Seq<char>, i: int, depth: nat) -> Option<int>
    decreases s.len() - i,
{
    if !(0 <= i < s.len()) {
        None
    } else if s[i] == '{' {
        action_end(s, i + 1, depth + 1)
    } else if s[i] == '}' {
        if depth == 0 {
            Some(i + 1)
        } else {
            action_end(s, i + 1, (depth - 1) as nat)
        }
    } else {
        action_end(s, i + 1, depth)
    }
}

/// The predicate at `i`, if one stands there, and the position after it.
pub open spec fn parse_predicate(s: Seq<char>, i: int) -> (Option<PredicateKind>, int) {
    if 0 <= i < s.len() && s[i] == '&' {
        (Some(PredicateKind::And), skip_spacing(s, i + 1))
    } else if 0 <= i < s.len() && s[i] == '!' {
        (Some(PredicateKind::Not), skip_spacing(s, i + 1))
    } else {
        (None, i)
    }
}

/// The quantifier at `i`, if one stands there, and the position after it.
pub open spec fn parse_quantifier(s: Seq<char>, i: int) -> (Option<QuantifierKind>, int) {
    if 0 <= i < s.len() && s[i] == '*' {
        (Some(QuantifierKind::Star), skip_spacing(s, i + 1))
    } else if 0 <= i < s.len() && s[i] == '+' {
        (Some(QuantifierKind::Plus), skip_spacing(s, i + 1))
    } else if 0 <= i < s.len() && s[i] == '?' {
        (Some(QuantifierKind::Question), skip_spacing(s, i + 1))
    } else {
        (None, i)
    }
}

/// The terms of one prefix: the predicate where there is one, the primary,
/// and the quantifier where there is one.
pub open spec fn prefix_terms(
    predicate: Option<PredicateKind>,
    primary: TermView,
    quantifier: Option<QuantifierKind>,
) -> Seq<TermView> {
    (match predicate {
        Some(kind) => seq![TermView::Predicate(kind)],
        None => Seq::empty(),
    }) + seq![primary] + (match quantifier {
        Some(kind) => seq![TermView::Quantifier(kind)],
        None => Seq::empty(),
    })
}

/// Whether `to` lies at or after `from` and within the text.
pub open spec fn reaches(s: Seq<char>, from: int, to: int) -> bool {
    from <= to <= s.len()
}

/// The primary at `i`: an expression between `(` and `)` or between `<` and
/// `>`, the wildcard, an action, a class, a literal, or a name that no arrow
/// follows (a name with an arrow starts the next rule).
pub open spec fn parse_primary(s: Seq<char>, i: int) -> Option<(TermView, int)>
    decreases s.len() - i, 0nat,
{
    if !(0 <= i < s.len()) {
        None
    } else if s[i] == '(' || s[i] == '<' {
        let start = skip_spacing(s, i + 1);
        proof {
            lemma_skip_spacing_bounds(s, i + 1);
        }
        match parse_expression(s, start) {
            Some((inner, end)) => {
                if 0 <= end < s.len() && s[end] == (if s[i] == '(' {
                    ')'
                } else {
                    '>'
                }) {
                    Some(
                        (
                            if s[i] == '(' {
                                TermView::Group(inner)
                            } else {
                                TermView::Capture(inner)
                            },
                            skip_spacing(s, end + 1),
                        ),
                    )
                } else {
                    None
                }
            },
            None => None,
        }
    } else if s[i] == '.' {
        Some((TermView::Dot, skip_spacing(s, i + 1)))
    } else if s[i] == '{' {
        match action_end(s, i + 1, 0) {
            Some(end) => Some((TermView::Action, skip_spacing(s, end))),
            None => None,
        }
    } else if s[i] == '[' {
        parse_class(s, i)
    } else if s[i] == '\'' || s[i] == '"' {
        parse_literal(s, i)
    } else {
        match parse_identifier(s, i) {
            Some((name, end)) => {
                if at_arrow(s, end) {
                    None
                } else {
                    Some((TermView::Reference(name), end))
                }
            },
            None => None,
        }
    }
}

/// The prefix at `i`: a primary, with the predicate in front of it and the
/// quantifier behind it where they stand there. It gives one to three terms.
pub open spec fn parse_prefix(s: Seq<char>, i: int) -> Option<(Seq<TermView>, int)>
    decreases s.len() - i, 1nat,
{
    let (predicate, start) = parse_predicate(s, i);
    proof {
        if 0 <= i < s.len() {
            lemma_skip_spacing_bounds(s, i + 1);
        }
    }
    match parse_primary(s, start) {
        Some((term, end)) => {
            let (quantifier, after) = parse_quantifier(s, end);
            Some((prefix_terms(predicate, term, quantifier), after))
        },
        None => None,
    }
}

/// The terms of the prefixes that follow one another from `i`, and the
/// position after the last of them.
pub open spec fn parse_terms(s: Seq<char>, i: int) -> (Seq<TermView>, int)
    decreases s.len() - i, 2nat,
{
    match parse_prefix(s, i) {
        Some((terms, end)) => {
            if i < end && reaches(s, i, end) {
                let (rest, last) = parse_terms(s, end);
                (terms + rest, last)
            } else {
                (Seq::empty(), i)
            }
        },
        None => (Seq::empty(), i),
    }
}

/// The sequence at `i`: at least one prefix.
pub open spec fn parse_sequence(s: Seq<char>, i: int) -> Option<(Seq<TermView>, int)>
    decreases s.len() - i, 3nat,
{
    let (terms, end) = parse_terms(s, i);
    if terms.len() > 0 {
        Some((terms, end))
    } else {
        None
    }
}

/// The alternatives that follow the first one: for each `/` with a sequence
/// after it that sequence; a `/` with no sequence after it ends the
/// expression and sets the flag.
pub open spec fn parse_alternatives(s: Seq<char>, i: int) -> (Seq<Seq<TermView>>, bool, int)
    decreases s.len() - i, 4nat,
{
    if 0 <= i < s.len() && s[i] == '/' {
        let start = skip_spacing(s, i + 1);
        proof {
            lemma_skip_spacing_bounds(s, i + 1);
        }
        match parse_sequence(s, start) {
            Some((terms, end)) => {
                if reaches(s, start, end) {
                    let (more, trailing, last) = parse_alternatives(s, end);
                    (seq![terms] + more, trailing, last)
                } else {
                    (Seq::empty(), true, start)
                }
            },
            None => (Seq::empty(), true, start),
        }
    } else {
        (Seq::empty(), false, i)
    }
}

/// The expression at `i`: a sequence, and the alternatives after it.
pub open spec fn parse_expression(s: Seq<char>, i: int) -> Option<(ExpressionView, int)>
    decreases s.len() - i, 5nat,
{
    match parse_sequence(s, i) {
        Some((first, end)) => {
            if reaches(s, i, end) {
                let (more, trailing, last) = parse_alternatives(s, end);
                Some(
                    (
                        ExpressionView {
                            alternatives: seq![first] + more,
                            allows_trailing_empty: trailing,
                        },
                        last,
                    ),
                )
            } else {
                None
            }
        },
        None => None,
    }
}

/// The definition at `i`: a name, the arrow and an expression.
pub open spec fn parse_definition(s: Seq<char>, i: int) -> Option<(DefinitionView, int)> {
    match parse_identifier(s, i) {
        Some((name, arrow)) => {
            if at_arrow(s, arrow) {
                match parse_expression(s, skip_spacing(s, arrow + 2)) {
                    Some((body, end)) => Some((DefinitionView { name, body }, end)),
                    None => None,
                }
            } else {
                None
            }
        },
        None => None,
    }
}

/// The definitions that follow one another from `i`, and the position after
/// the last of them.
pub open spec fn parse_definitions(s: Seq<char>, i: int) -> (Seq<DefinitionView>, int)
    decreases s.len() - i,
{
    match parse_definition(s, i) {
        Some((definition, end)) => {
            if i < end && reaches(s, i, end) {
                let (rest, last) = parse_definitions(s, end);
                (seq![definition] + rest, last)
            } else {
                (Seq::empty(), i)
            }
        },
        None => (Seq::empty(), i),
    }
}

/// The grammar that a text holds: blanks, then definitions up to the end of
/// the text, at least one. Where the text holds something else, the result
/// is the position at which no further definition could be read.
pub open spec fn parse_grammar(s: Seq<char>) -> Result<Seq<DefinitionView>, int> {
    let (definitions, end) = parse_definitions(s, skip_spacing(s, 0));
    if definitions.len() > 0 && end == s.len() {
        Ok(definitions)
    } else {
        Err(end)
    }
}

/// The members that are read from a text are characters and spans; the
/// negation of a class is kept in its flag, never as a marker.
pub proof fn lemma_members_hold_no_marker(s: Seq<char>, i: int, double: bool)
    ensures
        forall|k: int|
            0 <= k < parse_members(s, i, double).0.len() ==> !(#[trigger] parse_members(
                s,
                i,
                double,
            ).0[k] is Negate),
        parse_members(s, i, double).0.len() > 0 ==> i < parse_members(s, i, double).1,
        0 <= i <= s.len() ==> i <= parse_members(s, i, double).1 <= s.len(),
    decreases s.len() - i,
{
    let len = member_len(s, i);
    if 0 <= i < s.len() && !at_class_end(s, i, double) && len > 0 {
        lemma_members_hold_no_marker(s, i + len, double);
    }
}

/// A class that is read from a text is well formed, and ends after its
/// start, within the text.
pub proof fn lemma_class_is_well_formed(s: Seq<char>, i: int)
    ensures
        parse_class(s, i) matches Some((term, end)) ==> term_well_formed(term) && i < end
            <= s.len(),
{
    if 0 <= i < s.len() && s[i] == '[' {
        lemma_members_hold_no_marker(s, i + 1, false);
        lemma_members_hold_no_marker(s, i + 2, false);
        lemma_members_hold_no_marker(s, i + 2, true);
        lemma_members_hold_no_marker(s, i + 3, true);
        if i + 1 < s.len() && s[i + 1] == '[' {
            match parse_class_body(s, i + 2, true) {
                Some((class, end)) => {
                    let members_end = if 0 <= i + 2 < s.len() && s[i + 2] == '^' && parse_members(
                        s,
                        i + 3,
                        true,
                    ).0.len() > 0 {
                        parse_members(s, i + 3, true).1
                    } else {
                        parse_members(s, i + 2, true).1
                    };
                    lemma_skip_spacing_bounds(s, members_end + 2);
                },
                None => {},
            }
        }
        match parse_class_body(s, i + 1, false) {
            Some((class, end)) => {
                let members_end = if 0 <= i + 1 < s.len() && s[i + 1] == '^' && parse_members(
                    s,
                    i + 2,
                    false,
                ).0.len() > 0 {
                    parse_members(s, i + 2, false).1
                } else {
                    parse_members(s, i + 1, false).1
                };
                lemma_skip_spacing_bounds(s, members_end + 1);
            },
            None => {},
        }
    }
}

/// The closing quote of a literal stands after the start of its text,
/// within the text.
pub proof fn lemma_quoted_end_bounds(s: Seq<char>, i: int, quote: char)
    ensures
        quoted_end(s, i, quote) matches Some(end) ==> i <= end < s.len(),
    decreases s.len() - i,
{
    if 0 <= i < s.len() && s[i] != quote {
        if s[i] == '\\' {
            if i + 1 < s.len() {
                lemma_quoted_end_bounds(s, i + 2, quote);
            }
        } else {
            lemma_quoted_end_bounds(s, i + 1, quote);
        }
    }
}

/// An action ends after its start, within the text.
pub proof fn lemma_action_end_bounds(s: Seq<char>, i: int, depth: nat)
    ensures
        action_end(s, i, depth) matches Some(end) ==> i < end <= s.len(),
    decreases s.len() - i,
{
    if 0 <= i < s.len() {
        if s[i] == '{' {
            lemma_action_end_bounds(s, i + 1, depth + 1);
        } else if s[i] == '}' {
            if depth > 0 {
                lemma_action_end_bounds(s, i + 1, (depth - 1) as nat);
            }
        } else {
            lemma_action_end_bounds(s, i + 1, depth);
        }
    }
}

/// A primary that is read from a text is well formed, and ends after its
/// start, within the text.
pub proof fn lemma_primary_is_well_formed(s: Seq<char>, i: int)
    ensures
        parse_primary(s, i) matches Some((term, end)) ==> term_well_formed(term) && i < end
            <= s.len(),
    decreases s.len() - i, 0nat,
{
    if 0 <= i < s.len() {
        if s[i] == '(' || s[i] == '<' {
            let start = skip_spacing(s, i + 1);
            lemma_skip_spacing_bounds(s, i + 1);
            lemma_expression_is_well_formed(s, start);
            match parse_expression(s, start) {
                Some((inner, end)) => {
                    if 0 <= end < s.len() {
                        lemma_skip_spacing_bounds(s, end + 1);
                    }
                },
                None => {},
            }
        } else if s[i] == '.' {
            lemma_skip_spacing_bounds(s, i + 1);
        } else if s[i] == '{' {
            lemma_action_end_bounds(s, i + 1, 0);
            match action_end(s, i + 1, 0) {
                Some(end) => {
                    lemma_skip_spacing_bounds(s, end);
                },
                None => {},
            }
        } else if s[i] == '[' {
            lemma_class_is_well_formed(s, i);
        } else if s[i] == '\'' || s[i] == '"' {
            lemma_quoted_end_bounds(s, i + 1, s[i]);
            match quoted_end(s, i + 1, s[i]) {
                Some(end) => {
                    lemma_skip_spacing_bounds(s, end + 1);
                },
                None => {},
            }
        } else if is_identifier_start(s[i]) {
            lemma_identifier_end_bounds(s, i + 1);
            lemma_skip_spacing_bounds(s, identifier_end(s, i + 1));
        }
    }
}

/// The terms of a prefix that is read from a text are well formed; the
/// prefix ends after its start, within the text.
pub proof fn lemma_prefix_is_well_formed(s: Seq<char>, i: int)
    ensures
        parse_prefix(s, i) matches Some((terms, end)) ==> sequence_well_formed(terms)
            && terms.len() > 0 && i < end <= s.len(),
    decreases s.len() - i, 1nat,
{
    let (predicate, start) = parse_predicate(s, i);
    if 0 <= i < s.len() {
        lemma_skip_spacing_bounds(s, i + 1);
    }
    lemma_primary_is_well_formed(s, start);
    match parse_primary(s, start) {
        Some((term, end)) => {
            if end < s.len() {
                lemma_skip_spacing_bounds(s, end + 1);
            }
            let (quantifier, after) = parse_quantifier(s, end);
            let terms = prefix_terms(predicate, term, quantifier);
            assert forall|k: int| 0 <= k < terms.len() implies term_well_formed(
                #[trigger] terms[k],
            ) by {
                if terms[k] != term {
                    assert(terms[k] is Predicate || terms[k] is Quantifier);
                }
            }
        },
        None => {},
    }
}

/// The terms that are read from a text are well formed, and end within the
/// text: after their start where there is a term, else at it.
pub proof fn lemma_terms_are_well_formed(s: Seq<char>, i: int)
    requires
        0 <= i <= s.len(),
    ensures
        sequence_well_formed(parse_terms(s, i).0),
        i <= parse_terms(s, i).1 <= s.len(),
        parse_terms(s, i).0.len() > 0 ==> i < parse_terms(s, i).1,
    decreases s.len() - i, 2nat,
{
    lemma_prefix_is_well_formed(s, i);
    match parse_prefix(s, i) {
        Some((terms, end)) => {
            lemma_terms_are_well_formed(s, end);
        },
        None => {},
    }
}

/// The alternatives that are read from a text are well formed, and end
/// within the text.
pub proof fn lemma_alternatives_are_well_formed(s: Seq<char>, i: int)
    requires
        0 <= i <= s.len(),
    ensures
        forall|k: int|
            0 <= k < parse_alternatives(s, i).0.len() ==> sequence_well_formed(
                #[trigger] parse_alternatives(s, i).0[k],
            ),
        i <= parse_alternatives(s, i).2 <= s.len(),
    decreases s.len() - i, 4nat,
{
    if i < s.len() && s[i] == '/' {
        let start = skip_spacing(s, i + 1);
        lemma_skip_spacing_bounds(s, i + 1);
        lemma_terms_are_well_formed(s, start);
        match parse_sequence(s, start) {
            Some((terms, end)) => {
                lemma_alternatives_are_well_formed(s, end);
            },
            None => {},
        }
    }
}

/// An expression that is read from a text is well formed: it has at least
/// one alternative, and so has every expression inside it. It ends after its
/// start, within the text.
pub proof fn lemma_expression_is_well_formed(s: Seq<char>, i: int)
    requires
        0 <= i <= s.len(),
    ensures
        parse_expression(s, i) matches Some((expression, end)) ==> expression_well_formed(
            expression,
        ) && i < end <= s.len(),
    decreases s.len() - i, 5nat,
{
    lemma_terms_are_well_formed(s, i);
    match parse_sequence(s, i) {
        Some((first, end)) => {
            lemma_alternatives_are_well_formed(s, end);
        },
        None => {},
    }
}

/// The definitions that are read from a text are well formed.
pub proof fn lemma_definitions_are_well_formed(s: Seq<char>, i: int)
    requires
        0 <= i <= s.len(),
    ensures
        grammar_well_formed(parse_definitions(s, i).0),
    decreases s.len() - i,
{
    match parse_definition(s, i) {
        Some((definition, end)) => {
            if i < end && reaches(s, i, end) {
                lemma_definitions_are_well_formed(s, end);
                if 0 <= i < s.len() && is_identifier_start(s[i]) {
                    let name_end = identifier_end(s, i + 1);
                    lemma_identifier_end_bounds(s, i + 1);
                    lemma_skip_spacing_bounds(s, name_end);
                    let arrow = skip_spacing(s, name_end);
                    if at_arrow(s, arrow) {
                        lemma_skip_spacing_bounds(s, arrow + 2);
                        lemma_expression_is_well_formed(s, skip_spacing(s, arrow + 2));
                    }
                }
            }
        },
        None => {},
    }
}

/// A grammar that is read from a text is well formed: every expression in
/// it has at least one alternative, and no class a negation marker.
pub proof fn lemma_parsed_grammar_is_well_formed(s: Seq<char>)
    ensures
        parse_grammar(s) matches Ok(grammar) ==> grammar_well_formed(grammar) && grammar.len() > 0,
{
    lemma_skip_spacing_bounds(s, 0);
    lemma_definitions_are_well_formed(s, skip_spacing(s, 0));
}

} // verus!
