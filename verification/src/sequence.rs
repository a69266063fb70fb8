//! Sequences: terms that follow one another, joined by `~`.
//!
//! What a term adds to the text depends on the term and on what stands just
//! before it, which is kept as a [`Lead`]: the renderer is a machine of four
//! states that takes one step for each term.

use vstd::prelude::*;
use crate::ast::PredicateKind;
use crate::ast::QuantifierKind;
use crate::ast::Sequence;
use crate::ast::Term;
use crate::ast::TermView;
use crate::class::class_text;
use crate::class::convert_class;
use crate::expression::convert_expression;
use crate::expression::expression_text;
use crate::literal::convert_identifier_name;
use crate::literal::convert_literal;
use crate::literal::literal_text;
use crate::literal::reference_text;
use crate::text::concat;
use crate::text::lemma_concat_push;
use crate::text::lemma_concat_remove_empty;

verus! {

/// What stands just before a term of a sequence: the state in which the
/// term is rendered.
#[derive(Clone, Copy, Debug, PartialEq, Eq, Structural)]
pub enum Lead {
    /// Nothing but actions, if anything: no term has been written yet.
    Start,
    /// The predicate `&`.
    AfterAnd,
    /// The predicate `!`, whose negation is still to be written.
    AfterNot,
    /// Any other token.
    AfterTerm,
}

/// The lead that a term, rendered after `lead`, leaves for the term after
/// it. An action at the start leaves the start as it is, so that no operator
/// is written in front of the first term that has a text.
pub open spec fn lead_after(lead: Lead, term: TermView) -> Lead {
    match term {
        TermView::Predicate(PredicateKind::And) => Lead::AfterAnd,
        TermView::Predicate(PredicateKind::Not) => Lead::AfterNot,
        TermView::Action => if lead == Lead::Start {
            Lead::Start
        } else {
            Lead::AfterTerm
        },
        _ => Lead::AfterTerm,
    }
}

/// The lead of the term at index `i` of `terms`.
pub open spec fn lead_at(terms: Seq<TermView>, i: int) -> Lead
    decreases i,
{
    if i <= 0 {
        Lead::Start
    } else {
        lead_after(lead_at(terms, i - 1), terms[i - 1])
    }
}

/// Whether a term is written directly behind what precedes it: a quantifier,
/// which belongs to the term before it, and an action, which has no text.
pub open spec fn attaches(term: TermView) -> bool {
    term is Quantifier || term is Action
}

/// The operator ` ~` where it is due: after a token that is no predicate,
/// before a term that does not attach. None is due at the start.
pub open spec fn separator_text(lead: Lead, term: TermView) -> Seq<char> {
    if lead == Lead::AfterTerm && !attaches(term) {
        " ~"@
    } else {
        Seq::empty()
    }
}

/// The operator ` !` where it is due: after the predicate `!`, before any
/// term but the wildcard, which turns into the end of input instead, and
/// another `!`, which leaves the negation pending.
pub open spec fn negation_text(lead: Lead, term: TermView) -> Seq<char> {
    if lead == Lead::AfterNot && !(term is Dot) && term != TermView::Predicate(
        PredicateKind::Not,
    ) {
        " !"@
    } else {
        Seq::empty()
    }
}

/// The text of a quantifier.
pub open spec fn quantifier_text(kind: QuantifierKind) -> Seq<char> {
    match kind {
        QuantifierKind::Star => "*"@,
        QuantifierKind::Plus => "+"@,
        QuantifierKind::Question => "?"@,
    }
}

/// The placeholder for a term of a kind that has no rendering.
pub open spec fn unsupported_term_text(kind: Seq<char>) -> Seq<char> {
    " RULE("@ + kind + ")"@
}

/// The text of a term itself, without the operators in front of it.
pub open spec fn term_text(lead: Lead, term: TermView) -> Seq<char>
    decreases term, 0nat,
{
    match term {
        TermView::Reference(name) => reference_text(name),
        TermView::Group(inner) => " ("@ + expression_text(inner) + " )"@,
        TermView::Capture(inner) => expression_text(inner),
        TermView::Predicate(PredicateKind::And) => " &"@,
        TermView::Predicate(PredicateKind::Not) => Seq::empty(),
        TermView::Quantifier(kind) => quantifier_text(kind),
        TermView::Literal { text, case_sensitive } => literal_text(text, case_sensitive),
        TermView::CharClass(class) => " ("@ + class_text(class) + ")"@,
        TermView::Dot => if lead == Lead::AfterNot {
            " EOI"@
        } else {
            " ANY"@
        },
        TermView::Action => Seq::empty(),
        TermView::Unsupported(kind) => unsupported_term_text(kind),
    }
}

/// All that a term adds to the text of its sequence: the separator, the
/// negation and its own text.
pub open spec fn term_piece(lead: Lead, term: TermView) -> Seq<char>
    decreases term, 1nat,
{
    separator_text(lead, term) + negation_text(lead, term) + term_text(lead, term)
}

/// What each term of a sequence adds, in order.
pub open spec fn pieces(terms: Seq<TermView>) -> Seq<Seq<char>>
    decreases terms, 0nat,
{
    Seq::new(
        terms.len(),
        |i: int|
            if 0 <= i < terms.len() {
                term_piece(lead_at(terms, i), terms[i])
            } else {
                Seq::empty()
            },
    )
}

/// The rendering of a sequence: what its terms add, one after the other.
pub open spec fn sequence_text(terms: Seq<TermView>) -> Seq<char>
    decreases terms, 1nat,
{
    concat(pieces(terms))
}

/// The lead of a term depends on the terms before it alone.
pub proof fn lemma_lead_at_take(terms: Seq<TermView>, n: int, i: int)
    requires
        0 <= i <= n <= terms.len(),
    ensures
        lead_at(terms.take(n), i) == lead_at(terms, i),
    decreases i,
{
    if i > 0 {
        lemma_lead_at_take(terms, n, i - 1);
    }
}

/// What the first `n` terms of a sequence add is the same whatever follows
/// them.
pub proof fn lemma_pieces_take(terms: Seq<TermView>, n: int)
    requires
        0 <= n <= terms.len(),
    ensures
        pieces(terms.take(n)) == pieces(terms).take(n),
{
    assert forall|i: int| 0 <= i < n implies pieces(terms.take(n))[i] == pieces(terms)[i] by {
        lemma_lead_at_take(terms, n, i);
    }
    assert(pieces(terms.take(n)) =~= pieces(terms).take(n));
}

/// A sequence that ends in a term is the sequence before that term, and
/// what the term adds after it.
pub proof fn lemma_sequence_text_step(terms: Seq<TermView>, n: int)
    requires
        0 <= n < terms.len(),
    ensures
        sequence_text(terms.take(n + 1)) == sequence_text(terms.take(n)) + pieces(terms)[n],
{
    lemma_pieces_take(terms, n);
    lemma_pieces_take(terms, n + 1);
    assert(pieces(terms).take(n + 1) =~= pieces(terms).take(n).push(pieces(terms)[n]));
    lemma_concat_push(pieces(terms).take(n), pieces(terms)[n]);
}

/// The wildcard directly after the predicate `!` is the end of input: the
/// predicate itself adds at most the separator, and the wildcard adds ` EOI`
/// and no negation operator.
pub proof fn lemma_not_dot_is_end_of_input(terms: Seq<TermView>, i: int)
    requires
        0 < i < terms.len(),
        terms[i - 1] == TermView::Predicate(PredicateKind::Not),
        terms[i] == TermView::Dot,
    ensures
        pieces(terms)[i - 1] == separator_text(lead_at(terms, i - 1), terms[i - 1]),
        pieces(terms)[i] == " EOI"@,
        sequence_text(terms.take(i + 1)) == sequence_text(terms.take(i - 1)) + separator_text(
            lead_at(terms, i - 1),
            terms[i - 1],
        ) + " EOI"@,
{
    let not = terms[i - 1];
    let dot = terms[i];
    assert(term_piece(lead_at(terms, i - 1), not) =~= separator_text(lead_at(terms, i - 1), not));
    assert(term_piece(Lead::AfterNot, dot) =~= " EOI"@);
    lemma_sequence_text_step(terms, i - 1);
    lemma_sequence_text_step(terms, i);
    assert(terms.take(i - 1 + 1) =~= terms.take(i));
}

/// An action leaves no trace unless it directly follows a predicate: the
/// sequence is rendered as it is without the action.
pub proof fn lemma_action_leaves_no_trace(terms: Seq<TermView>, i: int)
    requires
        0 <= i < terms.len(),
        terms[i] is Action,
        i > 0 ==> !(terms[i - 1] is Predicate),
    ensures
        sequence_text(terms) == sequence_text(terms.remove(i)),
{
    let without = terms.remove(i);
    if i > 0 {
        assert(lead_at(terms, i) == lead_after(lead_at(terms, i - 1), terms[i - 1]));
    }
    assert(lead_at(terms, i) == Lead::Start || lead_at(terms, i) == Lead::AfterTerm);
    assert(pieces(terms)[i].len() == 0) by {
        assert(term_piece(lead_at(terms, i), terms[i]) =~= Seq::<char>::empty());
    }
    assert forall|k: int| 0 <= k <= without.len() implies lead_at(without, k) == lead_at(
        terms,
        if k <= i {
            k
        } else {
            k + 1
        },
    ) by {
        lemma_lead_skips_action(terms, i, k);
    }
    assert(pieces(without) =~= pieces(terms).remove(i));
    lemma_concat_remove_empty(pieces(terms), i);
}

/// The leads of a sequence without one of its actions, as in
/// [`lemma_action_leaves_no_trace`].
proof fn lemma_lead_skips_action(terms: Seq<TermView>, i: int, k: int)
    requires
        0 <= i < terms.len(),
        terms[i] is Action,
        i > 0 ==> !(terms[i - 1] is Predicate),
        0 <= k <= terms.len() - 1,
    ensures
        lead_at(terms.remove(i), k) == lead_at(
            terms,
            if k <= i {
                k
            } else {
                k + 1
            },
        ),
    decreases k,
{
    let without = terms.remove(i);
    if k > 0 {
        lemma_lead_skips_action(terms, i, k - 1);
        assert(lead_at(without, k) == lead_after(lead_at(without, k - 1), without[k - 1]));
        if k <= i {
            assert(without[k - 1] == terms[k - 1]);
        } else {
            assert(without[k - 1] == terms[k]);
            assert(lead_at(terms, k + 1) == lead_after(lead_at(terms, k), terms[k]));
            if k == i + 1 {
                if i > 0 {
                    assert(lead_at(terms, i) == lead_after(lead_at(terms, i - 1), terms[i - 1]));
                }
                assert(lead_at(terms, i + 1) == lead_after(lead_at(terms, i), terms[i]));
                assert(lead_at(terms, i + 1) == lead_at(terms, i));
            }
        }
    }
}

/// Computes [`lead_after`].
pub fn next_lead(lead: Lead, term: &Term) -> (next: Lead)
    ensures
        next == lead_after(lead, term@),
{
    match term {
        Term::Predicate(PredicateKind::And) => Lead::AfterAnd,
        Term::Predicate(PredicateKind::Not) => Lead::AfterNot,
        Term::Action => {
            if lead == Lead::Start {
                Lead::Start
            } else {
                Lead::AfterTerm
            }
        },
        _ => Lead::AfterTerm,
    }
}

/// Renders one term of a sequence, with the operators that are due in front
/// of it after `lead`.
pub fn convert_term(lead: Lead, term: &Term) -> (out: String)
    ensures
        out@ == term_piece(lead, term@),
    decreases term,
{
    let mut out = String::new();
    let attached = match term {
        Term::Quantifier(_) => true,
        Term::Action => true,
        _ => false,
    };
    if lead == Lead::AfterTerm && !attached {
        out.append(" ~");
    }
    assert(out@ =~= separator_text(lead, term@));
    let negates = match term {
        Term::Dot => false,
        Term::Predicate(PredicateKind::Not) => false,
        _ => lead == Lead::AfterNot,
    };
    if negates {
        out.append(" !");
    }
    assert(out@ =~= separator_text(lead, term@) + negation_text(lead, term@));
    let ghost front = out@;
    match term {
        Term::Reference(name) => {
            let text = convert_identifier_name(name.as_str());
            out.append(text.as_str());
        },
        Term::Group(inner) => {
            let text = convert_expression(inner);
            out.append(" (");
            out.append(text.as_str());
            out.append(" )");
            assert(out@ =~= front + (" ("@ + expression_text(inner@) + " )"@));
        },
        Term::Capture(inner) => {
            let text = convert_expression(inner);
            out.append(text.as_str());
        },
        Term::Predicate(PredicateKind::And) => {
            out.append(" &");
        },
        Term::Predicate(PredicateKind::Not) => {
            assert(out@ =~= front + Seq::<char>::empty());
        },
        Term::Quantifier(kind) => {
            match kind {
                QuantifierKind::Star => out.append("*"),
                QuantifierKind::Plus => out.append("+"),
                QuantifierKind::Question => out.append("?"),
            }
        },
        Term::Literal { text, case_sensitive } => {
            let text = convert_literal(text.as_str(), *case_sensitive);
            out.append(text.as_str());
        },
        Term::CharClass(class) => {
            let text = convert_class(class);
            out.append(" (");
            out.append(text.as_str());
            out.append(")");
            assert(out@ =~= front + (" ("@ + class_text(class@) + ")"@));
        },
        Term::Dot => {
            if lead == Lead::AfterNot {
                out.append(" EOI");
            } else {
                out.append(" ANY");
            }
        },
        Term::Action => {
            assert(out@ =~= front + Seq::<char>::empty());
        },
        Term::Unsupported(kind) => {
            out.append(" RULE(");
            out.append(kind.as_str());
            out.append(")");
            assert(out@ =~= front + unsupported_term_text(kind@));
        },
    }
    assert(out@ == front + term_text(lead, term@));
    out
}

/// Renders a sequence.
pub fn convert_sequence(seq: &Sequence) -> (out: String)
    ensures
        out@ == sequence_text(seq@),
    decreases seq,
{
    let mut out = String::new();
    let mut lead = Lead::Start;
    let mut i: usize = 0;
    assert(pieces(seq@).take(0) =~= Seq::<Seq<char>>::empty());
    while i < seq.terms.len()
        invariant
            i <= seq.terms.len(),
            seq@.len() == seq.terms.len(),
            lead == lead_at(seq@, i as int),
            out@ == concat(pieces(seq@).take(i as int)),
        decreases seq.terms.len() - i,
    {
        let term = &seq.terms[i];
        assert(seq@[i as int] == term@);
        let piece = convert_term(lead, term);
        proof {
            assert(pieces(seq@).take(i + 1) =~= pieces(seq@).take(i as int).push(piece@));
            lemma_concat_push(pieces(seq@).take(i as int), piece@);
        }
        out.append(piece.as_str());
        lead = next_lead(lead, term);
        i += 1;
    }
    assert(pieces(seq@).take(i as int) =~= pieces(seq@));
    out
}

} // verus!
