//! The grammar tree, and the mathematical view of each of its types.

use vstd::prelude::*;

verus! {

/// A prefix predicate: `&` (followed by) or `!` (not followed by).
#[derive(Clone, Copy, Debug, PartialEq, Eq, Structural)]
pub enum PredicateKind {
    And,
    Not,
}

/// A postfix quantifier: `*`, `+` or `?`.
#[derive(Clone, Copy, Debug, PartialEq, Eq, Structural)]
pub enum QuantifierKind {
    Star,
    Plus,
    Question,
}

/// One member of a bracketed character class.
///
/// The text of a `Range` or `DoubleRange` is either one (possibly escaped)
/// character or a span `lo-hi`.
#[derive(Clone, Debug, PartialEq, Eq)]
pub enum ClassMember {
    /// A case-sensitive character or span.
    Range(String),
    /// A character or span that matches irrespective of letter case.
    DoubleRange(String),
    /// The negation marker: it negates the class and stands for no character.
    Negate,
    /// A member of a kind that has no rendering; the text names the kind.
    Unsupported(String),
}

/// A bracketed character class.
#[derive(Clone, Debug, PartialEq, Eq)]
pub struct CharClass {
    pub negated: bool,
    pub members: Vec<ClassMember>,
}

/// One token of a sequence.
///
/// A predicate is a token of its own that applies to the term after it, and a
/// quantifier a token of its own that applies to the term before it.
#[derive(Debug, PartialEq, Eq)]
pub enum Term {
    /// The name of another rule.
    Reference(String),
    /// A parenthesised expression.
    Group(Expression),
    /// An expression between `<` and `>`, which marks the text it matches for
    /// the actions; it is rendered as the expression alone.
    Capture(Expression),
    Predicate(PredicateKind),
    Quantifier(QuantifierKind),
    /// A quoted literal, without its quotes.
    Literal { text: String, case_sensitive: bool },
    CharClass(CharClass),
    /// The wildcard `.`.
    Dot,
    /// A semantic action; it has no counterpart in the output.
    Action,
    /// A term of a kind that has no rendering; the text names the kind.
    Unsupported(String),
}

/// Terms that follow one another.
#[derive(Debug, PartialEq, Eq)]
pub struct Sequence {
    pub terms: Vec<Term>,
}

/// An ordered choice between sequences.
///
/// `allows_trailing_empty` records a choice operator with nothing after it.
#[derive(Debug, PartialEq, Eq)]
pub struct Expression {
    pub alternatives: Vec<Sequence>,
    pub allows_trailing_empty: bool,
}

/// A rule: a name and the expression it stands for.
#[derive(Debug, PartialEq, Eq)]
pub struct Definition {
    pub name: String,
    pub body: Expression,
}

/// The rules of a grammar, in the order in which they were written.
#[derive(Debug, PartialEq, Eq)]
pub struct Grammar {
    pub definitions: Vec<Definition>,
}

/// View of a [`ClassMember`].
pub enum ClassMemberView {
    Range(Seq<char>),
    DoubleRange(Seq<char>),
    Negate,
    Unsupported(Seq<char>),
}

/// View of a [`CharClass`].
pub struct CharClassView {
    pub negated: bool,
    pub members: Seq<ClassMemberView>,
}

/// View of a [`Term`]. A sequence is viewed as a `Seq<TermView>`.
pub enum TermView {
    Reference(Seq<char>),
    Group(ExpressionView),
    Capture(ExpressionView),
    Predicate(PredicateKind),
    Quantifier(QuantifierKind),
    Literal { text: Seq<char>, case_sensitive: bool },
    CharClass(CharClassView),
    Dot,
    Action,
    Unsupported(Seq<char>),
}

/// View of an [`Expression`].
pub struct ExpressionView {
    pub alternatives: Seq<Seq<TermView>>,
    pub allows_trailing_empty: bool,
}

/// View of a [`Definition`]. A grammar is viewed as a `Seq<DefinitionView>`.
pub struct DefinitionView {
    pub name: Seq<char>,
    pub body: ExpressionView,
}

impl View for ClassMember {
    type V = ClassMemberView;

    open spec fn view(&self) -> ClassMemberView {
        match *self {
            ClassMember::Range(span) => ClassMemberView::Range(span@),
            ClassMember::DoubleRange(span) => ClassMemberView::DoubleRange(span@),
            ClassMember::Negate => ClassMemberView::Negate,
            ClassMember::Unsupported(kind) => ClassMemberView::Unsupported(kind@),
        }
    }
}

/// The views of the members of a class, in order.
pub open spec fn members_view(members: Seq<ClassMember>) -> Seq<ClassMemberView> {
    Seq::new(members.len(), |i: int| members[i]@)
}

impl View for CharClass {
    type V = CharClassView;

    open spec fn view(&self) -> CharClassView {
        CharClassView { negated: self.negated, members: members_view(self.members@) }
    }
}

/// The view of a term.
pub open spec fn term_view(term: Term) -> TermView
    decreases term,
{
    match term {
        Term::Reference(name) => TermView::Reference(name@),
        Term::Group(inner) => TermView::Group(expression_view(inner)),
        Term::Capture(inner) => TermView::Capture(expression_view(inner)),
        Term::Predicate(kind) => TermView::Predicate(kind),
        Term::Quantifier(kind) => TermView::Quantifier(kind),
        Term::Literal { text, case_sensitive } => TermView::Literal { text: text@, case_sensitive },
        Term::CharClass(class) => TermView::CharClass(class@),
        Term::Dot => TermView::Dot,
        Term::Action => TermView::Action,
        Term::Unsupported(kind) => TermView::Unsupported(kind@),
    }
}

/// The views of terms, in order.
pub open spec fn terms_view(terms: Seq<Term>) -> Seq<TermView>
    decreases terms,
{
    Seq::new(
        terms.len(),
        |i: int|
            if 0 <= i < terms.len() {
                term_view(terms[i])
            } else {
                TermView::Dot
            },
    )
}

/// The views of sequences, in order.
pub open spec fn sequences_view(sequences: Seq<Sequence>) -> Seq<Seq<TermView>>
    decreases sequences,
{
    Seq::new(
        sequences.len(),
        |i: int|
            if 0 <= i < sequences.len() {
                terms_view(sequences[i].terms@)
            } else {
                Seq::empty()
            },
    )
}

/// The view of an expression.
pub open spec fn expression_view(expression: Expression) -> ExpressionView
    decreases expression,
{
    ExpressionView {
        alternatives: sequences_view(expression.alternatives@),
        allows_trailing_empty: expression.allows_trailing_empty,
    }
}

impl View for Term {
    type V = TermView;

    open spec fn view(&self) -> TermView {
        term_view(*self)
    }
}

impl View for Sequence {
    type V = Seq<TermView>;

    open spec fn view(&self) -> Seq<TermView> {
        terms_view(self.terms@)
    }
}

impl View for Expression {
    type V = ExpressionView;

    open spec fn view(&self) -> ExpressionView {
        expression_view(*self)
    }
}

impl View for Definition {
    type V = DefinitionView;

    open spec fn view(&self) -> DefinitionView {
        DefinitionView { name: self.name@, body: self.body@ }
    }
}

/// The views of definitions, in order.
pub open spec fn definitions_view(definitions: Seq<Definition>) -> Seq<DefinitionView> {
    Seq::new(definitions.len(), |i: int| definitions[i]@)
}

impl View for Grammar {
    type V = Seq<DefinitionView>;

    open spec fn view(&self) -> Seq<DefinitionView> {
        definitions_view(self.definitions@)
    }
}

/// Whether a class holds at most one negation marker.
pub open spec fn class_well_formed(class: CharClassView) -> bool {
    forall|i: int, j: int|
        0 <= i < j < class.members.len() ==> !(#[trigger] class.members[i] is Negate
            && #[trigger] class.members[j] is Negate)
}

/// Whether every expression inside a term has an alternative, and every
/// class inside it at most one negation marker.
pub open spec fn term_well_formed(term: TermView) -> bool
    decreases term,
{
    match term {
        TermView::Group(inner) => expression_well_formed(inner),
        TermView::Capture(inner) => expression_well_formed(inner),
        TermView::CharClass(class) => class_well_formed(class),
        _ => true,
    }
}

/// Whether every term of a sequence is well formed.
pub open spec fn sequence_well_formed(terms: Seq<TermView>) -> bool
    decreases terms,
{
    forall|i: int| 0 <= i < terms.len() ==> term_well_formed(#[trigger] terms[i])
}

/// Whether an expression has at least one alternative, and its alternatives
/// are well formed.
pub open spec fn expression_well_formed(expression: ExpressionView) -> bool
    decreases expression,
{
    expression.alternatives.len() > 0 && forall|i: int|
        0 <= i < expression.alternatives.len() ==> sequence_well_formed(
            #[trigger] expression.alternatives[i],
        )
}

/// Whether the expression of every definition is well formed.
pub open spec fn grammar_well_formed(grammar: Seq<DefinitionView>) -> bool {
    forall|i: int| 0 <= i < grammar.len() ==> expression_well_formed((#[trigger] grammar[i]).body)
}

} // verus!
