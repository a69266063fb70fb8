//! Expressions: an ordered choice between sequences, joined by `|`.

use vstd::prelude::*;
use crate::ast::Expression;
use crate::ast::ExpressionView;
use crate::ast::TermView;
use crate::sequence::convert_sequence;
use crate::sequence::sequence_text;
use crate::text::append_part;
use crate::text::join_nonempty;
use crate::text::nonempty;
use crate::text::lemma_join_nonempty_skips_empty;

verus! {

/// The rendering of each alternative, in order.
pub open spec fn branch_texts(alternatives: Seq<Seq<TermView>>) -> Seq<Seq<char>>
    decreases alternatives, 2nat,
{
    Seq::new(
        alternatives.len(),
        |i: int|
            if 0 <= i < alternatives.len() {
                sequence_text(alternatives[i])
            } else {
                Seq::empty()
            },
    )
}

/// Whether some alternative renders to the empty text.
pub open spec fn has_empty_branch(branches: Seq<Seq<char>>) -> bool {
    exists|i: int| 0 <= i < branches.len() && #[trigger] branches[i].len() == 0
}

/// Whether the expression may match nothing: it ends in a choice operator
/// with nothing after it, or one of its alternatives renders to the empty
/// text.
pub open spec fn is_optional(expression: ExpressionView) -> bool
    decreases expression, 1nat,
{
    expression.allows_trailing_empty || has_empty_branch(branch_texts(expression.alternatives))
}

/// The alternatives that render to some text, joined by ` |`, with no
/// operator in front of the first.
pub open spec fn alternation_text(expression: ExpressionView) -> Seq<char>
    decreases expression, 1nat,
{
    join_nonempty(branch_texts(expression.alternatives), " |"@)
}

/// The rendering of an expression: its alternation, put into an optional
/// group where the expression may match nothing.
pub open spec fn expression_text(expression: ExpressionView) -> Seq<char>
    decreases expression, 2nat,
{
    if is_optional(expression) {
        " ("@ + alternation_text(expression) + " )?"@
    } else {
        alternation_text(expression)
    }
}

/// The optional group is put round the whole alternation, and once: an
/// expression that may match nothing is ` (`, its alternation and ` )?`;
/// any other expression is its alternation.
pub proof fn lemma_optional_group(expression: ExpressionView)
    ensures
        is_optional(expression) ==> expression_text(expression) == " ("@ + alternation_text(
            expression,
        ) + " )?"@,
        !is_optional(expression) ==> expression_text(expression) == alternation_text(expression),
{
}

/// One more alternative that renders to the empty text, wherever it stands
/// and whether or not there were such alternatives before, adds nothing to
/// the alternation and no second group: the expression is rendered as the
/// alternation it had, in one optional group.
pub proof fn lemma_empty_branch_wraps_once(
    expression: ExpressionView,
    k: int,
    branch: Seq<TermView>,
)
    requires
        0 <= k <= expression.alternatives.len(),
        sequence_text(branch).len() == 0,
    ensures
        ({
            let more = ExpressionView {
                alternatives: expression.alternatives.insert(k, branch),
                allows_trailing_empty: expression.allows_trailing_empty,
            };
            &&& alternation_text(more) == alternation_text(expression)
            &&& expression_text(more) == " ("@ + alternation_text(expression) + " )?"@
        }),
{
    let more = ExpressionView {
        alternatives: expression.alternatives.insert(k, branch),
        allows_trailing_empty: expression.allows_trailing_empty,
    };
    let texts = branch_texts(more.alternatives);
    assert(texts[k].len() == 0);
    assert(texts.remove(k) =~= branch_texts(expression.alternatives));
    lemma_join_nonempty_skips_empty(texts, " |"@, k);
}

/// Renders an expression.
pub fn convert_expression(expr: &Expression) -> (out: String)
    ensures
        out@ == expression_text(expr@),
    decreases expr,
{
    let mut alternation = String::new();
    let mut empty_match = expr.allows_trailing_empty;
    let mut i: usize = 0;
    let ghost branches = branch_texts(expr@.alternatives);
    assert(branches.take(0) =~= Seq::<Seq<char>>::empty());
    assert(nonempty(Seq::<Seq<char>>::empty()) =~= Seq::<Seq<char>>::empty()) by {
        reveal(Seq::filter);
    }
    while i < expr.alternatives.len()
        invariant
            i <= expr.alternatives.len(),
            expr@.alternatives.len() == expr.alternatives.len(),
            branches == branch_texts(expr@.alternatives),
            alternation@ == join_nonempty(branches.take(i as int), " |"@),
            empty_match <==> (expr.allows_trailing_empty || exists|j: int|
                0 <= j < i && #[trigger] branches[j].len() == 0),
        decreases expr.alternatives.len() - i,
    {
        let seq = &expr.alternatives[i];
        assert(expr@.alternatives[i as int] == seq@);
        let text = convert_sequence(seq);
        proof {
            assert(branches[i as int] == text@);
            assert(branches.take(i + 1) =~= branches.take(i as int).push(text@));
        }
        if text.as_str().is_empty() {
            empty_match = true;
        }
        append_part(&mut alternation, text.as_str(), " |", Ghost(branches.take(i as int)));
        i += 1;
    }
    assert(branches.take(i as int) =~= branches);
    if empty_match {
        let mut out = String::new();
        out.append(" (");
        out.append(alternation.as_str());
        out.append(" )?");
        out
    } else {
        alternation
    }
}

} // verus!
