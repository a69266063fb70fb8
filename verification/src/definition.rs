//! Rules: one line of output for each definition of the grammar.

use vstd::prelude::*;
use crate::ast::Definition;
use crate::ast::DefinitionView;
use crate::ast::Grammar;
use crate::expression::convert_expression;
use crate::expression::expression_text;

verus! {

/// The line for a definition: its name, ` = `, and its expression between
/// the braces of a compound-atomic rule, `${` and ` }`.
pub open spec fn definition_text(definition: DefinitionView) -> Seq<char> {
    definition.name + " = ${"@ + expression_text(definition.body) + " }"@
}

/// The lines for a grammar: one for each definition, in the order of the
/// definitions.
pub open spec fn grammar_lines(grammar: Seq<DefinitionView>) -> Seq<Seq<char>> {
    grammar.map_values(|definition: DefinitionView| definition_text(definition))
}

/// A grammar gives exactly one line for each definition, in the order of the
/// definitions, and each line starts with the name of its definition.
pub proof fn lemma_one_line_per_definition(grammar: Seq<DefinitionView>)
    ensures
        grammar_lines(grammar).len() == grammar.len(),
        forall|i: int|
            0 <= i < grammar.len() ==> {
                &&& #[trigger] grammar_lines(grammar)[i] == definition_text(grammar[i])
                &&& grammar[i].name.is_prefix_of(grammar_lines(grammar)[i])
            },
{
    assert forall|i: int| 0 <= i < grammar.len() implies grammar[i].name.is_prefix_of(
        #[trigger] grammar_lines(grammar)[i],
    ) by {
        let line = definition_text(grammar[i]);
        assert(line.subrange(0, grammar[i].name.len() as int) =~= grammar[i].name);
    }
}

/// Renders a definition as one rule of the output.
pub fn convert_definition(definition: &Definition) -> (line: String)
    ensures
        line@ == definition_text(definition@),
{
    let body = convert_expression(&definition.body);
    let mut line = String::new();
    line.append(definition.name.as_str());
    line.append(" = ${");
    line.append(body.as_str());
    line.append(" }");
    assert(line@ =~= definition_text(definition@));
    line
}

/// Renders a grammar: one line for each definition, in the order of the
/// definitions. No definition is left out, merged with another or checked
/// against the others.
pub fn convert_grammar(grammar: &Grammar) -> (lines: Vec<String>)
    ensures
        lines@.len() == grammar@.len(),
        forall|i: int| 0 <= i < lines@.len() ==> (#[trigger] lines@[i])@ == grammar_lines(grammar@)[i],
{
    let mut lines: Vec<String> = Vec::new();
    let mut i: usize = 0;
    while i < grammar.definitions.len()
        invariant
            i <= grammar.definitions.len(),
            grammar@.len() == grammar.definitions.len(),
            lines@.len() == i,
            forall|j: int| 0 <= j < i ==> (#[trigger] lines@[j])@ == definition_text(grammar@[j]),
        decreases grammar.definitions.len() - i,
    {
        let line = convert_definition(&grammar.definitions[i]);
        assert(grammar@[i as int] == grammar.definitions[i as int]@);
        lines.push(line);
        i += 1;
    }
    lines
}

} // verus!
