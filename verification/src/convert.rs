//! From the text of a grammar to the lines of the output.

use vstd::prelude::*;
use crate::ast::DefinitionView;
use crate::definition::convert_grammar;
use crate::definition::definition_text;
use crate::definition::grammar_lines;
use crate::definition::lemma_one_line_per_definition;
use crate::parser::MyParser;
use crate::parser::ParseError;
use crate::syntax::parse_grammar;

verus! {

/// The character of the digit `d`.
pub open spec fn digit_char(d: int) -> char {
    ('0' as int + d) as char
}

/// The number `n` in decimal digits, without leading zeros.
pub open spec fn decimal_text(n: nat) -> Seq<char>
    decreases n,
{
    if n < 10 {
        seq![digit_char(n as int)]
    } else {
        decimal_text(n / 10).push(digit_char((n % 10) as int))
    }
}

/// What is said of a text that is no grammar: where the first thing stands
/// that is neither a definition nor the end of the text.
pub open spec fn diagnostic_text(offset: int) -> Seq<char> {
    "expected a rule `name <- expression` at character "@ + decimal_text(offset as nat)
}

/// The one line that is given for a text that is no grammar.
pub open spec fn error_line(source_name: Seq<char>, offset: int) -> Seq<char> {
    source_name + ": Error: "@ + diagnostic_text(offset)
}

/// The lines that are given for a text: for a grammar one line for each
/// definition, in order; for any other text one line, which names the source
/// and says where the text stops being a grammar.
pub open spec fn output_lines(source_name: Seq<char>, text: Seq<char>) -> Seq<Seq<char>> {
    match parse_grammar(text) {
        Ok(grammar) => grammar_lines(grammar),
        Err(offset) => seq![error_line(source_name, offset)],
    }
}

/// A text that is a grammar gives exactly one line for each of its
/// definitions, in the order in which they are written, and each line starts
/// with the name of its definition. A text that is no grammar gives one line
/// and no more.
pub proof fn lemma_one_line_per_parsed_definition(source_name: Seq<char>, text: Seq<char>)
    ensures
        match parse_grammar(text) {
            Ok(grammar) => {
                &&& output_lines(source_name, text).len() == grammar.len()
                &&& forall|i: int|
                    0 <= i < grammar.len() ==> {
                        &&& #[trigger] output_lines(source_name, text)[i] == definition_text(
                            grammar[i],
                        )
                        &&& grammar[i].name.is_prefix_of(output_lines(source_name, text)[i])
                    }
            },
            Err(offset) => output_lines(source_name, text) == seq![
                error_line(source_name, offset),
            ],
        },
{
    match parse_grammar(text) {
        Ok(grammar) => {
            lemma_one_line_per_definition(grammar);
        },
        Err(offset) => {},
    }
}

/// Appends `n` in decimal digits.
fn append_decimal(out: &mut String, n: usize)
    ensures
        final(out)@ == old(out)@ + decimal_text(n as nat),
    decreases n,
{
    let ghost before = out@;
    if n >= 10 {
        append_decimal(out, n / 10);
    }
    let digit: u8 = (n % 10) as u8;
    out.push((48u8 + digit) as char);
    assert(out@ =~= before + decimal_text(n as nat));
}

impl ParseError {
    /// Says in words where the text stops being a grammar.
    pub fn message(&self) -> (text: String)
        ensures
            text@ == diagnostic_text(self.offset as int),
    {
        let mut text = String::new();
        text.append("expected a rule `name <- expression` at character ");
        append_decimal(&mut text, self.offset);
        text
    }
}

/// Renders the grammar that `text` holds, one line for each definition; where
/// `text` is no grammar, the result is the one line
/// `source_name: Error: …` and no line for any definition.
pub fn convert_source(source_name: &str, text: &str) -> (lines: Vec<String>)
    ensures
        lines@.len() == output_lines(source_name@, text@).len(),
        forall|i: int|
            0 <= i < lines@.len() ==> (#[trigger] lines@[i])@ == output_lines(
                source_name@,
                text@,
            )[i],
{
    match MyParser::parse(text) {
        Ok(grammar) => convert_grammar(&grammar),
        Err(error) => {
            let mut line = String::new();
            line.append(source_name);
            line.append(": Error: ");
            let message = error.message();
            line.append(message.as_str());
            let mut lines: Vec<String> = Vec::new();
            lines.push(line);
            lines
        },
    }
}

} // verus!
