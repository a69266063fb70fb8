//! Quoted literals.

use vstd::prelude::*;
use crate::text::concat;
use crate::text::lemma_concat_push;

verus! {

/// What one character of a literal becomes between double quotes: a double
/// quote gets a backslash in front, any other character stays as it is.
pub open spec fn escape_char(c: char) -> Seq<char> {
    if c == '"' {
        seq!['\\', '"']
    } else {
        seq![c]
    }
}

/// `text` with a backslash put in front of each double quote.
pub open spec fn escape_quotes(text: Seq<char>) -> Seq<char> {
    concat(text.map_values(|c: char| escape_char(c)))
}

/// The rendering of a literal: a blank, the mark `^` where case is not to
/// matter, and the escaped text between double quotes.
pub open spec fn literal_text(text: Seq<char>, case_sensitive: bool) -> Seq<char> {
    (if case_sensitive {
        " \""@
    } else {
        " ^\""@
    }) + escape_quotes(text) + "\""@
}

/// Escaping a text that ends in `c` is escaping what stands before `c`, then `c`.
pub proof fn lemma_escape_push(text: Seq<char>, c: char)
    ensures
        escape_quotes(text.push(c)) == escape_quotes(text) + escape_char(c),
{
    let pieces = text.map_values(|c: char| escape_char(c));
    assert(text.push(c).map_values(|c: char| escape_char(c)) =~= pieces.push(escape_char(c)));
    lemma_concat_push(pieces, escape_char(c));
}

/// Escaping two texts written one after the other is escaping each.
pub proof fn lemma_escape_concat(front: Seq<char>, back: Seq<char>)
    ensures
        escape_quotes(front + back) == escape_quotes(front) + escape_quotes(back),
    decreases back.len(),
{
    if back.len() == 0 {
        assert(front + back =~= front);
        assert(escape_quotes(back) =~= Seq::<char>::empty());
        assert(escape_quotes(front) + escape_quotes(back) =~= escape_quotes(front));
    } else {
        let rest = back.drop_last();
        let c = back.last();
        assert(back =~= rest.push(c));
        assert(front + back =~= (front + rest).push(c));
        lemma_escape_concat(front, rest);
        lemma_escape_push(front + rest, c);
        lemma_escape_push(rest, c);
        assert(escape_quotes(front) + escape_quotes(rest) + escape_char(c) =~= escape_quotes(front)
            + (escape_quotes(rest) + escape_char(c)));
    }
}

/// Escaping a text that starts with `c` is `c` escaped, then the escaped rest.
pub proof fn lemma_escape_first(text: Seq<char>)
    requires
        text.len() > 0,
    ensures
        escape_quotes(text) == escape_char(text[0]) + escape_quotes(text.skip(1)),
{
    let first = seq![text[0]];
    assert(text =~= first + text.skip(1));
    lemma_escape_concat(first, text.skip(1));
    assert(first =~= Seq::<char>::empty().push(text[0]));
    lemma_escape_push(Seq::empty(), text[0]);
    assert(escape_quotes(Seq::<char>::empty()) =~= Seq::<char>::empty());
    assert(Seq::<char>::empty() + escape_char(text[0]) =~= escape_char(text[0]));
}

/// `text` with each backslash that stands directly in front of a double
/// quote taken out.
pub open spec fn unescape_quotes(text: Seq<char>) -> Seq<char>
    decreases text.len(),
{
    if text.len() == 0 {
        text
    } else if text.len() >= 2 && text[0] == '\\' && text[1] == '"' {
        seq!['"'] + unescape_quotes(text.skip(2))
    } else {
        seq![text[0]] + unescape_quotes(text.skip(1))
    }
}

/// Escaping loses nothing and alters no character: taking the backslashes
/// out of an escaped text gives the text back, whatever the text holds.
pub proof fn lemma_unescape_escape(text: Seq<char>)
    ensures
        unescape_quotes(escape_quotes(text)) == text,
    decreases text.len(),
{
    let escaped = escape_quotes(text);
    if text.len() == 0 {
        assert(escaped =~= Seq::<char>::empty());
    } else {
        let rest = text.skip(1);
        lemma_escape_first(text);
        lemma_unescape_escape(rest);
        if rest.len() > 0 {
            lemma_escape_first(rest);
        } else {
            assert(escape_quotes(rest) =~= Seq::<char>::empty());
        }
        if text[0] == '"' {
            assert(escaped.skip(2) =~= escape_quotes(rest));
            assert(seq!['"'] + rest =~= text);
        } else {
            assert(escaped.skip(1) =~= escape_quotes(rest));
            assert(escaped.len() >= 2 ==> escaped[1] != '"');
            assert(seq![text[0]] + rest =~= text);
        }
    }
}

/// Whether the character at index `j` of `text` is no double quote, or a
/// double quote with a backslash directly in front of it.
pub open spec fn quote_is_escaped(text: Seq<char>, j: int) -> bool {
    text[j] == '"' ==> j > 0 && text[j - 1] == '\\'
}

/// Whether a backslash stands directly in front of every double quote of
/// `text`.
pub open spec fn quotes_are_escaped(text: Seq<char>) -> bool {
    forall|j: int| 0 <= j < text.len() ==> #[trigger] quote_is_escaped(text, j)
}

/// In an escaped text a backslash stands directly in front of every double
/// quote.
pub proof fn lemma_escaped_quotes_follow_backslash(text: Seq<char>)
    ensures
        quotes_are_escaped(escape_quotes(text)),
    decreases text.len(),
{
    if text.len() == 0 {
        assert(escape_quotes(text) =~= Seq::<char>::empty());
    } else {
        let rest = text.drop_last();
        assert(text =~= rest.push(text.last()));
        lemma_escape_push(rest, text.last());
        lemma_escaped_quotes_follow_backslash(rest);
        let done = escape_quotes(rest);
        let all = escape_quotes(text);
        assert forall|j: int| 0 <= j < all.len() implies #[trigger] quote_is_escaped(all, j) by {
            if j < done.len() {
                assert(quote_is_escaped(done, j));
            }
        }
    }
}

/// A text without a double quote is escaped to itself.
pub proof fn lemma_escape_without_quotes(text: Seq<char>)
    requires
        forall|i: int| 0 <= i < text.len() ==> text[i] != '"',
    ensures
        escape_quotes(text) == text,
    decreases text.len(),
{
    if text.len() == 0 {
        assert(escape_quotes(text) =~= text);
    } else {
        let rest = text.drop_last();
        assert(text =~= rest.push(text.last()));
        lemma_escape_push(rest, text.last());
        lemma_escape_without_quotes(rest);
    }
}

/// A literal is rendered faithfully: between its opening mark and its
/// closing quote stands its text, in which each double quote has got a
/// backslash in front and no other character has been altered.
pub proof fn lemma_literal_is_faithful(text: Seq<char>, case_sensitive: bool)
    ensures
        literal_text(text, true) == " \""@ + escape_quotes(text) + "\""@,
        literal_text(text, false) == " ^\""@ + escape_quotes(text) + "\""@,
        unescape_quotes(escape_quotes(text)) == text,
        quotes_are_escaped(escape_quotes(text)),
{
    lemma_unescape_escape(text);
    lemma_escaped_quotes_follow_backslash(text);
}

/// Appends `text` to `out`, with a backslash in front of each double quote.
pub fn append_escaped(out: &mut String, text: &str)
    ensures
        final(out)@ == old(out)@ + escape_quotes(text@),
{
    broadcast use vstd::string::group_string_axioms;

    let ghost before = out@;
    assert(escape_quotes(text@.take(0)) =~= Seq::<char>::empty());
    assert(before + Seq::<char>::empty() =~= before);
    for c in it: text.chars()
        invariant
            it.seq() == text@,
            out@ == before + escape_quotes(text@.take(it.index() as int)),
    {
        proof {
            let done = text@.take(it.index() as int);
            assert(text@.take(it.index() + 1) =~= done.push(c));
            lemma_escape_push(done, c);
            assert(before + (escape_quotes(done) + escape_char(c)) =~= before + escape_quotes(done)
                + escape_char(c));
        }
        if c == '"' {
            out.push('\\');
            out.push('"');
            assert(out@ =~= before + escape_quotes(text@.take(it.index() as int)) + seq![
                '\\',
                '"',
            ]);
        } else {
            out.push(c);
            assert(out@ =~= before + escape_quotes(text@.take(it.index() as int)) + seq![c]);
        }
    }
    assert(text@.take(text@.len() as int) =~= text@);
}

/// Renders a literal of the source grammar, given without its quotes.
///
/// A literal that was written between single quotes (`case_sensitive`) becomes
/// `"…"`, one that was written between double quotes becomes `^"…"`.
pub fn convert_literal(text: &str, case_sensitive: bool) -> (out: String)
    ensures
        out@ == literal_text(text@, case_sensitive),
{
    let mut out = String::new();
    if case_sensitive {
        out.append(" \"");
    } else {
        out.append(" ^\"");
    }
    append_escaped(&mut out, text);
    out.append("\"");
    assert(out@ =~= literal_text(text@, case_sensitive));
    out
}

/// The rendering of a reference to a rule: a blank and the rule's name.
pub open spec fn reference_text(name: Seq<char>) -> Seq<char> {
    " "@ + name
}

/// Renders a reference to the rule `name`.
pub fn convert_identifier_name(name: &str) -> (out: String)
    ensures
        out@ == reference_text(name@),
{
    let mut out = String::new();
    out.append(" ");
    out.append(name);
    assert(out@ =~= reference_text(name@));
    out
}

} // verus!
