//! Sequences of characters: joining parts, and the case of ASCII letters.

use vstd::prelude::*;

verus! {

/// `String::push` appends one character to the end of the string.
pub assume_specification[ String::push ](s: &mut String, c: char)
    ensures
        final(s)@ == old(s)@.push(c),
;

/// The parts in order, with `separator` between each two neighbours.
pub open spec fn join(parts: Seq<Seq<char>>, separator: Seq<char>) -> Seq<char>
    decreases parts.len(),
{
    if parts.len() == 0 {
        Seq::empty()
    } else if parts.len() == 1 {
        parts[0]
    } else {
        join(parts.drop_last(), separator) + separator + parts.last()
    }
}

/// The parts in order, one directly after the other.
pub open spec fn concat(parts: Seq<Seq<char>>) -> Seq<char> {
    join(parts, Seq::empty())
}

/// The test that a part holds at least one character.
pub open spec fn has_text() -> spec_fn(Seq<char>) -> bool {
    |part: Seq<char>| part.len() > 0
}

/// The parts that hold at least one character, in order.
pub open spec fn nonempty(parts: Seq<Seq<char>>) -> Seq<Seq<char>> {
    parts.filter(has_text())
}

/// The non-empty parts in order, with `separator` between each two
/// neighbours; empty parts leave no trace.
pub open spec fn join_nonempty(parts: Seq<Seq<char>>, separator: Seq<char>) -> Seq<char> {
    join(nonempty(parts), separator)
}

/// Joining one more part adds the separator and the part, or the part alone
/// where it is the first.
pub proof fn lemma_join_push(parts: Seq<Seq<char>>, separator: Seq<char>, part: Seq<char>)
    ensures
        join(parts.push(part), separator) == if parts.len() == 0 {
            part
        } else {
            join(parts, separator) + separator + part
        },
{
    assert(parts.push(part).drop_last() =~= parts);
}

/// Concatenating one more part adds the part.
pub proof fn lemma_concat_push(parts: Seq<Seq<char>>, part: Seq<char>)
    ensures
        concat(parts.push(part)) == concat(parts) + part,
{
    lemma_join_push(parts, Seq::empty(), part);
    if parts.len() == 0 {
        assert(concat(parts) + part =~= part);
    } else {
        assert(concat(parts) + Seq::<char>::empty() + part =~= concat(parts) + part);
    }
}

/// Concatenating two lists of parts is concatenating each.
pub proof fn lemma_concat_add(front: Seq<Seq<char>>, back: Seq<Seq<char>>)
    ensures
        concat(front + back) == concat(front) + concat(back),
    decreases back.len(),
{
    if back.len() == 0 {
        assert(front + back =~= front);
        assert(concat(front) + concat(back) =~= concat(front));
    } else {
        let rest = back.drop_last();
        assert(back =~= rest.push(back.last()));
        assert(front + back =~= (front + rest).push(back.last()));
        lemma_concat_add(front, rest);
        lemma_concat_push(front + rest, back.last());
        lemma_concat_push(rest, back.last());
        assert(concat(front) + concat(rest) + back.last() =~= concat(front) + (concat(rest)
            + back.last()));
    }
}

/// An empty part adds nothing to a concatenation.
pub proof fn lemma_concat_remove_empty(parts: Seq<Seq<char>>, i: int)
    requires
        0 <= i < parts.len(),
        parts[i].len() == 0,
    ensures
        concat(parts) == concat(parts.remove(i)),
{
    let front = parts.take(i);
    let back = parts.skip(i + 1);
    assert(parts =~= front.push(parts[i]) + back);
    assert(parts.remove(i) =~= front + back);
    lemma_concat_add(front.push(parts[i]), back);
    lemma_concat_add(front, back);
    lemma_concat_push(front, parts[i]);
    assert(concat(front) + parts[i] =~= concat(front));
}

/// A part that holds a character is among the non-empty parts.
pub proof fn lemma_nonempty_part_is_kept(parts: Seq<Seq<char>>, i: int)
    requires
        0 <= i < parts.len(),
        parts[i].len() > 0,
    ensures
        nonempty(parts).len() > 0,
    decreases parts.len(),
{
    reveal(Seq::filter);
    if i < parts.len() - 1 {
        lemma_nonempty_part_is_kept(parts.drop_last(), i);
    }
}

/// Non-empty parts joined give a non-empty text; no parts give the empty text.
pub proof fn lemma_join_nonempty_len(parts: Seq<Seq<char>>, separator: Seq<char>)
    ensures
        join_nonempty(parts, separator).len() == 0 <==> nonempty(parts).len() == 0,
{
    let kept = nonempty(parts);
    if kept.len() > 0 {
        parts.lemma_filter_pred(has_text(), kept.len() - 1);
        assert(kept.last().len() > 0);
    }
}

/// Taking one more part into account: an empty part changes nothing, and a
/// non-empty one is joined on.
pub proof fn lemma_join_nonempty_push(parts: Seq<Seq<char>>, separator: Seq<char>, part: Seq<char>)
    ensures
        join_nonempty(parts.push(part), separator) == if part.len() == 0 {
            join_nonempty(parts, separator)
        } else if join_nonempty(parts, separator).len() == 0 {
            part
        } else {
            join_nonempty(parts, separator) + separator + part
        },
{
    parts.lemma_filter_push(part, has_text());
    lemma_join_nonempty_len(parts, separator);
    lemma_join_push(nonempty(parts), separator, part);
}

/// An empty part leaves no trace: joining the non-empty parts with or
/// without it gives the same text.
pub proof fn lemma_join_nonempty_skips_empty(parts: Seq<Seq<char>>, separator: Seq<char>, i: int)
    requires
        0 <= i < parts.len(),
        parts[i].len() == 0,
    ensures
        join_nonempty(parts, separator) == join_nonempty(parts.remove(i), separator),
{
    let front = parts.take(i);
    let back = parts.skip(i + 1);
    let middle = seq![parts[i]];
    assert(parts =~= front + middle + back);
    assert(parts.remove(i) =~= front + back);
    Seq::filter_distributes_over_add(front + middle, back, has_text());
    Seq::filter_distributes_over_add(front, middle, has_text());
    Seq::filter_distributes_over_add(front, back, has_text());
    assert(middle.filter(has_text()) =~= Seq::<Seq<char>>::empty()) by {
        reveal_with_fuel(Seq::filter, 2);
    }
    assert(front.filter(has_text()) + middle.filter(has_text()) =~= front.filter(has_text()));
}

/// Adds `part` to a text that holds the non-empty ones of `parts`, joined.
pub(crate) fn append_part(
    out: &mut String,
    part: &str,
    separator: &str,
    Ghost(parts): Ghost<Seq<Seq<char>>>,
)
    requires
        old(out)@ == join_nonempty(parts, separator@),
    ensures
        final(out)@ == join_nonempty(parts.push(part@), separator@),
{
    proof {
        lemma_join_nonempty_push(parts, separator@, part@);
    }
    if !part.is_empty() {
        if !out.as_str().is_empty() {
            out.append(separator);
        }
        out.append(part);
    }
}

/// Whether `c` is an ASCII capital letter.
pub open spec fn is_ascii_upper(c: char) -> bool {
    'A' <= c && c <= 'Z'
}

/// Whether `c` is an ASCII small letter.
pub open spec fn is_ascii_lower(c: char) -> bool {
    'a' <= c && c <= 'z'
}

/// Whether `c` is an ASCII letter.
pub open spec fn is_ascii_letter(c: char) -> bool {
    is_ascii_upper(c) || is_ascii_lower(c)
}

/// `c` with an ASCII capital letter made small; any other character as it is.
pub open spec fn ascii_lower(c: char) -> char {
    if is_ascii_upper(c) {
        ((c as u8) + 32) as char
    } else {
        c
    }
}

/// `c` with an ASCII small letter made capital; any other character as it is.
pub open spec fn ascii_upper(c: char) -> char {
    if is_ascii_lower(c) {
        ((c as u8) - 32) as char
    } else {
        c
    }
}

/// The small and the capital form of a character differ for the ASCII
/// letters, and for no other character.
pub proof fn lemma_case_differs_for_letters(c: char)
    ensures
        ascii_lower(c) != ascii_upper(c) <==> is_ascii_letter(c),
{
}

/// Computes [`ascii_lower`].
pub fn to_ascii_lower(c: char) -> (r: char)
    ensures
        r == ascii_lower(c),
{
    if 'A' <= c && c <= 'Z' {
        let code: u8 = c as u8;
        (code + 32) as char
    } else {
        c
    }
}

/// Computes [`ascii_upper`].
pub fn to_ascii_upper(c: char) -> (r: char)
    ensures
        r == ascii_upper(c),
{
    if 'a' <= c && c <= 'z' {
        let code: u8 = c as u8;
        (code - 32) as char
    } else {
        c
    }
}

} // verus!
