//! Bracketed character classes.

use vstd::prelude::*;
use crate::ast::CharClass;
use crate::ast::CharClassView;
use crate::ast::ClassMember;
use crate::ast::ClassMemberView;
use crate::text::append_part;
use crate::text::ascii_lower;
use crate::text::ascii_upper;
use crate::text::is_ascii_letter;
use crate::text::join_nonempty;
use crate::text::nonempty;
use crate::text::lemma_case_differs_for_letters;
use crate::text::lemma_join_nonempty_len;
use crate::text::lemma_join_nonempty_skips_empty;
use crate::text::lemma_nonempty_part_is_kept;
use crate::text::to_ascii_lower;
use crate::text::to_ascii_upper;

verus! {

/// Whether `c` can be a bound of a span: an ASCII character other than the
/// hyphen.
pub open spec fn is_bound(c: char) -> bool {
    c != '-' && (c as u32) < 128
}

/// The two bounds of a span `lo-hi`: three characters, the middle one a
/// hyphen, the outer ones bounds. Any other text has none.
pub open spec fn span_bounds(span: Seq<char>) -> Option<(char, char)> {
    if span.len() == 3 && span[1] == '-' && is_bound(span[0]) && is_bound(span[2]) {
        Some((span[0], span[2]))
    } else {
        None
    }
}

/// The range from `lo` to `hi`: `'lo'..'hi'`.
pub open spec fn range_text(lo: char, hi: char) -> Seq<char> {
    "'"@ + seq![lo] + "'..'"@ + seq![hi] + "'"@
}

/// A member that is no span, as a literal between double quotes: a lone
/// double quote is escaped, an escaped hyphen becomes a plain hyphen, and
/// any other text stands as it is.
pub open spec fn single_text(span: Seq<char>) -> Seq<char> {
    if span == seq!['"'] {
        "\"\\\"\""@
    } else if span == seq!['\\', '-'] {
        "\"-\""@
    } else {
        "\""@ + span + "\""@
    }
}

/// Whether the small and the capital form of the span `lo-hi` differ.
pub open spec fn case_differs(lo: char, hi: char) -> bool {
    ascii_lower(lo) != ascii_upper(lo) || ascii_lower(hi) != ascii_upper(hi)
}

/// The rendering of a span that matches irrespective of case: where the two
/// forms differ, the range in small letters or the range in capital letters;
/// where they do not, the range once.
pub open spec fn double_range_text(lo: char, hi: char) -> Seq<char> {
    if case_differs(lo, hi) {
        range_text(ascii_lower(lo), ascii_lower(hi)) + " | "@ + range_text(
            ascii_upper(lo),
            ascii_upper(hi),
        )
    } else {
        range_text(lo, hi)
    }
}

/// The placeholder for a member of a kind that has no rendering.
pub open spec fn unsupported_member_text(kind: Seq<char>) -> Seq<char> {
    "CRULE("@ + kind + ")"@
}

/// What a member adds to the alternation; the negation marker adds nothing.
pub open spec fn member_text(member: ClassMemberView) -> Seq<char> {
    match member {
        ClassMemberView::Range(span) => match span_bounds(span) {
            Some((lo, hi)) => range_text(lo, hi),
            None => single_text(span),
        },
        ClassMemberView::DoubleRange(span) => match span_bounds(span) {
            Some((lo, hi)) => double_range_text(lo, hi),
            None => single_text(span),
        },
        ClassMemberView::Negate => Seq::empty(),
        ClassMemberView::Unsupported(kind) => unsupported_member_text(kind),
    }
}

/// What each member adds, in order.
pub open spec fn member_texts(members: Seq<ClassMemberView>) -> Seq<Seq<char>> {
    members.map_values(|member: ClassMemberView| member_text(member))
}

/// The members as alternatives: what they add, joined by ` | `, with no
/// operator in front of the first.
pub open spec fn class_alternation(members: Seq<ClassMemberView>) -> Seq<char> {
    join_nonempty(member_texts(members), " | "@)
}

/// Whether the class is negated: by its flag, or by a negation marker among
/// its members.
pub open spec fn class_is_negated(class: CharClassView) -> bool {
    class.negated || exists|i: int|
        0 <= i < class.members.len() && #[trigger] class.members[i] is Negate
}

/// The negative lookahead of an alternation, followed by any one character:
/// `!( alternation ) ~ ANY`, and `!( ) ~ ANY` where the alternation is empty.
pub open spec fn negation_of(alternation: Seq<char>) -> Seq<char> {
    "!("@ + (if alternation.len() > 0 {
        " "@ + alternation
    } else {
        Seq::empty()
    }) + " ) ~ ANY"@
}

/// The rendering of a class, without the parentheses that the sequence puts
/// round it. A negated class is the negative lookahead of its alternation,
/// followed by any one character.
pub open spec fn class_text(class: CharClassView) -> Seq<char> {
    if class_is_negated(class) {
        negation_of(class_alternation(class.members))
    } else {
        class_alternation(class.members)
    }
}

/// A span that matches irrespective of case, with a letter among its bounds,
/// is rendered as two ranges joined by ` | `: the one in small letters, then
/// the one in capital letters. A span whose bounds have one form only, such
/// as digits, is rendered as exactly one range.
pub proof fn lemma_double_range_by_case(span: Seq<char>)
    requires
        span_bounds(span) is Some,
    ensures
        ({
            let (lo, hi) = span_bounds(span)->0;
            let text = member_text(ClassMemberView::DoubleRange(span));
            &&& is_ascii_letter(lo) || is_ascii_letter(hi) ==> text == range_text(
                ascii_lower(lo),
                ascii_lower(hi),
            ) + " | "@ + range_text(ascii_upper(lo), ascii_upper(hi))
            &&& !is_ascii_letter(lo) && !is_ascii_letter(hi) ==> text == range_text(lo, hi)
        }),
{
    let (lo, hi) = span_bounds(span)->0;
    lemma_case_differs_for_letters(lo);
    lemma_case_differs_for_letters(hi);
}

/// A negated class is always rendered as the negative lookahead of its
/// alternation, followed by any one character; it makes no difference whether
/// the flag or a marker among the members negates it.
pub proof fn lemma_negated_class_shape(class: CharClassView)
    requires
        class_is_negated(class),
    ensures
        class_text(class) == negation_of(class_alternation(class.members)),
        class.members.len() > 0 && !(class.members[0] is Negate) ==> class_text(class) == "!( "@
            + class_alternation(class.members) + " ) ~ ANY"@,
{
    let texts = member_texts(class.members);
    if class.members.len() > 0 && !(class.members[0] is Negate) {
        lemma_member_has_text(class.members[0]);
        assert(texts[0].len() > 0);
        lemma_nonempty_part_is_kept(texts, 0);
        lemma_join_nonempty_len(texts, " | "@);
        let alternation = class_alternation(class.members);
        assert("!("@ + (" "@ + alternation) + " ) ~ ANY"@ =~= "!( "@ + alternation + " ) ~ ANY"@) by {
            reveal_strlit("!(");
            reveal_strlit(" ");
            reveal_strlit("!( ");
        }
    }
}

/// Every member but the negation marker adds some text.
pub proof fn lemma_member_has_text(member: ClassMemberView)
    requires
        !(member is Negate),
    ensures
        member_text(member).len() > 0,
{
    reveal_strlit("\"");
    reveal_strlit("\"-\"");
    reveal_strlit("\"\\\"\"");
    reveal_strlit("'");
    reveal_strlit("CRULE(");
}

/// A negation marker adds no alternative: the alternation of the members is
/// the same with the marker and without it.
pub proof fn lemma_negation_marker_adds_no_branch(members: Seq<ClassMemberView>, i: int)
    requires
        0 <= i < members.len(),
        members[i] is Negate,
    ensures
        class_alternation(members) == class_alternation(members.remove(i)),
{
    assert(member_texts(members.remove(i)) =~= member_texts(members).remove(i));
    lemma_join_nonempty_skips_empty(member_texts(members), " | "@, i);
}

/// Appends the range from `lo` to `hi`.
fn append_range(out: &mut String, lo: char, hi: char)
    ensures
        final(out)@ == old(out)@ + range_text(lo, hi),
{
    let ghost before = out@;
    out.append("'");
    out.push(lo);
    out.append("'..'");
    out.push(hi);
    out.append("'");
    assert(out@ =~= before + range_text(lo, hi));
}

/// The bounds of `span`, where it is a span `lo-hi`.
pub fn bounds_of(span: &str) -> (bounds: Option<(char, char)>)
    ensures
        bounds == span_bounds(span@),
{
    if span.unicode_len() != 3 {
        return None;
    }
    let lo = span.get_char(0);
    let hyphen = span.get_char(1);
    let hi = span.get_char(2);
    if hyphen == '-' && lo != '-' && (lo as u32) < 128 && hi != '-' && (hi as u32) < 128 {
        Some((lo, hi))
    } else {
        None
    }
}

/// Renders a member that is no span.
fn single_fragment(span: &str) -> (out: String)
    ensures
        out@ == single_text(span@),
{
    let len = span.unicode_len();
    let mut out = String::new();
    if len == 1 && span.get_char(0) == '"' {
        assert(span@ =~= seq!['"']);
        out.append("\"\\\"\"");
    } else if len == 2 && span.get_char(0) == '\\' && span.get_char(1) == '-' {
        assert(span@ =~= seq!['\\', '-']);
        out.append("\"-\"");
    } else {
        out.append("\"");
        out.append(span);
        out.append("\"");
        assert(out@ =~= "\""@ + span@ + "\""@);
    }
    out
}

/// Renders one member of a class; the negation marker gives the empty text.
pub fn convert_class_member(member: &ClassMember) -> (out: String)
    ensures
        out@ == member_text(member@),
{
    let mut out = String::new();
    match member {
        ClassMember::Range(span) => {
            match bounds_of(span.as_str()) {
                Some((lo, hi)) => {
                    append_range(&mut out, lo, hi);
                },
                None => {
                    out = single_fragment(span.as_str());
                },
            }
        },
        ClassMember::DoubleRange(span) => {
            match bounds_of(span.as_str()) {
                Some((lo, hi)) => {
                    let small_lo = to_ascii_lower(lo);
                    let small_hi = to_ascii_lower(hi);
                    let capital_lo = to_ascii_upper(lo);
                    let capital_hi = to_ascii_upper(hi);
                    if small_lo != capital_lo || small_hi != capital_hi {
                        append_range(&mut out, small_lo, small_hi);
                        out.append(" | ");
                        append_range(&mut out, capital_lo, capital_hi);
                    } else {
                        append_range(&mut out, lo, hi);
                    }
                },
                None => {
                    out = single_fragment(span.as_str());
                },
            }
        },
        ClassMember::Negate => {},
        ClassMember::Unsupported(kind) => {
            out.append("CRULE(");
            out.append(kind.as_str());
            out.append(")");
        },
    }
    assert(out@ =~= member_text(member@));
    out
}

/// Renders a character class, without the parentheses that a sequence puts
/// round it.
pub fn convert_class(class: &CharClass) -> (out: String)
    ensures
        out@ == class_text(class@),
{
    let mut alternation = String::new();
    let mut negated = class.negated;
    let mut i: usize = 0;
    assert(member_texts(class@.members.take(0)) =~= Seq::<Seq<char>>::empty());
    assert(nonempty(Seq::<Seq<char>>::empty()) =~= Seq::<Seq<char>>::empty()) by {
        reveal(Seq::filter);
    }
    while i < class.members.len()
        invariant
            i <= class.members.len(),
            class@.members.len() == class.members.len(),
            alternation@ == class_alternation(class@.members.take(i as int)),
            negated <==> (class.negated || exists|j: int|
                0 <= j < i && #[trigger] class@.members[j] is Negate),
        decreases class.members.len() - i,
    {
        let member = &class.members[i];
        let fragment = convert_class_member(member);
        proof {
            let done = class@.members.take(i as int);
            assert(class@.members[i as int] == member@);
            assert(class@.members.take(i + 1) =~= done.push(member@));
            assert(member_texts(done.push(member@)) =~= member_texts(done).push(
                member_text(member@),
            ));
        }
        if let ClassMember::Negate = member {
            negated = true;
        }
        append_part(
            &mut alternation,
            fragment.as_str(),
            " | ",
            Ghost(member_texts(class@.members.take(i as int))),
        );
        i += 1;
    }
    assert(class@.members.take(i as int) =~= class@.members);
    if negated {
        let mut out = String::new();
        out.append("!(");
        if !alternation.as_str().is_empty() {
            out.append(" ");
            out.append(alternation.as_str());
        }
        out.append(" ) ~ ANY");
        assert(out@ =~= negation_of(alternation@));
        out
    } else {
        alternation
    }
}

} // verus!
