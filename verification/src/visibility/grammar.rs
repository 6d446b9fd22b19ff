//! The grammar of visibility expressions, stated without reference to a
//! parser, and the law that parsing accepts exactly what it derives:
//!
//! ```text
//! or      = and { "|" and }
//! and     = primary { "&" primary }
//! primary = label | "(" or ")"
//! ```

use vstd::prelude::*;

use crate::error::Error;
use crate::visibility::formula::{
    combined, label_len, parsed, parsed_and, parsed_and_tail, parsed_or, parsed_or_tail,
    parsed_primary, starts_with, valid_label, Formula, Operator,
};
use crate::visibility::laws::{ends_label, lemma_label_len, lemma_read_label};

verus! {

/// The parts from index `from` on, each but the first of all behind the
/// separator.
pub open spec fn joined(parts: Seq<Seq<char>>, from: int, separator: char) -> Seq<char>
    decreases parts.len() - from,
{
    if 0 <= from < parts.len() {
        let lead = if from == 0 {
            Seq::empty()
        } else {
            seq![separator]
        };
        lead + parts[from] + joined(parts, from + 1, separator)
    } else {
        Seq::empty()
    }
}

/// Whether `text` is a disjunction that stands for `formula`.
pub open spec fn is_or(text: Seq<char>, formula: Formula) -> bool
    decreases text.len(), 2int,
{
    exists|parts: Seq<Seq<char>>, children: Seq<Formula>|
        {
            &&& #[trigger] joins(parts, children, '|', text)
            &&& formula == combined(Operator::Or, children)
            &&& forall|i: int|
                0 <= i < parts.len() ==> (#[trigger] parts[i]).len() <= text.len() && is_and(
                    parts[i],
                    children[i],
                )
        }
}

/// Whether `text` is a conjunction that stands for `formula`.
pub open spec fn is_and(text: Seq<char>, formula: Formula) -> bool
    decreases text.len(), 1int,
{
    exists|parts: Seq<Seq<char>>, children: Seq<Formula>|
        {
            &&& #[trigger] joins(parts, children, '&', text)
            &&& formula == combined(Operator::And, children)
            &&& forall|i: int|
                0 <= i < parts.len() ==> (#[trigger] parts[i]).len() <= text.len() && is_primary(
                    parts[i],
                    children[i],
                )
        }
}

/// Whether `text` is a label or a parenthesized expression that stands for
/// `formula`.
pub open spec fn is_primary(text: Seq<char>, formula: Formula) -> bool
    decreases text.len(), 0int,
{
    ||| valid_label(text) && formula == Formula::Label(text)
    ||| text.len() >= 2 && text[0] == '(' && text.last() == ')' && is_or(
        text.subrange(1, text.len() - 1),
        formula,
    )
}

/// Whether `text` consists of `parts` with the separator between them, one for
/// each child.
pub open spec fn joins(
    parts: Seq<Seq<char>>,
    children: Seq<Formula>,
    separator: char,
    text: Seq<char>,
) -> bool {
    &&& parts.len() == children.len()
    &&& parts.len() >= 1
    &&& text == joined(parts, 0, separator)
}

// ---------------------------------------------------------------------------
// Everything that the grammar derives is accepted
// ---------------------------------------------------------------------------
proof fn lemma_primary_is_read(text: Seq<char>, formula: Formula, rest: Seq<char>)
    requires
        is_primary(text, formula),
        ends_label(rest),
    ensures
        parsed_primary(text + rest) == Ok::<(Formula, Seq<char>), Error>((formula, rest)),
    decreases text.len(), 0int, 0int,
{
    if valid_label(text) && formula == Formula::Label(text) {
        lemma_read_label(text, rest);
    } else {
        let inner = text.subrange(1, text.len() - 1);
        let closing = seq![')'] + rest;
        lemma_or_is_read(inner, formula, closing);
        assert((text + rest).skip(1) =~= inner + closing);
        assert(closing.skip(1) =~= rest);
    }
}

proof fn lemma_and_is_read(text: Seq<char>, formula: Formula, rest: Seq<char>)
    requires
        is_and(text, formula),
        ends_label(rest),
        !starts_with(rest, '&'),
    ensures
        parsed_and(text + rest) == Ok::<(Formula, Seq<char>), Error>((formula, rest)),
    decreases text.len(), 2int, 0int,
{
    let (parts, children) = choose|parts: Seq<Seq<char>>, children: Seq<Formula>|
        {
            &&& #[trigger] joins(parts, children, '&', text)
            &&& formula == combined(Operator::And, children)
            &&& forall|i: int|
                0 <= i < parts.len() ==> (#[trigger] parts[i]).len() <= text.len() && is_primary(
                    parts[i],
                    children[i],
                )
        };
    let tail = joined(parts, 1, '&') + rest;
    assert(text + rest =~= parts[0] + tail);
    assert(is_primary(parts[0], children[0]));
    lemma_primary_is_read(parts[0], children[0], tail);
    assert(children.take(1) =~= seq![children[0]]);
    lemma_and_tail_is_read(text, parts, children, 1, rest);
}

proof fn lemma_and_tail_is_read(
    text: Seq<char>,
    parts: Seq<Seq<char>>,
    children: Seq<Formula>,
    from: int,
    rest: Seq<char>,
)
    requires
        parts.len() == children.len(),
        1 <= from <= parts.len(),
        forall|i: int|
            0 <= i < parts.len() ==> (#[trigger] parts[i]).len() <= text.len() && is_primary(
                parts[i],
                children[i],
            ),
        ends_label(rest),
        !starts_with(rest, '&'),
    ensures
        parsed_and_tail(children.take(from), joined(parts, from, '&') + rest) == Ok::<
            (Formula, Seq<char>),
            Error,
        >((combined(Operator::And, children), rest)),
    decreases text.len(), 1int, parts.len() - from,
{
    let remaining = joined(parts, from, '&') + rest;
    if from == parts.len() {
        assert(children.take(from) =~= children);
        assert(remaining =~= rest);
    } else {
        let tail = joined(parts, from + 1, '&') + rest;
        assert(remaining.skip(1) =~= parts[from] + tail);
        assert(is_primary(parts[from], children[from]));
        lemma_primary_is_read(parts[from], children[from], tail);
        assert(children.take(from + 1) =~= children.take(from).push(children[from]));
        lemma_and_tail_is_read(text, parts, children, from + 1, rest);
    }
}

proof fn lemma_or_is_read(text: Seq<char>, formula: Formula, rest: Seq<char>)
    requires
        is_or(text, formula),
        ends_label(rest),
        !starts_with(rest, '&'),
        !starts_with(rest, '|'),
    ensures
        parsed_or(text + rest) == Ok::<(Formula, Seq<char>), Error>((formula, rest)),
    decreases text.len(), 4int, 0int,
{
    let (parts, children) = choose|parts: Seq<Seq<char>>, children: Seq<Formula>|
        {
            &&& #[trigger] joins(parts, children, '|', text)
            &&& formula == combined(Operator::Or, children)
            &&& forall|i: int|
                0 <= i < parts.len() ==> (#[trigger] parts[i]).len() <= text.len() && is_and(
                    parts[i],
                    children[i],
                )
        };
    let tail = joined(parts, 1, '|') + rest;
    assert(text + rest =~= parts[0] + tail);
    assert(is_and(parts[0], children[0]));
    lemma_and_is_read(parts[0], children[0], tail);
    assert(children.take(1) =~= seq![children[0]]);
    lemma_or_tail_is_read(text, parts, children, 1, rest);
}

proof fn lemma_or_tail_is_read(
    text: Seq<char>,
    parts: Seq<Seq<char>>,
    children: Seq<Formula>,
    from: int,
    rest: Seq<char>,
)
    requires
        parts.len() == children.len(),
        1 <= from <= parts.len(),
        forall|i: int|
            0 <= i < parts.len() ==> (#[trigger] parts[i]).len() <= text.len() && is_and(
                parts[i],
                children[i],
            ),
        ends_label(rest),
        !starts_with(rest, '&'),
        !starts_with(rest, '|'),
    ensures
        parsed_or_tail(children.take(from), joined(parts, from, '|') + rest) == Ok::<
            (Formula, Seq<char>),
            Error,
        >((combined(Operator::Or, children), rest)),
    decreases text.len(), 3int, parts.len() - from,
{
    let remaining = joined(parts, from, '|') + rest;
    if from == parts.len() {
        assert(children.take(from) =~= children);
        assert(remaining =~= rest);
    } else {
        let tail = joined(parts, from + 1, '|') + rest;
        assert(remaining.skip(1) =~= parts[from] + tail);
        assert(is_and(parts[from], children[from]));
        lemma_and_is_read(parts[from], children[from], tail);
        assert(children.take(from + 1) =~= children.take(from).push(children[from]));
        lemma_or_tail_is_read(text, parts, children, from + 1, rest);
    }
}

// ---------------------------------------------------------------------------
// Everything that is accepted is derived by the grammar
// ---------------------------------------------------------------------------
/// Whether `rest` is what is left of `text`.
spec fn leaves(text: Seq<char>, rest: Seq<char>) -> bool {
    &&& rest.len() <= text.len()
    &&& rest == text.skip(text.len() - rest.len())
}

/// What was read of `text` when `rest` is left.
spec fn consumed(text: Seq<char>, rest: Seq<char>) -> Seq<char> {
    text.take(text.len() - rest.len())
}

/// One more part goes behind a separator.
pub proof fn lemma_joined_push(
    parts: Seq<Seq<char>>,
    part: Seq<char>,
    from: int,
    separator: char,
)
    requires
        parts.len() >= 1,
        0 <= from <= parts.len(),
    ensures
        joined(parts.push(part), from, separator) == joined(parts, from, separator)
            + seq![separator] + part,
    decreases parts.len() - from,
{
    let longer = parts.push(part);
    if from == parts.len() {
        assert(joined(longer, from + 1, separator) =~= Seq::empty());
    } else {
        lemma_joined_push(parts, part, from + 1, separator);
        assert(longer[from] == parts[from]);
    }
    assert(joined(longer, from, separator) =~= joined(parts, from, separator) + seq![separator]
        + part);
}

/// No part is longer than the whole.
pub proof fn lemma_part_len(parts: Seq<Seq<char>>, from: int, separator: char, at: int)
    requires
        0 <= from <= at < parts.len(),
    ensures
        parts[at].len() <= joined(parts, from, separator).len(),
    decreases parts.len() - from,
{
    if from < at {
        lemma_part_len(parts, from + 1, separator, at);
    }
}

proof fn lemma_primary_is_derived(text: Seq<char>)
    ensures
        parsed_primary(text) matches Ok((formula, rest)) ==> leaves(text, rest) && is_primary(
            consumed(text, rest),
            formula,
        ) && rest.len() < text.len(),
    decreases text.len(), 0int,
{
    if let Ok((formula, rest)) = parsed_primary(text) {
        if starts_with(text, '(') {
            lemma_or_is_derived(text.skip(1));
            let closing = parsed_or(text.skip(1))->Ok_0.1;
            let inner = consumed(text.skip(1), closing);
            let whole = consumed(text, rest);
            assert(rest =~= text.skip(text.len() - rest.len()));
            assert(whole.subrange(1, whole.len() - 1) =~= inner);
            assert(whole.last() == closing[0]);
        } else {
            let len = label_len(text) as int;
            lemma_label_len(text);
            assert(rest =~= text.skip(text.len() - rest.len()));
            assert(consumed(text, rest) =~= text.take(len));
        }
    }
}

proof fn lemma_and_is_derived(text: Seq<char>)
    ensures
        parsed_and(text) matches Ok((formula, rest)) ==> leaves(text, rest) && is_and(
            consumed(text, rest),
            formula,
        ) && rest.len() < text.len(),
    decreases text.len(), 2int,
{
    lemma_primary_is_derived(text);
    if let Ok((first, after)) = parsed_primary(text) {
        let part = consumed(text, after);
        lemma_and_tail_is_derived(seq![first], seq![part], after);
        if let Ok((formula, rest)) = parsed_and(text) {
            reveal_with_fuel(joined, 2);
            assert(joined(seq![part], 0, '&') =~= part);
            assert(rest =~= text.skip(text.len() - rest.len()));
            assert(consumed(text, rest) =~= part + consumed(after, rest));
        }
    }
}

proof fn lemma_and_tail_is_derived(
    children: Seq<Formula>,
    parts: Seq<Seq<char>>,
    text: Seq<char>,
)
    requires
        parts.len() == children.len(),
        parts.len() >= 1,
        forall|i: int| 0 <= i < parts.len() ==> is_primary(#[trigger] parts[i], children[i]),
    ensures
        parsed_and_tail(children, text) matches Ok((formula, rest)) ==> leaves(text, rest)
            && is_and(joined(parts, 0, '&') + consumed(text, rest), formula),
    decreases text.len(), 1int,
{
    if starts_with(text, '&') {
        lemma_primary_is_derived(text.skip(1));
        if let Ok((child, after)) = parsed_primary(text.skip(1)) {
            let part = consumed(text.skip(1), after);
            let more = parts.push(part);
            assert forall|i: int| 0 <= i < more.len() implies is_primary(
                #[trigger] more[i],
                children.push(child)[i],
            ) by {
                if i < parts.len() {
                    assert(more[i] == parts[i]);
                }
            }
            lemma_and_tail_is_derived(children.push(child), more, after);
            lemma_joined_push(parts, part, 0, '&');
            if let Ok((formula, rest)) = parsed_and_tail(children, text) {
                assert(rest =~= text.skip(text.len() - rest.len()));
                assert(joined(more, 0, '&') + consumed(after, rest) =~= joined(parts, 0, '&')
                    + consumed(text, rest));
            }
        }
    } else {
        let whole = joined(parts, 0, '&');
        assert(text =~= text.skip(0));
        assert(whole + consumed(text, text) =~= whole);
        assert forall|i: int| 0 <= i < parts.len() implies (#[trigger] parts[i]).len()
            <= whole.len() by {
            lemma_part_len(parts, 0, '&', i);
        }
        assert(joins(parts, children, '&', whole));
    }
}

proof fn lemma_or_is_derived(text: Seq<char>)
    ensures
        parsed_or(text) matches Ok((formula, rest)) ==> leaves(text, rest) && is_or(
            consumed(text, rest),
            formula,
        ) && rest.len() < text.len(),
    decreases text.len(), 4int,
{
    lemma_and_is_derived(text);
    if let Ok((first, after)) = parsed_and(text) {
        let part = consumed(text, after);
        lemma_or_tail_is_derived(seq![first], seq![part], after);
        if let Ok((formula, rest)) = parsed_or(text) {
            reveal_with_fuel(joined, 2);
            assert(joined(seq![part], 0, '|') =~= part);
            assert(rest =~= text.skip(text.len() - rest.len()));
            assert(consumed(text, rest) =~= part + consumed(after, rest));
        }
    }
}

proof fn lemma_or_tail_is_derived(
    children: Seq<Formula>,
    parts: Seq<Seq<char>>,
    text: Seq<char>,
)
    requires
        parts.len() == children.len(),
        parts.len() >= 1,
        forall|i: int| 0 <= i < parts.len() ==> is_and(#[trigger] parts[i], children[i]),
    ensures
        parsed_or_tail(children, text) matches Ok((formula, rest)) ==> leaves(text, rest)
            && is_or(joined(parts, 0, '|') + consumed(text, rest), formula),
    decreases text.len(), 3int,
{
    if starts_with(text, '|') {
        lemma_and_is_derived(text.skip(1));
        if let Ok((child, after)) = parsed_and(text.skip(1)) {
            let part = consumed(text.skip(1), after);
            let more = parts.push(part);
            assert forall|i: int| 0 <= i < more.len() implies is_and(
                #[trigger] more[i],
                children.push(child)[i],
            ) by {
                if i < parts.len() {
                    assert(more[i] == parts[i]);
                }
            }
            lemma_or_tail_is_derived(children.push(child), more, after);
            lemma_joined_push(parts, part, 0, '|');
            if let Ok((formula, rest)) = parsed_or_tail(children, text) {
                assert(rest =~= text.skip(text.len() - rest.len()));
                assert(joined(more, 0, '|') + consumed(after, rest) =~= joined(parts, 0, '|')
                    + consumed(text, rest));
            }
        }
    } else {
        let whole = joined(parts, 0, '|');
        assert(text =~= text.skip(0));
        assert(whole + consumed(text, text) =~= whole);
        assert forall|i: int| 0 <= i < parts.len() implies (#[trigger] parts[i]).len()
            <= whole.len() by {
            lemma_part_len(parts, 0, '|', i);
        }
        assert(joins(parts, children, '|', whole));
    }
}

/// A text is accepted, and stands for a tree, exactly if the grammar derives
/// it for that tree; the empty text is public.
pub proof fn lemma_grammar_is_exact(text: Seq<char>, formula: Formula)
    ensures
        parsed(text) == Ok::<Formula, Error>(formula) <==> if text.len() == 0 {
            formula is Public
        } else {
            is_or(text, formula)
        },
{
    let nothing = Seq::<char>::empty();
    assert(text + nothing =~= text);
    if text.len() > 0 {
        if is_or(text, formula) {
            lemma_or_is_read(text, formula, nothing);
        }
        lemma_or_is_derived(text);
        if let Ok((found, rest)) = parsed_or(text) {
            if rest.len() == 0 {
                assert(consumed(text, rest) =~= text);
            }
        }
    }
}

/// The grammar is unambiguous: a text stands for at most one tree.
pub proof fn lemma_grammar_is_unambiguous(text: Seq<char>, a: Formula, b: Formula)
    requires
        is_or(text, a),
        is_or(text, b),
    ensures
        a == b,
{
    let nothing = Seq::<char>::empty();
    lemma_or_is_read(text, a, nothing);
    lemma_or_is_read(text, b, nothing);
}

/// A conjunction stands for at most one tree.
pub proof fn lemma_conjunctions_are_unambiguous(text: Seq<char>, a: Formula, b: Formula)
    requires
        is_and(text, a),
        is_and(text, b),
    ensures
        a == b,
{
    let nothing = Seq::<char>::empty();
    lemma_and_is_read(text, a, nothing);
    lemma_and_is_read(text, b, nothing);
}

// ---------------------------------------------------------------------------
// What is refused, and why
// ---------------------------------------------------------------------------
/// A text that begins with neither a label character nor an opening parenthesis
/// is refused for want of an operand.
pub proof fn lemma_missing_operand(text: Seq<char>)
    requires
        text.len() > 0,
        text[0] != '(',
        !('a' <= text[0] <= 'z' || 'A' <= text[0] <= 'Z' || '0' <= text[0] <= '9' || text[0] == '_'
            || text[0] == '-' || text[0] == '.' || text[0] == ':'),
    ensures
        parsed(text) == Err::<Formula, Error>(
            Error::InvalidVisibilityExpression("expected label or parenthesized expression"),
        ),
{
}

/// An expression with a closing parenthesis too many is refused for what is left
/// over, and one with an opening parenthesis too many for want of a closing one.
pub proof fn lemma_unbalanced_parentheses(text: Seq<char>, formula: Formula, more: Seq<char>)
    requires
        is_or(text, formula),
    ensures
        parsed(text + seq![')'] + more) == Err::<Formula, Error>(
            Error::InvalidVisibilityExpression("unexpected trailing visibility token"),
        ),
        parsed(seq!['('] + text) == Err::<Formula, Error>(
            Error::InvalidVisibilityExpression("expected closing parenthesis"),
        ),
{
    let nothing = Seq::<char>::empty();
    let closing = seq![')'] + more;
    lemma_or_is_read(text, formula, closing);
    assert(text + seq![')'] + more =~= text + closing);
    lemma_or_is_read(text, formula, nothing);
    let opened = seq!['('] + text;
    assert(opened.skip(1) =~= text + nothing);
}

} // verus!
