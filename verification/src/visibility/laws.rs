//! Laws of visibility expressions: canonicalizing keeps the meaning, gives the
//! same text to expressions that differ only in order, grouping or repetition
//! of operands, and does nothing to what is canonical already.

use vstd::prelude::*;

use crate::error::Error;
use crate::visibility::formula::{
    ascending, canonical, flattened, holds, inserted, label_char, label_len, normalized, operands,
    parsed, parsed_and, parsed_and_tail, parsed_or, parsed_or_tail, parsed_primary, rebuilt,
    sorted_unique, starts_with, text_less, text_of, tree, valid_label, written, written_from,
    Formula, Operator, Parsed,
};
use crate::visibility::text::{lemma_text_order, lemma_text_transitive};

verus! {

/// Whether every label in the tree is a label.
pub open spec fn valid_labels(formula: Formula) -> bool
    decreases formula,
{
    match formula {
        Formula::Public => true,
        Formula::Label(label) => valid_label(label),
        Formula::And(children) => forall|i: int|
            0 <= i < children.len() ==> valid_labels(#[trigger] children[i]),
        Formula::Or(children) => forall|i: int|
            0 <= i < children.len() ==> valid_labels(#[trigger] children[i]),
    }
}

/// Whether the tree is what the grammar makes of a text: valid labels, and
/// operators with at least two operands.
pub open spec fn grammatical(formula: Formula) -> bool
    decreases formula,
{
    match formula {
        Formula::Public => false,
        Formula::Label(label) => valid_label(label),
        Formula::And(children) => children.len() >= 2 && forall|i: int|
            0 <= i < children.len() ==> grammatical(#[trigger] children[i]),
        Formula::Or(children) => children.len() >= 2 && forall|i: int|
            0 <= i < children.len() ==> grammatical(#[trigger] children[i]),
    }
}

/// Whether the tree is canonical and not public: no operator directly under
/// the same operator, at least two operands each, operands in strictly
/// ascending order of their texts.
pub open spec fn proper(formula: Formula) -> bool
    decreases formula,
{
    match formula {
        Formula::Public => false,
        Formula::Label(label) => valid_label(label),
        Formula::And(children) => {
            &&& children.len() >= 2
            &&& ascending(children)
            &&& forall|i: int|
                0 <= i < children.len() ==> proper(#[trigger] children[i]) && !(
                children[i] is And)
        },
        Formula::Or(children) => {
            &&& children.len() >= 2
            &&& ascending(children)
            &&& forall|i: int|
                0 <= i < children.len() ==> proper(#[trigger] children[i]) && !(children[i] is Or)
        },
    }
}

/// Whether the tree is canonical.
pub open spec fn normal(formula: Formula) -> bool {
    formula is Public || proper(formula)
}

// ---------------------------------------------------------------------------
// What the grammar accepts
// ---------------------------------------------------------------------------
/// Whether what was read is grammatical and the text got shorter.
spec fn reads_grammatical(outcome: Parsed, text: Seq<char>) -> bool {
    outcome matches Ok((formula, rest)) ==> grammatical(formula) && rest.len() < text.len()
}

/// The label characters at the front of a text.
pub proof fn lemma_label_len(text: Seq<char>)
    ensures
        label_len(text) <= text.len(),
        forall|i: int| 0 <= i < label_len(text) ==> label_char(#[trigger] text[i]),
    decreases text.len(),
{
    if text.len() > 0 && label_char(text[0]) {
        lemma_label_len(text.skip(1));
        assert forall|i: int| 0 <= i < label_len(text) implies label_char(#[trigger] text[i]) by {
            if i > 0 {
                assert(text[i] == text.skip(1)[i - 1]);
            }
        }
    }
}

proof fn lemma_reads_or(text: Seq<char>)
    ensures
        reads_grammatical(parsed_or(text), text),
    decreases text.len(), 4int,
{
    lemma_reads_and(text);
    if let Ok((first, rest)) = parsed_and(text) {
        lemma_reads_or_tail(seq![first], rest);
    }
}

proof fn lemma_reads_or_tail(children: Seq<Formula>, text: Seq<char>)
    requires
        children.len() > 0,
        forall|i: int| 0 <= i < children.len() ==> grammatical(#[trigger] children[i]),
    ensures
        parsed_or_tail(children, text) matches Ok((formula, rest)) ==> grammatical(formula)
            && rest.len() <= text.len(),
    decreases text.len(), 3int,
{
    if starts_with(text, '|') {
        lemma_reads_and(text.skip(1));
        if let Ok((child, rest)) = parsed_and(text.skip(1)) {
            lemma_reads_or_tail(children.push(child), rest);
        }
    }
}

proof fn lemma_reads_and(text: Seq<char>)
    ensures
        reads_grammatical(parsed_and(text), text),
    decreases text.len(), 2int,
{
    lemma_reads_primary(text);
    if let Ok((first, rest)) = parsed_primary(text) {
        lemma_reads_and_tail(seq![first], rest);
    }
}

proof fn lemma_reads_and_tail(children: Seq<Formula>, text: Seq<char>)
    requires
        children.len() > 0,
        forall|i: int| 0 <= i < children.len() ==> grammatical(#[trigger] children[i]),
    ensures
        parsed_and_tail(children, text) matches Ok((formula, rest)) ==> grammatical(formula)
            && rest.len() <= text.len(),
    decreases text.len(), 1int,
{
    if starts_with(text, '&') {
        lemma_reads_primary(text.skip(1));
        if let Ok((child, rest)) = parsed_primary(text.skip(1)) {
            lemma_reads_and_tail(children.push(child), rest);
        }
    }
}

proof fn lemma_reads_primary(text: Seq<char>)
    ensures
        reads_grammatical(parsed_primary(text), text),
    decreases text.len(), 0int,
{
    if starts_with(text, '(') {
        lemma_reads_or(text.skip(1));
    } else {
        lemma_label_len(text);
    }
}

/// A text that is accepted is empty or stands for a grammatical tree.
pub proof fn lemma_parsed_is_grammatical(text: Seq<char>)
    ensures
        parsed(text) matches Ok(formula) ==> if text.len() == 0 {
            formula is Public
        } else {
            grammatical(formula)
        },
{
    lemma_reads_or(text);
}

/// A text is refused with a visibility error only.
pub proof fn lemma_parse_errors(text: Seq<char>)
    ensures
        parsed(text) matches Err(error) ==> error is InvalidVisibilityExpression,
{
    lemma_or_errors(text);
}

proof fn lemma_or_errors(text: Seq<char>)
    ensures
        parsed_or(text) matches Err(error) ==> error is InvalidVisibilityExpression,
    decreases text.len(), 4int,
{
    lemma_and_errors(text);
    lemma_reads_and(text);
    if let Ok((first, rest)) = parsed_and(text) {
        lemma_or_tail_errors(seq![first], rest);
    }
}

proof fn lemma_or_tail_errors(children: Seq<Formula>, text: Seq<char>)
    ensures
        parsed_or_tail(children, text) matches Err(error) ==> error is InvalidVisibilityExpression,
    decreases text.len(), 3int,
{
    if starts_with(text, '|') {
        lemma_and_errors(text.skip(1));
        lemma_reads_and(text.skip(1));
        if let Ok((child, rest)) = parsed_and(text.skip(1)) {
            lemma_or_tail_errors(children.push(child), rest);
        }
    }
}

proof fn lemma_and_errors(text: Seq<char>)
    ensures
        parsed_and(text) matches Err(error) ==> error is InvalidVisibilityExpression,
    decreases text.len(), 2int,
{
    lemma_primary_errors(text);
    lemma_reads_primary(text);
    if let Ok((first, rest)) = parsed_primary(text) {
        lemma_and_tail_errors(seq![first], rest);
    }
}

proof fn lemma_and_tail_errors(children: Seq<Formula>, text: Seq<char>)
    ensures
        parsed_and_tail(children, text) matches Err(error)
            ==> error is InvalidVisibilityExpression,
    decreases text.len(), 1int,
{
    if starts_with(text, '&') {
        lemma_primary_errors(text.skip(1));
        lemma_reads_primary(text.skip(1));
        if let Ok((child, rest)) = parsed_primary(text.skip(1)) {
            lemma_and_tail_errors(children.push(child), rest);
        }
    }
}

proof fn lemma_primary_errors(text: Seq<char>)
    ensures
        parsed_primary(text) matches Err(error) ==> error is InvalidVisibilityExpression,
    decreases text.len(), 0int,
{
    if starts_with(text, '(') {
        lemma_or_errors(text.skip(1));
    }
}

proof fn lemma_grammatical_labels(formula: Formula)
    requires
        grammatical(formula),
    ensures
        valid_labels(formula),
    decreases formula,
{
    match formula {
        Formula::And(children) => {
            assert forall|i: int| 0 <= i < children.len() implies valid_labels(
                #[trigger] children[i],
            ) by {
                lemma_grammatical_labels(children[i]);
            }
        },
        Formula::Or(children) => {
            assert forall|i: int| 0 <= i < children.len() implies valid_labels(
                #[trigger] children[i],
            ) by {
                lemma_grammatical_labels(children[i]);
            }
        },
        _ => {},
    }
}

// ---------------------------------------------------------------------------
// Reading back what was written
// ---------------------------------------------------------------------------
/// Whether a label cannot go on into `rest`.
pub open spec fn ends_label(rest: Seq<char>) -> bool {
    rest.len() > 0 ==> !label_char(rest[0])
}

proof fn lemma_label_len_of_label(label: Seq<char>, rest: Seq<char>)
    requires
        forall|i: int| 0 <= i < label.len() ==> label_char(#[trigger] label[i]),
        ends_label(rest),
    ensures
        label_len(label + rest) == label.len(),
    decreases label.len(),
{
    if label.len() == 0 {
        assert(label + rest =~= rest);
    } else {
        assert(label_char(label[0]));
        assert((label + rest).skip(1) =~= label.skip(1) + rest);
        lemma_label_len_of_label(label.skip(1), rest);
    }
}

/// A label is read up to where it ends.
pub proof fn lemma_read_label(label: Seq<char>, rest: Seq<char>)
    requires
        valid_label(label),
        ends_label(rest),
    ensures
        parsed_primary(label + rest) == Ok::<(Formula, Seq<char>), Error>(
            (Formula::Label(label), rest),
        ),
{
    lemma_label_len_of_label(label, rest);
    assert(label_char(label[0]));
    assert((label + rest).take(label.len() as int) =~= label);
    assert((label + rest).skip(label.len() as int) =~= rest);
}

proof fn lemma_read_primary(formula: Formula, rest: Seq<char>)
    requires
        proper(formula),
        !(formula is And),
        ends_label(rest),
    ensures
        parsed_primary(written(formula, 2) + rest) == Ok::<(Formula, Seq<char>), Error>(
            (formula, rest),
        ),
    decreases formula, 3int,
{
    match formula {
        Formula::Label(label) => lemma_read_label(label, rest),
        _ => {
            let closing = seq![')'] + rest;
            let text = written(formula, 2) + rest;
            lemma_read_or(formula, closing);
            assert(text.skip(1) =~= written(formula, 0) + closing);
            assert(closing.skip(1) =~= rest);
        },
    }
}

proof fn lemma_read_and(formula: Formula, rest: Seq<char>)
    requires
        proper(formula),
        !(formula is Or),
        ends_label(rest),
        !starts_with(rest, '&'),
    ensures
        parsed_and(written(formula, 1) + rest) == Ok::<(Formula, Seq<char>), Error>(
            (formula, rest),
        ),
    decreases formula, 1int,
{
    match formula {
        Formula::Label(label) => {
            lemma_read_label(label, rest);
        },
        Formula::And(children) => {
            let tail = written_from(children, 1, '&', 2) + rest;
            assert(written(formula, 1) + rest =~= written(children[0], 2) + tail);
            lemma_read_primary(children[0], tail);
            assert(children.take(1) =~= seq![children[0]]);
            lemma_read_and_tail(children, 1, rest);
        },
        _ => {},
    }
}

proof fn lemma_read_and_tail(children: Seq<Formula>, from: int, rest: Seq<char>)
    requires
        proper(Formula::And(children)),
        1 <= from <= children.len(),
        ends_label(rest),
        !starts_with(rest, '&'),
    ensures
        parsed_and_tail(children.take(from), written_from(children, from, '&', 2) + rest) == Ok::<
            (Formula, Seq<char>),
            Error,
        >((Formula::And(children), rest)),
    decreases children, children.len() - from,
{
    let text = written_from(children, from, '&', 2) + rest;
    if from == children.len() {
        assert(children.take(from) =~= children);
        assert(text =~= rest);
    } else {
        let tail = written_from(children, from + 1, '&', 2) + rest;
        assert(text.skip(1) =~= written(children[from], 2) + tail);
        assert(proper(children[from]));
        lemma_read_primary(children[from], tail);
        assert(children.take(from + 1) =~= children.take(from).push(children[from]));
        lemma_read_and_tail(children, from + 1, rest);
    }
}

proof fn lemma_read_or(formula: Formula, rest: Seq<char>)
    requires
        proper(formula),
        ends_label(rest),
        !starts_with(rest, '&'),
        !starts_with(rest, '|'),
    ensures
        parsed_or(written(formula, 0) + rest) == Ok::<(Formula, Seq<char>), Error>((formula, rest)),
    decreases formula, 2int,
{
    match formula {
        Formula::Or(children) => {
            let tail = written_from(children, 1, '|', 1) + rest;
            assert(written(formula, 0) + rest =~= written(children[0], 1) + tail);
            lemma_read_and(children[0], tail);
            assert(children.take(1) =~= seq![children[0]]);
            lemma_read_or_tail(children, 1, rest);
        },
        _ => {
            assert(written(formula, 0) == written(formula, 1));
            lemma_read_and(formula, rest);
        },
    }
}

proof fn lemma_read_or_tail(children: Seq<Formula>, from: int, rest: Seq<char>)
    requires
        proper(Formula::Or(children)),
        1 <= from <= children.len(),
        ends_label(rest),
        !starts_with(rest, '&'),
        !starts_with(rest, '|'),
    ensures
        parsed_or_tail(children.take(from), written_from(children, from, '|', 1) + rest) == Ok::<
            (Formula, Seq<char>),
            Error,
        >((Formula::Or(children), rest)),
    decreases children, children.len() - from,
{
    let text = written_from(children, from, '|', 1) + rest;
    if from == children.len() {
        assert(children.take(from) =~= children);
        assert(text =~= rest);
    } else {
        let tail = written_from(children, from + 1, '|', 1) + rest;
        assert(text.skip(1) =~= written(children[from], 1) + tail);
        assert(proper(children[from]));
        lemma_read_and(children[from], tail);
        assert(children.take(from + 1) =~= children.take(from).push(children[from]));
        lemma_read_or_tail(children, from + 1, rest);
    }
}

/// The text of a canonical tree is read back as that tree.
pub proof fn lemma_parsed_inverts_text(formula: Formula)
    requires
        normal(formula),
    ensures
        parsed(text_of(formula)) == Ok::<Formula, Error>(formula),
{
    if proper(formula) {
        let text = text_of(formula);
        lemma_read_or(formula, Seq::empty());
        assert(text + Seq::<char>::empty() =~= text);
        lemma_reads_or(text);
    }
}

/// Canonical trees with the same text are the same.
pub proof fn lemma_text_is_injective(a: Formula, b: Formula)
    requires
        normal(a),
        normal(b),
        text_of(a) == text_of(b),
    ensures
        a == b,
{
    lemma_parsed_inverts_text(a);
    lemma_parsed_inverts_text(b);
}

// ---------------------------------------------------------------------------
// Sorting
// ---------------------------------------------------------------------------
proof fn lemma_inserted(sorted: Seq<Formula>, child: Formula)
    requires
        ascending(sorted),
    ensures
        ascending(inserted(sorted, child)),
        forall|g: Formula| #[trigger]
            inserted(sorted, child).contains(g) ==> g == child || sorted.contains(g),
        forall|g: Formula| #[trigger]
            sorted.contains(g) ==> inserted(sorted, child).contains(g),
        exists|i: int|
            0 <= i < inserted(sorted, child).len() && text_of(
                #[trigger] inserted(sorted, child)[i],
            ) == text_of(child),
    decreases sorted.len(),
{
    let result = inserted(sorted, child);
    let n = sorted.len() as int;
    if n == 0 {
        assert(text_of(result[0]) == text_of(child));
    } else {
        let last = sorted.last();
        let front = sorted.drop_last();
        lemma_text_order(text_of(last), text_of(child));
        if text_less(text_of(last), text_of(child)) {
            assert forall|i: int, j: int| 0 <= i < j < result.len() implies text_less(
                text_of(#[trigger] result[i]),
                text_of(#[trigger] result[j]),
            ) by {
                if j == n && i < n - 1 {
                    assert(text_less(text_of(sorted[i]), text_of(sorted[n - 1])));
                    lemma_text_transitive(text_of(sorted[i]), text_of(last), text_of(child));
                }
            }
            assert forall|g: Formula| #[trigger] sorted.contains(g) implies result.contains(g) by {
                let k = choose|k: int| 0 <= k < n && sorted[k] == g;
                assert(result[k] == g);
            }
            assert(text_of(result[n]) == text_of(child));
        } else if text_of(last) == text_of(child) {
            assert(text_of(result[n - 1]) == text_of(child));
        } else {
            lemma_inserted(front, child);
            let shorter = inserted(front, child);
            let m = shorter.len() as int;
            assert forall|i: int, j: int| 0 <= i < j < result.len() implies text_less(
                text_of(#[trigger] result[i]),
                text_of(#[trigger] result[j]),
            ) by {
                assert(result[i] == shorter[i]);
                if j == m {
                    assert(shorter.contains(shorter[i]));
                    if shorter[i] != child {
                        let k = choose|k: int| 0 <= k < front.len() && front[k] == shorter[i];
                        assert(text_less(text_of(sorted[k]), text_of(sorted[n - 1])));
                    }
                } else {
                    assert(result[j] == shorter[j]);
                }
            }
            assert forall|g: Formula| #[trigger] result.contains(g) implies g == child
                || sorted.contains(g) by {
                let k = choose|k: int| 0 <= k < result.len() && result[k] == g;
                if k < m {
                    assert(shorter[k] == g);
                    assert(shorter.contains(g));
                    if g != child {
                        let h = choose|h: int| 0 <= h < front.len() && front[h] == g;
                        assert(sorted[h] == g);
                    }
                } else {
                    assert(sorted[n - 1] == g);
                }
            }
            assert forall|g: Formula| #[trigger] sorted.contains(g) implies result.contains(g) by {
                let k = choose|k: int| 0 <= k < n && sorted[k] == g;
                if k < n - 1 {
                    assert(front[k] == g);
                    assert(front.contains(g));
                    let h = choose|h: int| 0 <= h < m && shorter[h] == g;
                    assert(result[h] == g);
                } else {
                    assert(result[m] == g);
                }
            }
            let i = choose|i: int| 0 <= i < m && text_of(#[trigger] shorter[i]) == text_of(child);
            assert(text_of(result[i]) == text_of(child));
        }
    }
}

/// Whether every tree of a list is canonical and not public.
spec fn all_proper(children: Seq<Formula>) -> bool {
    forall|i: int| 0 <= i < children.len() ==> proper(#[trigger] children[i])
}

proof fn lemma_sorted_unique(children: Seq<Formula>)
    requires
        all_proper(children),
    ensures
        ascending(sorted_unique(children)),
        forall|g: Formula| #[trigger]
            sorted_unique(children).contains(g) <==> children.contains(g),
    decreases children.len(),
{
    if children.len() > 0 {
        let front = children.drop_last();
        let last = children.last();
        let sorted = sorted_unique(front);
        let result = sorted_unique(children);
        assert(all_proper(front)) by {
            assert forall|i: int| 0 <= i < front.len() implies proper(#[trigger] front[i]) by {
                assert(front[i] == children[i]);
            }
        }
        lemma_sorted_unique(front);
        lemma_inserted(sorted, last);
        assert forall|g: Formula| #[trigger] result.contains(g) <==> children.contains(g) by {
            if result.contains(g) {
                if g == last {
                    assert(children[children.len() - 1] == g);
                } else {
                    assert(front.contains(g));
                    let k = choose|k: int| 0 <= k < front.len() && front[k] == g;
                    assert(children[k] == g);
                }
            }
            if children.contains(g) {
                let k = choose|k: int| 0 <= k < children.len() && children[k] == g;
                if k < front.len() {
                    assert(front[k] == g);
                    assert(front.contains(g));
                    assert(sorted.contains(g));
                } else {
                    let i = choose|i: int|
                        0 <= i < result.len() && text_of(#[trigger] result[i]) == text_of(last);
                    assert(result.contains(result[i]));
                    if result[i] != last {
                        assert(sorted.contains(result[i]));
                        assert(front.contains(result[i]));
                        let h = choose|h: int| 0 <= h < front.len() && front[h] == result[i];
                        assert(proper(front[h]));
                        assert(proper(children[children.len() - 1]));
                        lemma_text_is_injective(result[i], last);
                    }
                }
            }
        }
    }
}

proof fn lemma_ascending_last_is_greatest(a: Seq<Formula>, g: Formula)
    requires
        ascending(a),
        a.contains(g),
    ensures
        g == a.last() || text_less(text_of(g), text_of(a.last())),
{
    let k = choose|k: int| 0 <= k < a.len() && a[k] == g;
    if k < a.len() - 1 {
        assert(text_less(text_of(a[k]), text_of(a[a.len() - 1])));
    }
}

proof fn lemma_ascending_is_unique(a: Seq<Formula>, b: Seq<Formula>)
    requires
        ascending(a),
        ascending(b),
        forall|g: Formula| #[trigger] a.contains(g) <==> b.contains(g),
    ensures
        a == b,
    decreases a.len(),
{
    if a.len() == 0 {
        if b.len() > 0 {
            assert(b.contains(b[0]));
            assert(!a.contains(b[0]));
        }
        assert(a =~= b);
    } else {
        assert(a.contains(a[a.len() - 1]));
        assert(b.len() > 0);
        assert(b.contains(b[b.len() - 1]));
        assert(a.contains(b[b.len() - 1]));
        lemma_ascending_last_is_greatest(b, a.last());
        lemma_ascending_last_is_greatest(a, b.last());
        lemma_text_order(text_of(a.last()), text_of(b.last()));
        assert(a.last() == b.last());
        let (a1, b1) = (a.drop_last(), b.drop_last());
        assert forall|g: Formula| #[trigger] a1.contains(g) <==> b1.contains(g) by {
            if a1.contains(g) {
                let k = choose|k: int| 0 <= k < a1.len() && a1[k] == g;
                assert(a[k] == g);
                assert(text_less(text_of(a[k]), text_of(a[a.len() - 1])));
                lemma_text_order(text_of(g), text_of(g));
                assert(a.contains(g));
                let h = choose|h: int| 0 <= h < b.len() && b[h] == g;
                assert(b1[h] == g);
            }
            if b1.contains(g) {
                let k = choose|k: int| 0 <= k < b1.len() && b1[k] == g;
                assert(b[k] == g);
                assert(text_less(text_of(b[k]), text_of(b[b.len() - 1])));
                lemma_text_order(text_of(g), text_of(g));
                assert(b.contains(g));
                assert(a.contains(g));
                let h = choose|h: int| 0 <= h < a.len() && a[h] == g;
                assert(a1[h] == g);
            }
        }
        lemma_ascending_is_unique(a1, b1);
        assert(a =~= a1.push(a.last()));
        assert(b =~= b1.push(b.last()));
    }
}

// ---------------------------------------------------------------------------
// Normalization
// ---------------------------------------------------------------------------
/// Whether the tree's outermost operator is `operator`.
spec fn has_operator(operator: Operator, formula: Formula) -> bool {
    match operator {
        Operator::And => formula is And,
        Operator::Or => formula is Or,
    }
}

proof fn lemma_flattened_contains(
    operator: Operator,
    children: Seq<Formula>,
    count: int,
    g: Formula,
)
    requires
        0 <= count <= children.len(),
    ensures
        flattened(operator, children, count).contains(g) <==> exists|i: int|
            0 <= i < count && operands(operator, normalized(#[trigger] children[i])).contains(g),
    decreases count,
{
    let flat = flattened(operator, children, count);
    if count > 0 {
        let front = flattened(operator, children, count - 1);
        let back = operands(operator, normalized(children[count - 1]));
        lemma_flattened_contains(operator, children, count - 1, g);
        if flat.contains(g) {
            let k = choose|k: int| 0 <= k < flat.len() && flat[k] == g;
            if k < front.len() {
                assert(front[k] == g);
                assert(front.contains(g));
                let i = choose|i: int|
                    0 <= i < count - 1 && operands(
                        operator,
                        normalized(#[trigger] children[i]),
                    ).contains(g);
                assert(operands(operator, normalized(children[i])).contains(g));
            } else {
                assert(back[k - front.len()] == g);
                assert(operands(operator, normalized(children[count - 1])).contains(g));
            }
        }
        if exists|i: int|
            0 <= i < count && operands(operator, normalized(#[trigger] children[i])).contains(g) {
            let i = choose|i: int|
                0 <= i < count && operands(operator, normalized(#[trigger] children[i])).contains(
                    g,
                );
            if i < count - 1 {
                assert(front.contains(g));
                let k = choose|k: int| 0 <= k < front.len() && front[k] == g;
                assert(flat[k] == g);
            } else {
                let k = choose|k: int| 0 <= k < back.len() && back[k] == g;
                assert(flat[front.len() + k] == g);
            }
        }
    }
}

proof fn lemma_flattened_proper(operator: Operator, children: Seq<Formula>, count: int)
    requires
        0 <= count <= children.len(),
        forall|i: int| 0 <= i < count ==> normal(normalized(#[trigger] children[i])),
    ensures
        all_proper(flattened(operator, children, count)),
        forall|k: int|
            0 <= k < flattened(operator, children, count).len() ==> !has_operator(
                operator,
                #[trigger] flattened(operator, children, count)[k],
            ),
{
    let flat = flattened(operator, children, count);
    assert forall|k: int| 0 <= k < flat.len() implies proper(#[trigger] flat[k]) && !has_operator(
        operator,
        flat[k],
    ) by {
        assert(flat.contains(flat[k]));
        lemma_flattened_contains(operator, children, count, flat[k]);
        let i = choose|i: int|
            0 <= i < count && operands(operator, normalized(#[trigger] children[i])).contains(
                flat[k],
            );
        let child = normalized(children[i]);
        assert(normal(child));
        let parts = operands(operator, child);
        let h = choose|h: int| 0 <= h < parts.len() && parts[h] == flat[k];
        assert(parts[h] == flat[k]);
    }
}

proof fn lemma_rebuilt_is_normal(operator: Operator, parts: Seq<Formula>)
    requires
        all_proper(parts),
        forall|k: int| 0 <= k < parts.len() ==> !has_operator(operator, #[trigger] parts[k]),
    ensures
        normal(rebuilt(operator, sorted_unique(parts))),
{
    let sorted = sorted_unique(parts);
    lemma_sorted_unique(parts);
    assert forall|i: int| 0 <= i < sorted.len() implies proper(#[trigger] sorted[i])
        && !has_operator(operator, sorted[i]) by {
        assert(sorted.contains(sorted[i]));
        let k = choose|k: int| 0 <= k < parts.len() && parts[k] == sorted[i];
        assert(parts[k] == sorted[i]);
    }
}

/// Normalizing gives a canonical tree.
pub proof fn lemma_normalized_is_normal(formula: Formula)
    requires
        valid_labels(formula),
    ensures
        normal(normalized(formula)),
    decreases formula,
{
    match formula {
        Formula::And(children) => {
            assert forall|i: int| 0 <= i < children.len() implies normal(
                normalized(#[trigger] children[i]),
            ) by {
                lemma_normalized_is_normal(children[i]);
            }
            let n = children.len() as int;
            lemma_flattened_proper(Operator::And, children, n);
            lemma_rebuilt_is_normal(Operator::And, flattened(Operator::And, children, n));
        },
        Formula::Or(children) => {
            assert forall|i: int| 0 <= i < children.len() implies normal(
                normalized(#[trigger] children[i]),
            ) by {
                lemma_normalized_is_normal(children[i]);
            }
            let n = children.len() as int;
            lemma_flattened_proper(Operator::Or, children, n);
            lemma_rebuilt_is_normal(Operator::Or, flattened(Operator::Or, children, n));
        },
        _ => {},
    }
}

proof fn lemma_normalized_children(operator: Operator, children: Seq<Formula>, count: int)
    requires
        0 <= count <= children.len(),
        forall|i: int|
            0 <= i < children.len() ==> normalized(#[trigger] children[i]) == children[i]
                && proper(children[i]) && !has_operator(operator, children[i]),
    ensures
        flattened(operator, children, count) == children.take(count),
    decreases count,
{
    if count > 0 {
        lemma_normalized_children(operator, children, count - 1);
        assert(normalized(children[count - 1]) == children[count - 1]);
        assert(operands(operator, children[count - 1]) =~= seq![children[count - 1]]);
    }
    assert(flattened(operator, children, count) =~= children.take(count));
}

/// Normalizing a canonical tree changes nothing.
pub proof fn lemma_normal_is_fixed(formula: Formula)
    requires
        normal(formula),
    ensures
        normalized(formula) == formula,
    decreases formula,
{
    match formula {
        Formula::And(children) => {
            assert forall|i: int| 0 <= i < children.len() implies normalized(
                #[trigger] children[i],
            ) == children[i] by {
                assert(proper(children[i]));
                lemma_normal_is_fixed(children[i]);
            }
            lemma_normalized_children(Operator::And, children, children.len() as int);
            assert(children.take(children.len() as int) =~= children);
            lemma_sorted_unique(children);
            lemma_ascending_is_unique(sorted_unique(children), children);
        },
        Formula::Or(children) => {
            assert forall|i: int| 0 <= i < children.len() implies normalized(
                #[trigger] children[i],
            ) == children[i] by {
                assert(proper(children[i]));
                lemma_normal_is_fixed(children[i]);
            }
            assert forall|i: int| 0 <= i < children.len() implies !(normalized(
                #[trigger] children[i],
            ) is Public) by {
                assert(proper(children[i]));
            }
            lemma_normalized_children(Operator::Or, children, children.len() as int);
            assert(children.take(children.len() as int) =~= children);
            lemma_sorted_unique(children);
            lemma_ascending_is_unique(sorted_unique(children), children);
        },
        _ => {},
    }
}

/// A canonical tree is what its own text stands for.
pub proof fn lemma_canonical_text_is_fixed(formula: Formula)
    requires
        normal(formula),
    ensures
        canonical(text_of(formula)) == Ok::<Formula, Error>(formula),
{
    lemma_parsed_inverts_text(formula);
    lemma_normal_is_fixed(formula);
}

/// Canonicalizing a text gives a canonical tree, and canonicalizing the text
/// of that tree gives it again.
pub proof fn lemma_canonical_is_idempotent(text: Seq<char>)
    ensures
        canonical(text) matches Ok(formula) ==> normal(formula) && canonical(text_of(formula))
            == Ok::<Formula, Error>(formula),
{
    if let Ok(formula) = parsed(text) {
        lemma_parsed_is_grammatical(text);
        if text.len() > 0 {
            lemma_grammatical_labels(formula);
        }
        lemma_normalized_is_normal(formula);
        lemma_canonical_text_is_fixed(normalized(formula));
    }
}

proof fn lemma_grammatical_is_not_public(formula: Formula)
    requires
        grammatical(formula),
    ensures
        proper(normalized(formula)),
    decreases formula,
{
    lemma_grammatical_labels(formula);
    lemma_normalized_is_normal(formula);
    match formula {
        Formula::And(children) => {
            lemma_operands_remain(Operator::And, children);
        },
        Formula::Or(children) => {
            assert forall|i: int| 0 <= i < children.len() implies !(normalized(
                #[trigger] children[i],
            ) is Public) by {
                lemma_grammatical_is_not_public(children[i]);
            }
            lemma_operands_remain(Operator::Or, children);
        },
        _ => {},
    }
}

proof fn lemma_operands_remain(operator: Operator, children: Seq<Formula>)
    requires
        children.len() > 0,
        forall|i: int| 0 <= i < children.len() ==> grammatical(#[trigger] children[i]),
    ensures
        sorted_unique(flattened(operator, children, children.len() as int)).len() > 0,
        all_proper(sorted_unique(flattened(operator, children, children.len() as int))),
    decreases children,
{
    let n = children.len() as int;
    let flat = flattened(operator, children, n);
    assert forall|i: int| 0 <= i < n implies normal(normalized(#[trigger] children[i])) by {
        lemma_grammatical_is_not_public(children[i]);
    }
    lemma_flattened_proper(operator, children, n);
    lemma_sorted_unique(flat);
    let first = normalized(children[0]);
    lemma_grammatical_is_not_public(children[0]);
    let parts = operands(operator, first);
    assert(parts.len() > 0);
    assert(parts.contains(parts[0]));
    lemma_flattened_contains(operator, children, n, parts[0]);
    assert(sorted_unique(flat).contains(parts[0]));
    let sorted = sorted_unique(flat);
    assert forall|i: int| 0 <= i < sorted.len() implies proper(#[trigger] sorted[i]) by {
        assert(sorted.contains(sorted[i]));
        let k = choose|k: int| 0 <= k < flat.len() && flat[k] == sorted[i];
        assert(flat[k] == sorted[i]);
    }
}

/// The empty text, and no other, is public.
pub proof fn lemma_only_empty_text_is_public(text: Seq<char>)
    ensures
        canonical(text) == Ok::<Formula, Error>(Formula::Public) <==> text.len() == 0,
{
    lemma_parsed_is_grammatical(text);
    if text.len() > 0 {
        if let Ok(formula) = parsed(text) {
            lemma_grammatical_is_not_public(formula);
        }
    }
}

// ---------------------------------------------------------------------------
// Meaning
// ---------------------------------------------------------------------------
proof fn lemma_operands_meaning_and(child: Formula, auths: Set<Seq<char>>)
    ensures
        holds(child, auths) <==> forall|g: Formula| #[trigger]
            operands(Operator::And, child).contains(g) ==> holds(g, auths),
{
    let parts = operands(Operator::And, child);
    if holds(child, auths) {
        assert forall|g: Formula| #[trigger] parts.contains(g) implies holds(g, auths) by {
            let k = choose|k: int| 0 <= k < parts.len() && parts[k] == g;
            assert(parts[k] == g);
        }
    }
    if forall|g: Formula| #[trigger] parts.contains(g) ==> holds(g, auths) {
        match child {
            Formula::And(grandchildren) => {
                assert forall|i: int| 0 <= i < grandchildren.len() implies holds(
                    #[trigger] grandchildren[i],
                    auths,
                ) by {
                    assert(parts.contains(grandchildren[i]));
                }
            },
            Formula::Public => {},
            _ => {
                assert(parts[0] == child);
                assert(parts.contains(child));
            },
        }
    }
}

proof fn lemma_operands_meaning_or(child: Formula, auths: Set<Seq<char>>)
    requires
        !(child is Public),
    ensures
        holds(child, auths) <==> exists|g: Formula| #[trigger]
            operands(Operator::Or, child).contains(g) && holds(g, auths),
{
    let parts = operands(Operator::Or, child);
    if holds(child, auths) {
        match child {
            Formula::Or(grandchildren) => {
                let i = choose|i: int|
                    0 <= i < grandchildren.len() && holds(#[trigger] grandchildren[i], auths);
                assert(parts.contains(grandchildren[i]) && holds(grandchildren[i], auths));
            },
            _ => {
                assert(parts[0] == child);
                assert(parts.contains(child) && holds(child, auths));
            },
        }
    }
    if exists|g: Formula| #[trigger] parts.contains(g) && holds(g, auths) {
        let g = choose|g: Formula| #[trigger] parts.contains(g) && holds(g, auths);
        let k = choose|k: int| 0 <= k < parts.len() && parts[k] == g;
        assert(holds(parts[k], auths));
    }
}

proof fn lemma_rebuilt_meaning_and(sorted: Seq<Formula>, auths: Set<Seq<char>>)
    ensures
        holds(rebuilt(Operator::And, sorted), auths) <==> forall|g: Formula| #[trigger]
            sorted.contains(g) ==> holds(g, auths),
{
    let whole = rebuilt(Operator::And, sorted);
    if sorted.len() > 1 {
        assert(whole == Formula::And(sorted));
    } else if sorted.len() == 1 {
        assert(whole == sorted[0]);
    }
    if holds(whole, auths) {
        assert forall|k: int| 0 <= k < sorted.len() implies holds(#[trigger] sorted[k], auths) by {
            if sorted.len() > 1 {
                assert(holds(whole->And_0[k], auths));
            }
        }
        assert forall|g: Formula| #[trigger] sorted.contains(g) implies holds(g, auths) by {
            let k = choose|k: int| 0 <= k < sorted.len() && sorted[k] == g;
            assert(holds(sorted[k], auths));
        }
    }
    if forall|g: Formula| #[trigger] sorted.contains(g) ==> holds(g, auths) {
        assert forall|k: int| 0 <= k < sorted.len() implies holds(#[trigger] sorted[k], auths) by {
            assert(sorted.contains(sorted[k]));
        }
    }
}

proof fn lemma_rebuilt_meaning_or(sorted: Seq<Formula>, auths: Set<Seq<char>>)
    requires
        sorted.len() > 0,
    ensures
        holds(rebuilt(Operator::Or, sorted), auths) <==> exists|g: Formula| #[trigger]
            sorted.contains(g) && holds(g, auths),
{
    let whole = rebuilt(Operator::Or, sorted);
    if sorted.len() > 1 {
        assert(whole == Formula::Or(sorted));
    } else {
        assert(whole == sorted[0]);
    }
    if holds(whole, auths) {
        if sorted.len() == 1 {
            assert(sorted.contains(sorted[0]) && holds(sorted[0], auths));
        } else {
            let k = choose|k: int| 0 <= k < sorted.len() && holds(#[trigger] sorted[k], auths);
            assert(sorted.contains(sorted[k]) && holds(sorted[k], auths));
        }
    }
    if exists|g: Formula| #[trigger] sorted.contains(g) && holds(g, auths) {
        let g = choose|g: Formula| #[trigger] sorted.contains(g) && holds(g, auths);
        let k = choose|k: int| 0 <= k < sorted.len() && sorted[k] == g;
        assert(holds(sorted[k], auths));
    }
}

/// Whether no disjunction in the tree is without operands.
pub open spec fn no_empty_or(formula: Formula) -> bool
    decreases formula,
{
    match formula {
        Formula::And(children) => forall|i: int|
            0 <= i < children.len() ==> no_empty_or(#[trigger] children[i]),
        Formula::Or(children) => children.len() > 0 && forall|i: int|
            0 <= i < children.len() ==> no_empty_or(#[trigger] children[i]),
        _ => true,
    }
}

proof fn lemma_grammatical_has_no_empty_or(formula: Formula)
    requires
        grammatical(formula),
    ensures
        no_empty_or(formula),
    decreases formula,
{
    match formula {
        Formula::And(children) => {
            assert forall|i: int| 0 <= i < children.len() implies no_empty_or(
                #[trigger] children[i],
            ) by {
                assert(grammatical(formula->And_0[i]));
                lemma_grammatical_has_no_empty_or(children[i]);
            }
        },
        Formula::Or(children) => {
            assert forall|i: int| 0 <= i < children.len() implies no_empty_or(
                #[trigger] children[i],
            ) by {
                assert(grammatical(formula->Or_0[i]));
                lemma_grammatical_has_no_empty_or(children[i]);
            }
        },
        _ => {},
    }
}

proof fn lemma_conjunction_keeps_meaning(children: Seq<Formula>, auths: Set<Seq<char>>)
    requires
        forall|i: int|
            0 <= i < children.len() ==> normal(normalized(#[trigger] children[i])) && holds(
                normalized(children[i]),
                auths,
            ) == holds(children[i], auths),
    ensures
        holds(normalized(Formula::And(children)), auths) <==> forall|i: int|
            0 <= i < children.len() ==> holds(#[trigger] children[i], auths),
{
    let n = children.len() as int;
    let flat = flattened(Operator::And, children, n);
    let sorted = sorted_unique(flat);
    lemma_normalized_tree(Operator::And, children);
    lemma_flattened_proper(Operator::And, children, n);
    lemma_sorted_unique(flat);
    lemma_rebuilt_meaning_and(sorted, auths);
    if forall|i: int| 0 <= i < n ==> holds(#[trigger] children[i], auths) {
        assert forall|g: Formula| #[trigger] sorted.contains(g) implies holds(g, auths) by {
            lemma_flattened_contains(Operator::And, children, n, g);
            assert(flat.contains(g));
            let i = choose|i: int|
                0 <= i < n && operands(Operator::And, normalized(#[trigger] children[i])).contains(
                    g,
                );
            assert(holds(children[i], auths));
            lemma_operands_meaning_and(normalized(children[i]), auths);
        }
    }
    if holds(normalized(Formula::And(children)), auths) {
        assert forall|i: int| 0 <= i < n implies holds(#[trigger] children[i], auths) by {
            let child = normalized(children[i]);
            assert forall|g: Formula| #[trigger]
                operands(Operator::And, child).contains(g) implies holds(g, auths) by {
                lemma_flattened_contains(Operator::And, children, n, g);
                assert(flat.contains(g));
                assert(sorted.contains(g));
            }
            lemma_operands_meaning_and(child, auths);
        }
    }
}

proof fn lemma_disjunction_keeps_meaning(children: Seq<Formula>, auths: Set<Seq<char>>)
    requires
        children.len() > 0,
        forall|i: int|
            0 <= i < children.len() ==> normal(normalized(#[trigger] children[i])) && holds(
                normalized(children[i]),
                auths,
            ) == holds(children[i], auths),
    ensures
        holds(normalized(Formula::Or(children)), auths) <==> exists|i: int|
            0 <= i < children.len() && holds(#[trigger] children[i], auths),
{
    let n = children.len() as int;
    let flat = flattened(Operator::Or, children, n);
    let sorted = sorted_unique(flat);
    lemma_normalized_tree(Operator::Or, children);
    if exists|i: int| 0 <= i < n && normalized(#[trigger] children[i]) is Public {
        let i = choose|i: int| 0 <= i < n && normalized(#[trigger] children[i]) is Public;
        assert(holds(children[i], auths));
    } else {
        lemma_flattened_proper(Operator::Or, children, n);
        lemma_sorted_unique(flat);
        let first = operands(Operator::Or, normalized(children[0]));
        assert(normal(normalized(children[0])));
        assert(first.contains(first[0]));
        lemma_flattened_contains(Operator::Or, children, n, first[0]);
        assert(flat.contains(first[0]));
        assert(sorted.contains(first[0]));
        lemma_rebuilt_meaning_or(sorted, auths);
        if exists|i: int| 0 <= i < n && holds(#[trigger] children[i], auths) {
            let i = choose|i: int| 0 <= i < n && holds(#[trigger] children[i], auths);
            let child = normalized(children[i]);
            lemma_operands_meaning_or(child, auths);
            let g = choose|g: Formula| #[trigger]
                operands(Operator::Or, child).contains(g) && holds(g, auths);
            lemma_flattened_contains(Operator::Or, children, n, g);
            assert(flat.contains(g));
            assert(sorted.contains(g) && holds(g, auths));
        }
        if holds(normalized(Formula::Or(children)), auths) {
            let g = choose|g: Formula| #[trigger] sorted.contains(g) && holds(g, auths);
            lemma_flattened_contains(Operator::Or, children, n, g);
            assert(flat.contains(g));
            let i = choose|i: int|
                0 <= i < n && operands(Operator::Or, normalized(#[trigger] children[i])).contains(
                    g,
                );
            lemma_operands_meaning_or(normalized(children[i]), auths);
            assert(holds(children[i], auths));
        }
    }
}

/// Normalizing does not change who may see, on any tree in which no disjunction
/// is without operands.
pub proof fn lemma_normalized_keeps_meaning(formula: Formula, auths: Set<Seq<char>>)
    requires
        valid_labels(formula),
        no_empty_or(formula),
    ensures
        holds(normalized(formula), auths) == holds(formula, auths),
    decreases formula,
{
    match formula {
        Formula::And(children) => {
            assert forall|i: int| 0 <= i < children.len() implies normal(
                normalized(#[trigger] children[i]),
            ) && holds(normalized(children[i]), auths) == holds(children[i], auths) by {
                lemma_normalized_is_normal(children[i]);
                lemma_normalized_keeps_meaning(children[i], auths);
            }
            lemma_conjunction_keeps_meaning(children, auths);
        },
        Formula::Or(children) => {
            assert forall|i: int| 0 <= i < children.len() implies normal(
                normalized(#[trigger] children[i]),
            ) && holds(normalized(children[i]), auths) == holds(children[i], auths) by {
                lemma_normalized_is_normal(children[i]);
                lemma_normalized_keeps_meaning(children[i], auths);
            }
            lemma_disjunction_keeps_meaning(children, auths);
        },
        _ => {},
    }
}

/// Normalizing the operands of one operator gives a canonical tree: public, a
/// label, or an operator over at least two canonical operands in strictly
/// ascending order of their texts, none of them public and none of them with
/// that operator. It is visible exactly where all of the given operands are, or
/// any of them, as the operator says.
pub proof fn lemma_normalized_operands(
    operator: Operator,
    children: Seq<Formula>,
    auths: Set<Seq<char>>,
)
    requires
        forall|i: int|
            0 <= i < children.len() ==> valid_labels(#[trigger] children[i]) && no_empty_or(
                children[i],
            ),
        operator is Or ==> children.len() > 0,
    ensures
        match normalized(tree(operator, children)) {
            Formula::Public => true,
            Formula::Label(label) => valid_label(label),
            Formula::And(parts) => {
                &&& parts.len() >= 2
                &&& ascending(parts)
                &&& forall|i: int|
                    0 <= i < parts.len() ==> proper(#[trigger] parts[i]) && !(parts[i] is Public)
                        && !(parts[i] is And)
            },
            Formula::Or(parts) => {
                &&& parts.len() >= 2
                &&& ascending(parts)
                &&& forall|i: int|
                    0 <= i < parts.len() ==> proper(#[trigger] parts[i]) && !(parts[i] is Public)
                        && !(parts[i] is Or)
            },
        },
        holds(normalized(tree(operator, children)), auths) <==> match operator {
            Operator::And => forall|i: int|
                0 <= i < children.len() ==> holds(#[trigger] children[i], auths),
            Operator::Or => exists|i: int|
                0 <= i < children.len() && holds(#[trigger] children[i], auths),
        },
{
    assert forall|i: int| 0 <= i < children.len() implies normal(
        normalized(#[trigger] children[i]),
    ) && holds(normalized(children[i]), auths) == holds(children[i], auths) by {
        lemma_normalized_is_normal(children[i]);
        lemma_normalized_keeps_meaning(children[i], auths);
    }
    lemma_normalized_is_normal(tree(operator, children));
    match operator {
        Operator::And => lemma_conjunction_keeps_meaning(children, auths),
        Operator::Or => lemma_disjunction_keeps_meaning(children, auths),
    }
}

/// Canonicalizing does not change who may see.
pub proof fn lemma_canonical_keeps_meaning(text: Seq<char>, auths: Set<Seq<char>>)
    ensures
        match (parsed(text), canonical(text)) {
            (Ok(raw), Ok(formula)) => holds(formula, auths) == holds(raw, auths),
            (Err(raw_error), Err(error)) => error == raw_error,
            _ => false,
        },
{
    if let Ok(raw) = parsed(text) {
        lemma_parsed_is_grammatical(text);
        if text.len() > 0 {
            lemma_grammatical_labels(raw);
            lemma_grammatical_has_no_empty_or(raw);
        }
        lemma_normalized_keeps_meaning(raw, auths);
    }
}

/// Holding more labels never hides anything.
pub proof fn lemma_more_labels_see_more(
    formula: Formula,
    fewer: Set<Seq<char>>,
    more: Set<Seq<char>>,
)
    requires
        fewer.subset_of(more),
        holds(formula, fewer),
    ensures
        holds(formula, more),
    decreases formula,
{
    match formula {
        Formula::And(children) => {
            assert forall|i: int| 0 <= i < children.len() implies holds(
                #[trigger] children[i],
                more,
            ) by {
                assert(holds(formula->And_0[i], fewer));
                lemma_more_labels_see_more(children[i], fewer, more);
            }
        },
        Formula::Or(children) => {
            let i = choose|i: int|
                0 <= i < formula->Or_0.len() && holds(#[trigger] formula->Or_0[i], fewer);
            lemma_more_labels_see_more(children[i], fewer, more);
            assert(holds(formula->Or_0[i], more));
        },
        _ => {},
    }
}

// ---------------------------------------------------------------------------
// What the canonical form does not depend on
// ---------------------------------------------------------------------------
/// Whether two lists hold the same operands, in whatever order and however
/// often.
pub open spec fn same_operands(a: Seq<Formula>, b: Seq<Formula>) -> bool {
    forall|g: Formula| #[trigger] a.contains(g) <==> b.contains(g)
}

proof fn lemma_children_normal(children: Seq<Formula>)
    requires
        forall|i: int| 0 <= i < children.len() ==> valid_labels(#[trigger] children[i]),
    ensures
        forall|i: int| 0 <= i < children.len() ==> normal(normalized(#[trigger] children[i])),
{
    assert forall|i: int| 0 <= i < children.len() implies normal(
        normalized(#[trigger] children[i]),
    ) by {
        lemma_normalized_is_normal(children[i]);
    }
}

proof fn lemma_same_parts(a: Seq<Formula>, b: Seq<Formula>)
    requires
        all_proper(a),
        all_proper(b),
        same_operands(a, b),
    ensures
        sorted_unique(a) == sorted_unique(b),
{
    lemma_sorted_unique(a);
    lemma_sorted_unique(b);
    assert forall|g: Formula| #[trigger]
        sorted_unique(a).contains(g) <==> sorted_unique(b).contains(g) by {
        assert(a.contains(g) <==> b.contains(g));
        assert(sorted_unique(b).contains(g) <==> b.contains(g));
    }
    lemma_ascending_is_unique(sorted_unique(a), sorted_unique(b));
}

proof fn lemma_flattened_subset(operator: Operator, a: Seq<Formula>, b: Seq<Formula>, g: Formula)
    requires
        same_operands(a, b),
        flattened(operator, a, a.len() as int).contains(g),
    ensures
        flattened(operator, b, b.len() as int).contains(g),
{
    lemma_flattened_contains(operator, a, a.len() as int, g);
    lemma_flattened_contains(operator, b, b.len() as int, g);
    let i = choose|i: int|
        0 <= i < a.len() && operands(operator, normalized(#[trigger] a[i])).contains(g);
    assert(a.contains(a[i]));
    assert(b.contains(a[i]));
    let k = choose|k: int| 0 <= k < b.len() && b[k] == a[i];
    assert(operands(operator, normalized(b[k])).contains(g));
}

/// The canonical form depends neither on the order of operands nor on how
/// often one is repeated.
pub proof fn lemma_order_and_repetition_are_irrelevant(
    operator: Operator,
    a: Seq<Formula>,
    b: Seq<Formula>,
)
    requires
        valid_labels(tree(operator, a)),
        valid_labels(tree(operator, b)),
        same_operands(a, b),
    ensures
        normalized(tree(operator, a)) == normalized(tree(operator, b)),
{
    let flat_a = flattened(operator, a, a.len() as int);
    let flat_b = flattened(operator, b, b.len() as int);
    lemma_tree_children_valid(operator, a);
    lemma_tree_children_valid(operator, b);
    lemma_children_normal(a);
    lemma_children_normal(b);
    lemma_flattened_proper(operator, a, a.len() as int);
    lemma_flattened_proper(operator, b, b.len() as int);
    assert forall|g: Formula| #[trigger] b.contains(g) <==> a.contains(g) by {
        assert(a.contains(g) <==> b.contains(g));
    }
    assert forall|g: Formula| #[trigger] flat_a.contains(g) <==> flat_b.contains(g) by {
        if flat_a.contains(g) {
            lemma_flattened_subset(operator, a, b, g);
        }
        if flat_b.contains(g) {
            lemma_flattened_subset(operator, b, a, g);
        }
    }
    lemma_same_parts(flat_a, flat_b);
    if exists|i: int| 0 <= i < a.len() && normalized(#[trigger] a[i]) is Public {
        let i = choose|i: int| 0 <= i < a.len() && normalized(#[trigger] a[i]) is Public;
        assert(a.contains(a[i]));
        assert(b.contains(a[i]));
        let k = choose|k: int| 0 <= k < b.len() && b[k] == a[i];
        assert(normalized(b[k]) is Public);
    }
    if exists|i: int| 0 <= i < b.len() && normalized(#[trigger] b[i]) is Public {
        let i = choose|i: int| 0 <= i < b.len() && normalized(#[trigger] b[i]) is Public;
        assert(b.contains(b[i]));
        assert(a.contains(b[i]));
        let k = choose|k: int| 0 <= k < a.len() && a[k] == b[i];
        assert(normalized(a[k]) is Public);
    }
    lemma_normalized_tree(operator, a);
    lemma_normalized_tree(operator, b);
}

proof fn lemma_tree_children_valid(operator: Operator, children: Seq<Formula>)
    requires
        valid_labels(tree(operator, children)),
    ensures
        forall|i: int| 0 <= i < children.len() ==> valid_labels(#[trigger] children[i]),
{
    let whole = tree(operator, children);
    assert forall|i: int| 0 <= i < children.len() implies valid_labels(#[trigger] children[i]) by {
        match operator {
            Operator::And => {
                assert(valid_labels(whole->And_0[i]));
            },
            Operator::Or => {
                assert(valid_labels(whole->Or_0[i]));
            },
        }
    }
}

proof fn lemma_normalized_tree(operator: Operator, children: Seq<Formula>)
    ensures
        normalized(tree(operator, children)) == if operator is Or && exists|i: int|
            0 <= i < children.len() && normalized(#[trigger] children[i]) is Public {
            Formula::Public
        } else {
            rebuilt(operator, sorted_unique(flattened(operator, children, children.len() as int)))
        },
{
    let whole = tree(operator, children);
    if operator is Or {
        if exists|i: int| 0 <= i < children.len() && normalized(#[trigger] children[i]) is Public {
            let i = choose|i: int|
                0 <= i < children.len() && normalized(#[trigger] children[i]) is Public;
            assert(normalized(whole->Or_0[i]) is Public);
        }
    }
}

/// An operator with a single operand is that operand.
pub proof fn lemma_single_operand(operator: Operator, child: Formula)
    requires
        valid_labels(child),
    ensures
        normalized(tree(operator, seq![child])) == normalized(child),
{
    let children = seq![child];
    let inner = normalized(child);
    lemma_normalized_is_normal(child);
    lemma_normalized_tree(operator, children);
    assert(children[0] == child);
    let flat = flattened(operator, children, 1);
    reveal_with_fuel(flattened, 2);
    assert(flat =~= operands(operator, inner));
    if inner is Public {
        assert(normalized(children[0]) is Public);
        assert(flat =~= Seq::empty());
    } else if has_operator(operator, inner) {
        assert(all_proper(flat));
        lemma_sorted_unique(flat);
        lemma_ascending_is_unique(sorted_unique(flat), flat);
    } else {
        assert(flat =~= seq![inner]);
        assert(flat[0] == inner);
        assert(flat.drop_last() =~= Seq::empty());
        assert(sorted_unique(flat.drop_last()) =~= Seq::empty());
        assert(sorted_unique(flat) =~= seq![inner]);
    }
}

proof fn lemma_operands_of_rebuilt(operator: Operator, sorted: Seq<Formula>)
    requires
        forall|k: int|
            0 <= k < sorted.len() ==> proper(#[trigger] sorted[k]) && !has_operator(
                operator,
                sorted[k],
            ),
    ensures
        operands(operator, rebuilt(operator, sorted)) == sorted,
{
    if sorted.len() == 1 {
        assert(proper(sorted[0]));
        assert(sorted =~= seq![sorted[0]]);
    }
    assert(operands(operator, rebuilt(operator, sorted)) =~= sorted);
}

/// The operands of a normalized group are those of its members.
proof fn lemma_operands_of_group(operator: Operator, children: Seq<Formula>, g: Formula)
    requires
        valid_labels(tree(operator, children)),
        operator is Or ==> forall|i: int|
            0 <= i < children.len() ==> !(normalized(#[trigger] children[i]) is Public),
    ensures
        operands(operator, normalized(tree(operator, children))).contains(g) <==> flattened(
            operator,
            children,
            children.len() as int,
        ).contains(g),
{
    let flat = flattened(operator, children, children.len() as int);
    let sorted = sorted_unique(flat);
    lemma_tree_children_valid(operator, children);
    lemma_children_normal(children);
    lemma_flattened_proper(operator, children, children.len() as int);
    lemma_sorted_unique(flat);
    lemma_normalized_tree(operator, children);
    assert forall|k: int| 0 <= k < sorted.len() implies proper(#[trigger] sorted[k])
        && !has_operator(operator, sorted[k]) by {
        assert(sorted.contains(sorted[k]));
        let h = choose|h: int| 0 <= h < flat.len() && flat[h] == sorted[k];
        assert(flat[h] == sorted[k]);
    }
    lemma_operands_of_rebuilt(operator, sorted);
    assert(sorted.contains(g) <==> flat.contains(g));
}

/// The canonical form does not depend on how the operands of one operator are
/// grouped: a group at the end may be dissolved into its members.
pub proof fn lemma_grouping_is_irrelevant(
    operator: Operator,
    front: Seq<Formula>,
    group: Seq<Formula>,
)
    requires
        valid_labels(tree(operator, front)),
        valid_labels(tree(operator, group)),
        operator is Or ==> group.len() > 0,
    ensures
        normalized(tree(operator, front.push(tree(operator, group)))) == normalized(
            tree(operator, front + group),
        ),
{
    let nested = front.push(tree(operator, group));
    let plain = front + group;
    let member = tree(operator, group);
    lemma_tree_children_valid(operator, front);
    lemma_tree_children_valid(operator, group);
    assert forall|i: int| 0 <= i < nested.len() implies valid_labels(#[trigger] nested[i]) by {
        if i < front.len() {
            assert(nested[i] == front[i]);
        }
    }
    assert forall|i: int| 0 <= i < plain.len() implies valid_labels(#[trigger] plain[i]) by {
        if i < front.len() {
            assert(plain[i] == front[i]);
        } else {
            assert(plain[i] == group[i - front.len()]);
        }
    }
    lemma_children_normal(nested);
    lemma_children_normal(plain);
    lemma_children_normal(group);
    lemma_normalized_tree(operator, nested);
    lemma_normalized_tree(operator, plain);
    let n = nested.len() as int;
    let m = plain.len() as int;
    if operator is Or && exists|i: int|
        0 <= i < group.len() && normalized(#[trigger] group[i]) is Public {
        let i = choose|i: int| 0 <= i < group.len() && normalized(#[trigger] group[i]) is Public;
        lemma_normalized_tree(operator, group);
        assert(normalized(nested[n - 1]) is Public);
        assert(plain[front.len() + i] == group[i]);
        assert(normalized(plain[front.len() + i]) is Public);
    } else if operator is Or && exists|i: int|
        0 <= i < front.len() && normalized(#[trigger] front[i]) is Public {
        let i = choose|i: int| 0 <= i < front.len() && normalized(#[trigger] front[i]) is Public;
        assert(nested[i] == front[i]);
        assert(plain[i] == front[i]);
        assert(normalized(nested[i]) is Public);
        assert(normalized(plain[i]) is Public);
    } else {
        let flat_nested = flattened(operator, nested, n);
        let flat_plain = flattened(operator, plain, m);
        lemma_flattened_proper(operator, nested, n);
        lemma_flattened_proper(operator, plain, m);
        assert forall|g: Formula| #[trigger]
            flat_nested.contains(g) <==> flat_plain.contains(g) by {
            lemma_flattened_contains(operator, nested, n, g);
            lemma_flattened_contains(operator, plain, m, g);
            lemma_flattened_contains(operator, group, group.len() as int, g);
            lemma_operands_of_group(operator, group, g);
            if flat_nested.contains(g) {
                let i = choose|i: int|
                    0 <= i < n && operands(operator, normalized(#[trigger] nested[i])).contains(g);
                if i < front.len() {
                    assert(plain[i] == nested[i]);
                    assert(operands(operator, normalized(plain[i])).contains(g));
                } else {
                    let k = choose|k: int|
                        0 <= k < group.len() && operands(
                            operator,
                            normalized(#[trigger] group[k]),
                        ).contains(g);
                    assert(plain[front.len() + k] == group[k]);
                    assert(operands(operator, normalized(plain[front.len() + k])).contains(g));
                }
            }
            if flat_plain.contains(g) {
                let i = choose|i: int|
                    0 <= i < m && operands(operator, normalized(#[trigger] plain[i])).contains(g);
                if i < front.len() {
                    assert(plain[i] == nested[i]);
                    assert(operands(operator, normalized(nested[i])).contains(g));
                } else {
                    assert(plain[i] == group[i - front.len()]);
                    assert(operands(operator, normalized(group[i - front.len()])).contains(g));
                    assert(operands(operator, normalized(nested[n - 1])).contains(g));
                }
            }
        }
        lemma_same_parts(flat_nested, flat_plain);
        if operator is Or {
            let first = normalized(group[0]);
            let part = operands(operator, first)[0];
            assert(operands(operator, first).contains(part));
            lemma_flattened_contains(operator, group, group.len() as int, part);
            lemma_operands_of_group(operator, group, part);
            assert forall|i: int| 0 <= i < n implies !(normalized(
                #[trigger] nested[i],
            ) is Public) by {
                if i < front.len() {
                    assert(nested[i] == front[i]);
                }
            }
            assert forall|i: int| 0 <= i < m implies !(normalized(#[trigger] plain[i]) is Public) by {
                if i < front.len() {
                    assert(plain[i] == front[i]);
                } else {
                    assert(plain[i] == group[i - front.len()]);
                }
            }
        }
    }
}

} // verus!
