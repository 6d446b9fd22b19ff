//! What visibility expressions mean, read off their texts: a label is
//! membership, `&` is conjunction, `|` is disjunction, and nothing else counts.

use vstd::prelude::*;
use vstd::utf8::encode_utf8;

use crate::error::Error;
use crate::order::lemma_lex_less_at_first_difference;
use crate::visibility::formula::{
    ascending, canonical, combined, holds, label_char, parsed, text_of, valid_label, written,
    written_from, Formula, Operator,
};
use crate::visibility::grammar::{
    is_and, is_or, is_primary, joined, joins, lemma_conjunctions_are_unambiguous,
    lemma_grammar_is_exact, lemma_grammar_is_unambiguous, lemma_joined_push, lemma_part_len,
};
use crate::visibility::laws::{
    grammatical, lemma_canonical_is_idempotent, lemma_canonical_keeps_meaning, lemma_parse_errors,
    lemma_parsed_is_grammatical, proper,
};

verus! {

/// Whether someone holding the labels `auths` may see what a text guards, or why
/// the text is refused.
pub open spec fn sees(text: Seq<char>, auths: Set<Seq<char>>) -> Result<bool, Error> {
    match canonical(text) {
        Ok(formula) => Ok(holds(formula, auths)),
        Err(error) => Err(error),
    }
}

// ---------------------------------------------------------------------------
// The truth of a text
// ---------------------------------------------------------------------------
/// Whether a text is a conjunction.
pub open spec fn is_conjunction(text: Seq<char>) -> bool {
    exists|formula: Formula| is_and(text, formula)
}

/// Whether a text is a label or stands in parentheses.
pub open spec fn is_operand(text: Seq<char>) -> bool {
    exists|formula: Formula| is_primary(text, formula)
}

/// Whether `parts` are the operands of the disjunction `text`.
pub open spec fn or_operands(parts: Seq<Seq<char>>, text: Seq<char>) -> bool {
    &&& parts.len() >= 1
    &&& text == joined(parts, 0, '|')
    &&& forall|i: int| 0 <= i < parts.len() ==> is_conjunction(#[trigger] parts[i])
}

/// Whether `parts` are the operands of the conjunction `text`.
pub open spec fn and_operands(parts: Seq<Seq<char>>, text: Seq<char>) -> bool {
    &&& parts.len() >= 1
    &&& text == joined(parts, 0, '&')
    &&& forall|i: int| 0 <= i < parts.len() ==> is_operand(#[trigger] parts[i])
}

/// A disjunction is true if one of its operands is.
pub open spec fn true_or(text: Seq<char>, auths: Set<Seq<char>>) -> bool
    decreases text.len(), 2int,
{
    exists|parts: Seq<Seq<char>>, at: int|
        #![trigger or_operands(parts, text), parts[at]]
        or_operands(parts, text) && 0 <= at < parts.len() && parts[at].len() <= text.len()
            && true_and(parts[at], auths)
}

/// A conjunction is true if all of its operands are.
pub open spec fn true_and(text: Seq<char>, auths: Set<Seq<char>>) -> bool
    decreases text.len(), 1int,
{
    exists|parts: Seq<Seq<char>>| #[trigger]
        and_operands(parts, text) && forall|at: int|
            0 <= at < parts.len() ==> (#[trigger] parts[at]).len() <= text.len() && true_primary(
                parts[at],
                auths,
            )
}

/// A label is true if it is held, and parentheses change nothing.
pub open spec fn true_primary(text: Seq<char>, auths: Set<Seq<char>>) -> bool
    decreases text.len(), 0int,
{
    if text.len() >= 2 && text[0] == '(' {
        true_or(text.subrange(1, text.len() - 1), auths)
    } else {
        auths.contains(text)
    }
}

proof fn lemma_combined_or(children: Seq<Formula>, auths: Set<Seq<char>>)
    requires
        children.len() >= 1,
    ensures
        holds(combined(Operator::Or, children), auths) <==> exists|i: int|
            0 <= i < children.len() && holds(#[trigger] children[i], auths),
{
    let whole = combined(Operator::Or, children);
    if children.len() == 1 {
        if holds(whole, auths) {
            assert(holds(children[0], auths));
        }
    } else {
        if holds(whole, auths) {
            let i = choose|i: int|
                0 <= i < whole->Or_0.len() && holds(#[trigger] whole->Or_0[i], auths);
            assert(holds(children[i], auths));
        }
        if exists|i: int| 0 <= i < children.len() && holds(#[trigger] children[i], auths) {
            let i = choose|i: int| 0 <= i < children.len() && holds(#[trigger] children[i], auths);
            assert(holds(whole->Or_0[i], auths));
        }
    }
}

proof fn lemma_combined_and(children: Seq<Formula>, auths: Set<Seq<char>>)
    requires
        children.len() >= 1,
    ensures
        holds(combined(Operator::And, children), auths) <==> forall|i: int|
            0 <= i < children.len() ==> holds(#[trigger] children[i], auths),
{
    let whole = combined(Operator::And, children);
    if children.len() > 1 {
        if holds(whole, auths) {
            assert forall|i: int| 0 <= i < children.len() implies holds(
                #[trigger] children[i],
                auths,
            ) by {
                assert(holds(whole->And_0[i], auths));
            }
        }
    }
}

proof fn lemma_or_is_true(text: Seq<char>, formula: Formula, auths: Set<Seq<char>>)
    requires
        is_or(text, formula),
    ensures
        true_or(text, auths) <==> holds(formula, auths),
    decreases text.len(), 2int,
{
    let (parts, children) = choose|parts: Seq<Seq<char>>, children: Seq<Formula>|
        {
            &&& #[trigger] joins(parts, children, '|', text)
            &&& formula == combined(Operator::Or, children)
            &&& forall|i: int|
                0 <= i < parts.len() ==> (#[trigger] parts[i]).len() <= text.len() && is_and(
                    parts[i],
                    children[i],
                )
        };
    lemma_combined_or(children, auths);
    if holds(formula, auths) {
        let at = choose|i: int| 0 <= i < children.len() && holds(#[trigger] children[i], auths);
        assert(is_and(parts[at], children[at]));
        lemma_and_is_true(parts[at], children[at], auths);
        assert(or_operands(parts, text)) by {
            assert forall|i: int| 0 <= i < parts.len() implies is_conjunction(
                #[trigger] parts[i],
            ) by {
                assert(is_and(parts[i], children[i]));
            }
        }
        assert(true_and(parts[at], auths));
    }
    if true_or(text, auths) {
        let (others, at) = choose|others: Seq<Seq<char>>, at: int|
            #![trigger or_operands(others, text), others[at]]
            or_operands(others, text) && 0 <= at < others.len() && others[at].len() <= text.len()
                && true_and(others[at], auths);
        let trees = Seq::new(others.len(), |i: int| choose|f: Formula| is_and(others[i], f));
        assert forall|i: int| 0 <= i < others.len() implies (#[trigger] others[i]).len()
            <= text.len() && is_and(others[i], trees[i]) by {
            lemma_part_len(others, 0, '|', i);
            assert(is_conjunction(others[i]));
        }
        assert(joins(others, trees, '|', text));
        assert(is_or(text, combined(Operator::Or, trees)));
        lemma_grammar_is_unambiguous(text, formula, combined(Operator::Or, trees));
        lemma_combined_or(trees, auths);
        lemma_and_is_true(others[at], trees[at], auths);
        assert(holds(trees[at], auths));
    }
}

proof fn lemma_and_is_true(text: Seq<char>, formula: Formula, auths: Set<Seq<char>>)
    requires
        is_and(text, formula),
    ensures
        true_and(text, auths) <==> holds(formula, auths),
    decreases text.len(), 1int,
{
    let (parts, children) = choose|parts: Seq<Seq<char>>, children: Seq<Formula>|
        {
            &&& #[trigger] joins(parts, children, '&', text)
            &&& formula == combined(Operator::And, children)
            &&& forall|i: int|
                0 <= i < parts.len() ==> (#[trigger] parts[i]).len() <= text.len() && is_primary(
                    parts[i],
                    children[i],
                )
        };
    lemma_combined_and(children, auths);
    if holds(formula, auths) {
        assert forall|at: int| 0 <= at < parts.len() implies (#[trigger] parts[at]).len()
            <= text.len() && true_primary(parts[at], auths) by {
            assert(is_primary(parts[at], children[at]));
            assert(holds(children[at], auths));
            lemma_primary_is_true(parts[at], children[at], auths);
        }
        assert(and_operands(parts, text)) by {
            assert forall|i: int| 0 <= i < parts.len() implies is_operand(#[trigger] parts[i]) by {
                assert(is_primary(parts[i], children[i]));
            }
        }
    }
    if true_and(text, auths) {
        let others = choose|others: Seq<Seq<char>>| #[trigger]
            and_operands(others, text) && forall|at: int|
                0 <= at < others.len() ==> (#[trigger] others[at]).len() <= text.len()
                    && true_primary(others[at], auths);
        let trees = Seq::new(others.len(), |i: int| choose|f: Formula| is_primary(others[i], f));
        assert forall|i: int| 0 <= i < others.len() implies (#[trigger] others[i]).len()
            <= text.len() && is_primary(others[i], trees[i]) by {
            lemma_part_len(others, 0, '&', i);
            assert(is_operand(others[i]));
        }
        assert(joins(others, trees, '&', text));
        assert(is_and(text, combined(Operator::And, trees)));
        lemma_conjunctions_are_unambiguous(text, formula, combined(Operator::And, trees));
        lemma_combined_and(trees, auths);
        assert forall|i: int| 0 <= i < trees.len() implies holds(#[trigger] trees[i], auths) by {
            assert(true_primary(others[i], auths));
            lemma_primary_is_true(others[i], trees[i], auths);
        }
    }
}

proof fn lemma_primary_is_true(text: Seq<char>, formula: Formula, auths: Set<Seq<char>>)
    requires
        is_primary(text, formula),
    ensures
        true_primary(text, auths) <==> holds(formula, auths),
    decreases text.len(), 0int,
{
    if valid_label(text) && formula == Formula::Label(text) {
        assert(label_char(text[0]));
    } else {
        lemma_or_is_true(text.subrange(1, text.len() - 1), formula, auths);
    }
}

/// An expression is visible under a label set exactly if its text, read as a
/// boolean formula in which a label stands for membership in the set, is true.
/// The empty text is visible to everyone.
pub proof fn lemma_expression_means_its_text(text: Seq<char>, auths: Set<Seq<char>>)
    ensures
        sees(text, auths) matches Ok(visible) ==> visible == (text.len() == 0 || true_or(
            text,
            auths,
        )),
{
    if let Ok(raw) = parsed(text) {
        lemma_canonical_keeps_meaning(text, auths);
        lemma_grammar_is_exact(text, raw);
        if text.len() > 0 {
            lemma_or_is_true(text, raw, auths);
        }
    }
}

// ---------------------------------------------------------------------------
// Labels
// ---------------------------------------------------------------------------
/// A label is one or more of the characters `a` to `z`, `A` to `Z`, `0` to `9`,
/// `_`, `-`, `.` and `:`, and nothing else.
pub proof fn lemma_label_characters(text: Seq<char>)
    ensures
        valid_label(text) <==> text.len() > 0 && forall|i: int|
            0 <= i < text.len() ==> ({
                let c = #[trigger] text[i];
                ||| 'a' <= c <= 'z'
                ||| 'A' <= c <= 'Z'
                ||| '0' <= c <= '9'
                ||| c == '_' || c == '-' || c == '.' || c == ':'
            }),
{
}

proof fn lemma_label_is_derived(label: Seq<char>)
    requires
        valid_label(label),
    ensures
        is_and(label, Formula::Label(label)),
        is_or(label, Formula::Label(label)),
{
    lemma_primary_is_and(label, Formula::Label(label));
    lemma_and_is_or(label, Formula::Label(label));
}

proof fn lemma_primary_is_and(text: Seq<char>, formula: Formula)
    requires
        is_primary(text, formula),
    ensures
        is_and(text, formula),
{
    let parts = seq![text];
    let children = seq![formula];
    reveal_with_fuel(joined, 2);
    assert(joined(parts, 0, '&') =~= text);
    assert(joins(parts, children, '&', text));
    assert(combined(Operator::And, children) == formula);
    assert forall|i: int| 0 <= i < parts.len() implies (#[trigger] parts[i]).len() <= text.len()
        && is_primary(parts[i], children[i]) by {
        assert(i == 0);
    }
}

proof fn lemma_and_is_or(text: Seq<char>, formula: Formula)
    requires
        is_and(text, formula),
    ensures
        is_or(text, formula),
{
    let parts = seq![text];
    let children = seq![formula];
    reveal_with_fuel(joined, 2);
    assert(joined(parts, 0, '|') =~= text);
    assert(joins(parts, children, '|', text));
    assert(combined(Operator::Or, children) == formula);
    assert forall|i: int| 0 <= i < parts.len() implies (#[trigger] parts[i]).len() <= text.len()
        && is_and(parts[i], children[i]) by {
        assert(i == 0);
    }
}

proof fn lemma_sees_derived(text: Seq<char>, formula: Formula, auths: Set<Seq<char>>)
    requires
        text.len() > 0,
        is_or(text, formula),
    ensures
        sees(text, auths) == Ok::<bool, Error>(holds(formula, auths)),
{
    lemma_grammar_is_exact(text, formula);
    lemma_canonical_keeps_meaning(text, auths);
}

/// What is guarded by a single label is visible exactly to those who hold it.
pub proof fn lemma_label_is_membership(label: Seq<char>, auths: Set<Seq<char>>)
    requires
        valid_label(label),
    ensures
        sees(label, auths) == Ok::<bool, Error>(auths.contains(label)),
{
    lemma_label_is_derived(label);
    lemma_sees_derived(label, Formula::Label(label), auths);
}

// ---------------------------------------------------------------------------
// Operators
// ---------------------------------------------------------------------------
proof fn lemma_joined_concat(a: Seq<Seq<char>>, b: Seq<Seq<char>>, separator: char)
    requires
        a.len() >= 1,
        b.len() >= 1,
    ensures
        joined(a + b, 0, separator) == joined(a, 0, separator) + seq![separator] + joined(
            b,
            0,
            separator,
        ),
    decreases b.len(),
{
    let last = b.last();
    let front = b.drop_last();
    assert(a + b =~= (a + front).push(last));
    lemma_joined_push(a + front, last, 0, separator);
    if front.len() == 0 {
        assert(a + front =~= a);
        reveal_with_fuel(joined, 2);
        assert(joined(b, 0, separator) =~= last);
    } else {
        lemma_joined_concat(a, front, separator);
        assert(b =~= front.push(last));
        lemma_joined_push(front, last, 0, separator);
    }
    assert(joined(a + b, 0, separator) =~= joined(a, 0, separator) + seq![separator] + joined(
        b,
        0,
        separator,
    ));
}

/// A disjunction of two expressions is visible to those who see one of them.
pub proof fn lemma_disjunction_means_either(
    left: Seq<char>,
    right: Seq<char>,
    auths: Set<Seq<char>>,
)
    requires
        left.len() > 0,
        right.len() > 0,
        sees(left, auths) is Ok,
        sees(right, auths) is Ok,
    ensures
        sees(left + seq!['|'] + right, auths) == Ok::<bool, Error>(
            sees(left, auths)->Ok_0 || sees(right, auths)->Ok_0,
        ),
{
    let (f, g) = (parsed(left)->Ok_0, parsed(right)->Ok_0);
    lemma_grammar_is_exact(left, f);
    lemma_grammar_is_exact(right, g);
    let (ps, cs) = choose|parts: Seq<Seq<char>>, children: Seq<Formula>|
        {
            &&& #[trigger] joins(parts, children, '|', left)
            &&& f == combined(Operator::Or, children)
            &&& forall|i: int|
                0 <= i < parts.len() ==> (#[trigger] parts[i]).len() <= left.len() && is_and(
                    parts[i],
                    children[i],
                )
        };
    let (pt, ct) = choose|parts: Seq<Seq<char>>, children: Seq<Formula>|
        {
            &&& #[trigger] joins(parts, children, '|', right)
            &&& g == combined(Operator::Or, children)
            &&& forall|i: int|
                0 <= i < parts.len() ==> (#[trigger] parts[i]).len() <= right.len() && is_and(
                    parts[i],
                    children[i],
                )
        };
    let whole = left + seq!['|'] + right;
    let parts = ps + pt;
    let children = cs + ct;
    lemma_joined_concat(ps, pt, '|');
    assert(joins(parts, children, '|', whole));
    assert forall|i: int| 0 <= i < parts.len() implies (#[trigger] parts[i]).len() <= whole.len()
        && is_and(parts[i], children[i]) by {
        if i < ps.len() {
            assert(parts[i] == ps[i]);
        } else {
            assert(parts[i] == pt[i - ps.len()]);
        }
    }
    let h = combined(Operator::Or, children);
    assert(is_or(whole, h));
    lemma_sees_derived(whole, h, auths);
    lemma_sees_derived(left, f, auths);
    lemma_sees_derived(right, g, auths);
    lemma_combined_or(children, auths);
    lemma_combined_or(cs, auths);
    lemma_combined_or(ct, auths);
    if holds(h, auths) {
        let i = choose|i: int| 0 <= i < children.len() && holds(#[trigger] children[i], auths);
        if i < cs.len() {
            assert(holds(cs[i], auths));
        } else {
            assert(holds(ct[i - cs.len()], auths));
        }
    }
    if holds(f, auths) {
        let i = choose|i: int| 0 <= i < cs.len() && holds(#[trigger] cs[i], auths);
        assert(children[i] == cs[i]);
    }
    if holds(g, auths) {
        let i = choose|i: int| 0 <= i < ct.len() && holds(#[trigger] ct[i], auths);
        assert(children[cs.len() + i] == ct[i]);
    }
}

/// A conjunction of two expressions without `|` outside parentheses is visible
/// to those who see both.
pub proof fn lemma_conjunction_means_both(
    left: Seq<char>,
    right: Seq<char>,
    f: Formula,
    g: Formula,
    auths: Set<Seq<char>>,
)
    requires
        left.len() > 0,
        right.len() > 0,
        is_and(left, f),
        is_and(right, g),
    ensures
        sees(left, auths) is Ok,
        sees(right, auths) is Ok,
        sees(left + seq!['&'] + right, auths) == Ok::<bool, Error>(
            sees(left, auths)->Ok_0 && sees(right, auths)->Ok_0,
        ),
{
    let (ps, cs) = choose|parts: Seq<Seq<char>>, children: Seq<Formula>|
        {
            &&& #[trigger] joins(parts, children, '&', left)
            &&& f == combined(Operator::And, children)
            &&& forall|i: int|
                0 <= i < parts.len() ==> (#[trigger] parts[i]).len() <= left.len() && is_primary(
                    parts[i],
                    children[i],
                )
        };
    let (pt, ct) = choose|parts: Seq<Seq<char>>, children: Seq<Formula>|
        {
            &&& #[trigger] joins(parts, children, '&', right)
            &&& g == combined(Operator::And, children)
            &&& forall|i: int|
                0 <= i < parts.len() ==> (#[trigger] parts[i]).len() <= right.len() && is_primary(
                    parts[i],
                    children[i],
                )
        };
    let whole = left + seq!['&'] + right;
    let parts = ps + pt;
    let children = cs + ct;
    lemma_joined_concat(ps, pt, '&');
    assert(joins(parts, children, '&', whole));
    assert forall|i: int| 0 <= i < parts.len() implies (#[trigger] parts[i]).len() <= whole.len()
        && is_primary(parts[i], children[i]) by {
        if i < ps.len() {
            assert(parts[i] == ps[i]);
        } else {
            assert(parts[i] == pt[i - ps.len()]);
        }
    }
    let h = combined(Operator::And, children);
    assert(is_and(whole, h));
    lemma_and_is_or(whole, h);
    lemma_and_is_or(left, f);
    lemma_and_is_or(right, g);
    lemma_sees_derived(whole, h, auths);
    lemma_sees_derived(left, f, auths);
    lemma_sees_derived(right, g, auths);
    lemma_combined_and(children, auths);
    lemma_combined_and(cs, auths);
    lemma_combined_and(ct, auths);
    if holds(h, auths) {
        assert forall|i: int| 0 <= i < cs.len() implies holds(#[trigger] cs[i], auths) by {
            assert(children[i] == cs[i]);
        }
        assert forall|i: int| 0 <= i < ct.len() implies holds(#[trigger] ct[i], auths) by {
            assert(children[cs.len() + i] == ct[i]);
        }
    }
    if holds(f, auths) && holds(g, auths) {
        assert forall|i: int| 0 <= i < children.len() implies holds(
            #[trigger] children[i],
            auths,
        ) by {
            if i < cs.len() {
                assert(children[i] == cs[i]);
            } else {
                assert(children[i] == ct[i - cs.len()]);
            }
        }
    }
}

proof fn lemma_parenthesized_is_primary(inner: Seq<char>, formula: Formula)
    requires
        is_or(inner, formula),
    ensures
        is_primary(seq!['('] + inner + seq![')'], formula),
{
    let text = seq!['('] + inner + seq![')'];
    assert(text.subrange(1, text.len() - 1) =~= inner);
}

/// Parentheses do not change who may see.
pub proof fn lemma_parentheses_change_nothing(inner: Seq<char>, auths: Set<Seq<char>>)
    requires
        inner.len() > 0,
        sees(inner, auths) is Ok,
    ensures
        sees(seq!['('] + inner + seq![')'], auths) == sees(inner, auths),
{
    let f = parsed(inner)->Ok_0;
    let text = seq!['('] + inner + seq![')'];
    lemma_grammar_is_exact(inner, f);
    lemma_parenthesized_is_primary(inner, f);
    lemma_primary_is_and(text, f);
    lemma_and_is_or(text, f);
    lemma_sees_derived(text, f, auths);
    lemma_sees_derived(inner, f, auths);
}

/// A conjunction of any two expressions in parentheses is visible to those who
/// see both.
pub proof fn lemma_grouped_conjunction_means_both(
    left: Seq<char>,
    right: Seq<char>,
    auths: Set<Seq<char>>,
)
    requires
        left.len() > 0,
        right.len() > 0,
        sees(left, auths) is Ok,
        sees(right, auths) is Ok,
    ensures
        sees(
            (seq!['('] + left + seq![')']) + seq!['&'] + (seq!['('] + right + seq![')']),
            auths,
        ) == Ok::<bool, Error>(sees(left, auths)->Ok_0 && sees(right, auths)->Ok_0),
{
    let (f, g) = (parsed(left)->Ok_0, parsed(right)->Ok_0);
    lemma_grammar_is_exact(left, f);
    lemma_grammar_is_exact(right, g);
    let a = seq!['('] + left + seq![')'];
    let b = seq!['('] + right + seq![')'];
    lemma_parenthesized_is_primary(left, f);
    lemma_parenthesized_is_primary(right, g);
    lemma_primary_is_and(a, f);
    lemma_primary_is_and(b, g);
    lemma_conjunction_means_both(a, b, f, g, auths);
    lemma_parentheses_change_nothing(left, auths);
    lemma_parentheses_change_nothing(right, auths);
}

// ---------------------------------------------------------------------------
// Public and refused texts
// ---------------------------------------------------------------------------
proof fn lemma_no_labels_see_nothing(formula: Formula)
    requires
        grammatical(formula),
    ensures
        !holds(formula, Set::empty()),
    decreases formula,
{
    match formula {
        Formula::And(children) => {
            assert(grammatical(formula->And_0[0]));
            lemma_no_labels_see_nothing(children[0]);
            if holds(formula, Set::empty()) {
                assert(holds(formula->And_0[0], Set::empty()));
            }
        },
        Formula::Or(children) => {
            if holds(formula, Set::empty()) {
                let i = choose|i: int|
                    0 <= i < formula->Or_0.len() && holds(
                        #[trigger] formula->Or_0[i],
                        Set::empty(),
                    );
                assert(grammatical(formula->Or_0[i]));
                lemma_no_labels_see_nothing(children[i]);
            }
        },
        _ => {},
    }
}

/// The empty text is visible to everyone, and it alone to those who hold no
/// label.
pub proof fn lemma_only_public_is_visible_without_labels(
    text: Seq<char>,
    auths: Set<Seq<char>>,
)
    ensures
        text.len() == 0 ==> sees(text, auths) == Ok::<bool, Error>(true),
        text.len() > 0 ==> sees(text, Set::empty()) != Ok::<bool, Error>(true),
{
    if text.len() > 0 {
        if let Ok(raw) = parsed(text) {
            lemma_parsed_is_grammatical(text);
            lemma_no_labels_see_nothing(raw);
            lemma_canonical_keeps_meaning(text, Set::empty());
        }
    }
}

/// Whether a text holds only characters that may stand in an expression.
pub open spec fn expression_characters(text: Seq<char>) -> bool {
    forall|i: int|
        0 <= i < text.len() ==> ({
            let c = #[trigger] text[i];
            ||| 'a' <= c <= 'z'
            ||| 'A' <= c <= 'Z'
            ||| '0' <= c <= '9'
            ||| c == '_' || c == '-' || c == '.' || c == ':'
            ||| c == '&' || c == '|' || c == '(' || c == ')'
        })
}

proof fn lemma_joined_characters(parts: Seq<Seq<char>>, from: int, separator: char)
    requires
        separator == '&' || separator == '|',
        0 <= from,
        forall|i: int| 0 <= i < parts.len() ==> expression_characters(#[trigger] parts[i]),
    ensures
        expression_characters(joined(parts, from, separator)),
    decreases parts.len() - from,
{
    if from < parts.len() {
        lemma_joined_characters(parts, from + 1, separator);
        assert(expression_characters(parts[from]));
        let lead = if from == 0 {
            Seq::empty()
        } else {
            seq![separator]
        };
        let front = lead + parts[from];
        let tail = joined(parts, from + 1, separator);
        let whole = joined(parts, from, separator);
        assert forall|i: int| 0 <= i < whole.len() implies ({
            let c = #[trigger] whole[i];
            ||| 'a' <= c <= 'z'
            ||| 'A' <= c <= 'Z'
            ||| '0' <= c <= '9'
            ||| c == '_' || c == '-' || c == '.' || c == ':'
            ||| c == '&' || c == '|' || c == '(' || c == ')'
        }) by {
            if i < lead.len() {
                assert(whole[i] == separator);
            } else if i < front.len() {
                assert(whole[i] == parts[from][i - lead.len()]);
            } else {
                assert(whole[i] == tail[i - front.len()]);
            }
        }
    }
}

proof fn lemma_derived_characters(text: Seq<char>, formula: Formula, tier: int)
    requires
        0 <= tier <= 2,
        tier == 2 ==> is_or(text, formula),
        tier == 1 ==> is_and(text, formula),
        tier == 0 ==> is_primary(text, formula),
    ensures
        expression_characters(text),
    decreases text.len(), tier,
{
    if tier == 2 {
        let (parts, children) = choose|parts: Seq<Seq<char>>, children: Seq<Formula>|
            {
                &&& #[trigger] joins(parts, children, '|', text)
                &&& formula == combined(Operator::Or, children)
                &&& forall|i: int|
                    0 <= i < parts.len() ==> (#[trigger] parts[i]).len() <= text.len() && is_and(
                        parts[i],
                        children[i],
                    )
            };
        assert forall|i: int| 0 <= i < parts.len() implies expression_characters(
            #[trigger] parts[i],
        ) by {
            lemma_derived_characters(parts[i], children[i], 1);
        }
        lemma_joined_characters(parts, 0, '|');
    } else if tier == 1 {
        let (parts, children) = choose|parts: Seq<Seq<char>>, children: Seq<Formula>|
            {
                &&& #[trigger] joins(parts, children, '&', text)
                &&& formula == combined(Operator::And, children)
                &&& forall|i: int|
                    0 <= i < parts.len() ==> (#[trigger] parts[i]).len() <= text.len()
                        && is_primary(parts[i], children[i])
            };
        assert forall|i: int| 0 <= i < parts.len() implies expression_characters(
            #[trigger] parts[i],
        ) by {
            lemma_derived_characters(parts[i], children[i], 0);
        }
        lemma_joined_characters(parts, 0, '&');
    } else if valid_label(text) {
        lemma_label_characters(text);
    } else {
        let inner = text.subrange(1, text.len() - 1);
        lemma_derived_characters(inner, formula, 2);
        assert forall|i: int| 0 <= i < text.len() implies ({
            let c = #[trigger] text[i];
            ||| 'a' <= c <= 'z'
            ||| 'A' <= c <= 'Z'
            ||| '0' <= c <= '9'
            ||| c == '_' || c == '-' || c == '.' || c == ':'
            ||| c == '&' || c == '|' || c == '(' || c == ')'
        }) by {
            if 0 < i < text.len() - 1 {
                assert(text[i] == inner[i - 1]);
            }
        }
    }
}

/// A text with any other character than those of labels, operators and
/// parentheses is refused.
pub proof fn lemma_accepted_characters(text: Seq<char>, auths: Set<Seq<char>>)
    ensures
        sees(text, auths) is Ok ==> expression_characters(text),
        sees(text, auths) matches Err(error) ==> error is InvalidVisibilityExpression,
{
    if let Ok(raw) = parsed(text) {
        lemma_grammar_is_exact(text, raw);
        if text.len() > 0 {
            lemma_derived_characters(text, raw, 2);
        }
    }
    lemma_parse_errors(text);
}

// ---------------------------------------------------------------------------
// Canonical texts
// ---------------------------------------------------------------------------
/// The text of an operand of a canonical conjunction: a disjunction stands in
/// parentheses, and nothing else does.
pub open spec fn conjunct_text(operand: Formula) -> Seq<char> {
    if operand is Or {
        seq!['('] + text_of(operand) + seq![')']
    } else {
        text_of(operand)
    }
}

proof fn lemma_written_is_joined(
    children: Seq<Formula>,
    texts: Seq<Seq<char>>,
    from: int,
    separator: char,
    level: int,
)
    requires
        texts.len() == children.len(),
        0 <= from,
        forall|i: int|
            0 <= i < children.len() ==> written(#[trigger] children[i], level) == texts[i],
    ensures
        written_from(children, from, separator, level) == joined(texts, from, separator),
    decreases children.len() - from,
{
    if from < children.len() {
        lemma_written_is_joined(children, texts, from + 1, separator, level);
        assert(written(children[from], level) == texts[from]);
    }
}

/// Whether two byte strings differ first where the first one ends or has the
/// smaller byte.
pub open spec fn lower_at_first_difference(a: Seq<u8>, b: Seq<u8>) -> bool {
    exists|k: int|
        0 <= k <= a.len() && k < b.len() && #[trigger] a.take(k) == b.take(k) && (k == a.len()
            || a[k] < b[k])
}

/// Whether the texts of operands stand in strictly ascending order of their
/// UTF-8 bytes.
pub open spec fn ascending_bytes(operands: Seq<Formula>) -> bool {
    forall|i: int, j: int|
        0 <= i < j < operands.len() ==> lower_at_first_difference(
            encode_utf8(text_of(#[trigger] operands[i])),
            encode_utf8(text_of(#[trigger] operands[j])),
        )
}

proof fn lemma_ascending_bytes(operands: Seq<Formula>)
    requires
        ascending(operands),
    ensures
        ascending_bytes(operands),
{
    assert forall|i: int, j: int| 0 <= i < j < operands.len() implies lower_at_first_difference(
        encode_utf8(text_of(#[trigger] operands[i])),
        encode_utf8(text_of(#[trigger] operands[j])),
    ) by {
        lemma_lex_less_at_first_difference(
            encode_utf8(text_of(operands[i])),
            encode_utf8(text_of(operands[j])),
        );
    }
}

/// A canonical text is a label, or the texts of two or more operands with the
/// operator between them, in strictly ascending byte order, none of them with
/// the operator itself, and with parentheses around the disjunctions of a
/// conjunction only.
pub proof fn lemma_canonical_text_layout(text: Seq<char>)
    ensures
        canonical(text) matches Ok(formula) ==> match formula {
            Formula::Public => text_of(formula).len() == 0,
            Formula::Label(label) => text_of(formula) == label,
            Formula::And(parts) => {
                &&& parts.len() >= 2
                &&& text_of(formula) == joined(
                    Seq::new(parts.len(), |i: int| conjunct_text(parts[i])),
                    0,
                    '&',
                )
                &&& ascending_bytes(parts)
                &&& forall|i: int| 0 <= i < parts.len() ==> !(#[trigger] parts[i] is And)
            },
            Formula::Or(parts) => {
                &&& parts.len() >= 2
                &&& text_of(formula) == joined(
                    Seq::new(parts.len(), |i: int| text_of(parts[i])),
                    0,
                    '|',
                )
                &&& ascending_bytes(parts)
                &&& forall|i: int| 0 <= i < parts.len() ==> !(#[trigger] parts[i] is Or)
            },
        },
{
    lemma_canonical_is_idempotent(text);
    if let Ok(formula) = canonical(text) {
        match formula {
            Formula::And(parts) => {
                let texts = Seq::new(parts.len(), |i: int| conjunct_text(parts[i]));
                assert forall|i: int| 0 <= i < parts.len() implies written(
                    #[trigger] parts[i],
                    2,
                ) == texts[i] && !(parts[i] is And) by {
                    assert(proper(formula->And_0[i]));
                }
                lemma_written_is_joined(parts, texts, 0, '&', 2);
                lemma_ascending_bytes(parts);
            },
            Formula::Or(parts) => {
                let texts = Seq::new(parts.len(), |i: int| text_of(parts[i]));
                assert forall|i: int| 0 <= i < parts.len() implies written(
                    #[trigger] parts[i],
                    1,
                ) == texts[i] && !(parts[i] is Or) by {
                    assert(proper(formula->Or_0[i]));
                }
                lemma_written_is_joined(parts, texts, 0, '|', 1);
                lemma_ascending_bytes(parts);
            },
            _ => {},
        }
    }
}

} // verus!
