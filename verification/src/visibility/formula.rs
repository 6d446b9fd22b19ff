//! What visibility expressions are: their grammar, their meaning, and their
//! canonical form.

use vstd::prelude::*;
use vstd::utf8::encode_utf8;

use crate::error::Error;
use crate::order::lex_less;
use crate::visibility::text::lemma_text_order;

verus! {

/// A visibility expression as a tree.
#[verifier::ext_equal]
pub enum Formula {
    /// Visible to everyone.
    Public,
    /// Visible to holders of the label.
    Label(Seq<char>),
    /// Visible where every child is.
    And(Seq<Formula>),
    /// Visible where some child is.
    Or(Seq<Formula>),
}

/// One of the two operators.
#[derive(Clone, Copy, Debug, Eq, PartialEq)]
pub enum Operator {
    /// `&`
    And,
    /// `|`
    Or,
}

/// Whether a character may stand in a label.
pub open spec fn label_char(c: char) -> bool {
    ||| 'a' <= c <= 'z'
    ||| 'A' <= c <= 'Z'
    ||| '0' <= c <= '9'
    ||| c == '_'
    ||| c == '-'
    ||| c == '.'
    ||| c == ':'
}

/// Whether a text is a label.
pub open spec fn valid_label(text: Seq<char>) -> bool {
    &&& text.len() > 0
    &&& forall|i: int| 0 <= i < text.len() ==> label_char(#[trigger] text[i])
}

/// The order of texts: that of their UTF-8 bytes.
pub open spec fn text_less(a: Seq<char>, b: Seq<char>) -> bool {
    lex_less(encode_utf8(a), encode_utf8(b))
}

/// Whether someone holding the labels `auths` may see what `formula` guards.
pub open spec fn holds(formula: Formula, auths: Set<Seq<char>>) -> bool
    decreases formula,
{
    match formula {
        Formula::Public => true,
        Formula::Label(label) => auths.contains(label),
        Formula::And(children) => forall|i: int|
            0 <= i < children.len() ==> holds(#[trigger] children[i], auths),
        Formula::Or(children) => exists|i: int|
            0 <= i < children.len() && holds(#[trigger] children[i], auths),
    }
}

// ---------------------------------------------------------------------------
// Grammar
//
//   or      = and { "|" and }
//   and     = primary { "&" primary }
//   primary = "(" or ")" | label
// ---------------------------------------------------------------------------
/// Whether `text` begins with `c`.
pub open spec fn starts_with(text: Seq<char>, c: char) -> bool {
    text.len() > 0 && text[0] == c
}

/// The number of label characters that `text` begins with.
pub open spec fn label_len(text: Seq<char>) -> nat
    decreases text.len(),
{
    if text.len() > 0 && label_char(text[0]) {
        1 + label_len(text.skip(1))
    } else {
        0
    }
}

/// The tree that an operator makes of its operands.
pub open spec fn tree(operator: Operator, children: Seq<Formula>) -> Formula {
    match operator {
        Operator::And => Formula::And(children),
        Operator::Or => Formula::Or(children),
    }
}

/// Several operands as one tree; a single operand stands for itself.
pub open spec fn combined(operator: Operator, children: Seq<Formula>) -> Formula {
    if children.len() == 1 {
        children[0]
    } else {
        tree(operator, children)
    }
}

/// What parsing gives: a tree and the text after it, or an error.
pub type Parsed = Result<(Formula, Seq<char>), Error>;

/// Parses a disjunction at the front of `text`.
pub open spec fn parsed_or(text: Seq<char>) -> Parsed
    decreases text.len(), 4int,
{
    match parsed_and(text) {
        Ok((first, rest)) => if rest.len() <= text.len() {
            parsed_or_tail(seq![first], rest)
        } else {
            arbitrary()
        },
        Err(error) => Err(error),
    }
}

/// Parses the operands of a disjunction that follow `children`.
pub open spec fn parsed_or_tail(children: Seq<Formula>, text: Seq<char>) -> Parsed
    decreases text.len(), 3int,
{
    if starts_with(text, '|') {
        match parsed_and(text.skip(1)) {
            Ok((child, rest)) => if rest.len() < text.len() {
                parsed_or_tail(children.push(child), rest)
            } else {
                arbitrary()
            },
            Err(error) => Err(error),
        }
    } else {
        Ok((combined(Operator::Or, children), text))
    }
}

/// Parses a conjunction at the front of `text`.
pub open spec fn parsed_and(text: Seq<char>) -> Parsed
    decreases text.len(), 2int,
{
    match parsed_primary(text) {
        Ok((first, rest)) => if rest.len() <= text.len() {
            parsed_and_tail(seq![first], rest)
        } else {
            arbitrary()
        },
        Err(error) => Err(error),
    }
}

/// Parses the operands of a conjunction that follow `children`.
pub open spec fn parsed_and_tail(children: Seq<Formula>, text: Seq<char>) -> Parsed
    decreases text.len(), 1int,
{
    if starts_with(text, '&') {
        match parsed_primary(text.skip(1)) {
            Ok((child, rest)) => if rest.len() < text.len() {
                parsed_and_tail(children.push(child), rest)
            } else {
                arbitrary()
            },
            Err(error) => Err(error),
        }
    } else {
        Ok((combined(Operator::And, children), text))
    }
}

/// Parses a label or a parenthesized expression at the front of `text`.
pub open spec fn parsed_primary(text: Seq<char>) -> Parsed
    decreases text.len(), 0int,
{
    if starts_with(text, '(') {
        match parsed_or(text.skip(1)) {
            Ok((inner, rest)) => if starts_with(rest, ')') {
                Ok((inner, rest.skip(1)))
            } else {
                Err(Error::InvalidVisibilityExpression("expected closing parenthesis"))
            },
            Err(error) => Err(error),
        }
    } else if label_len(text) == 0 {
        Err(Error::InvalidVisibilityExpression("expected label or parenthesized expression"))
    } else {
        Ok((Formula::Label(text.take(label_len(text) as int)), text.skip(label_len(text) as int)))
    }
}

/// The tree that a whole text stands for, or why it stands for none. The empty
/// text is public.
pub open spec fn parsed(text: Seq<char>) -> Result<Formula, Error> {
    if text.len() == 0 {
        Ok(Formula::Public)
    } else {
        match parsed_or(text) {
            Ok((formula, rest)) => if rest.len() == 0 {
                Ok(formula)
            } else {
                Err(Error::InvalidVisibilityExpression("unexpected trailing visibility token"))
            },
            Err(error) => Err(error),
        }
    }
}

// ---------------------------------------------------------------------------
// Canonical text
// ---------------------------------------------------------------------------
/// How tightly the tree's outermost operator binds.
pub open spec fn precedence(formula: Formula) -> int {
    match formula {
        Formula::Public => 3,
        Formula::Label(_) => 3,
        Formula::And(_) => 2,
        Formula::Or(_) => 1,
    }
}

/// The tree written without redundant parentheses, as an operand of an
/// operator of the given precedence.
pub open spec fn written(formula: Formula, parent_precedence: int) -> Seq<char>
    decreases formula, 1int,
{
    if precedence(formula) < parent_precedence {
        seq!['('] + written_bare(formula) + seq![')']
    } else {
        written_bare(formula)
    }
}

/// The tree written without parentheses around the whole.
pub open spec fn written_bare(formula: Formula) -> Seq<char>
    decreases formula, 0int,
{
    match formula {
        Formula::Public => Seq::empty(),
        Formula::Label(label) => label,
        Formula::And(children) => written_from(children, 0, '&', 2),
        Formula::Or(children) => written_from(children, 0, '|', 1),
    }
}

/// The operands from index `from` on, each but the first of all behind the
/// separator.
pub open spec fn written_from(
    children: Seq<Formula>,
    from: int,
    separator: char,
    precedence: int,
) -> Seq<char>
    decreases children, children.len() - from,
{
    if 0 <= from < children.len() {
        let lead = if from == 0 {
            Seq::empty()
        } else {
            seq![separator]
        };
        lead + written(children[from], precedence) + written_from(
            children,
            from + 1,
            separator,
            precedence,
        )
    } else {
        Seq::empty()
    }
}

/// The text of a whole tree.
pub open spec fn text_of(formula: Formula) -> Seq<char> {
    written(formula, 0)
}

// ---------------------------------------------------------------------------
// Canonical tree
// ---------------------------------------------------------------------------
/// Puts an operand into a list that is sorted by text, unless one with the
/// same text is there.
pub open spec fn inserted(sorted: Seq<Formula>, child: Formula) -> Seq<Formula>
    decreases sorted.len(),
{
    if sorted.len() == 0 {
        seq![child]
    } else if text_less(text_of(sorted.last()), text_of(child)) {
        sorted.push(child)
    } else if text_of(sorted.last()) == text_of(child) {
        sorted
    } else {
        inserted(sorted.drop_last(), child).push(sorted.last())
    }
}

/// Whether operands stand in strictly ascending order of their texts.
pub open spec fn ascending(children: Seq<Formula>) -> bool {
    forall|i: int, j: int|
        0 <= i < j < children.len() ==> text_less(
            text_of(#[trigger] children[i]),
            text_of(#[trigger] children[j]),
        )
}

/// The operands sorted by text, each text once.
pub open spec fn sorted_unique(children: Seq<Formula>) -> Seq<Formula>
    decreases children.len(),
{
    if children.len() == 0 {
        Seq::empty()
    } else {
        inserted(sorted_unique(children.drop_last()), children.last())
    }
}

/// The operands that a normalized child contributes to its parent: its own
/// operands where it has the parent's operator, none where it is public.
pub open spec fn operands(operator: Operator, child: Formula) -> Seq<Formula> {
    match (operator, child) {
        (Operator::And, Formula::And(grandchildren)) => grandchildren,
        (Operator::Or, Formula::Or(grandchildren)) => grandchildren,
        (_, Formula::Public) => Seq::empty(),
        (_, other) => seq![other],
    }
}

/// The operands of the first `count` children, each normalized.
pub open spec fn flattened(operator: Operator, children: Seq<Formula>, count: int) -> Seq<Formula>
    decreases children, count,
{
    if 0 < count <= children.len() {
        flattened(operator, children, count - 1) + operands(
            operator,
            normalized(children[count - 1]),
        )
    } else {
        Seq::empty()
    }
}

/// Sorted operands as one tree; no operands are public.
pub open spec fn rebuilt(operator: Operator, children: Seq<Formula>) -> Formula {
    if children.len() == 0 {
        Formula::Public
    } else {
        combined(operator, children)
    }
}

/// The canonical tree: nested operators of the same kind merged, operands
/// sorted by text without duplicates, and public operands absorbed.
pub open spec fn normalized(formula: Formula) -> Formula
    decreases formula, 0int,
{
    match formula {
        Formula::And(children) => rebuilt(
            Operator::And,
            sorted_unique(flattened(Operator::And, children, children.len() as int)),
        ),
        Formula::Or(children) => if exists|i: int|
            0 <= i < children.len() && normalized(#[trigger] children[i]) is Public {
            Formula::Public
        } else {
            rebuilt(
                Operator::Or,
                sorted_unique(flattened(Operator::Or, children, children.len() as int)),
            )
        },
        other => other,
    }
}

/// The canonical tree of a text.
pub open spec fn canonical(text: Seq<char>) -> Result<Formula, Error> {
    match parsed(text) {
        Ok(formula) => Ok(normalized(formula)),
        Err(error) => Err(error),
    }
}

/// Inserting a new text puts it between the smaller and the greater ones.
pub proof fn lemma_inserted_at(sorted: Seq<Formula>, child: Formula, at: int)
    requires
        ascending(sorted),
        0 <= at <= sorted.len(),
        forall|i: int| 0 <= i < at ==> text_less(text_of(#[trigger] sorted[i]), text_of(child)),
        forall|i: int|
            at <= i < sorted.len() ==> text_less(text_of(child), text_of(#[trigger] sorted[i])),
    ensures
        inserted(sorted, child) == sorted.insert(at, child),
        ascending(sorted.insert(at, child)),
    decreases sorted.len(),
{
    let n = sorted.len() as int;
    if 0 < n && at < n {
        assert(sorted[n - 1] == sorted.last());
        lemma_text_order(text_of(child), text_of(sorted.last()));
        lemma_inserted_at(sorted.drop_last(), child, at);
    }
    assert(inserted(sorted, child) =~= sorted.insert(at, child));
}

/// Inserting a text that is there changes nothing.
pub proof fn lemma_inserted_present(sorted: Seq<Formula>, child: Formula, at: int)
    requires
        ascending(sorted),
        0 <= at < sorted.len(),
        text_of(sorted[at]) == text_of(child),
    ensures
        inserted(sorted, child) == sorted,
    decreases sorted.len(),
{
    let n = sorted.len() as int;
    lemma_text_order(text_of(child), text_of(sorted.last()));
    if at < n - 1 {
        assert(text_less(text_of(sorted[at]), text_of(sorted[n - 1])));
        lemma_inserted_present(sorted.drop_last(), child, at);
        assert(inserted(sorted, child) =~= sorted);
    }
}

} // verus!
