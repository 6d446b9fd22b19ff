//! Visibility expression trees.

use vstd::prelude::*;

use crate::order::bytes_less;
use crate::visibility::formula::{
    ascending, flattened, holds, inserted, lemma_inserted_at, lemma_inserted_present, normalized,
    operands, precedence, rebuilt, sorted_unique, text_less, text_of, tree, written, written_bare,
    written_from, Formula, Operator,
};
use crate::visibility::text::{lemma_text_order, lemma_text_transitive};
use crate::visibility::Authorizations;

verus! {

/// A visibility expression as a tree.
#[derive(Debug, Eq, PartialEq)]
pub(crate) enum Expr {
    Public,
    Label(String),
    And(Vec<Expr>),
    Or(Vec<Expr>),
}

/// The trees of several expressions.
pub(crate) open spec fn formulas(children: Seq<Expr>) -> Seq<Formula> {
    Seq::new(children.len(), |i: int| children[i].formula())
}

impl Expr {
    /// The tree as a mathematical value.
    pub(crate) open spec fn formula(self) -> Formula
        decreases self,
    {
        match self {
            Expr::Public => Formula::Public,
            Expr::Label(label) => Formula::Label(label@),
            Expr::And(children) => Formula::And(
                Seq::new(
                    children@.len(),
                    |i: int|
                        if 0 <= i < children@.len() {
                            children@[i].formula()
                        } else {
                            Formula::Public
                        },
                ),
            ),
            Expr::Or(children) => Formula::Or(
                Seq::new(
                    children@.len(),
                    |i: int|
                        if 0 <= i < children@.len() {
                            children@[i].formula()
                        } else {
                            Formula::Public
                        },
                ),
            ),
        }
    }

    /// The children of a tree's formula are the formulas of its children.
    pub(crate) proof fn lemma_formula(self)
        ensures
            self matches Expr::And(children) ==> self.formula() == Formula::And(
                formulas(children@),
            ),
            self matches Expr::Or(children) ==> self.formula() == Formula::Or(formulas(children@)),
    {
        match self {
            Expr::And(children) => {
                assert(self.formula()->And_0 =~= formulas(children@));
            },
            Expr::Or(children) => {
                assert(self.formula()->Or_0 =~= formulas(children@));
            },
            _ => {},
        }
    }

    pub(crate) fn duplicate(&self) -> (copy: Expr)
        ensures
            copy.formula() == self.formula(),
        decreases self,
    {
        let copy = match self {
            Expr::Public => Expr::Public,
            Expr::Label(label) => Expr::Label(label.clone()),
            Expr::And(children) => Expr::And(duplicate_children(children)),
            Expr::Or(children) => Expr::Or(duplicate_children(children)),
        };
        proof {
            self.lemma_formula();
            copy.lemma_formula();
        }
        copy
    }

    pub(crate) fn normalized(&self) -> (normal: Expr)
        ensures
            normal.formula() == normalized(self.formula()),
        decreases self,
    {
        proof {
            self.lemma_formula();
        }
        match self {
            Expr::Public => Expr::Public,
            Expr::Label(label) => Expr::Label(label.clone()),
            Expr::And(children) => normalize_children(children, Operator::And),
            Expr::Or(children) => normalize_children(children, Operator::Or),
        }
    }

    pub(crate) fn evaluate(&self, auths: &Authorizations) -> (visible: bool)
        ensures
            visible == holds(self.formula(), auths@),
        decreases self,
    {
        proof {
            self.lemma_formula();
        }
        match self {
            Expr::Public => true,
            Expr::Label(label) => auths.contains(label.as_str()),
            Expr::And(children) => {
                let mut i: usize = 0;
                while i < children.len()
                    invariant
                        i <= children.len(),
                        *self == Expr::And(*children),
                        self.formula() == Formula::And(formulas(children@)),
                        forall|j: int| 0 <= j < i ==> holds(#[trigger] formulas(children@)[j], auths@),
                    decreases children.len() - i,
                {
                    if !children[i].evaluate(auths) {
                        assert(!holds(self.formula()->And_0[i as int], auths@));
                        return false;
                    }
                    i += 1;
                }
                true
            },
            Expr::Or(children) => {
                let mut i: usize = 0;
                while i < children.len()
                    invariant
                        i <= children.len(),
                        *self == Expr::Or(*children),
                        self.formula() == Formula::Or(formulas(children@)),
                        forall|j: int|
                            0 <= j < i ==> !holds(#[trigger] formulas(children@)[j], auths@),
                    decreases children.len() - i,
                {
                    if children[i].evaluate(auths) {
                        assert(holds(self.formula()->Or_0[i as int], auths@));
                        return true;
                    }
                    i += 1;
                }
                false
            },
        }
    }

    pub(crate) fn canonical(&self) -> (text: String)
        ensures
            text@ == text_of(self.formula()),
    {
        let mut text = String::new();
        self.write_canonical(0, &mut text);
        assert(text@ =~= text_of(self.formula()));
        text
    }

    fn write_canonical(&self, parent_precedence: u8, text: &mut String)
        ensures
            final(text)@ == old(text)@ + written(self.formula(), parent_precedence as int),
        decreases self,
    {
        let precedence: u8 = self.precedence();
        let wrap = precedence < parent_precedence;
        let ghost start = text@;
        if wrap {
            text.push('(');
        }
        let ghost opened = text@;
        proof {
            self.lemma_formula();
        }
        match self {
            Expr::Public => {
                assert(text@ =~= opened + written_bare(self.formula()));
            },
            Expr::Label(label) => text.append(label.as_str()),
            Expr::And(children) => write_joined(children, '&', precedence, text),
            Expr::Or(children) => write_joined(children, '|', precedence, text),
        }
        assert(text@ == opened + written_bare(self.formula()));
        if wrap {
            text.push(')');
        }
        assert(text@ =~= start + written(self.formula(), parent_precedence as int));
    }

    fn precedence(&self) -> (level: u8)
        ensures
            level == precedence(self.formula()),
    {
        match self {
            Expr::Public | Expr::Label(_) => 3,
            Expr::And(_) => 2,
            Expr::Or(_) => 1,
        }
    }
}

fn duplicate_children(children: &Vec<Expr>) -> (copies: Vec<Expr>)
    ensures
        formulas(copies@) == formulas(children@),
    decreases children,
{
    let mut copies: Vec<Expr> = Vec::new();
    let mut i: usize = 0;
    while i < children.len()
        invariant
            i <= children.len(),
            formulas(copies@) == formulas(children@).take(i as int),
        decreases children.len() - i,
    {
        let ghost before = copies@;
        let copy = children[i].duplicate();
        let ghost formula = copy.formula();
        copies.push(copy);
        proof {
            assert(formulas(copies@) =~= formulas(before).push(formula));
            assert(formulas(children@).take(i + 1) =~= formulas(children@).take(i as int).push(
                formula,
            ));
        }
        i += 1;
    }
    assert(formulas(children@).take(i as int) =~= formulas(children@));
    copies
}

fn write_joined(children: &Vec<Expr>, separator: char, precedence: u8, text: &mut String)
    ensures
        final(text)@ == old(text)@ + written_from(
            formulas(children@),
            0,
            separator,
            precedence as int,
        ),
    decreases children,
{
    let ghost all = formulas(children@);
    let ghost start = text@;
    let ghost whole = written_from(all, 0, separator, precedence as int);
    let mut i: usize = 0;
    while i < children.len()
        invariant
            i <= children.len(),
            all == formulas(children@),
            whole == written_from(all, 0, separator, precedence as int),
            text@ + written_from(all, i as int, separator, precedence as int) == start + whole,
        decreases children.len() - i,
    {
        let ghost before = text@;
        if i > 0 {
            text.push(separator);
        }
        children[i].write_canonical(precedence, text);
        assert(before + written_from(all, i as int, separator, precedence as int) =~= text@
            + written_from(all, i + 1, separator, precedence as int));
        i += 1;
    }
    assert(text@ + written_from(all, i as int, separator, precedence as int) =~= text@);
}

/// An operand with its text.
struct SortedChild {
    text: String,
    child: Expr,
}

spec fn sorted_formulas(pairs: Seq<SortedChild>) -> Seq<Formula> {
    Seq::new(pairs.len(), |i: int| pairs[i].child.formula())
}

/// Whether each operand stands with its text, in strictly ascending order.
spec fn sorted_pairs(pairs: Seq<SortedChild>) -> bool {
    &&& ascending(sorted_formulas(pairs))
    &&& forall|i: int|
        0 <= i < pairs.len() ==> (#[trigger] pairs[i]).text@ == text_of(pairs[i].child.formula())
}

fn insert_child(pairs: &mut Vec<SortedChild>, child: Expr)
    requires
        sorted_pairs(old(pairs)@),
    ensures
        sorted_pairs(final(pairs)@),
        sorted_formulas(final(pairs)@) == inserted(sorted_formulas(old(pairs)@), child.formula()),
{
    let text = child.canonical();
    let ghost sorted = sorted_formulas(pairs@);
    let mut at: usize = 0;
    while at < pairs.len() && bytes_less(
        pairs[at].text.as_str().as_bytes(),
        text.as_str().as_bytes(),
    )
        invariant
            at <= pairs.len(),
            *pairs == *old(pairs),
            sorted == sorted_formulas(pairs@),
            sorted_pairs(pairs@),
            text@ == text_of(child.formula()),
            forall|i: int|
                0 <= i < at ==> text_less(text_of(#[trigger] sorted[i]), text_of(child.formula())),
        decreases pairs.len() - at,
    {
        assert(text_less(text_of(sorted[at as int]), text_of(child.formula())));
        at += 1;
    }
    if at < pairs.len() && !bytes_less(
        text.as_str().as_bytes(),
        pairs[at].text.as_str().as_bytes(),
    ) {
        proof {
            assert(text_of(sorted[at as int]) == pairs@[at as int].text@);
            lemma_text_order(text_of(sorted[at as int]), text_of(child.formula()));
            lemma_inserted_present(sorted, child.formula(), at as int);
        }
        return ;
    }
    proof {
        assert forall|i: int| at <= i < sorted.len() implies text_less(
            text_of(child.formula()),
            text_of(#[trigger] sorted[i]),
        ) by {
            assert(text_of(sorted[at as int]) == pairs@[at as int].text@);
            if i > at {
                assert(text_less(text_of(sorted[at as int]), text_of(sorted[i])));
                lemma_text_transitive(
                    text_of(child.formula()),
                    text_of(sorted[at as int]),
                    text_of(sorted[i]),
                );
            }
        }
        lemma_inserted_at(sorted, child.formula(), at as int);
    }
    let ghost formula = child.formula();
    pairs.insert(at, SortedChild { text, child });
    assert(sorted_formulas(pairs@) =~= sorted.insert(at as int, formula));
}

fn insert_children(pairs: &mut Vec<SortedChild>, children: Vec<Expr>, front: Ghost<Seq<Formula>>)
    requires
        sorted_pairs(old(pairs)@),
        sorted_formulas(old(pairs)@) == sorted_unique(front@),
    ensures
        sorted_pairs(final(pairs)@),
        sorted_formulas(final(pairs)@) == sorted_unique(front@ + formulas(children@)),
{
    let ghost all = formulas(children@);
    assert(front@ + all.take(0) =~= front@);
    for child in it: children
        invariant
            all == formulas(it.seq()),
            sorted_pairs(pairs@),
            sorted_formulas(pairs@) == sorted_unique(front@ + all.take(it.index() as int)),
    {
        proof {
            let done = it.index() as int;
            assert(all[done] == child.formula());
            let longer = (front@ + all.take(done)).push(all[done]);
            assert(longer.drop_last() =~= front@ + all.take(done));
            assert(longer =~= front@ + all.take(done + 1));
        }
        insert_child(pairs, child);
    }
    assert(all.take(all.len() as int) =~= all);
}

fn normalize_children(children: &Vec<Expr>, operator: Operator) -> (normal: Expr)
    ensures
        normal.formula() == normalized(tree(operator, formulas(children@))),
    decreases children,
{
    let ghost all = formulas(children@);
    let mut pairs: Vec<SortedChild> = Vec::new();
    assert(sorted_formulas(pairs@) =~= Seq::empty());
    let mut i: usize = 0;
    while i < children.len()
        invariant
            i <= children.len(),
            all == formulas(children@),
            sorted_pairs(pairs@),
            sorted_formulas(pairs@) == sorted_unique(flattened(operator, all, i as int)),
            operator is Or ==> forall|k: int|
                0 <= k < i ==> !(normalized(#[trigger] all[k]) is Public),
        decreases children.len() - i,
    {
        let normal = children[i].normalized();
        let ghost front = flattened(operator, all, i as int);
        let ghost formula = normal.formula();
        proof {
            assert(formula == normalized(all[i as int]));
            normal.lemma_formula();
            assert(flattened(operator, all, i + 1) == front + operands(operator, formula));
        }
        match (operator, normal) {
            (Operator::And, Expr::And(grandchildren)) => {
                insert_children(&mut pairs, grandchildren, Ghost(front));
            },
            (Operator::Or, Expr::Or(grandchildren)) => {
                insert_children(&mut pairs, grandchildren, Ghost(front));
            },
            (Operator::And, Expr::Public) => {
                assert(front + operands(operator, formula) =~= front);
            },
            (Operator::Or, Expr::Public) => {
                assert(normalized(all[i as int]) is Public);
                return Expr::Public;
            },
            (_, other) => {
                insert_child(&mut pairs, other);
                assert((front + operands(operator, formula)).drop_last() =~= front);
            },
        }
        i += 1;
    }
    rebuild(pairs, operator)
}

fn rebuild(pairs: Vec<SortedChild>, operator: Operator) -> (expr: Expr)
    ensures
        expr.formula() == rebuilt(operator, sorted_formulas(pairs@)),
{
    let ghost all = sorted_formulas(pairs@);
    let mut children: Vec<Expr> = Vec::new();
    for pair in it: pairs
        invariant
            all == sorted_formulas(it.seq()),
            children@.len() == it.index(),
            formulas(children@) == all.take(it.index() as int),
    {
        let ghost done = it.index() as int;
        let ghost earlier = children@;
        assert(all[done] == pair.child.formula());
        children.push(pair.child);
        proof {
            assert(formulas(children@) =~= formulas(earlier).push(all[done]));
            assert(all.take(done).push(all[done]) =~= all.take(done + 1));
        }
    }
    assert(formulas(children@) =~= all);
    if children.len() == 0 {
        return Expr::Public;
    }
    if children.len() == 1 {
        assert(all[0] == children@[0].formula());
        return children.remove(0);
    }
    let expr = match operator {
        Operator::And => Expr::And(children),
        Operator::Or => Expr::Or(children),
    };
    proof {
        expr.lemma_formula();
    }
    expr
}

} // verus!
