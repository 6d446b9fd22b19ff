//! Recursive-descent parser for visibility expressions.

use vstd::prelude::*;

use crate::error::Error;
use crate::visibility::expr::{formulas, Expr};
use crate::visibility::formula::{
    label_len, parsed_and, parsed_and_tail, parsed_or, parsed_or_tail, parsed_primary, starts_with,
    Formula, Parsed,
};
use crate::visibility::text::{chars_of, is_label_char};

verus! {

/// The text of an expression and how far it has been read.
pub(crate) struct Parser {
    chars: Vec<char>,
    at: usize,
}

impl Parser {
    #[verifier::type_invariant]
    pub(crate) closed spec fn inv(self) -> bool {
        self.at <= self.chars@.len()
    }

    /// The text that is still to be read.
    pub(crate) closed spec fn rest(self) -> Seq<char> {
        self.chars@.skip(self.at as int)
    }

    /// Whether this parser, from where `before` stood, has read what `parsed`
    /// says and `outcome` is what came of it.
    pub(crate) open spec fn has_read(
        self,
        before: Self,
        outcome: Result<Expr, Error>,
        parsed: Parsed,
    ) -> bool {
        match outcome {
            Ok(expr) => {
                &&& parsed == Ok::<(Formula, Seq<char>), Error>((expr.formula(), self.rest()))
                &&& self.rest().len() < before.rest().len()
            },
            Err(error) => parsed == Err::<(Formula, Seq<char>), Error>(error),
        }
    }

    pub(crate) fn new(input: &str) -> (parser: Self)
        ensures
            parser.rest() == input@,
    {
        let chars = chars_of(input);
        assert(chars@.skip(0) =~= chars@);
        Parser { chars, at: 0 }
    }

    pub(crate) fn parse_expr(&mut self) -> (expr: Result<Expr, Error>)
        ensures
            final(self).has_read(*old(self), expr, parsed_or(old(self).rest())),
        decreases old(self).rest().len(), 5int,
    {
        self.parse_or_expr()
    }

    fn parse_or_expr(&mut self) -> (expr: Result<Expr, Error>)
        ensures
            final(self).has_read(*old(self), expr, parsed_or(old(self).rest())),
        decreases old(self).rest().len(), 4int,
    {
        let ghost start = self.rest();
        let first = match self.parse_and_expr() {
            Ok(child) => child,
            Err(error) => return Err(error),
        };
        let ghost first_formula = first.formula();
        let mut children: Vec<Expr> = Vec::new();
        children.push(first);
        assert(formulas(children@) =~= seq![first_formula]);
        loop
            invariant
                children@.len() > 0,
                start == old(self).rest(),
                self.rest().len() < start.len(),
                parsed_or(start) == parsed_or_tail(formulas(children@), self.rest()),
            ensures
                !starts_with(self.rest(), '|'),
            decreases self.rest().len(),
        {
            if !self.consume('|') {
                break;
            }
            let ghost before = children@;
            match self.parse_and_expr() {
                Ok(child) => {
                    let ghost child_formula = child.formula();
                    children.push(child);
                    assert(formulas(children@) =~= formulas(before).push(child_formula));
                },
                Err(error) => return Err(error),
            }
        }
        if children.len() == 1 {
            Ok(remove_only_child(children))
        } else {
            let expr = Expr::Or(children);
            proof {
                expr.lemma_formula();
            }
            Ok(expr)
        }
    }

    fn parse_and_expr(&mut self) -> (expr: Result<Expr, Error>)
        ensures
            final(self).has_read(*old(self), expr, parsed_and(old(self).rest())),
        decreases old(self).rest().len(), 2int,
    {
        let ghost start = self.rest();
        let first = match self.parse_primary() {
            Ok(child) => child,
            Err(error) => return Err(error),
        };
        let ghost first_formula = first.formula();
        let mut children: Vec<Expr> = Vec::new();
        children.push(first);
        assert(formulas(children@) =~= seq![first_formula]);
        loop
            invariant
                children@.len() > 0,
                start == old(self).rest(),
                self.rest().len() < start.len(),
                parsed_and(start) == parsed_and_tail(formulas(children@), self.rest()),
            ensures
                !starts_with(self.rest(), '&'),
            decreases self.rest().len(),
        {
            if !self.consume('&') {
                break;
            }
            let ghost before = children@;
            match self.parse_primary() {
                Ok(child) => {
                    let ghost child_formula = child.formula();
                    children.push(child);
                    assert(formulas(children@) =~= formulas(before).push(child_formula));
                },
                Err(error) => return Err(error),
            }
        }
        if children.len() == 1 {
            Ok(remove_only_child(children))
        } else {
            let expr = Expr::And(children);
            proof {
                expr.lemma_formula();
            }
            Ok(expr)
        }
    }

    fn parse_primary(&mut self) -> (expr: Result<Expr, Error>)
        ensures
            final(self).has_read(*old(self), expr, parsed_primary(old(self).rest())),
        decreases old(self).rest().len(), 0int,
    {
        if self.consume('(') {
            let expr = match self.parse_expr() {
                Ok(expr) => expr,
                Err(error) => return Err(error),
            };
            if !self.consume(')') {
                return Err(Error::InvalidVisibilityExpression("expected closing parenthesis"));
            }
            return Ok(expr);
        }
        let label = self.parse_label();
        if label.as_str().is_empty() {
            return Err(
                Error::InvalidVisibilityExpression("expected label or parenthesized expression"),
            );
        }
        Ok(Expr::Label(label))
    }

    fn parse_label(&mut self) -> (label: String)
        ensures
            label@ == old(self).rest().take(label_len(old(self).rest()) as int),
            label@.len() == label_len(old(self).rest()),
            final(self).rest() == old(self).rest().skip(label@.len() as int),
            label@.len() <= old(self).rest().len(),
    {
        let ghost start = self.rest();
        let mut label = String::new();
        proof {
            assert(start.take(0) =~= label@);
            assert(start.skip(0) =~= start);
        }
        loop
            invariant
                start == old(self).rest(),
                label@.len() <= start.len(),
                label@ == start.take(label@.len() as int),
                self.rest() == start.skip(label@.len() as int),
                label_len(start) == label@.len() + label_len(self.rest()),
            ensures
                label_len(self.rest()) == 0,
            decreases self.rest().len(),
        {
            match self.peek() {
                Some(ch) => {
                    if !is_label_char(ch) {
                        break;
                    }
                    let ghost before = label@;
                    let ghost ahead = self.rest();
                    self.advance();
                    label.push(ch);
                    proof {
                        assert(start.take(before.len() as int + 1) =~= before.push(ch));
                        assert(start.skip(before.len() as int + 1) =~= ahead.skip(1));
                    }
                },
                None => {
                    break;
                },
            }
        }
        label
    }

    fn consume(&mut self, expected: char) -> (consumed: bool)
        ensures
            consumed == starts_with(old(self).rest(), expected),
            final(self).rest() == if consumed {
                old(self).rest().skip(1)
            } else {
                old(self).rest()
            },
    {
        match self.peek() {
            Some(next) => {
                if next == expected {
                    self.advance();
                    return true;
                }
                false
            },
            None => false,
        }
    }

    pub(crate) fn is_empty(&self) -> (empty: bool)
        ensures
            empty == (self.rest().len() == 0),
    {
        proof {
            use_type_invariant(self);
        }
        self.at == self.chars.len()
    }

    fn peek(&self) -> (next: Option<char>)
        ensures
            next == if self.rest().len() > 0 {
                Some(self.rest()[0])
            } else {
                None
            },
    {
        proof {
            use_type_invariant(self);
        }
        if self.at < self.chars.len() {
            Some(self.chars[self.at])
        } else {
            None
        }
    }

    fn advance(&mut self)
        requires
            old(self).rest().len() > 0,
        ensures
            final(self).rest() == old(self).rest().skip(1),
    {
        proof {
            use_type_invariant(&*self);
            assert(self.at < self.chars.len());
        }
        self.at = self.at + 1;
        assert(self.rest() =~= old(self).rest().skip(1));
    }
}

fn remove_only_child(children: Vec<Expr>) -> (child: Expr)
    requires
        children@.len() == 1,
    ensures
        child == children@[0],
{
    let mut children = children;
    match children.pop() {
        Some(child) => child,
        None => Expr::Public,
    }
}

} // verus!
