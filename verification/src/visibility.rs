//! Visibility expressions and authorization labels.

use vstd::prelude::*;
use vstd::utf8::encode_utf8;

use crate::error::Error;
use crate::order::bytes_less;
use crate::visibility::expr::Expr;
use crate::visibility::formula::{canonical, holds, text_less, text_of, valid_label, Formula};
use crate::visibility::laws::{
    lemma_canonical_is_idempotent, lemma_canonical_text_is_fixed, normal,
};
use crate::visibility::parser::Parser;
use crate::visibility::text::{is_valid_label, lemma_text_order, lemma_text_transitive};

mod expr;
pub mod formula;
pub mod grammar;
pub mod laws;
pub mod meaning;
mod parser;
pub mod text;

verus! {

/// A parsed, canonicalized visibility expression.
///
/// Empty expressions are public and evaluate to `true` for every
/// authorization set.
#[derive(Debug, Eq, PartialEq)]
pub struct VisibilityExpr {
    expr: Expr,
    canonical: String,
}

impl View for VisibilityExpr {
    type V = Formula;

    closed spec fn view(&self) -> Formula {
        self.expr.formula()
    }
}

impl Clone for VisibilityExpr {
    fn clone(&self) -> (copy: Self)
        ensures
            copy@ == self@,
    {
        proof {
            use_type_invariant(self);
        }
        VisibilityExpr { expr: self.expr.duplicate(), canonical: self.canonical.clone() }
    }
}

impl VisibilityExpr {
    #[verifier::type_invariant]
    spec fn inv(self) -> bool {
        &&& self.canonical@ == text_of(self.expr.formula())
        &&& normal(self.expr.formula())
    }

    /// Parses and canonicalizes a visibility expression.
    ///
    /// Supported operators are `&` for conjunction, `|` for disjunction, and
    /// parentheses for grouping. `&` has higher precedence than `|`.
    ///
    /// # Errors
    ///
    /// Returns an error if the expression is syntactically invalid.
    pub fn parse(input: &str) -> (visibility: Result<Self, Error>)
        ensures
            match visibility {
                Ok(expr) => canonical(input@) == Ok::<Formula, Error>(expr@),
                Err(error) => canonical(input@) == Err::<Formula, Error>(error),
            },
    {
        if input.is_empty() {
            return Ok(Self::public());
        }
        proof {
            lemma_canonical_is_idempotent(input@);
        }
        let mut parser = Parser::new(input);
        let parsed_expr = match parser.parse_expr() {
            Ok(expr) => expr,
            Err(error) => return Err(error),
        };
        if !parser.is_empty() {
            return Err(
                Error::InvalidVisibilityExpression("unexpected trailing visibility token"),
            );
        }
        let expr = parsed_expr.normalized();
        let canonical = expr.canonical();
        Ok(VisibilityExpr { expr, canonical })
    }

    /// Returns the public empty visibility expression.
    #[must_use]
    pub fn public() -> (expr: Self)
        ensures
            expr@ == Formula::Public,
    {
        VisibilityExpr { expr: Expr::Public, canonical: String::new() }
    }

    /// Returns `true` when this is the empty public visibility expression.
    #[must_use]
    pub fn is_public(&self) -> (public: bool)
        ensures
            public == (self@ is Public),
    {
        matches!(self.expr, Expr::Public)
    }

    /// Evaluates the expression against an authorization label set.
    #[must_use]
    pub fn evaluate(&self, auths: &Authorizations) -> (visible: bool)
        ensures
            visible == holds(self@, auths@),
    {
        self.expr.evaluate(auths)
    }

    /// Returns the canonical expression string.
    #[must_use]
    pub fn as_str(&self) -> (text: &str)
        ensures
            text@ == text_of(self@),
            canonical(text@) == Ok::<Formula, Error>(self@),
    {
        proof {
            use_type_invariant(self);
            lemma_canonical_text_is_fixed(self@);
        }
        self.canonical.as_str()
    }

    /// Returns the canonical expression bytes to store in composite keys.
    #[must_use]
    pub fn as_bytes(&self) -> (bytes: &[u8])
        ensures
            bytes@ == encode_utf8(text_of(self@)),
    {
        proof {
            use_type_invariant(self);
        }
        self.canonical.as_str().as_bytes()
    }

    /// Consumes the expression and returns its canonical string.
    #[must_use]
    pub fn into_string(self) -> (text: String)
        ensures
            text@ == text_of(self@),
            canonical(text@) == Ok::<Formula, Error>(self@),
    {
        proof {
            use_type_invariant(&self);
            lemma_canonical_text_is_fixed(self@);
        }
        self.canonical
    }
}

impl core::str::FromStr for VisibilityExpr {
    type Err = Error;

    fn from_str(input: &str) -> (visibility: Result<Self, Error>)
        ensures
            match visibility {
                Ok(expr) => canonical(input@) == Ok::<Formula, Error>(expr@),
                Err(error) => canonical(input@) == Err::<Formula, Error>(error),
            },
    {
        VisibilityExpr::parse(input)
    }
}

/// A set of authorization labels used to evaluate visibility expressions.
#[derive(Debug, Eq, PartialEq)]
pub struct Authorizations {
    labels: Vec<String>,
}

/// Whether texts stand in strictly ascending order.
pub open spec fn strictly_sorted(texts: Seq<Seq<char>>) -> bool {
    forall|i: int, j: int|
        0 <= i < j < texts.len() ==> text_less(#[trigger] texts[i], #[trigger] texts[j])
}

/// The contents of strings.
pub open spec fn strings_view(strings: Seq<String>) -> Seq<Seq<char>> {
    Seq::new(strings.len(), |i: int| strings[i]@)
}

/// The contents of borrowed strings.
pub open spec fn strs_view(strings: Seq<&str>) -> Seq<Seq<char>> {
    Seq::new(strings.len(), |i: int| strings[i]@)
}

/// The error for labels that are not identifiers.
pub open spec fn invalid_label() -> Error {
    Error::InvalidVisibilityExpression("authorization label must be a valid identifier")
}

impl View for Authorizations {
    type V = Set<Seq<char>>;

    closed spec fn view(&self) -> Set<Seq<char>> {
        strings_view(self.labels@).to_set()
    }
}

impl Clone for Authorizations {
    fn clone(&self) -> (copy: Self)
        ensures
            copy@ == self@,
    {
        proof {
            use_type_invariant(self);
        }
        let mut labels: Vec<String> = Vec::new();
        let mut i: usize = 0;
        while i < self.labels.len()
            invariant
                i <= self.labels.len(),
                labels@ == self.labels@.take(i as int),
            decreases self.labels.len() - i,
        {
            labels.push(self.labels[i].clone());
            i += 1;
            assert(labels@ =~= self.labels@.take(i as int));
        }
        assert(labels@ =~= self.labels@);
        Authorizations { labels }
    }
}

impl Default for Authorizations {
    fn default() -> (auths: Self)
        ensures
            auths@ == Set::<Seq<char>>::empty(),
    {
        Authorizations::empty()
    }
}

impl Authorizations {
    #[verifier::type_invariant]
    spec fn inv(self) -> bool {
        &&& strictly_sorted(strings_view(self.labels@))
        &&& forall|i: int| 0 <= i < self.labels@.len() ==> valid_label(#[trigger] self.labels@[i]@)
    }

    /// Returns an empty authorization set.
    #[must_use]
    pub fn empty() -> (auths: Self)
        ensures
            auths@ == Set::<Seq<char>>::empty(),
    {
        let auths = Authorizations { labels: Vec::new() };
        assert(auths@ =~= Set::empty());
        auths
    }

    /// Builds an authorization set from labels.
    ///
    /// # Errors
    ///
    /// Returns an error if any label is not a valid visibility identifier.
    pub fn from_labels(labels: Vec<String>) -> (auths: Result<Self, Error>)
        ensures
            match auths {
                Ok(set) => {
                    &&& forall|i: int| 0 <= i < labels@.len() ==> valid_label(#[trigger] labels@[i]@)
                    &&& set@ == strings_view(labels@).to_set()
                },
                Err(error) => {
                    &&& exists|i: int| 0 <= i < labels@.len() && !valid_label(#[trigger] labels@[i]@)
                    &&& error == invalid_label()
                },
            },
    {
        let mut auths = Authorizations::empty();
        let mut i: usize = 0;
        assert(strings_view(labels@).take(0).to_set() =~= Set::empty());
        while i < labels.len()
            invariant
                i <= labels.len(),
                forall|j: int| 0 <= j < i ==> valid_label(#[trigger] labels@[j]@),
                auths@ == strings_view(labels@).take(i as int).to_set(),
            decreases labels.len() - i,
        {
            match auths.insert(labels[i].clone()) {
                Ok(_) => {},
                Err(error) => return Err(error),
            }
            proof {
                let texts = strings_view(labels@);
                let longer = texts.take(i + 1);
                assert(longer =~= texts.take(i as int).push(labels@[i as int]@));
                assert(longer.to_set() =~= texts.take(i as int).to_set().insert(
                    labels@[i as int]@,
                )) by {
                    assert forall|text: Seq<char>| longer.contains(text) implies texts.take(
                        i as int,
                    ).contains(text) || text == labels@[i as int]@ by {
                        let k = choose|k: int| 0 <= k < longer.len() && longer[k] == text;
                        if k < i {
                            assert(texts.take(i as int)[k] == text);
                        }
                    }
                    assert forall|text: Seq<char>|
                        texts.take(i as int).contains(text) implies longer.contains(text) by {
                        let k = choose|k: int|
                            0 <= k < i && texts.take(i as int)[k] == text;
                        assert(longer[k] == text);
                    }
                    assert(longer[i as int] == labels@[i as int]@);
                }
            }
            i += 1;
        }
        assert(strings_view(labels@).take(i as int) =~= strings_view(labels@));
        Ok(auths)
    }

    /// Inserts one authorization label.
    ///
    /// Returns whether the label was newly inserted.
    ///
    /// # Errors
    ///
    /// Returns an error if the label is not a valid visibility identifier.
    pub fn insert(&mut self, label: String) -> (newly: Result<bool, Error>)
        ensures
            match newly {
                Ok(new) => {
                    &&& valid_label(label@)
                    &&& new == !old(self)@.contains(label@)
                    &&& final(self)@ == old(self)@.insert(label@)
                },
                Err(error) => {
                    &&& !valid_label(label@)
                    &&& error == invalid_label()
                    &&& error == Error::InvalidVisibilityExpression(
                        "authorization label must be a valid identifier",
                    )
                    &&& *final(self) == *old(self)
                },
            },
    {
        if !is_valid_label(label.as_str()) {
            return Err(
                Error::InvalidVisibilityExpression(
                    "authorization label must be a valid identifier",
                ),
            );
        }
        proof {
            use_type_invariant(&*self);
        }
        let (at, found) = self.position(label.as_str());
        if found {
            assert(strings_view(self.labels@)[at as int] == label@);
            assert(self@.insert(label@) =~= self@);
            return Ok(false);
        }
        let ghost before = self.labels@;
        let mut labels: Vec<String> = Vec::new();
        core::mem::swap(&mut labels, &mut self.labels);
        labels.insert(at, label);
        proof {
            let texts = strings_view(labels@);
            assert(texts =~= strings_view(before).insert(at as int, label@));
            assert(texts.to_set() =~= strings_view(before).to_set().insert(label@)) by {
                assert forall|text: Seq<char>| strings_view(before).contains(text) implies texts.contains(
                    text,
                ) by {
                    let k = choose|k: int|
                        0 <= k < before.len() && strings_view(before)[k] == text;
                    if k < at {
                        assert(texts[k] == text);
                    } else {
                        assert(texts[k + 1] == text);
                    }
                }
                assert(texts[at as int] == label@);
                assert forall|text: Seq<char>| texts.contains(text) implies strings_view(
                    before,
                ).contains(text) || text == label@ by {
                    let k = choose|k: int| 0 <= k < texts.len() && texts[k] == text;
                    if k < at {
                        assert(strings_view(before)[k] == text);
                    } else if k > at {
                        assert(strings_view(before)[k - 1] == text);
                    }
                }
            }
        }
        self.labels = labels;
        Ok(true)
    }

    /// Returns `true` if the set contains `label`.
    #[must_use]
    pub fn contains(&self, label: &str) -> (contained: bool)
        ensures
            contained == self@.contains(label@),
    {
        let (at, found) = self.position(label);
        if found {
            assert(strings_view(self.labels@)[at as int] == label@);
        }
        found
    }

    /// Lists authorization labels in stable sorted order.
    pub fn iter(&self) -> (labels: Vec<&str>)
        ensures
            strictly_sorted(strs_view(labels@)),
            strs_view(labels@).to_set() == self@,
    {
        proof {
            use_type_invariant(self);
        }
        let mut labels: Vec<&str> = Vec::new();
        let mut i: usize = 0;
        while i < self.labels.len()
            invariant
                i <= self.labels.len(),
                strs_view(labels@) == strings_view(self.labels@).take(i as int),
            decreases self.labels.len() - i,
        {
            let ghost before = labels@;
            let label = self.labels[i].as_str();
            labels.push(label);
            proof {
                assert(strs_view(labels@) =~= strs_view(before).push(label@));
                assert(strings_view(self.labels@).take(i + 1) =~= strings_view(self.labels@).take(
                    i as int,
                ).push(label@));
            }
            i += 1;
        }
        assert(strings_view(self.labels@).take(i as int) =~= strings_view(self.labels@));
        labels
    }

    /// The position of a label, or where it would have to be inserted.
    fn position(&self, label: &str) -> (position: (usize, bool))
        ensures
            position.0 <= self.labels@.len(),
            position.1 == self@.contains(label@),
            position.1 ==> position.0 < self.labels@.len() && self.labels@[position.0 as int]@
                == label@,
            forall|i: int| 0 <= i < position.0 ==> text_less(#[trigger] self.labels@[i]@, label@),
            !position.1 ==> forall|i: int|
                position.0 <= i < self.labels@.len() ==> text_less(
                    label@,
                    #[trigger] self.labels@[i]@,
                ),
    {
        proof {
            use_type_invariant(self);
        }
        let ghost texts = strings_view(self.labels@);
        let mut i: usize = 0;
        while i < self.labels.len() && bytes_less(
            self.labels[i].as_str().as_bytes(),
            label.as_bytes(),
        )
            invariant
                i <= self.labels.len(),
                forall|j: int| 0 <= j < i ==> text_less(#[trigger] self.labels@[j]@, label@),
            decreases self.labels.len() - i,
        {
            i += 1;
        }
        if i < self.labels.len() && !bytes_less(
            label.as_bytes(),
            self.labels[i].as_str().as_bytes(),
        ) {
            proof {
                lemma_text_order(texts[i as int], label@);
                assert(texts[i as int] == label@);
                assert(texts.contains(label@));
            }
            return (i, true);
        }
        proof {
            assert forall|k: int| i <= k < texts.len() implies text_less(
                label@,
                #[trigger] self.labels@[k]@,
            ) by {
                if k > i {
                    assert(text_less(texts[i as int], texts[k]));
                    lemma_text_transitive(label@, texts[i as int], texts[k]);
                }
            }
            if texts.contains(label@) {
                let k = choose|k: int| 0 <= k < texts.len() && texts[k] == label@;
                lemma_text_order(label@, label@);
                assert(self.labels@[k]@ == label@);
            }
        }
        (i, false)
    }
}

} // verus!
