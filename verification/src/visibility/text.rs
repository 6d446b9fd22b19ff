//! Characters, labels, and the order of texts.

use vstd::prelude::*;
use vstd::std_specs::iter::IteratorSpec;
use vstd::utf8::{encode_utf8, encode_utf8_decode_utf8};

use crate::order::{
    bytes_equal, lemma_lex_asymmetric, lemma_lex_irreflexive, lemma_lex_total,
    lemma_lex_transitive,
};
use crate::visibility::formula::{label_char, text_less, valid_label};

verus! {

/// `String::push` appends the given character to the end of the string.
pub assume_specification[ String::push ](text: &mut String, ch: char)
    ensures
        final(text)@ == old(text)@.push(ch),
;

/// Texts are strictly and totally ordered.
pub proof fn lemma_text_order(a: Seq<char>, b: Seq<char>)
    ensures
        a == b || text_less(a, b) || text_less(b, a),
        text_less(a, b) ==> !text_less(b, a) && a != b,
        !text_less(a, a),
{
    lemma_lex_total(encode_utf8(a), encode_utf8(b));
    encode_utf8_decode_utf8(a);
    encode_utf8_decode_utf8(b);
    lemma_lex_irreflexive(encode_utf8(a));
    if text_less(a, b) {
        lemma_lex_asymmetric(encode_utf8(a), encode_utf8(b));
    }
}

/// The order of texts is transitive.
pub proof fn lemma_text_transitive(a: Seq<char>, b: Seq<char>, c: Seq<char>)
    requires
        text_less(a, b),
        text_less(b, c),
    ensures
        text_less(a, c),
{
    lemma_lex_transitive(encode_utf8(a), encode_utf8(b), encode_utf8(c));
}

/// Compares texts for equality.
pub fn text_equal(a: &str, b: &str) -> (equal: bool)
    ensures
        equal == (a@ == b@),
{
    proof {
        encode_utf8_decode_utf8(a@);
        encode_utf8_decode_utf8(b@);
    }
    bytes_equal(a.as_bytes(), b.as_bytes())
}

/// Whether a text is a label.
pub fn is_valid_label(label: &str) -> (valid: bool)
    ensures
        valid == valid_label(label@),
{
    let chars = chars_of(label);
    let mut i: usize = 0;
    while i < chars.len()
        invariant
            i <= chars.len(),
            chars@ == label@,
            forall|j: int| 0 <= j < i ==> label_char(#[trigger] chars@[j]),
        decreases chars.len() - i,
    {
        if !is_label_char(chars[i]) {
            return false;
        }
        i += 1;
    }
    chars.len() > 0
}

/// Whether a character may stand in a label.
pub fn is_label_char(ch: char) -> (valid: bool)
    ensures
        valid == label_char(ch),
{
    ('a' <= ch && ch <= 'z') || ('A' <= ch && ch <= 'Z') || ('0' <= ch && ch <= '9') || ch == '_'
        || ch == '-' || ch == '.' || ch == ':'
}

/// The characters of a text.
pub fn chars_of(text: &str) -> (chars: Vec<char>)
    ensures
        chars@ == text@,
{
    let mut chars: Vec<char> = Vec::new();
    let mut remaining = text.chars();
    let ghost whole = text@;
    loop
        invariant
            chars@ + remaining.remaining() == whole,
            remaining.decrease() is Some,
        ensures
            chars@ == whole,
        decreases remaining.decrease()->0,
    {
        let ghost before = chars@;
        let ghost ahead = remaining.remaining();
        match remaining.next() {
            Some(ch) => {
                chars.push(ch);
                assert(before + ahead =~= chars@ + ahead.drop_first());
            },
            None => {
                assert(chars@ + ahead =~= chars@);
                break;
            },
        }
    }
    chars
}

} // verus!
