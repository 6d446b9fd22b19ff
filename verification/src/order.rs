//! Byte-string order and fixed-width big-endian integers.
//!
//! The storage engine compares keys as byte strings, so every ordering claim
//! of this crate comes down to [`lex_less`].

use vstd::prelude::*;

verus! {

/// Lexicographic order of byte strings: a proper prefix sorts before every
/// longer string, and otherwise the first differing byte decides.
pub open spec fn lex_less(a: Seq<u8>, b: Seq<u8>) -> bool
    decreases a.len(),
{
    if b.len() == 0 {
        false
    } else if a.len() == 0 {
        true
    } else if a[0] != b[0] {
        a[0] < b[0]
    } else {
        lex_less(a.drop_first(), b.drop_first())
    }
}

/// Whether `s` begins with `prefix`.
pub open spec fn has_prefix(s: Seq<u8>, prefix: Seq<u8>) -> bool {
    &&& prefix.len() <= s.len()
    &&& s.take(prefix.len() as int) == prefix
}

/// The last `width` base-256 digits of `value`, most significant first.
pub open spec fn be_bytes(value: nat, width: nat) -> Seq<u8>
    decreases width,
{
    if width == 0 {
        Seq::empty()
    } else {
        be_bytes(value / 256, (width - 1) as nat).push((value % 256) as u8)
    }
}

/// The number whose base-256 digits are `bytes`, most significant first.
pub open spec fn be_value(bytes: Seq<u8>) -> nat
    decreases bytes.len(),
{
    if bytes.len() == 0 {
        0
    } else {
        be_value(bytes.drop_last()) * 256 + bytes.last() as nat
    }
}

/// `256` to the power `width`.
pub open spec fn pow256(width: nat) -> nat
    decreases width,
{
    if width == 0 {
        1
    } else {
        256 * pow256((width - 1) as nat)
    }
}

/// No byte string sorts before itself.
pub proof fn lemma_lex_irreflexive(a: Seq<u8>)
    ensures
        !lex_less(a, a),
    decreases a.len(),
{
    if a.len() > 0 {
        lemma_lex_irreflexive(a.drop_first());
    }
}

/// Of two different byte strings, one sorts before the other.
pub proof fn lemma_lex_total(a: Seq<u8>, b: Seq<u8>)
    ensures
        a == b || lex_less(a, b) || lex_less(b, a),
    decreases a.len(),
{
    if a.len() > 0 && b.len() > 0 {
        lemma_lex_total(a.drop_first(), b.drop_first());
        if a[0] == b[0] && a.drop_first() == b.drop_first() {
            assert(a =~= seq![a[0]] + a.drop_first());
            assert(b =~= seq![b[0]] + b.drop_first());
        }
    } else if a.len() == 0 && b.len() == 0 {
        assert(a =~= b);
    }
}

/// Byte-string order is transitive.
pub proof fn lemma_lex_transitive(a: Seq<u8>, b: Seq<u8>, c: Seq<u8>)
    requires
        lex_less(a, b),
        lex_less(b, c),
    ensures
        lex_less(a, c),
    decreases a.len(),
{
    if a.len() > 0 && a[0] == b[0] && b[0] == c[0] {
        lemma_lex_transitive(a.drop_first(), b.drop_first(), c.drop_first());
    }
}

/// Two byte strings cannot each sort before the other.
pub proof fn lemma_lex_asymmetric(a: Seq<u8>, b: Seq<u8>)
    requires
        lex_less(a, b),
    ensures
        !lex_less(b, a),
        a != b,
{
    if lex_less(b, a) {
        lemma_lex_transitive(a, b, a);
    }
    lemma_lex_irreflexive(a);
}

/// A common prefix does not affect the order of what follows it.
pub proof fn lemma_lex_common_prefix(p: Seq<u8>, x: Seq<u8>, y: Seq<u8>)
    ensures
        lex_less(p + x, p + y) == lex_less(x, y),
    decreases p.len(),
{
    if p.len() == 0 {
        assert(p + x =~= x);
        assert(p + y =~= y);
    } else {
        lemma_lex_common_prefix(p.drop_first(), x, y);
        assert((p + x).drop_first() =~= p.drop_first() + x);
        assert((p + y).drop_first() =~= p.drop_first() + y);
    }
}

/// `be_bytes` has the width asked for.
pub proof fn lemma_be_bytes_len(value: nat, width: nat)
    ensures
        be_bytes(value, width).len() == width,
    decreases width,
{
    if width > 0 {
        lemma_be_bytes_len(value / 256, (width - 1) as nat);
    }
}

/// Reading back what was written, for a value that fits the width.
pub proof fn lemma_be_round_trip(value: nat, width: nat)
    requires
        value < pow256(width),
    ensures
        be_value(be_bytes(value, width)) == value,
    decreases width,
{
    if width > 0 {
        let shorter = be_bytes(value / 256, (width - 1) as nat);
        assert(value / 256 < pow256((width - 1) as nat));
        lemma_be_round_trip(value / 256, (width - 1) as nat);
        assert(be_bytes(value, width).drop_last() =~= shorter);
    }
}

/// Writing back what was read.
pub proof fn lemma_be_value_round_trip(bytes: Seq<u8>)
    ensures
        be_bytes(be_value(bytes), bytes.len()) == bytes,
        be_value(bytes) < pow256(bytes.len()),
    decreases bytes.len(),
{
    if bytes.len() > 0 {
        lemma_be_value_round_trip(bytes.drop_last());
        let high = be_value(bytes.drop_last());
        assert((high * 256 + bytes.last() as nat) / 256 == high);
        assert((high * 256 + bytes.last() as nat) % 256 == bytes.last() as nat);
        assert(bytes =~= bytes.drop_last().push(bytes.last()));
    } else {
        assert(bytes =~= Seq::empty());
    }
}

/// Big-endian digits of one width sort as the numbers do.
pub proof fn lemma_be_bytes_order(a: nat, b: nat, width: nat)
    requires
        a < pow256(width),
        b < pow256(width),
    ensures
        lex_less(be_bytes(a, width), be_bytes(b, width)) == (a < b),
    decreases width,
{
    if width > 0 {
        let w = (width - 1) as nat;
        let x = be_bytes(a / 256, w);
        let y = be_bytes(b / 256, w);
        lemma_be_bytes_len(a / 256, w);
        lemma_be_bytes_len(b / 256, w);
        lemma_be_bytes_order(a / 256, b / 256, w);
        if a / 256 == b / 256 {
            let p = seq![(a % 256) as u8];
            let q = seq![(b % 256) as u8];
            assert(be_bytes(a, width) =~= x + p);
            assert(be_bytes(b, width) =~= x + q);
            lemma_lex_common_prefix(x, p, q);
            assert(lex_less(p, q) == (a % 256 < b % 256)) by {
                assert(!lex_less(p.drop_first(), q.drop_first()));
            }
        } else {
            lemma_lex_append_same_len(x, y, seq![(a % 256) as u8], seq![(b % 256) as u8]);
            assert(be_bytes(a, width) =~= x + seq![(a % 256) as u8]);
            assert(be_bytes(b, width) =~= y + seq![(b % 256) as u8]);
            if x == y {
                lemma_be_round_trip(a / 256, w);
                lemma_be_round_trip(b / 256, w);
            }
        }
    }
}

/// For different strings of one length, what is appended does not matter.
pub proof fn lemma_lex_append_same_len(x: Seq<u8>, y: Seq<u8>, p: Seq<u8>, q: Seq<u8>)
    requires
        x.len() == y.len(),
    ensures
        x != y ==> lex_less(x + p, y + q) == lex_less(x, y),
    decreases x.len(),
{
    if x.len() > 0 {
        lemma_lex_append_same_len(x.drop_first(), y.drop_first(), p, q);
        assert((x + p).drop_first() =~= x.drop_first() + p);
        assert((y + q).drop_first() =~= y.drop_first() + q);
        if x != y && x[0] == y[0] && x.drop_first() == y.drop_first() {
            assert(x =~= seq![x[0]] + x.drop_first());
            assert(y =~= seq![y[0]] + y.drop_first());
        }
    } else {
        assert(x =~= y);
    }
}

/// Compares two byte strings for equality.
pub fn bytes_equal(a: &[u8], b: &[u8]) -> (equal: bool)
    ensures
        equal == (a@ == b@),
{
    if a.len() != b.len() {
        return false;
    }
    let mut i: usize = 0;
    while i < a.len()
        invariant
            i <= a.len(),
            a.len() == b.len(),
            forall|j: int| 0 <= j < i ==> a@[j] == b@[j],
        decreases a.len() - i,
    {
        if a[i] != b[i] {
            return false;
        }
        i += 1;
    }
    assert(a@ =~= b@);
    true
}

/// Returns `true` when `a` sorts before `b`.
pub fn bytes_less(a: &[u8], b: &[u8]) -> (less: bool)
    ensures
        less == lex_less(a@, b@),
{
    let mut i: usize = 0;
    assert(a@.skip(0) =~= a@);
    assert(b@.skip(0) =~= b@);
    while i < a.len() && i < b.len()
        invariant
            i <= a.len(),
            i <= b.len(),
            lex_less(a@, b@) == lex_less(a@.skip(i as int), b@.skip(i as int)),
        decreases a.len() - i,
    {
        if a[i] != b[i] {
            return a[i] < b[i];
        }
        assert(a@.skip(i as int).drop_first() =~= a@.skip(i + 1));
        assert(b@.skip(i as int).drop_first() =~= b@.skip(i + 1));
        i += 1;
    }
    i < b.len()
}

/// Copies a byte string.
pub fn copy_bytes(bytes: &[u8]) -> (copy: Vec<u8>)
    ensures
        copy@ == bytes@,
{
    let mut copy: Vec<u8> = Vec::with_capacity(bytes.len());
    append_bytes(&mut copy, bytes);
    assert(copy@ =~= bytes@);
    copy
}

/// Appends a byte string to a buffer.
pub fn append_bytes(out: &mut Vec<u8>, bytes: &[u8])
    ensures
        final(out)@ == old(out)@ + bytes@,
{
    let ghost start = out@;
    let mut i: usize = 0;
    while i < bytes.len()
        invariant
            i <= bytes.len(),
            out@ == start + bytes@.take(i as int),
        decreases bytes.len() - i,
    {
        out.push(bytes[i]);
        assert(out@ =~= start + bytes@.take(i + 1));
        i += 1;
    }
    assert(bytes@.take(i as int) =~= bytes@);
}

/// Appends the last `width` base-256 digits of `value`, most significant first.
pub fn append_be_bytes(out: &mut Vec<u8>, value: u64, width: usize)
    ensures
        final(out)@ == old(out)@ + be_bytes(value as nat, width as nat),
    decreases width,
{
    if width > 0 {
        append_be_bytes(out, value / 256, width - 1);
        out.push((value % 256) as u8);
    }
    assert(out@ =~= old(out)@ + be_bytes(value as nat, width as nat));
}

/// Reads a big-endian number of at most eight digits.
pub fn read_be_bytes(bytes: &[u8]) -> (value: u64)
    requires
        bytes@.len() <= 8,
    ensures
        value == be_value(bytes@),
{
    let mut value: u64 = 0;
    let mut i: usize = 0;
    while i < bytes.len()
        invariant
            i <= bytes.len() <= 8,
            value == be_value(bytes@.take(i as int)),
        decreases bytes.len() - i,
    {
        proof {
            lemma_be_value_round_trip(bytes@.take(i as int));
            lemma_be_value_round_trip(bytes@.take(i + 1));
            assert(bytes@.take(i + 1).drop_last() =~= bytes@.take(i as int));
            lemma_pow256_bounds((i + 1) as nat);
        }
        value = value * 256 + bytes[i] as u64;
        i += 1;
    }
    assert(bytes@.take(i as int) =~= bytes@);
    value
}

/// The powers that matter here: four digits fit `u32`, eight fit `u64`.
pub proof fn lemma_pow256_bounds(width: nat)
    ensures
        pow256(4) == 0x1_0000_0000,
        pow256(8) == 0x1_0000_0000_0000_0000,
        width <= 8 ==> pow256(width) <= 0x1_0000_0000_0000_0000,
    decreases 8 - width,
{
    reveal_with_fuel(pow256, 9);
    if width < 8 {
        lemma_pow256_bounds(width + 1);
    }
}

/// One byte string sorts before another exactly if, after a common start, it
/// ends where the other goes on, or has the smaller byte.
pub proof fn lemma_lex_less_at_first_difference(a: Seq<u8>, b: Seq<u8>)
    ensures
        lex_less(a, b) <==> exists|i: int|
            0 <= i <= a.len() && i < b.len() && #[trigger] a.take(i) == b.take(i) && (i == a.len()
                || a[i] < b[i]),
    decreases a.len(),
{
    if lex_less(a, b) {
        if a.len() == 0 || a[0] != b[0] {
            assert(a.take(0) =~= b.take(0));
        } else {
            let (x, y) = (a.drop_first(), b.drop_first());
            lemma_lex_less_at_first_difference(x, y);
            let i = choose|i: int|
                0 <= i <= x.len() && i < y.len() && #[trigger] x.take(i) == y.take(i) && (i
                    == x.len() || x[i] < y[i]);
            assert(a.take(i + 1) =~= seq![a[0]] + x.take(i));
            assert(b.take(i + 1) =~= seq![b[0]] + y.take(i));
        }
    }
    if exists|i: int|
        0 <= i <= a.len() && i < b.len() && #[trigger] a.take(i) == b.take(i) && (i == a.len()
            || a[i] < b[i]) {
        let i = choose|i: int|
            0 <= i <= a.len() && i < b.len() && #[trigger] a.take(i) == b.take(i) && (i == a.len()
                || a[i] < b[i]);
        if i > 0 {
            let (x, y) = (a.drop_first(), b.drop_first());
            assert(a.take(i)[0] == b.take(i)[0]);
            assert(x.take(i - 1) =~= a.take(i).drop_first());
            assert(y.take(i - 1) =~= b.take(i).drop_first());
            lemma_lex_less_at_first_difference(x, y);
        }
    }
}

/// A byte string begins with a prefix exactly if it is the prefix and something
/// more.
pub proof fn lemma_prefix_and_rest(s: Seq<u8>, prefix: Seq<u8>)
    ensures
        has_prefix(s, prefix) <==> exists|rest: Seq<u8>| s == #[trigger] (prefix + rest),
{
    if has_prefix(s, prefix) {
        assert(s =~= prefix + s.skip(prefix.len() as int));
    }
    if exists|rest: Seq<u8>| s == #[trigger] (prefix + rest) {
        let rest = choose|rest: Seq<u8>| s == #[trigger] (prefix + rest);
        assert(s.take(prefix.len() as int) =~= prefix);
    }
}

/// Four bytes as a number, the most significant first.
pub proof fn lemma_be_value_of_four(bytes: Seq<u8>)
    requires
        bytes.len() == 4,
    ensures
        be_value(bytes) == bytes[0] * 0x100_0000 + bytes[1] * 0x1_0000 + bytes[2] * 0x100
            + bytes[3],
{
    reveal_with_fuel(be_value, 5);
    let a = bytes.drop_last();
    let b = a.drop_last();
    let c = b.drop_last();
    assert(c.drop_last().len() == 0);
}

/// Eight bytes as a number, the most significant first.
pub proof fn lemma_be_value_of_eight(bytes: Seq<u8>)
    requires
        bytes.len() == 8,
    ensures
        be_value(bytes) == bytes[0] * 0x100_0000_0000_0000 + bytes[1] * 0x1_0000_0000_0000
            + bytes[2] * 0x100_0000_0000 + bytes[3] * 0x1_0000_0000 + bytes[4] * 0x100_0000
            + bytes[5] * 0x1_0000 + bytes[6] * 0x100 + bytes[7],
{
    let front = bytes.take(4);
    lemma_be_value_of_four(front);
    reveal_with_fuel(be_value, 5);
    let a = bytes.drop_last();
    let b = a.drop_last();
    let c = b.drop_last();
    let d = c.drop_last();
    assert(d =~= front);
}

} // verus!
