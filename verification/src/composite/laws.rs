//! Laws of the composite key encoding: it keeps the logical order, loses
//! nothing, and prefixes select exactly the keys with the given leading fields.

use vstd::prelude::*;

use crate::composite::{
    decoded_field, decoded_fields, decoded_key, encoded_field, encoded_fields, encoded_key,
    encoded_prefix, encoded_timestamp, escaped_byte, prefix_range_outcome, CompositeKey,
    CompositePrefix, KeyView, ENCODED_TIMESTAMP_LEN, FORMAT_VERSION,
};
use crate::error::Error;
use crate::order::{
    has_prefix, lemma_be_bytes_len, lemma_be_bytes_order, lemma_be_round_trip,
    lemma_be_value_of_eight, lemma_be_value_round_trip, lemma_lex_common_prefix,
    lemma_pow256_bounds, lex_less,
};
use crate::storage::{lemma_prefix_range_is_exact, KeyRange, Slice};

verus! {

/// The logical order of composite keys: by row, family, qualifier and
/// visibility in ascending byte order, then newest timestamp first.
pub open spec fn key_less(a: KeyView, b: KeyView) -> bool {
    if a.row != b.row {
        lex_less(a.row, b.row)
    } else if a.family != b.family {
        lex_less(a.family, b.family)
    } else if a.qualifier != b.qualifier {
        lex_less(a.qualifier, b.qualifier)
    } else if a.visibility != b.visibility {
        lex_less(a.visibility, b.visibility)
    } else {
        a.timestamp > b.timestamp
    }
}

proof fn lemma_field_order(x: Seq<u8>, y: Seq<u8>, p: Seq<u8>, q: Seq<u8>)
    requires
        x != y,
    ensures
        lex_less(encoded_field(x) + p, encoded_field(y) + q) == lex_less(x, y),
    decreases x.len(),
{
    reveal_with_fuel(lex_less, 3);
    let ex = encoded_field(x) + p;
    let ey = encoded_field(y) + q;
    if x.len() == 0 {
        assert(y.len() > 0) by {
            if y.len() == 0 {
                assert(x =~= y);
            }
        }
        assert(ex[0] == 0u8);
        assert(ey[0] == escaped_byte(y[0])[0]);
    } else if y.len() == 0 {
        assert(ey[0] == 0u8);
        assert(ex[0] == escaped_byte(x[0])[0]);
    } else {
        let tx = encoded_field(x.drop_first()) + p;
        let ty = encoded_field(y.drop_first()) + q;
        assert(ex =~= escaped_byte(x[0]) + tx);
        assert(ey =~= escaped_byte(y[0]) + ty);
        if x[0] == y[0] {
            if x.drop_first() == y.drop_first() {
                assert(x =~= seq![x[0]] + x.drop_first());
                assert(y =~= seq![y[0]] + y.drop_first());
            }
            lemma_field_order(x.drop_first(), y.drop_first(), p, q);
            lemma_lex_common_prefix(escaped_byte(x[0]), tx, ty);
        } else {
            assert(ex[0] == escaped_byte(x[0])[0]);
            assert(ey[0] == escaped_byte(y[0])[0]);
            if ex[0] == ey[0] {
                assert(ex.drop_first()[0] == escaped_byte(x[0])[1]);
                assert(ey.drop_first()[0] == escaped_byte(y[0])[1]);
            }
        }
    }
}

proof fn lemma_fields_order_step(x: Seq<Seq<u8>>, y: Seq<Seq<u8>>, p: Seq<u8>, q: Seq<u8>)
    requires
        x.len() > 0,
        y.len() > 0,
    ensures
        lex_less(encoded_fields(x) + p, encoded_fields(y) + q) == if x[0] != y[0] {
            lex_less(x[0], y[0])
        } else {
            lex_less(encoded_fields(x.drop_first()) + p, encoded_fields(y.drop_first()) + q)
        },
{
    let tx = encoded_fields(x.drop_first()) + p;
    let ty = encoded_fields(y.drop_first()) + q;
    assert(encoded_fields(x) + p =~= encoded_field(x[0]) + tx);
    assert(encoded_fields(y) + q =~= encoded_field(y[0]) + ty);
    if x[0] != y[0] {
        lemma_field_order(x[0], y[0], tx, ty);
    } else {
        lemma_lex_common_prefix(encoded_field(x[0]), tx, ty);
    }
}

/// Encoded keys sort exactly as the keys do logically: fields ascending, then
/// newer timestamps before older ones.
pub proof fn lemma_encoding_keeps_order(a: KeyView, b: KeyView)
    ensures
        lex_less(encoded_key(a), encoded_key(b)) == key_less(a, b),
{
    let p = encoded_timestamp(a.timestamp);
    let q = encoded_timestamp(b.timestamp);
    let x = a.fields();
    let y = b.fields();
    let lead = seq![FORMAT_VERSION];
    assert(encoded_key(a) =~= lead + (encoded_fields(x) + p));
    assert(encoded_key(b) =~= lead + (encoded_fields(y) + q));
    lemma_lex_common_prefix(lead, encoded_fields(x) + p, encoded_fields(y) + q);
    lemma_fields_order_step(x, y, p, q);
    let (x1, y1) = (x.drop_first(), y.drop_first());
    lemma_fields_order_step(x1, y1, p, q);
    let (x2, y2) = (x1.drop_first(), y1.drop_first());
    lemma_fields_order_step(x2, y2, p, q);
    let (x3, y3) = (x2.drop_first(), y2.drop_first());
    lemma_fields_order_step(x3, y3, p, q);
    assert(encoded_fields(x3.drop_first()) + p =~= p);
    assert(encoded_fields(y3.drop_first()) + q =~= q);
    lemma_pow256_bounds(8);
    lemma_be_bytes_order((i64::MAX - a.timestamp) as nat, (i64::MAX - b.timestamp) as nat, 8);
}

/// Decoding an encoded field gives the field back, whole, and what follows its
/// terminator.
pub proof fn lemma_decode_encoded_field(field: Seq<u8>, rest: Seq<u8>)
    ensures
        decoded_field(encoded_field(field) + rest) == Ok::<(Seq<u8>, Seq<u8>), Error>(
            (field, rest),
        ),
    decreases field.len(),
{
    let bytes = encoded_field(field) + rest;
    if field.len() == 0 {
        assert(bytes.skip(1) =~= rest);
        assert(field =~= Seq::empty());
    } else {
        let tail = encoded_field(field.drop_first()) + rest;
        let lead = escaped_byte(field[0]);
        lemma_decode_encoded_field(field.drop_first(), rest);
        assert(bytes =~= lead + tail);
        assert(bytes.skip(lead.len() as int) =~= tail);
        assert(field =~= seq![field[0]] + field.drop_first());
    }
}

/// Only encoded fields decode: whatever decodes to a field begins with that
/// field's encoding, and what follows it is the rest.
pub proof fn lemma_encode_decoded_field(bytes: Seq<u8>)
    ensures
        decoded_field(bytes) matches Ok((field, rest)) ==> bytes == encoded_field(field) + rest,
    decreases bytes.len(),
{
    if let Ok((field, rest)) = decoded_field(bytes) {
        if bytes[0] == 0 {
            assert(bytes =~= encoded_field(field) + rest);
        } else {
            let n: int = if bytes[0] == 1 {
                2
            } else {
                1
            };
            let tail = bytes.skip(n);
            lemma_encode_decoded_field(tail);
            assert(field.drop_first() =~= decoded_field(tail)->Ok_0.0);
            assert(escaped_byte(field[0]) =~= bytes.take(n));
            assert(bytes =~= bytes.take(n) + tail);
            assert(encoded_field(field) + rest =~= escaped_byte(field[0]) + (encoded_field(
                field.drop_first(),
            ) + rest));
        }
    }
}

/// Decoding a field fails, with a composite-key error, exactly on bytes that
/// begin with no encoded field.
pub proof fn lemma_field_decoding_fails_exactly(bytes: Seq<u8>)
    ensures
        decoded_field(bytes) is Err <==> forall|field: Seq<u8>, rest: Seq<u8>|
            bytes != #[trigger] (encoded_field(field) + rest),
        decoded_field(bytes) matches Err(error) ==> error is InvalidCompositeKey,
{
    lemma_encode_decoded_field(bytes);
    lemma_field_error_kind(bytes);
    if decoded_field(bytes) is Err {
        assert forall|field: Seq<u8>, rest: Seq<u8>|
            bytes != #[trigger] (encoded_field(field) + rest) by {
            lemma_decode_encoded_field(field, rest);
        }
    }
}

proof fn lemma_field_error_kind(bytes: Seq<u8>)
    ensures
        decoded_field(bytes) matches Err(error) ==> error is InvalidCompositeKey,
    decreases bytes.len(),
{
    if bytes.len() > 0 {
        lemma_field_error_kind(bytes.skip(1));
        if bytes.len() > 1 {
            lemma_field_error_kind(bytes.skip(2));
        }
    }
}

proof fn lemma_decode_encoded_fields(fields: Seq<Seq<u8>>, rest: Seq<u8>)
    ensures
        decoded_fields(encoded_fields(fields) + rest, fields.len()) == Ok::<
            (Seq<Seq<u8>>, Seq<u8>),
            Error,
        >((fields, rest)),
    decreases fields.len(),
{
    if fields.len() == 0 {
        assert(encoded_fields(fields) + rest =~= rest);
        assert(fields =~= Seq::empty());
    } else {
        let tail = encoded_fields(fields.drop_first()) + rest;
        assert(encoded_fields(fields) + rest =~= encoded_field(fields[0]) + tail);
        lemma_decode_encoded_field(fields[0], tail);
        lemma_decode_encoded_fields(fields.drop_first(), rest);
        assert(fields =~= seq![fields[0]] + fields.drop_first());
    }
}

proof fn lemma_encode_decoded_fields(bytes: Seq<u8>, count: nat)
    ensures
        decoded_fields(bytes, count) matches Ok((fields, rest)) ==> {
            &&& fields.len() == count
            &&& bytes == encoded_fields(fields) + rest
        },
    decreases count,
{
    if let Ok((fields, rest)) = decoded_fields(bytes, count) {
        if count == 0 {
            assert(bytes =~= encoded_fields(fields) + rest);
        } else {
            let tail = decoded_field(bytes)->Ok_0.1;
            lemma_encode_decoded_field(bytes);
            lemma_encode_decoded_fields(tail, (count - 1) as nat);
            assert(fields.drop_first() =~= decoded_fields(tail, (count - 1) as nat)->Ok_0.0);
            assert(bytes =~= encoded_fields(fields) + rest);
        }
    }
}

/// Decoding an encoded key gives the key back.
pub proof fn lemma_decode_inverts_encode(key: KeyView)
    ensures
        decoded_key(encoded_key(key)) == Ok::<KeyView, Error>(key),
{
    let bytes = encoded_key(key);
    let stamp = encoded_timestamp(key.timestamp);
    let value = (i64::MAX - key.timestamp) as nat;
    assert(bytes.skip(1) =~= encoded_fields(key.fields()) + stamp);
    lemma_decode_encoded_fields(key.fields(), stamp);
    lemma_be_bytes_len(value, ENCODED_TIMESTAMP_LEN as nat);
    lemma_pow256_bounds(8);
    lemma_be_round_trip(value, ENCODED_TIMESTAMP_LEN as nat);
    assert(key.fields()[0] == key.row);
    assert(key.fields()[1] == key.family);
    assert(key.fields()[2] == key.qualifier);
    assert(key.fields()[3] == key.visibility);
}

/// Only encodings decode: whatever decodes to a key is that key's encoding.
pub proof fn lemma_encode_inverts_decode(bytes: Seq<u8>)
    ensures
        decoded_key(bytes) matches Ok(key) ==> encoded_key(key) == bytes,
{
    if let Ok(key) = decoded_key(bytes) {
        lemma_encode_decoded_fields(bytes.skip(1), 4);
        let (fields, rest) = decoded_fields(bytes.skip(1), 4)->Ok_0;
        lemma_be_value_round_trip(rest);
        lemma_pow256_bounds(8);
        assert(fields =~= key.fields());
        assert(encoded_timestamp(key.timestamp) == rest);
        assert(bytes =~= seq![bytes[0]] + bytes.skip(1));
        assert(bytes =~= encoded_key(key));
    }
}

/// Different keys have different encodings.
pub proof fn lemma_encoding_is_injective(a: KeyView, b: KeyView)
    requires
        encoded_key(a) == encoded_key(b),
    ensures
        a == b,
{
    lemma_decode_inverts_encode(a);
    lemma_decode_inverts_encode(b);
}

proof fn lemma_field_prefix(x: Seq<u8>, y: Seq<u8>, p: Seq<u8>, q: Seq<u8>)
    ensures
        has_prefix(encoded_field(x) + p, encoded_field(y) + q) == (x == y && has_prefix(p, q)),
{
    let ex = encoded_field(x) + p;
    let ey = encoded_field(y) + q;
    if has_prefix(ex, ey) {
        let tail = ex.skip(ey.len() as int);
        assert(ex =~= ey + tail);
        assert(ey + tail =~= encoded_field(y) + (q + tail));
        lemma_decode_encoded_field(y, q + tail);
        lemma_decode_encoded_field(x, p);
        assert(p.take(q.len() as int) =~= q);
    }
    if x == y && has_prefix(p, q) {
        assert(ex.take(ey.len() as int) =~= encoded_field(x) + p.take(q.len() as int));
    }
}

proof fn lemma_fields_prefix(x: Seq<Seq<u8>>, y: Seq<Seq<u8>>, p: Seq<u8>)
    requires
        y.len() <= x.len(),
    ensures
        has_prefix(encoded_fields(x) + p, encoded_fields(y)) == (x.take(y.len() as int) == y),
    decreases y.len(),
{
    if y.len() == 0 {
        assert(x.take(0) =~= y);
        assert((encoded_fields(x) + p).take(0) =~= encoded_fields(y));
    } else {
        let (x1, y1) = (x.drop_first(), y.drop_first());
        lemma_fields_prefix(x1, y1, p);
        assert(encoded_fields(x) + p =~= encoded_field(x[0]) + (encoded_fields(x1) + p));
        lemma_field_prefix(x[0], y[0], encoded_fields(x1) + p, encoded_fields(y1));
        let taken = x.take(y.len() as int);
        if x[0] == y[0] && x1.take(y1.len() as int) == y1 {
            assert(taken =~= seq![x[0]] + x1.take(y1.len() as int));
            assert(y =~= seq![y[0]] + y1);
        }
        if taken == y {
            assert(taken[0] == x[0]);
            assert(x1.take(y1.len() as int) =~= taken.drop_first());
        }
    }
}

/// An encoded key begins with an encoded prefix exactly if the key has the
/// prefix's fields as its leading fields.
pub proof fn lemma_prefix_matches_leading_fields(key: KeyView, fields: Seq<Seq<u8>>)
    requires
        fields.len() <= 4,
    ensures
        has_prefix(encoded_key(key), encoded_prefix(fields)) == (key.fields().take(
            fields.len() as int,
        ) == fields),
{
    let lead = seq![FORMAT_VERSION];
    let body = encoded_fields(key.fields()) + encoded_timestamp(key.timestamp);
    let fs = encoded_fields(fields);
    lemma_fields_prefix(key.fields(), fields, encoded_timestamp(key.timestamp));
    assert(encoded_key(key) =~= lead + body);
    let whole = lead + body;
    let front = lead + fs;
    if has_prefix(whole, front) {
        assert(body.take(fs.len() as int) =~= whole.take(front.len() as int).skip(1));
        assert(front.skip(1) =~= fs);
    }
    if has_prefix(body, fs) {
        assert(whole.take(front.len() as int) =~= lead + body.take(fs.len() as int));
    }
}

/// The range of a prefix holds an encoded key exactly if the key has the
/// prefix's fields as its leading fields, and holds nothing of another format
/// version.
pub proof fn lemma_prefix_range_selects(fields: Seq<Seq<u8>>, range: KeyRange)
    requires
        fields.len() <= 4,
        prefix_range_outcome(Some(fields), Ok(range)),
    ensures
        forall|key: KeyView| #[trigger]
            range.contains(encoded_key(key)) == (key.fields().take(fields.len() as int) == fields),
        forall|bytes: Seq<u8>| #[trigger]
            range.contains(bytes) ==> bytes.len() > 0 && bytes[0] == FORMAT_VERSION,
{
    assert forall|key: KeyView| #[trigger]
        range.contains(encoded_key(key)) == (key.fields().take(fields.len() as int) == fields) by {
        lemma_prefix_range_is_exact(range, encoded_prefix(fields), encoded_key(key));
        lemma_prefix_matches_leading_fields(key, fields);
    }
    assert forall|bytes: Seq<u8>| #[trigger] range.contains(bytes) implies bytes.len() > 0
        && bytes[0] == FORMAT_VERSION by {
        let front = encoded_prefix(fields);
        lemma_prefix_range_is_exact(range, front, bytes);
        assert(bytes.take(front.len() as int)[0] == front[0]);
    }
}

// ---------------------------------------------------------------------------
// The layout, byte by byte
// ---------------------------------------------------------------------------
/// An encoded field is its bytes, with a zero written as `1 1` and a one as
/// `1 2`, and then a zero.
pub proof fn lemma_field_layout(field: Seq<u8>)
    ensures
        field.len() == 0 ==> encoded_field(field) == seq![0u8],
        field.len() > 0 && field[0] == 0 ==> encoded_field(field) == seq![1u8, 1u8]
            + encoded_field(field.skip(1)),
        field.len() > 0 && field[0] == 1 ==> encoded_field(field) == seq![1u8, 2u8]
            + encoded_field(field.skip(1)),
        field.len() > 0 && field[0] > 1 ==> encoded_field(field) == seq![field[0]] + encoded_field(
            field.skip(1),
        ),
{
    if field.len() > 0 {
        assert(field.skip(1) =~= field.drop_first());
    }
}

/// A field without zeros and ones is written as it is.
pub proof fn lemma_plain_field_is_verbatim(field: Seq<u8>)
    requires
        forall|i: int| 0 <= i < field.len() ==> #[trigger] field[i] > 1,
    ensures
        encoded_field(field) == field + seq![0u8],
    decreases field.len(),
{
    lemma_field_layout(field);
    if field.len() > 0 {
        assert(field[0] > 1);
        let rest = field.skip(1);
        assert forall|i: int| 0 <= i < rest.len() implies #[trigger] rest[i] > 1 by {
            assert(rest[i] == field[i + 1]);
        }
        lemma_plain_field_is_verbatim(rest);
        assert(seq![field[0]] + (rest + seq![0u8]) =~= field + seq![0u8]);
    } else {
        assert(field + seq![0u8] =~= seq![0u8]);
    }
}

/// The number of bytes in a field that take two bytes when encoded.
pub open spec fn low_bytes(field: Seq<u8>) -> nat
    decreases field.len(),
{
    if field.len() == 0 {
        0
    } else {
        low_bytes(field.skip(1)) + if field[0] <= 1 {
            1nat
        } else {
            0
        }
    }
}

/// The room that a field takes: its bytes, one more for each zero and one among
/// them, and one at the end.
pub open spec fn field_room(field: Seq<u8>) -> nat {
    field.len() + low_bytes(field) + 1
}

/// The room that a key takes: a byte for the format, its fields, and eight bytes
/// for the timestamp.
pub open spec fn key_room(key: KeyView) -> nat {
    field_room(key.row) + field_room(key.family) + field_room(key.qualifier) + field_room(
        key.visibility,
    ) + 9
}

/// The room that an encoded field takes.
pub proof fn lemma_field_room(field: Seq<u8>)
    ensures
        encoded_field(field).len() == field_room(field),
    decreases field.len(),
{
    lemma_field_layout(field);
    if field.len() > 0 {
        lemma_field_room(field.skip(1));
    }
}

/// An encoded key is a one, its four fields in order, and eight bytes that,
/// read as a number with the most significant byte first, are the distance of
/// the timestamp from the greatest timestamp.
pub proof fn lemma_key_layout(key: CompositeKey)
    ensures
        ({
            let stamp = encoded_key(key@).skip(encoded_key(key@).len() - 8);
            &&& encoded_key(key@).len() == key_room(key@)
            &&& encoded_key(key@) == seq![1u8] + encoded_field(key.row@) + encoded_field(
                key.family@,
            ) + encoded_field(key.qualifier@) + encoded_field(key.visibility@) + stamp
            &&& 0x7fff_ffff_ffff_ffff - key.timestamp == stamp[0] * 0x100_0000_0000_0000 + stamp[1]
                * 0x1_0000_0000_0000 + stamp[2] * 0x100_0000_0000 + stamp[3] * 0x1_0000_0000
                + stamp[4] * 0x100_0000 + stamp[5] * 0x1_0000 + stamp[6] * 0x100 + stamp[7]
        }),
{
    let value = (i64::MAX - key.timestamp) as nat;
    let stamp = encoded_timestamp(key.timestamp);
    let fields = key@.fields();
    lemma_be_bytes_len(value, 8);
    lemma_pow256_bounds(8);
    lemma_be_round_trip(value, 8);
    lemma_be_value_of_eight(stamp);
    reveal_with_fuel(encoded_fields, 5);
    let f1 = fields.drop_first();
    let f2 = f1.drop_first();
    let f3 = f2.drop_first();
    assert(f3.drop_first().len() == 0);
    let whole = encoded_key(key@);
    assert(whole.skip(whole.len() - 8) =~= stamp);
    assert(whole =~= seq![1u8] + encoded_field(key.row@) + encoded_field(key.family@)
        + encoded_field(key.qualifier@) + encoded_field(key.visibility@) + stamp);
    lemma_field_room(key.row@);
    lemma_field_room(key.family@);
    lemma_field_room(key.qualifier@);
    lemma_field_room(key.visibility@);
}

// ---------------------------------------------------------------------------
// Prefixes, component by component
// ---------------------------------------------------------------------------
/// The range of a prefix contains the encoding of a key exactly if each
/// component of the prefix that is given equals that field of the key.
pub proof fn lemma_range_selects_by_component(
    prefix: CompositePrefix,
    range: KeyRange,
    key: CompositeKey,
)
    requires
        prefix_range_outcome(prefix.fields(), Ok(range)),
    ensures
        range.contains(encoded_key(key@)) <==> {
            &&& prefix.row matches Some(row) ==> row@ == key.row@
            &&& prefix.family matches Some(family) ==> family@ == key.family@
            &&& prefix.qualifier matches Some(qualifier) ==> qualifier@ == key.qualifier@
            &&& prefix.visibility matches Some(visibility) ==> visibility@ == key.visibility@
        },
{
    let given = prefix.fields()->Some_0;
    let fields = key@.fields();
    lemma_prefix_range_selects(given, range);
    assert(range.contains(encoded_key(key@)) == (fields.take(given.len() as int) == given));
    let taken = fields.take(given.len() as int);
    if taken == given {
        assert(forall|i: int| 0 <= i < given.len() ==> #[trigger] taken[i] == given[i]);
        assert(forall|i: int| 0 <= i < given.len() ==> fields[i] == #[trigger] given[i]);
    }
    if (prefix.row matches Some(row) ==> row@ == key.row@) && (prefix.family matches Some(family)
        ==> family@ == key.family@) && (prefix.qualifier matches Some(qualifier) ==> qualifier@
        == key.qualifier@) && (prefix.visibility matches Some(visibility) ==> visibility@
        == key.visibility@) {
        assert(taken =~= given);
    }
}

/// A prefix has a range exactly if no component is given after a missing one
/// and the components leave room for the user-key length limit; a gap and too
/// long a prefix have errors of their own.
pub proof fn lemma_range_refusals(prefix: CompositePrefix, outcome: Result<KeyRange, Error>)
    requires
        prefix_range_outcome(prefix.fields(), outcome),
    ensures
        ({
            let gap = (prefix.row is None && prefix.family is Some) || (prefix.family is None
                && prefix.qualifier is Some) || (prefix.qualifier is None
                && prefix.visibility is Some);
            let room = 1 + component_room(prefix.row) + component_room(prefix.family)
                + component_room(prefix.qualifier) + component_room(prefix.visibility);
            if gap {
                outcome == Err::<KeyRange, Error>(
                    Error::InvalidCompositeKey("composite prefix fields must be contiguous"),
                )
            } else if room > 65535 {
                outcome == Err::<KeyRange, Error>(
                    Error::InvalidCompositeKey(
                        "encoded composite key exceeds Fjall's user-key length limit",
                    ),
                )
            } else {
                outcome is Ok
            }
        }),
{
    if let Some(given) = prefix.fields() {
        reveal_with_fuel(encoded_fields, 5);
        if prefix.row is Some {
            lemma_field_room(prefix.row->Some_0@);
            let g1 = given.drop_first();
            if prefix.family is Some {
                lemma_field_room(prefix.family->Some_0@);
                let g2 = g1.drop_first();
                if prefix.qualifier is Some {
                    lemma_field_room(prefix.qualifier->Some_0@);
                    let g3 = g2.drop_first();
                    if prefix.visibility is Some {
                        lemma_field_room(prefix.visibility->Some_0@);
                        assert(g3.drop_first().len() == 0);
                    } else {
                        assert(g3.len() == 0);
                    }
                } else {
                    assert(g2.len() == 0);
                }
            } else {
                assert(g1.len() == 0);
            }
        }
    }
}

/// The room that a component of a prefix takes, if it is given.
pub open spec fn component_room(component: Option<Slice>) -> nat {
    match component {
        Some(bytes) => field_room(bytes@),
        None => 0,
    }
}

// ---------------------------------------------------------------------------
// What does not decode, and why
// ---------------------------------------------------------------------------
/// Bytes decode only with the format byte one, and the errors say what is
/// missing: the format byte, another format, or a timestamp of eight bytes after
/// the four fields.
pub proof fn lemma_decoding_errors(bytes: Seq<u8>, fields: Seq<Seq<u8>>, tail: Seq<u8>)
    requires
        fields.len() == 4,
    ensures
        bytes.len() == 0 ==> decoded_key(bytes) == Err::<KeyView, Error>(
            Error::InvalidCompositeKey("missing composite key version"),
        ),
        bytes.len() > 0 && bytes[0] != 1 ==> decoded_key(bytes) == Err::<KeyView, Error>(
            Error::InvalidCompositeKey("unsupported composite key version"),
        ),
        bytes == encoded_prefix(fields) + tail && tail.len() != 8 ==> decoded_key(bytes) == Err::<
            KeyView,
            Error,
        >(Error::InvalidCompositeKey("composite key timestamp must be exactly 8 bytes")),
{
    if bytes == encoded_prefix(fields) + tail {
        assert(bytes.skip(1) =~= encoded_fields(fields) + tail);
        lemma_decode_encoded_fields(fields, tail);
    }
}

/// A field that breaks off does not decode: where it is not terminated, where an
/// escape breaks off, and where an escape stands for nothing.
pub proof fn lemma_broken_fields(field: Seq<u8>, other: u8, tail: Seq<u8>)
    ensures
        ({
            let open = encoded_field(field).drop_last();
            &&& decoded_field(open) == Err::<(Seq<u8>, Seq<u8>), Error>(
                Error::InvalidCompositeKey("unterminated composite key field"),
            )
            &&& decoded_field(open + seq![1u8]) == Err::<(Seq<u8>, Seq<u8>), Error>(
                Error::InvalidCompositeKey("unterminated field escape"),
            )
            &&& other != 1 && other != 2 ==> decoded_field(open + seq![1u8, other] + tail) == Err::<
                (Seq<u8>, Seq<u8>),
                Error,
            >(Error::InvalidCompositeKey("invalid field escape"))
        }),
    decreases field.len(),
{
    let open = encoded_field(field).drop_last();
    if field.len() == 0 {
        assert(open =~= Seq::empty());
        assert(open + seq![1u8] =~= seq![1u8]);
        assert(open + seq![1u8, other] + tail =~= seq![1u8, other] + tail);
    } else {
        let rest = encoded_field(field.drop_first()).drop_last();
        let lead = escaped_byte(field[0]);
        lemma_broken_fields(field.drop_first(), other, tail);
        lemma_field_room(field.drop_first());
        assert(open =~= lead + rest);
        assert(open.skip(lead.len() as int) =~= rest);
        assert((open + seq![1u8]).skip(lead.len() as int) =~= rest + seq![1u8]);
        assert((open + seq![1u8, other] + tail).skip(lead.len() as int) =~= rest + seq![1u8, other]
            + tail);
    }
}

} // verus!
