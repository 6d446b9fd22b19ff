//! Ordered composite key encoding.
//!
//! An encoded key is a format byte, four escaped and terminated fields, and an
//! eight-byte timestamp written so that newer timestamps sort first.

use vstd::prelude::*;

use crate::composite::laws::{
    key_room, lemma_decode_inverts_encode, lemma_encode_decoded_field,
    lemma_encode_inverts_decode, lemma_field_decoding_fails_exactly, lemma_key_layout,
};
use crate::error::Error;
use crate::order::{append_be_bytes, be_bytes, be_value, read_be_bytes};
use crate::storage::{prefix_to_range, KeyRange, Slice, UserKey};

pub mod laws;

verus! {

/// First byte of every encoded key.
pub const FORMAT_VERSION: u8 = 1;

/// Ends a field.
pub const FIELD_TERMINATOR: u8 = 0;

/// Starts a two-byte escape.
pub const FIELD_ESCAPE: u8 = 1;

/// Second byte of the escape that stands for a zero byte.
pub const ESCAPED_ZERO: u8 = 1;

/// Second byte of the escape that stands for a one byte.
pub const ESCAPED_ONE: u8 = 2;

/// Length of an encoded timestamp.
pub const ENCODED_TIMESTAMP_LEN: usize = 8;

/// Longest key that the storage engine accepts.
pub const MAX_USER_KEY_LEN: usize = 65535;

/// A binary-sortable wide-row key.
///
/// The encoded form sorts by row, family, qualifier, and visibility in
/// ascending byte order, then by timestamp in descending signed order.
#[derive(Debug, Eq, PartialEq)]
pub struct CompositeKey {
    /// Row bytes.
    pub row: Slice,

    /// Column family bytes.
    pub family: Slice,

    /// Column qualifier bytes.
    pub qualifier: Slice,

    /// Visibility expression bytes.
    pub visibility: Slice,

    /// Version timestamp. Newer timestamps sort before older timestamps for
    /// otherwise identical fields.
    pub timestamp: i64,
}

/// The fields of a composite key as mathematical values.
#[verifier::ext_equal]
pub struct KeyView {
    /// Row bytes.
    pub row: Seq<u8>,
    /// Column family bytes.
    pub family: Seq<u8>,
    /// Column qualifier bytes.
    pub qualifier: Seq<u8>,
    /// Visibility expression bytes.
    pub visibility: Seq<u8>,
    /// Version timestamp.
    pub timestamp: i64,
}

impl KeyView {
    /// The four byte fields in key order.
    pub open spec fn fields(self) -> Seq<Seq<u8>> {
        seq![self.row, self.family, self.qualifier, self.visibility]
    }
}

impl View for CompositeKey {
    type V = KeyView;

    open spec fn view(&self) -> KeyView {
        KeyView {
            row: self.row@,
            family: self.family@,
            qualifier: self.qualifier@,
            visibility: self.visibility@,
            timestamp: self.timestamp,
        }
    }
}

impl Clone for CompositeKey {
    fn clone(&self) -> (copy: Self)
        ensures
            copy@ == self@,
    {
        CompositeKey {
            row: self.row.clone(),
            family: self.family.clone(),
            qualifier: self.qualifier.clone(),
            visibility: self.visibility.clone(),
            timestamp: self.timestamp,
        }
    }
}

/// The encoding of one field byte.
pub open spec fn escaped_byte(byte: u8) -> Seq<u8> {
    if byte == FIELD_TERMINATOR {
        seq![FIELD_ESCAPE, ESCAPED_ZERO]
    } else if byte == FIELD_ESCAPE {
        seq![FIELD_ESCAPE, ESCAPED_ONE]
    } else {
        seq![byte]
    }
}

/// The encoding of a field: its bytes escaped, then the terminator.
pub open spec fn encoded_field(field: Seq<u8>) -> Seq<u8>
    decreases field.len(),
{
    if field.len() == 0 {
        seq![FIELD_TERMINATOR]
    } else {
        escaped_byte(field[0]) + encoded_field(field.drop_first())
    }
}

/// The encodings of several fields, one after another.
pub open spec fn encoded_fields(fields: Seq<Seq<u8>>) -> Seq<u8>
    decreases fields.len(),
{
    if fields.len() == 0 {
        Seq::empty()
    } else {
        encoded_field(fields[0]) + encoded_fields(fields.drop_first())
    }
}

/// The bytes that every encoded key with these leading fields begins with.
pub open spec fn encoded_prefix(fields: Seq<Seq<u8>>) -> Seq<u8> {
    seq![FORMAT_VERSION] + encoded_fields(fields)
}

/// The encoding of a timestamp: its distance from the greatest timestamp.
pub open spec fn encoded_timestamp(timestamp: i64) -> Seq<u8> {
    be_bytes((i64::MAX - timestamp) as nat, ENCODED_TIMESTAMP_LEN as nat)
}

/// The encoding of a composite key.
pub open spec fn encoded_key(key: KeyView) -> Seq<u8> {
    encoded_prefix(key.fields()) + encoded_timestamp(key.timestamp)
}

/// Puts a byte in front of a decoded field.
pub open spec fn prepend_byte(
    byte: u8,
    decoded: Result<(Seq<u8>, Seq<u8>), Error>,
) -> Result<(Seq<u8>, Seq<u8>), Error> {
    match decoded {
        Ok((field, rest)) => Ok((seq![byte] + field, rest)),
        Err(error) => Err(error),
    }
}

/// The field at the front of `bytes` and what follows its terminator, or why
/// `bytes` does not begin with an encoded field.
pub open spec fn decoded_field(bytes: Seq<u8>) -> Result<(Seq<u8>, Seq<u8>), Error>
    decreases bytes.len(),
{
    if bytes.len() == 0 {
        Err(Error::InvalidCompositeKey("unterminated composite key field"))
    } else if bytes[0] == FIELD_TERMINATOR {
        Ok((Seq::empty(), bytes.skip(1)))
    } else if bytes[0] == FIELD_ESCAPE {
        if bytes.len() == 1 {
            Err(Error::InvalidCompositeKey("unterminated field escape"))
        } else if bytes[1] == ESCAPED_ZERO {
            prepend_byte(FIELD_TERMINATOR, decoded_field(bytes.skip(2)))
        } else if bytes[1] == ESCAPED_ONE {
            prepend_byte(FIELD_ESCAPE, decoded_field(bytes.skip(2)))
        } else {
            Err(Error::InvalidCompositeKey("invalid field escape"))
        }
    } else {
        prepend_byte(bytes[0], decoded_field(bytes.skip(1)))
    }
}

/// The first `count` fields of `bytes` and what follows them, or the error of
/// the first field that is malformed.
pub open spec fn decoded_fields(bytes: Seq<u8>, count: nat) -> Result<
    (Seq<Seq<u8>>, Seq<u8>),
    Error,
>
    decreases count,
{
    if count == 0 {
        Ok((Seq::empty(), bytes))
    } else {
        match decoded_field(bytes) {
            Ok((field, rest)) => match decoded_fields(rest, (count - 1) as nat) {
                Ok((fields, tail)) => Ok((seq![field] + fields, tail)),
                Err(error) => Err(error),
            },
            Err(error) => Err(error),
        }
    }
}

/// The composite key that `bytes` encodes, or why it encodes none.
pub open spec fn decoded_key(bytes: Seq<u8>) -> Result<KeyView, Error> {
    if bytes.len() == 0 {
        Err(Error::InvalidCompositeKey("missing composite key version"))
    } else if bytes[0] != FORMAT_VERSION {
        Err(Error::InvalidCompositeKey("unsupported composite key version"))
    } else {
        match decoded_fields(bytes.skip(1), 4) {
            Ok((fields, rest)) => if rest.len() != ENCODED_TIMESTAMP_LEN {
                Err(Error::InvalidCompositeKey("composite key timestamp must be exactly 8 bytes"))
            } else {
                Ok(
                    KeyView {
                        row: fields[0],
                        family: fields[1],
                        qualifier: fields[2],
                        visibility: fields[3],
                        timestamp: (i64::MAX - be_value(rest)) as i64,
                    },
                )
            },
            Err(error) => Err(error),
        }
    }
}

/// The error for keys and prefixes that are too long.
pub open spec fn key_too_long() -> Error {
    Error::InvalidCompositeKey("encoded composite key exceeds Fjall's user-key length limit")
}

impl CompositeKey {
    /// Encodes the composite key into a lexicographically sortable user key.
    ///
    /// # Errors
    ///
    /// Returns an error if the encoded key would exceed the user-key length
    /// limit.
    pub fn encode(&self) -> (encoded: Result<UserKey, Error>)
        ensures
            match encoded {
                Ok(bytes) => bytes@ == encoded_key(self@) && bytes@.len() <= MAX_USER_KEY_LEN,
                Err(error) => encoded_key(self@).len() > MAX_USER_KEY_LEN && error
                    == key_too_long(),
            },
            encoded is Ok <==> key_room(self@) <= 65535,
    {
        proof {
            lemma_key_layout(*self);
        }
        let fields: Vec<&[u8]> = vec![
            self.row.as_slice(),
            self.family.as_slice(),
            self.qualifier.as_slice(),
            self.visibility.as_slice(),
        ];
        assert(slices_view(fields@) =~= self@.fields());
        let mut encoded: Vec<u8> = encode_prefix_fields(&fields);
        append_descending_timestamp(self.timestamp, &mut encoded);
        match validate_encoded_len(encoded.len()) {
            Ok(()) => Ok(encoded),
            Err(error) => Err(error),
        }
    }

    /// Decodes a composite key previously produced by [`Self::encode`].
    ///
    /// # Errors
    ///
    /// Returns an error if the version byte is unsupported or the encoded bytes
    /// are malformed.
    pub fn decode(encoded: &[u8]) -> (decoded: Result<Self, Error>)
        ensures
            match decoded {
                Ok(key) => {
                    &&& decoded_key(encoded@) == Ok::<KeyView, Error>(key@)
                    &&& encoded_key(key@) == encoded@
                },
                Err(error) => {
                    &&& decoded_key(encoded@) == Err::<KeyView, Error>(error)
                    &&& forall|key: KeyView| #[trigger] encoded_key(key) != encoded@
                },
            },
    {
        proof {
            lemma_encode_inverts_decode(encoded@);
            assert forall|key: KeyView| decoded_key(encoded@) is Err implies #[trigger] encoded_key(
                key,
            ) != encoded@ by {
                lemma_decode_inverts_encode(key);
            }
        }
        if encoded.len() == 0 {
            return Err(Error::InvalidCompositeKey("missing composite key version"));
        }
        if encoded[0] != FORMAT_VERSION {
            return Err(Error::InvalidCompositeKey("unsupported composite key version"));
        }
        proof {
            reveal_with_fuel(decoded_fields, 5);
        }
        let (row, at) = match decode_field(encoded, 1) {
            Ok(decoded) => decoded,
            Err(error) => return Err(error),
        };
        let (family, at) = match decode_field(encoded, at) {
            Ok(decoded) => decoded,
            Err(error) => return Err(error),
        };
        let (qualifier, at) = match decode_field(encoded, at) {
            Ok(decoded) => decoded,
            Err(error) => return Err(error),
        };
        let (visibility, at) = match decode_field(encoded, at) {
            Ok(decoded) => decoded,
            Err(error) => return Err(error),
        };
        if encoded.len() - at != ENCODED_TIMESTAMP_LEN {
            return Err(
                Error::InvalidCompositeKey("composite key timestamp must be exactly 8 bytes"),
            );
        }
        let timestamp: i64 = decode_descending_timestamp(
            vstd::slice::slice_subrange(encoded, at, encoded.len()),
        );
        assert(encoded@.subrange(at as int, encoded@.len() as int) =~= encoded@.skip(at as int));
        Ok(CompositeKey { row, family, qualifier, visibility, timestamp })
    }
}

/// Prefix selector for ordered composite-key scans.
///
/// Fields must be supplied contiguously from `row` onward. For example, a row
/// and family prefix is valid, but a family without a row is not.
#[derive(Debug, Eq, PartialEq)]
pub struct CompositePrefix {
    /// Exact row prefix component.
    pub row: Option<Slice>,

    /// Exact family prefix component.
    pub family: Option<Slice>,

    /// Exact qualifier prefix component.
    pub qualifier: Option<Slice>,

    /// Exact visibility prefix component.
    pub visibility: Option<Slice>,
}

impl Clone for CompositePrefix {
    fn clone(&self) -> (copy: Self)
        ensures
            same_field(copy.row, self.row),
            same_field(copy.family, self.family),
            same_field(copy.qualifier, self.qualifier),
            same_field(copy.visibility, self.visibility),
            copy.fields() == self.fields(),
    {
        CompositePrefix {
            row: clone_field(&self.row),
            family: clone_field(&self.family),
            qualifier: clone_field(&self.qualifier),
            visibility: clone_field(&self.visibility),
        }
    }
}

/// Whether two prefix components are both absent, or hold the same bytes.
pub open spec fn same_field(a: Option<Slice>, b: Option<Slice>) -> bool {
    match (a, b) {
        (Some(a), Some(b)) => a@ == b@,
        (None, None) => true,
        _ => false,
    }
}

fn clone_field(field: &Option<Slice>) -> (copy: Option<Slice>)
    ensures
        same_field(copy, *field),
{
    match field {
        Some(bytes) => Some(bytes.clone()),
        None => None,
    }
}

impl Default for CompositePrefix {
    fn default() -> (prefix: Self)
        ensures
            prefix.fields() == Some(Seq::<Seq<u8>>::empty()),
    {
        CompositePrefix { row: None, family: None, qualifier: None, visibility: None }
    }
}

impl CompositePrefix {
    /// The selected leading fields, if they are contiguous from `row` onward.
    pub open spec fn fields(self) -> Option<Seq<Seq<u8>>> {
        match (self.row, self.family, self.qualifier, self.visibility) {
            (None, None, None, None) => Some(Seq::empty()),
            (Some(row), None, None, None) => Some(seq![row@]),
            (Some(row), Some(family), None, None) => Some(seq![row@, family@]),
            (Some(row), Some(family), Some(qualifier), None) => Some(
                seq![row@, family@, qualifier@],
            ),
            (Some(row), Some(family), Some(qualifier), Some(visibility)) => Some(
                seq![row@, family@, qualifier@, visibility@],
            ),
            _ => None,
        }
    }

    /// Returns range bounds covering all encoded keys with this prefix.
    ///
    /// # Errors
    ///
    /// Returns an error if fields are not supplied contiguously from `row`
    /// onward or if the encoded prefix would exceed the user-key length limit.
    pub fn range(&self) -> (range: Result<KeyRange, Error>)
        ensures
            prefix_range_outcome(self.fields(), range),
    {
        let mut fields: Vec<&[u8]> = Vec::new();
        match (&self.row, &self.family, &self.qualifier, &self.visibility) {
            (None, None, None, None) => {},
            (Some(row), None, None, None) => {
                fields.push(row.as_slice());
            },
            (Some(row), Some(family), None, None) => {
                fields.push(row.as_slice());
                fields.push(family.as_slice());
            },
            (Some(row), Some(family), Some(qualifier), None) => {
                fields.push(row.as_slice());
                fields.push(family.as_slice());
                fields.push(qualifier.as_slice());
            },
            (Some(row), Some(family), Some(qualifier), Some(visibility)) => {
                fields.push(row.as_slice());
                fields.push(family.as_slice());
                fields.push(qualifier.as_slice());
                fields.push(visibility.as_slice());
            },
            _ => {
                return Err(
                    Error::InvalidCompositeKey("composite prefix fields must be contiguous"),
                );
            },
        }
        assert(slices_view(fields@) =~= self.fields()->Some_0);
        let prefix: Vec<u8> = encode_prefix_fields(&fields);
        match validate_encoded_len(prefix.len()) {
            Ok(()) => Ok(prefix_to_range(prefix.as_slice())),
            Err(error) => Err(error),
        }
    }
}

/// What the range of leading fields is: that of the encoded prefix if the
/// fields are contiguous and the encoded prefix is short enough.
pub open spec fn prefix_range_outcome(
    fields: Option<Seq<Seq<u8>>>,
    range: Result<KeyRange, Error>,
) -> bool {
    match fields {
        None => range == Err::<KeyRange, Error>(
            Error::InvalidCompositeKey("composite prefix fields must be contiguous"),
        ),
        Some(fields) => if encoded_prefix(fields).len() > MAX_USER_KEY_LEN {
            range == Err::<KeyRange, Error>(key_too_long())
        } else {
            range matches Ok(keys) && keys.covers_prefix(encoded_prefix(fields))
        },
    }
}

/// The contents of borrowed byte strings.
pub open spec fn slices_view(slices: Seq<&[u8]>) -> Seq<Seq<u8>> {
    Seq::new(slices.len(), |i: int| slices[i]@)
}

fn validate_encoded_len(len: usize) -> (valid: Result<(), Error>)
    ensures
        valid == if len > MAX_USER_KEY_LEN {
            Err::<(), Error>(key_too_long())
        } else {
            Ok(())
        },
{
    if len > MAX_USER_KEY_LEN {
        return Err(
            Error::InvalidCompositeKey(
                "encoded composite key exceeds Fjall's user-key length limit",
            ),
        );
    }
    Ok(())
}

fn encode_prefix_fields(fields: &Vec<&[u8]>) -> (encoded: Vec<u8>)
    ensures
        encoded@ == encoded_prefix(slices_view(fields@)),
{
    let mut encoded: Vec<u8> = Vec::with_capacity(encoded_capacity(fields));
    encoded.push(FORMAT_VERSION);
    let ghost all = slices_view(fields@);
    let mut i: usize = 0;
    assert(all.skip(0) =~= all);
    while i < fields.len()
        invariant
            i <= fields.len(),
            all == slices_view(fields@),
            encoded@ + encoded_fields(all.skip(i as int)) == encoded_prefix(all),
        decreases fields.len() - i,
    {
        let ghost before = encoded@;
        encode_field(fields[i], &mut encoded);
        proof {
            assert(all.skip(i as int).drop_first() =~= all.skip(i + 1));
            assert(encoded@ + encoded_fields(all.skip(i + 1)) =~= before + encoded_fields(
                all.skip(i as int),
            ));
        }
        i += 1;
    }
    assert(encoded@ =~= encoded@ + encoded_fields(all.skip(i as int)));
    encoded
}

/// The room that a key with these leading fields and a timestamp takes, as far
/// as it can be valid.
fn encoded_capacity(fields: &Vec<&[u8]>) -> (capacity: usize)
    ensures
        capacity == if encoded_prefix(slices_view(fields@)).len() + ENCODED_TIMESTAMP_LEN
            > MAX_USER_KEY_LEN {
            MAX_USER_KEY_LEN as int
        } else {
            encoded_prefix(slices_view(fields@)).len() + ENCODED_TIMESTAMP_LEN
        },
{
    let ghost all = slices_view(fields@);
    let mut capacity: usize = 1 + ENCODED_TIMESTAMP_LEN;
    let mut i: usize = 0;
    assert(all.skip(0) =~= all);
    while i < fields.len()
        invariant
            i <= fields.len(),
            all == slices_view(fields@),
            capacity <= MAX_USER_KEY_LEN,
            capacity + encoded_fields(all.skip(i as int)).len() == encoded_prefix(all).len()
                + ENCODED_TIMESTAMP_LEN,
        decreases fields.len() - i,
    {
        assert(all.skip(i as int).drop_first() =~= all.skip(i + 1));
        assert(all.skip(i as int)[0] == fields@[i as int]@);
        let len: usize = encoded_field_len(fields[i]);
        if len > MAX_USER_KEY_LEN - capacity {
            return MAX_USER_KEY_LEN;
        }
        capacity += len;
        i += 1;
    }
    capacity
}

/// The length of an encoded field, or the greatest `usize` if it is longer.
fn encoded_field_len(field: &[u8]) -> (len: usize)
    ensures
        len == if encoded_field(field@).len() > usize::MAX {
            usize::MAX as nat
        } else {
            encoded_field(field@).len()
        },
{
    let mut len: usize = 1;
    let mut i: usize = 0;
    let ghost mut exact: nat = 1;
    assert(field@.skip(0) =~= field@);
    while i < field.len()
        invariant
            i <= field.len(),
            exact >= 1,
            encoded_field(field@).len() == exact - 1 + encoded_field(field@.skip(i as int)).len(),
            len == if exact > usize::MAX {
                usize::MAX as nat
            } else {
                exact
            },
        decreases field.len() - i,
    {
        let width: usize = if field[i] == FIELD_TERMINATOR || field[i] == FIELD_ESCAPE {
            2
        } else {
            1
        };
        proof {
            assert(field@.skip(i as int).drop_first() =~= field@.skip(i + 1));
            exact = exact + width as nat;
        }
        len = if len > usize::MAX - width {
            usize::MAX
        } else {
            len + width
        };
        i += 1;
    }
    len
}

fn encode_field(field: &[u8], encoded: &mut Vec<u8>)
    ensures
        final(encoded)@ == old(encoded)@ + encoded_field(field@),
{
    let ghost start = encoded@;
    let mut i: usize = 0;
    assert(field@.skip(0) =~= field@);
    while i < field.len()
        invariant
            i <= field.len(),
            encoded@ + encoded_field(field@.skip(i as int)) == start + encoded_field(field@),
        decreases field.len() - i,
    {
        let byte: u8 = field[i];
        let ghost before = encoded@;
        if byte == FIELD_TERMINATOR {
            encoded.push(FIELD_ESCAPE);
            encoded.push(ESCAPED_ZERO);
        } else if byte == FIELD_ESCAPE {
            encoded.push(FIELD_ESCAPE);
            encoded.push(ESCAPED_ONE);
        } else {
            encoded.push(byte);
        }
        proof {
            assert(encoded@ =~= before + escaped_byte(byte));
            assert(field@.skip(i as int).drop_first() =~= field@.skip(i + 1));
            assert(encoded@ + encoded_field(field@.skip(i + 1)) =~= before + encoded_field(
                field@.skip(i as int),
            ));
        }
        i += 1;
    }
    let ghost before = encoded@;
    encoded.push(FIELD_TERMINATOR);
    assert(encoded@ =~= before + encoded_field(field@.skip(i as int)));
}

/// Puts several bytes in front of a decoded field.
spec fn prepend_bytes(
    bytes: Seq<u8>,
    decoded: Result<(Seq<u8>, Seq<u8>), Error>,
) -> Result<(Seq<u8>, Seq<u8>), Error> {
    match decoded {
        Ok((field, rest)) => Ok((bytes + field, rest)),
        Err(error) => Err(error),
    }
}

/// Decodes the field at position `start`; returns it with the position after
/// its terminator.
fn decode_field(encoded: &[u8], start: usize) -> (decoded: Result<(Slice, usize), Error>)
    requires
        start <= encoded@.len(),
    ensures
        match decoded {
            Ok((field, end)) => {
                &&& end <= encoded@.len()
                &&& decoded_field(encoded@.skip(start as int)) == Ok::<(Seq<u8>, Seq<u8>), Error>(
                    (field@, encoded@.skip(end as int)),
                )
                &&& encoded@.skip(start as int) == encoded_field(field@) + encoded@.skip(end as int)
            },
            Err(error) => {
                &&& decoded_field(encoded@.skip(start as int)) == Err::<
                    (Seq<u8>, Seq<u8>),
                    Error,
                >(error)
                &&& error is InvalidCompositeKey
                &&& forall|field: Seq<u8>, rest: Seq<u8>|
                    encoded@.skip(start as int) != #[trigger] (encoded_field(field) + rest)
            },
        },
{
    proof {
        lemma_encode_decoded_field(encoded@.skip(start as int));
        lemma_field_decoding_fails_exactly(encoded@.skip(start as int));
    }
    let mut field: Vec<u8> = Vec::new();
    let mut at: usize = start;
    let ghost whole = decoded_field(encoded@.skip(start as int));
    assert(whole is Ok ==> prepend_bytes(Seq::empty(), whole) =~= whole);
    while at < encoded.len()
        invariant
            start <= at <= encoded@.len(),
            whole == decoded_field(encoded@.skip(start as int)),
            whole == prepend_bytes(field@, decoded_field(encoded@.skip(at as int))),
            whole matches Ok((f, rest)) ==> encoded@.skip(start as int) == encoded_field(f) + rest,
            whole is Err ==> forall|f: Seq<u8>, rest: Seq<u8>|
                encoded@.skip(start as int) != #[trigger] (encoded_field(f) + rest),
        decreases encoded@.len() - at,
    {
        let byte: u8 = encoded[at];
        let ghost before = field@;
        let ghost rest = encoded@.skip(at as int);
        assert(rest.skip(1) =~= encoded@.skip(at + 1));
        if byte == FIELD_TERMINATOR {
            assert(before + Seq::<u8>::empty() =~= before);
            return Ok((field, at + 1));
        }
        if byte == FIELD_ESCAPE {
            if at + 1 == encoded.len() {
                return Err(Error::InvalidCompositeKey("unterminated field escape"));
            }
            let escaped: u8 = encoded[at + 1];
            assert(rest[1] == escaped);
            assert(rest.skip(2) =~= encoded@.skip(at + 2));
            if escaped == ESCAPED_ZERO {
                field.push(FIELD_TERMINATOR);
            } else if escaped == ESCAPED_ONE {
                field.push(FIELD_ESCAPE);
            } else {
                return Err(Error::InvalidCompositeKey("invalid field escape"));
            }
            at = at + 2;
        } else {
            field.push(byte);
            at = at + 1;
        }
        proof {
            let tail = decoded_field(encoded@.skip(at as int));
            if let Ok((f, r)) = tail {
                assert(before + (seq![field@.last()] + f) =~= field@ + f);
            }
        }
    }
    Err(Error::InvalidCompositeKey("unterminated composite key field"))
}

fn append_descending_timestamp(timestamp: i64, encoded: &mut Vec<u8>)
    ensures
        final(encoded)@ == old(encoded)@ + encoded_timestamp(timestamp),
{
    let descending: u64 = (i64::MAX as i128 - timestamp as i128) as u64;
    append_be_bytes(encoded, descending, ENCODED_TIMESTAMP_LEN);
}

fn decode_descending_timestamp(encoded: &[u8]) -> (timestamp: i64)
    requires
        encoded@.len() == ENCODED_TIMESTAMP_LEN,
    ensures
        timestamp == i64::MAX - be_value(encoded@),
{
    let descending: u64 = read_be_bytes(encoded);
    (i64::MAX as i128 - descending as i128) as i64
}

} // verus!
