use secure_keyspaces::composite::{FIELD_ESCAPE, FORMAT_VERSION, MAX_USER_KEY_LEN};
use secure_keyspaces::storage::prefix_to_range;
use secure_keyspaces::{CompositeKey, CompositePrefix, Error, KeyBound, KeyRange};
use std::cmp::Ordering;

fn key(
    row: &[u8],
    family: &[u8],
    qualifier: &[u8],
    visibility: &[u8],
    timestamp: i64,
) -> CompositeKey {
    CompositeKey {
        row: row.to_vec(),
        family: family.to_vec(),
        qualifier: qualifier.to_vec(),
        visibility: visibility.to_vec(),
        timestamp,
    }
}

fn cmp_logical(left: &CompositeKey, right: &CompositeKey) -> Ordering {
    left.row
        .cmp(&right.row)
        .then_with(|| left.family.cmp(&right.family))
        .then_with(|| left.qualifier.cmp(&right.qualifier))
        .then_with(|| left.visibility.cmp(&right.visibility))
        .then_with(|| right.timestamp.cmp(&left.timestamp))
}

fn contains(range: &KeyRange, key: &[u8]) -> bool {
    let lower = match &range.start {
        KeyBound::Included(bound) => key >= bound.as_slice(),
        KeyBound::Excluded(bound) => key > bound.as_slice(),
        KeyBound::Unbounded => true,
    };
    let upper = match &range.end {
        KeyBound::Included(bound) => key <= bound.as_slice(),
        KeyBound::Excluded(bound) => key < bound.as_slice(),
        KeyBound::Unbounded => true,
    };

    lower && upper
}

fn some(text: &str) -> Option<Vec<u8>> {
    Some(text.as_bytes().to_vec())
}

#[test]
fn encoded_byte_order_matches_logical_order() -> Result<(), Error> {
    let mut logical = vec![
        key(b"user1", b"profile", b"email", b"admin", 7),
        key(b"user1", b"profile", b"email", b"admin", 9),
        key(b"user1", b"profile", b"email", b"admin", 8),
        key(b"user1", b"profile", b"email", b"admin", -1),
        key(b"user1", b"profile", b"email", b"admin", i64::MAX),
        key(b"user1", b"profile", b"email", b"admin", i64::MIN),
        key(b"user1", b"profile", b"name", b"admin", 5),
        key(b"", b"", b"", b"", 0),
        key(b"\0", b"", b"", b"", 0),
        key(b"\x01", b"", b"", b"", 0),
        key(b"\xff", b"", b"", b"", 0),
        key(b"user1", b"\0fam", b"qual\x01", b"\xff", -10),
        key(b"user2", b"profile", b"email", b"admin", 1),
    ];
    logical.sort_by(cmp_logical);

    let mut encoded = logical
        .iter()
        .map(CompositeKey::encode)
        .collect::<Result<Vec<_>, Error>>()?;
    encoded.reverse();
    encoded.sort();

    let decoded = encoded
        .iter()
        .map(|encoded| CompositeKey::decode(encoded))
        .collect::<Result<Vec<_>, Error>>()?;

    assert_eq!(decoded, logical);

    Ok(())
}

#[test]
fn roundtrips_binary_fields_and_timestamp_extremes() -> Result<(), Error> {
    for timestamp in [i64::MIN, -1, 0, 1, i64::MAX] {
        let original = key(
            b"\0\x01\xfe\xff",
            b"fam\0",
            b"\x01qual",
            b"\xff\0",
            timestamp,
        );
        let encoded = original.encode()?;
        let decoded = CompositeKey::decode(&encoded)?;

        assert_eq!(decoded, original);
    }

    Ok(())
}

#[test]
fn prefix_range_matches_contiguous_prefix_fields() -> Result<(), Error> {
    let range = CompositePrefix {
        row: some("user1"),
        family: some("profile"),
        qualifier: None,
        visibility: None,
    }
    .range()?;

    let matching = key(b"user1", b"profile", b"email", b"admin", 7).encode()?;
    let other_family = key(b"user1", b"settings", b"email", b"admin", 7).encode()?;
    let other_row = key(b"user2", b"profile", b"email", b"admin", 7).encode()?;

    assert!(contains(&range, &matching));
    assert!(!contains(&range, &other_family));
    assert!(!contains(&range, &other_row));

    Ok(())
}

#[test]
fn empty_prefix_range_is_scoped_to_composite_version() -> Result<(), Error> {
    let range = CompositePrefix::default().range()?;
    let matching = key(b"user1", b"profile", b"email", b"admin", 7).encode()?;

    assert!(contains(&range, &matching));
    assert!(!contains(&range, &[0]));
    assert!(!contains(&range, &[2]));

    Ok(())
}

#[test]
fn rejects_non_contiguous_prefix_fields() {
    let prefix = CompositePrefix {
        row: some("user1"),
        family: None,
        qualifier: some("email"),
        visibility: None,
    };

    assert!(prefix.range().is_err());
}

#[test]
fn rejects_malformed_encoded_keys() {
    assert!(CompositeKey::decode(&[]).is_err());
    assert!(CompositeKey::decode(&[2]).is_err());
    assert!(CompositeKey::decode(&[FORMAT_VERSION, FIELD_ESCAPE]).is_err());
    assert!(CompositeKey::decode(&[FORMAT_VERSION, FIELD_ESCAPE, 3]).is_err());
    assert!(CompositeKey::decode(&[FORMAT_VERSION, 0, 0, 0, 0, 0]).is_err());
}

#[test]
fn encodes_each_field_and_the_timestamp_exactly() {
    let encoded = key(b"a", b"\0", b"\x01", b"", 1).encode();

    assert_eq!(
        Ok(vec![
            1, // format
            b'a', 0, // row
            1, 1, 0, // family
            1, 2, 0, // qualifier
            0, // visibility
            0x7f, 0xff, 0xff, 0xff, 0xff, 0xff, 0xff, 0xfe, // timestamp
        ]),
        encoded,
    );
    let oldest = key(b"", b"", b"", b"", i64::MIN).encode();
    assert_eq!(
        Ok(vec![1, 0, 0, 0, 0, 0xff, 0xff, 0xff, 0xff, 0xff, 0xff, 0xff, 0xff]),
        oldest,
    );
    let newest = key(b"", b"", b"", b"", i64::MAX).encode();
    assert_eq!(Ok(vec![1, 0, 0, 0, 0, 0, 0, 0, 0, 0, 0, 0, 0]), newest);
}

#[test]
fn names_what_is_wrong_with_an_encoded_key() {
    let error = |bytes: &[u8]| CompositeKey::decode(bytes).unwrap_err();

    assert_eq!(
        Error::InvalidCompositeKey("missing composite key version"),
        error(&[]),
    );
    assert_eq!(
        Error::InvalidCompositeKey("unsupported composite key version"),
        error(&[2]),
    );
    assert_eq!(
        Error::InvalidCompositeKey("unterminated composite key field"),
        error(&[1, 0, 7]),
    );
    assert_eq!(
        Error::InvalidCompositeKey("unterminated field escape"),
        error(&[1, 0, 1]),
    );
    assert_eq!(
        Error::InvalidCompositeKey("invalid field escape"),
        error(&[1, 0, 1, 3]),
    );
    assert_eq!(
        Error::InvalidCompositeKey("composite key timestamp must be exactly 8 bytes"),
        error(&[1, 0, 0, 0, 0, 0]),
    );
    assert_eq!(
        Error::InvalidCompositeKey("composite key timestamp must be exactly 8 bytes"),
        error(&[1, 0, 0, 0, 0, 0, 0, 0, 0, 0, 0, 0, 0, 0]),
    );
}

#[test]
fn limits_the_length_of_keys_and_prefixes() {
    // The format byte, four terminators and the timestamp take the rest.
    let longest = MAX_USER_KEY_LEN - 13;
    let too_long = Error::InvalidCompositeKey(
        "encoded composite key exceeds Fjall's user-key length limit",
    );

    let fits = key(&vec![b'r'; longest], b"", b"", b"", 0).encode();
    assert_eq!(MAX_USER_KEY_LEN, fits.map_or(0, |bytes| bytes.len()));
    assert_eq!(
        Err(too_long),
        key(&vec![b'r'; longest + 1], b"", b"", b"", 0).encode(),
    );
    // An escaped byte takes twice the room.
    assert_eq!(
        Err(too_long),
        key(&vec![0; longest / 2 + 1], b"", b"", b"", 0).encode(),
    );

    let prefix = |len: usize| CompositePrefix {
        row: Some(vec![b'r'; len]),
        ..CompositePrefix::default()
    };
    assert!(prefix(MAX_USER_KEY_LEN - 2).range().is_ok());
    assert_eq!(Err(too_long), prefix(MAX_USER_KEY_LEN - 1).range());
}

#[test]
fn prefix_range_bounds_are_exact() {
    let row = CompositePrefix {
        row: some("r"),
        ..CompositePrefix::default()
    };
    assert_eq!(
        Ok(KeyRange {
            start: KeyBound::Included(vec![1, b'r', 0]),
            end: KeyBound::Excluded(vec![1, b'r', 1]),
        }),
        row.range(),
    );
    assert_eq!(
        Ok(KeyRange {
            start: KeyBound::Included(vec![1]),
            end: KeyBound::Excluded(vec![2]),
        }),
        CompositePrefix::default().range(),
    );
    let all = CompositePrefix {
        row: some("r"),
        family: some("f"),
        qualifier: some("q"),
        visibility: some("v"),
    };
    let version = key(b"r", b"f", b"q", b"v", 5).encode().unwrap();
    let other = key(b"r", b"f", b"q", b"v\0", 5).encode().unwrap();
    let range = all.range().unwrap();
    assert!(contains(&range, &version));
    assert!(!contains(&range, &other));
    let gap = CompositePrefix {
        row: None,
        family: some("f"),
        qualifier: None,
        visibility: None,
    };
    assert_eq!(
        Err(Error::InvalidCompositeKey(
            "composite prefix fields must be contiguous"
        )),
        gap.range(),
    );
}

#[test]
fn prefix_to_range_skips_trailing_high_bytes() {
    assert_eq!(
        KeyRange {
            start: KeyBound::Included(vec![7, 0xff, 0xff]),
            end: KeyBound::Excluded(vec![8]),
        },
        prefix_to_range(&[7, 0xff, 0xff]),
    );
    assert_eq!(
        KeyRange {
            start: KeyBound::Included(vec![0xff]),
            end: KeyBound::Unbounded,
        },
        prefix_to_range(&[0xff]),
    );
    assert_eq!(
        KeyRange {
            start: KeyBound::Unbounded,
            end: KeyBound::Unbounded,
        },
        prefix_to_range(&[]),
    );
}

#[test]
fn cloning_a_prefix_keeps_every_component() {
    let gap = CompositePrefix {
        row: None,
        family: some("f"),
        qualifier: None,
        visibility: some(""),
    };
    assert_eq!(gap, gap.clone());
}
