//! Laws of secure access: nothing happens without clearance, only visible
//! versions are shown, and what was written is read back.

use vstd::prelude::*;
use vstd::utf8::{
    decode_utf8, decode_utf8_encode_utf8, encode_utf8, encode_utf8_decode_utf8,
    encode_utf8_valid_utf8, valid_utf8,
};

use crate::access::{
    canonical_visibility, deletes, entries_outcome, fetch_of, fetches, gets, gets_in_tx, inserts,
    optional_bytes, optional_outcome, scans, secure_scanned, secure_step, visibility_of, visible,
    SecureFetch, SecureScan,
};
use crate::cell::{EntryView, VersionScan, VersionedCell, VersionedEntry};
use crate::composite::laws::{
    key_less, key_room, lemma_decode_inverts_encode, lemma_encode_inverts_decode,
    lemma_encoding_keeps_order, lemma_key_layout, lemma_prefix_range_selects,
    lemma_range_selects_by_component,
};
use crate::composite::{
    decoded_key, encoded_key, prefix_range_outcome, CompositeKey, CompositePrefix, KeyView,
    MAX_USER_KEY_LEN,
};
use crate::crypto::{
    bytes_outcome, framed, lemma_read_inverts_write, lemma_unframed_inverts_framed, maybe_decrypts,
    maybe_encrypts, provider_inverts, unframed, CryptoContext, CryptoProvider, ValueEncryption,
    VALUE_ENCRYPTION_MAGIC,
};
use crate::error::Error;
use crate::order::{has_prefix, lex_less};
use crate::scan::laws::selected_by;
use crate::storage::{
    ascending_keys, changed, lists, looked_up, Change, ChangeView, KeyRange, Keyspace, Mutation,
    StoredView,
};
use crate::visibility::formula::{text_of, valid_label, Formula};
use crate::visibility::laws::{
    lemma_canonical_is_idempotent, lemma_canonical_text_is_fixed, normal,
};
use crate::visibility::meaning::{
    lemma_expression_means_its_text, lemma_label_characters, lemma_label_is_membership, sees,
    true_or,
};

verus! {

/// Writes accept exactly the UTF-8 texts of canonical visibility expressions.
pub proof fn lemma_writes_accept_canonical_visibility(bytes: Seq<u8>)
    ensures
        canonical_visibility(bytes) is Ok <==> exists|formula: Formula|
            #[trigger] normal(formula) && bytes == encode_utf8(text_of(formula)),
{
    if canonical_visibility(bytes) is Ok {
        let formula = visibility_of(bytes)->Ok_0;
        lemma_canonical_is_idempotent(decode_utf8(bytes));
        assert(normal(formula) && bytes == encode_utf8(text_of(formula)));
    }
    if exists|formula: Formula|
        #[trigger] normal(formula) && bytes == encode_utf8(text_of(formula)) {
        let formula = choose|formula: Formula|
            #[trigger] normal(formula) && bytes == encode_utf8(text_of(formula));
        encode_utf8_decode_utf8(text_of(formula));
        encode_utf8_valid_utf8(text_of(formula));
        lemma_canonical_text_is_fixed(formula);
    }
}

/// Without clearance every operation answers the error of the permission
/// check: nothing is written, deleted or read.
pub proof fn lemma_denied_operations_do_nothing<C: CryptoProvider>(
    denied: Error,
    keyspace: Keyspace,
    encryption: Option<ValueEncryption<C>>,
    auths: Set<Seq<char>>,
    key: KeyView,
    value: Seq<u8>,
    fields: Option<Seq<Seq<u8>>>,
    limits: VersionScan,
    written: Result<Mutation, Error>,
    removed: Result<Mutation, Error>,
    fetched: Result<Option<SecureFetch<C>>, Error>,
    fetched_in_tx: Result<SecureFetch<C>, Error>,
    scanning: Result<SecureScan<C>, Error>,
)
    requires
        inserts(Err(denied), keyspace, encryption, key, value, written),
        deletes(Err(denied), keyspace, key, removed),
        gets(Err(denied), keyspace, encryption, auths, key, fetched),
        gets_in_tx(Err(denied), keyspace, encryption, auths, key, fetched_in_tx),
        scans(Err(denied), keyspace, encryption, auths, fields, limits, scanning),
    ensures
        written == Err::<Mutation, Error>(denied),
        removed == Err::<Mutation, Error>(denied),
        fetched == Err::<Option<SecureFetch<C>>, Error>(denied),
        fetched_in_tx == Err::<SecureFetch<C>, Error>(denied),
        scanning == Err::<SecureScan<C>, Error>(denied),
{
}

/// A version whose visibility is not canonical is neither written nor deleted.
pub proof fn lemma_noncanonical_versions_are_not_written<C: CryptoProvider>(
    cleared: Result<(), Error>,
    keyspace: Keyspace,
    encryption: Option<ValueEncryption<C>>,
    key: KeyView,
    value: Seq<u8>,
    written: Result<Mutation, Error>,
    removed: Result<Mutation, Error>,
)
    requires
        canonical_visibility(key.visibility) is Err,
        inserts(cleared, keyspace, encryption, key, value, written),
        deletes(cleared, keyspace, key, removed),
    ensures
        written is Err,
        removed is Err,
{
}

/// An insert stores, under the encoded key, what encrypting the value gave.
proof fn lemma_insert_stores<C: CryptoProvider>(
    keyspace: Keyspace,
    encryption: Option<ValueEncryption<C>>,
    key: KeyView,
    value: Seq<u8>,
    mutation: Mutation,
) -> (stored: Seq<u8>)
    requires
        inserts(Ok(()), keyspace, encryption, key, value, Ok(mutation)),
    ensures
        maybe_encrypts(encryption, encoded_key(key), value, Ok(stored)),
        mutation.keyspace == keyspace,
        mutation.change@ == (ChangeView::Insert { key: encoded_key(key), value: stored }),
{
    let stored = choose|stored: Result<Seq<u8>, Error>|
        {
            &&& #[trigger] maybe_encrypts(encryption, encoded_key(key), value, stored)
            &&& match stored {
                Err(error) => Ok::<Mutation, Error>(mutation) == Err::<Mutation, Error>(error),
                Ok(bytes) => Ok::<Mutation, Error>(mutation) matches Ok(mutation)
                    && mutation.keyspace == keyspace && mutation.change@ == (ChangeView::Insert {
                    key: encoded_key(key),
                    value: bytes,
                }),
            }
        };
    stored->Ok_0
}

/// A version that was inserted is read back by anyone who may see it, in or
/// outside a transaction, if the encryption provider decrypts what it
/// encrypted.
pub proof fn lemma_inserted_version_is_read_back<C: CryptoProvider>(
    contents: Map<Seq<u8>, Seq<u8>>,
    keyspace: Keyspace,
    encryption: Option<ValueEncryption<C>>,
    auths: Set<Seq<char>>,
    key: KeyView,
    value: Seq<u8>,
    mutation: Mutation,
    fetch: SecureFetch<C>,
    outcome: Result<Option<Seq<u8>>, Error>,
)
    requires
        encryption matches Some(encryption) ==> provider_inverts(encryption.config().provider()),
        inserts(Ok(()), keyspace, encryption, key, value, Ok(mutation)),
        visible(key.visibility, auths) == Ok::<bool, Error>(true),
        fetch_of(keyspace, encryption, auths, key, fetch),
        fetches(
            fetch.visibility(),
            fetch.encryption(),
            fetch.wanted().key@,
            looked_up(changed(contents, mutation.change@), fetch.wanted().key@),
            outcome,
        ),
    ensures
        outcome == Ok::<Option<Seq<u8>>, Error>(Some(value)),
{
    let encoded = encoded_key(key);
    let bytes = lemma_insert_stores(keyspace, encryption, key, value, mutation);
    let read = choose|read: Result<Seq<u8>, Error>|
        {
            &&& #[trigger] maybe_decrypts(encryption, encoded, bytes, read)
            &&& outcome == match read {
                Ok(plaintext) => Ok::<Option<Seq<u8>>, Error>(Some(plaintext)),
                Err(error) => Err(error),
            }
        };
    lemma_read_inverts_write(encryption, encoded, value, bytes, read);
}

/// A version that was deleted is not read any more.
pub proof fn lemma_deleted_version_is_gone<C: CryptoProvider>(
    contents: Map<Seq<u8>, Seq<u8>>,
    keyspace: Keyspace,
    encryption: Option<ValueEncryption<C>>,
    auths: Set<Seq<char>>,
    key: KeyView,
    mutation: Mutation,
    fetch: SecureFetch<C>,
    outcome: Result<Option<Seq<u8>>, Error>,
)
    requires
        deletes(Ok(()), keyspace, key, Ok(mutation)),
        visible(key.visibility, auths) is Ok,
        fetch_of(keyspace, encryption, auths, key, fetch),
        fetches(
            fetch.visibility(),
            fetch.encryption(),
            fetch.wanted().key@,
            looked_up(changed(contents, mutation.change@), fetch.wanted().key@),
            outcome,
        ),
    ensures
        outcome == Ok::<Option<Seq<u8>>, Error>(None),
{
}

/// A version that is not visible to the session is not shown, whatever the
/// storage engine holds.
pub proof fn lemma_hidden_version_is_not_shown<C: CryptoProvider>(
    keyspace: Keyspace,
    encryption: Option<ValueEncryption<C>>,
    auths: Set<Seq<char>>,
    key: KeyView,
    fetched: Result<Option<SecureFetch<C>>, Error>,
    fetch: SecureFetch<C>,
    stored: Option<Seq<u8>>,
    outcome: Result<Option<Seq<u8>>, Error>,
)
    requires
        visible(key.visibility, auths) == Ok::<bool, Error>(false),
        gets(Ok(()), keyspace, encryption, auths, key, fetched),
        fetch_of(keyspace, encryption, auths, key, fetch),
        fetches(
            fetch.visibility(),
            fetch.encryption(),
            fetch.wanted().key@,
            stored,
            outcome,
        ),
    ensures
        fetched == Ok::<Option<SecureFetch<C>>, Error>(None),
        outcome == Ok::<Option<Seq<u8>>, Error>(None),
{
}

/// In an encrypted keyspace nothing but framed ciphertext is stored.
pub proof fn lemma_encrypted_values_are_marked<C: CryptoProvider>(
    keyspace: Keyspace,
    encryption: ValueEncryption<C>,
    key: KeyView,
    value: Seq<u8>,
    mutation: Mutation,
)
    requires
        inserts(Ok(()), keyspace, Some(encryption), key, value, Ok(mutation)),
    ensures
        mutation.change@ matches ChangeView::Insert { key: stored_key, value: stored }
            && stored_key == encoded_key(key) && has_prefix(
            stored,
            encode_utf8(VALUE_ENCRYPTION_MAGIC@),
        ) && unframed(stored) is Ok,
{
    let encoded = encoded_key(key);
    let bytes = lemma_insert_stores(keyspace, Some(encryption), key, value, mutation);
    let (context, plaintext, encrypted) = choose|
        context: CryptoContext<'_>,
        plaintext: &[u8],
        encrypted: Result<Vec<u8>, Error>,
    |
        {
            &&& #[trigger] call_ensures(
                C::encrypt,
                (&encryption.config().provider(), context, plaintext),
                encrypted,
            )
            &&& encryption.tells(context, encoded)
            &&& plaintext@ == value
            &&& match encrypted {
                Ok(ciphertext) => if ciphertext@.len() > u32::MAX {
                    Ok::<Seq<u8>, Error>(bytes) == Err::<Seq<u8>, Error>(
                        Error::Crypto("ciphertext exceeds u32 length"),
                    )
                } else {
                    Ok::<Seq<u8>, Error>(bytes) == Ok::<Seq<u8>, Error>(framed(ciphertext@))
                },
                Err(error) => Ok::<Seq<u8>, Error>(bytes) == Err::<Seq<u8>, Error>(error),
            }
        };
    let ciphertext = encrypted->Ok_0@;
    let magic = encode_utf8(VALUE_ENCRYPTION_MAGIC@);
    lemma_unframed_inverts_framed(ciphertext);
    assert(bytes.take(magic.len() as int) =~= magic);
}

/// Where the provider cannot encrypt a value, the value is not written.
pub proof fn lemma_encryption_failure_rejects_write<C: CryptoProvider>(
    cleared: Result<(), Error>,
    keyspace: Keyspace,
    encryption: Option<ValueEncryption<C>>,
    key: KeyView,
    value: Seq<u8>,
    outcome: Result<Mutation, Error>,
)
    requires
        forall|stored: Result<Seq<u8>, Error>| #[trigger]
            maybe_encrypts(encryption, encoded_key(key), value, stored) ==> stored is Err,
        inserts(cleared, keyspace, encryption, key, value, outcome),
    ensures
        outcome is Err,
{
}

/// Where the provider cannot decrypt a value, the value is not shown.
pub proof fn lemma_decryption_failure_denies_read<C: CryptoProvider>(
    visibility: Result<bool, Error>,
    encryption: Option<ValueEncryption<C>>,
    key: Seq<u8>,
    stored: Seq<u8>,
    outcome: Result<Option<Seq<u8>>, Error>,
)
    requires
        forall|value: Result<Seq<u8>, Error>| #[trigger]
            maybe_decrypts(encryption, key, stored, value) ==> value is Err,
        fetches(visibility, encryption, key, Some(stored), outcome),
    ensures
        !(outcome matches Ok(Some(_))),
        visibility == Ok::<bool, Error>(true) ==> outcome is Err,
{
}

/// What a transaction looks up does not depend on what its session may see, so
/// that hidden versions take part in conflict detection too.
pub proof fn lemma_tx_reads_ignore_visibility<C: CryptoProvider>(
    cleared: Result<(), Error>,
    keyspace: Keyspace,
    encryption: Option<ValueEncryption<C>>,
    auths: Set<Seq<char>>,
    other_auths: Set<Seq<char>>,
    key: KeyView,
    outcome: Result<SecureFetch<C>, Error>,
    other: Result<SecureFetch<C>, Error>,
)
    requires
        gets_in_tx(cleared, keyspace, encryption, auths, key, outcome),
        gets_in_tx(cleared, keyspace, encryption, other_auths, key, other),
    ensures
        match (outcome, other) {
            (Ok(fetch), Ok(other_fetch)) => {
                &&& fetch.wanted().keyspace == other_fetch.wanted().keyspace
                &&& fetch.wanted().key@ == other_fetch.wanted().key@
            },
            (Err(error), Err(other_error)) => error == other_error,
            _ => false,
        },
{
}

// ---------------------------------------------------------------------------
// Scans
// ---------------------------------------------------------------------------
/// Whether a stored entry is a version that a scan with these limits and
/// labels is to return.
pub open spec fn shown(
    limits: VersionScan,
    auths: Set<Seq<char>>,
    entry: StoredView,
    key: KeyView,
) -> bool {
    &&& decoded_key(entry.key) == Ok::<KeyView, Error>(key)
    &&& limits.selects(key.timestamp)
    &&& visible(key.visibility, auths) == Ok::<bool, Error>(true)
}

/// Whether an entry that a scan found comes from the stored entry.
pub open spec fn comes_from<C: CryptoProvider>(
    limits: VersionScan,
    auths: Set<Seq<char>>,
    encryption: Option<ValueEncryption<C>>,
    found: EntryView,
    entry: StoredView,
) -> bool {
    &&& shown(limits, auths, entry, found.key)
    &&& maybe_decrypts(encryption, entry.key, entry.value, Ok(found.value))
}

/// What a scan made of the first entry of a listing, before it went on to the
/// rest.
proof fn lemma_first_step<C: CryptoProvider>(
    limits: VersionScan,
    auths: Set<Seq<char>>,
    encryption: Option<ValueEncryption<C>>,
    found: Seq<EntryView>,
    listing: Seq<StoredView>,
    outcome: Result<Seq<EntryView>, Error>,
) -> (step: Result<Seq<EntryView>, Error>)
    requires
        listing.len() > 0,
        secure_scanned(limits, auths, encryption, found, listing, outcome),
    ensures
        secure_step(limits, auths, encryption, found, listing[0], step),
        match step {
            Err(error) => outcome == Err::<Seq<EntryView>, Error>(error),
            Ok(more) => secure_scanned(
                limits,
                auths,
                encryption,
                more,
                listing.drop_first(),
                outcome,
            ),
        },
{
    choose|step: Result<Seq<EntryView>, Error>|
        {
            &&& #[trigger] secure_step(limits, auths, encryption, found, listing[0], step)
            &&& match step {
                Err(error) => outcome == Err::<Seq<EntryView>, Error>(error),
                Ok(more) => secure_scanned(
                    limits,
                    auths,
                    encryption,
                    more,
                    listing.drop_first(),
                    outcome,
                ),
            }
        }
}

proof fn lemma_secure_step<C: CryptoProvider>(
    limits: VersionScan,
    auths: Set<Seq<char>>,
    encryption: Option<ValueEncryption<C>>,
    found: Seq<EntryView>,
    entry: StoredView,
    more: Seq<EntryView>,
)
    requires
        secure_step(limits, auths, encryption, found, entry, Ok(more)),
    ensures
        more == found || {
            &&& !limits.exhausted(found.len())
            &&& more.len() == found.len() + 1
            &&& more.drop_last() == found
            &&& comes_from(limits, auths, encryption, more.last(), entry)
        },
        !limits.exhausted(found.len()) && more == found ==> forall|key: KeyView|
            !#[trigger] shown(limits, auths, entry, key),
{
    if !limits.exhausted(found.len()) {
        if let Ok(key) = decoded_key(entry.key) {
            if limits.selects(key.timestamp) && visible(key.visibility, auths) == Ok::<bool, Error>(
                true,
            ) {
                let value = choose|value: Result<Seq<u8>, Error>|
                    {
                        &&& #[trigger] maybe_decrypts(encryption, entry.key, entry.value, value)
                        &&& Ok::<Seq<EntryView>, Error>(more) == match value {
                            Ok(plaintext) => Ok::<Seq<EntryView>, Error>(
                                found.push(EntryView { key, value: plaintext }),
                            ),
                            Err(error) => Err(error),
                        }
                    };
                assert(more.drop_last() =~= found);
            }
        }
    }
}

proof fn lemma_secure_scan<C: CryptoProvider>(
    limits: VersionScan,
    auths: Set<Seq<char>>,
    encryption: Option<ValueEncryption<C>>,
    found: Seq<EntryView>,
    listing: Seq<StoredView>,
    entries: Seq<EntryView>,
)
    requires
        secure_scanned(limits, auths, encryption, found, listing, Ok(entries)),
    ensures
        found.len() <= entries.len(),
        entries.take(found.len() as int) == found,
        limits.max_versions matches Some(max) ==> found.len() <= max ==> entries.len() <= max,
        forall|i: int|
            found.len() <= i < entries.len() ==> exists|j: int|
                0 <= j < listing.len() && comes_from(
                    limits,
                    auths,
                    encryption,
                    #[trigger] entries[i],
                    #[trigger] listing[j],
                ),
        !limits.exhausted(entries.len()) ==> forall|j: int, key: KeyView|
            0 <= j < listing.len() && #[trigger] shown(limits, auths, listing[j], key)
                ==> exists|i: int|
                found.len() <= i < entries.len() && (#[trigger] entries[i]).key == key,
    decreases listing.len(),
{
    if listing.len() == 0 {
        assert(entries.take(found.len() as int) =~= found);
    } else {
        let rest = listing.drop_first();
        let step = lemma_first_step(limits, auths, encryption, found, listing, Ok(entries));
        let more = step->Ok_0;
        lemma_secure_step(limits, auths, encryption, found, listing[0], more);
        lemma_secure_scan(limits, auths, encryption, more, rest, entries);
        assert(entries.take(found.len() as int) =~= found) by {
            if more != found {
                assert(entries.take(found.len() as int) =~= entries.take(
                    more.len() as int,
                ).drop_last());
            }
        }
        assert forall|i: int| found.len() <= i < entries.len() implies exists|j: int|
            0 <= j < listing.len() && comes_from(
                limits,
                auths,
                encryption,
                #[trigger] entries[i],
                #[trigger] listing[j],
            ) by {
            if i < more.len() {
                assert(entries[i] == entries.take(more.len() as int)[i]);
                assert(entries[i] == more.last());
                assert(comes_from(limits, auths, encryption, entries[i], listing[0]));
            } else {
                let j = choose|j: int|
                    0 <= j < rest.len() && comes_from(
                        limits,
                        auths,
                        encryption,
                        entries[i],
                        #[trigger] rest[j],
                    );
                assert(rest[j] == listing[j + 1]);
                assert(comes_from(limits, auths, encryption, entries[i], listing[j + 1]));
            }
        }
        if !limits.exhausted(entries.len()) {
            assert forall|j: int, key: KeyView|
                0 <= j < listing.len() && #[trigger] shown(
                    limits,
                    auths,
                    listing[j],
                    key,
                ) implies exists|i: int|
                found.len() <= i < entries.len() && (#[trigger] entries[i]).key == key by {
                if j == 0 {
                    assert(more != found);
                    assert(entries[found.len() as int] == entries.take(more.len() as int)[found.len() as int]);
                    assert(entries[found.len() as int].key == key);
                } else {
                    assert(rest[j - 1] == listing[j]);
                    assert(shown(limits, auths, rest[j - 1], key));
                    let i = choose|i: int|
                        more.len() <= i < entries.len() && (#[trigger] entries[i]).key == key;
                    assert(entries[i].key == key);
                }
            }
        }
    }
}

/// A secure scan exposes only versions that the session may see and that the
/// limits select, each with the decrypted value of a listed entry; it returns
/// no more than allowed, and as long as it may return more it misses none.
pub proof fn lemma_secure_scan_is_exact<C: CryptoProvider>(
    limits: VersionScan,
    auths: Set<Seq<char>>,
    encryption: Option<ValueEncryption<C>>,
    listing: Seq<StoredView>,
    entries: Seq<EntryView>,
)
    requires
        secure_scanned(limits, auths, encryption, Seq::empty(), listing, Ok(entries)),
    ensures
        limits.max_versions matches Some(max) ==> entries.len() <= max,
        forall|i: int|
            0 <= i < entries.len() ==> exists|j: int|
                0 <= j < listing.len() && comes_from(
                    limits,
                    auths,
                    encryption,
                    #[trigger] entries[i],
                    #[trigger] listing[j],
                ),
        !limits.exhausted(entries.len()) ==> forall|j: int, key: KeyView|
            0 <= j < listing.len() && #[trigger] shown(limits, auths, listing[j], key)
                ==> exists|i: int|
                0 <= i < entries.len() && (#[trigger] entries[i]).key == key,
{
    lemma_secure_scan(limits, auths, encryption, Seq::empty(), listing, entries);
}

/// The listed versions that a scan with these limits and labels is to return,
/// in order and without a limit on their number.
pub open spec fn showing(
    limits: VersionScan,
    auths: Set<Seq<char>>,
    listing: Seq<StoredView>,
) -> Seq<StoredView>
    decreases listing.len(),
{
    if listing.len() == 0 {
        Seq::empty()
    } else {
        let rest = showing(limits, auths, listing.drop_first());
        if exists|key: KeyView| shown(limits, auths, listing[0], key) {
            seq![listing[0]] + rest
        } else {
            rest
        }
    }
}

/// As many of `count` versions as may be returned.
pub open spec fn allowed(limits: VersionScan, count: nat) -> nat {
    match limits.max_versions {
        Some(max) => if max < count {
            max as nat
        } else {
            count
        },
        None => count,
    }
}

proof fn lemma_secure_scan_firsts<C: CryptoProvider>(
    limits: VersionScan,
    auths: Set<Seq<char>>,
    encryption: Option<ValueEncryption<C>>,
    found: Seq<EntryView>,
    listing: Seq<StoredView>,
    entries: Seq<EntryView>,
)
    requires
        secure_scanned(limits, auths, encryption, found, listing, Ok(entries)),
        limits.max_versions matches Some(max) ==> found.len() <= max,
    ensures
        entries.len() == allowed(limits, found.len() + showing(limits, auths, listing).len()),
        forall|i: int|
            found.len() <= i < entries.len() ==> comes_from(
                limits,
                auths,
                encryption,
                #[trigger] entries[i],
                showing(limits, auths, listing)[i - found.len()],
            ),
    decreases listing.len(),
{
    if listing.len() > 0 {
        let rest = listing.drop_first();
        let step = lemma_first_step(limits, auths, encryption, found, listing, Ok(entries));
        let more = step->Ok_0;
        lemma_secure_step(limits, auths, encryption, found, listing[0], more);
        lemma_secure_scan(limits, auths, encryption, more, rest, entries);
        lemma_secure_scan_firsts(limits, auths, encryption, more, rest, entries);
        let all = showing(limits, auths, listing);
        let later = showing(limits, auths, rest);
        assert forall|i: int| found.len() <= i < entries.len() implies comes_from(
            limits,
            auths,
            encryption,
            #[trigger] entries[i],
            all[i - found.len()],
        ) by {
            if more == found {
                assert(all == later);
            } else {
                assert(shown(limits, auths, listing[0], more.last().key));
                assert(all =~= seq![listing[0]] + later);
                if i == found.len() {
                    assert(entries[i] == entries.take(more.len() as int)[i]);
                    assert(entries[i] == more.last());
                } else {
                    assert(all[i - found.len()] == later[i - more.len()]);
                }
            }
        }
        if more != found {
            assert(shown(limits, auths, listing[0], more.last().key));
        }
    }
}

/// A secure scan returns the listed versions that the limits select and the
/// session may see, each with a decryption of its value, in order: all of them,
/// or the first ones up to its limit.
pub proof fn lemma_secure_scan_returns_first_shown<C: CryptoProvider>(
    limits: VersionScan,
    auths: Set<Seq<char>>,
    encryption: Option<ValueEncryption<C>>,
    listing: Seq<StoredView>,
    entries: Seq<EntryView>,
)
    requires
        secure_scanned(limits, auths, encryption, Seq::empty(), listing, Ok(entries)),
    ensures
        entries.len() == allowed(limits, showing(limits, auths, listing).len()),
        forall|i: int|
            0 <= i < entries.len() ==> comes_from(
                limits,
                auths,
                encryption,
                #[trigger] entries[i],
                showing(limits, auths, listing)[i],
            ),
{
    lemma_secure_scan_firsts(limits, auths, encryption, Seq::empty(), listing, entries);
}

/// Whether a scan can take every entry of a listing that it has to look at: each
/// key decodes, each selected version has a valid visibility, and the value of
/// each version to return decrypts.
pub open spec fn scannable<C: CryptoProvider>(
    limits: VersionScan,
    auths: Set<Seq<char>>,
    encryption: Option<ValueEncryption<C>>,
    listing: Seq<StoredView>,
) -> bool {
    forall|i: int|
        0 <= i < listing.len() ==> {
            &&& decoded_key((#[trigger] listing[i]).key) matches Ok(key)
            &&& limits.selects(key.timestamp) ==> visible(key.visibility, auths) is Ok
            &&& shown(limits, auths, listing[i], key) ==> forall|value: Result<Seq<u8>, Error>|
                #[trigger] maybe_decrypts(encryption, listing[i].key, listing[i].value, value)
                    ==> value is Ok
        }
}

proof fn lemma_secure_scan_goes_through<C: CryptoProvider>(
    limits: VersionScan,
    auths: Set<Seq<char>>,
    encryption: Option<ValueEncryption<C>>,
    found: Seq<EntryView>,
    listing: Seq<StoredView>,
    outcome: Result<Seq<EntryView>, Error>,
)
    requires
        scannable(limits, auths, encryption, listing),
        secure_scanned(limits, auths, encryption, found, listing, outcome),
    ensures
        outcome is Ok,
    decreases listing.len(),
{
    if listing.len() > 0 {
        let rest = listing.drop_first();
        let step = lemma_first_step(limits, auths, encryption, found, listing, outcome);
        assert(decoded_key(listing[0].key) is Ok);
        assert(step is Ok);
        assert forall|i: int| 0 <= i < rest.len() implies {
            &&& decoded_key((#[trigger] rest[i]).key) matches Ok(key)
            &&& limits.selects(key.timestamp) ==> visible(key.visibility, auths) is Ok
            &&& shown(limits, auths, rest[i], key) ==> forall|value: Result<Seq<u8>, Error>|
                #[trigger] maybe_decrypts(encryption, rest[i].key, rest[i].value, value)
                    ==> value is Ok
        } by {
            assert(rest[i] == listing[i + 1]);
        }
        lemma_secure_scan_goes_through(
            limits,
            auths,
            encryption,
            step->Ok_0,
            rest,
            outcome,
        );
    }
}

proof fn lemma_showing_contains(
    limits: VersionScan,
    auths: Set<Seq<char>>,
    listing: Seq<StoredView>,
    entry: StoredView,
)
    ensures
        showing(limits, auths, listing).contains(entry) <==> listing.contains(entry) && exists|
            key: KeyView,
        | shown(limits, auths, entry, key),
    decreases listing.len(),
{
    if listing.len() > 0 {
        let rest = listing.drop_first();
        let all = showing(limits, auths, listing);
        let later = showing(limits, auths, rest);
        lemma_showing_contains(limits, auths, rest, entry);
        let taken = exists|key: KeyView| shown(limits, auths, listing[0], key);
        if all.contains(entry) {
            let k = choose|k: int| 0 <= k < all.len() && all[k] == entry;
            if !taken {
                assert(later[k] == entry);
            } else if k == 0 {
                assert(listing[0] == entry);
            } else {
                assert(later[k - 1] == entry);
            }
        }
        if rest.contains(entry) {
            let i = choose|i: int| 0 <= i < rest.len() && rest[i] == entry;
            assert(listing[i + 1] == entry);
        }
        if listing.contains(entry) && exists|key: KeyView| shown(limits, auths, entry, key) {
            let i = choose|i: int| 0 <= i < listing.len() && listing[i] == entry;
            if i == 0 {
                assert(all[0] == entry);
            } else {
                assert(rest[i - 1] == entry);
                let k = choose|k: int| 0 <= k < later.len() && later[k] == entry;
                if taken {
                    assert(all[k + 1] == entry);
                } else {
                    assert(all[k] == entry);
                }
            }
        }
    }
}

/// Whether `outcome` is what a scan of a listing of `contents` is to return: in
/// order and up to the limit, each with a decryption of its value, exactly the
/// versions that `contents` holds, the leading fields and the timestamp bounds
/// select, and a holder of the labels `auths` may see.
pub open spec fn scans_contents<C: CryptoProvider>(
    contents: Map<Seq<u8>, Seq<u8>>,
    fields: Seq<Seq<u8>>,
    listing: Seq<StoredView>,
    limits: VersionScan,
    auths: Set<Seq<char>>,
    encryption: Option<ValueEncryption<C>>,
    outcome: Result<Seq<EntryView>, Error>,
) -> bool {
    let versions = showing(limits, auths, listing);
    &&& outcome matches Ok(entries)
    &&& entries.len() == allowed(limits, versions.len())
    &&& forall|i: int|
        0 <= i < entries.len() ==> comes_from(
            limits,
            auths,
            encryption,
            #[trigger] entries[i],
            versions[i],
        )
    &&& forall|i: int, j: int|
        0 <= i < j < entries.len() ==> key_less(
            (#[trigger] entries[i]).key,
            (#[trigger] entries[j]).key,
        )
    &&& forall|key: KeyView, stored: Seq<u8>|
        #![trigger versions.contains(StoredView { key: encoded_key(key), value: stored })]
        versions.contains(StoredView { key: encoded_key(key), value: stored }) <==> {
            &&& looked_up(contents, encoded_key(key)) == Some(stored)
            &&& selected_by(fields, key)
            &&& limits.selects(key.timestamp)
            &&& visible(key.visibility, auths) == Ok::<bool, Error>(true)
        }
}

/// A secure scan over what a keyspace holds succeeds where every entry of the
/// range can be taken. It then returns, each with a decryption of its value, in
/// order and up to its limit, exactly the versions that the keyspace holds, the
/// prefix selects, the timestamp bounds include and the session may see.
pub proof fn lemma_secure_prefix_scan_is_exact<C: CryptoProvider>(
    contents: Map<Seq<u8>, Seq<u8>>,
    fields: Seq<Seq<u8>>,
    range: KeyRange,
    listing: Seq<StoredView>,
    limits: VersionScan,
    auths: Set<Seq<char>>,
    encryption: Option<ValueEncryption<C>>,
    outcome: Result<Seq<EntryView>, Error>,
)
    requires
        fields.len() <= 4,
        prefix_range_outcome(Some(fields), Ok(range)),
        lists(contents, range, listing),
        scannable(limits, auths, encryption, listing),
        secure_scanned(limits, auths, encryption, Seq::empty(), listing, outcome),
    ensures
        scans_contents(contents, fields, listing, limits, auths, encryption, outcome),
{
    lemma_secure_scan_goes_through(limits, auths, encryption, Seq::empty(), listing, outcome);
    let entries = outcome->Ok_0;
    lemma_secure_scan_returns_first_shown(limits, auths, encryption, listing, entries);
    lemma_secure_scan_is_ordered(limits, auths, encryption, listing, entries);
    lemma_prefix_range_selects(fields, range);
    assert forall|key: KeyView, stored: Seq<u8>|
        #![trigger showing(limits, auths, listing).contains(
            StoredView { key: encoded_key(key), value: stored },
        )]
        showing(limits, auths, listing).contains(
            StoredView { key: encoded_key(key), value: stored },
        ) <==> {
            &&& looked_up(contents, encoded_key(key)) == Some(stored)
            &&& selected_by(fields, key)
            &&& limits.selects(key.timestamp)
            &&& visible(key.visibility, auths) == Ok::<bool, Error>(true)
        } by {
        let entry = StoredView { key: encoded_key(key), value: stored };
        lemma_showing_contains(limits, auths, listing, entry);
        lemma_decode_inverts_encode(key);
        assert(range.contains(encoded_key(key)) == selected_by(fields, key));
        if listing.contains(entry) {
            let i = choose|i: int| 0 <= i < listing.len() && listing[i] == entry;
            assert(range.contains(listing[i].key));
        }
        if looked_up(contents, entry.key) == Some(stored) && range.contains(entry.key) {
            assert(contents.contains_key(entry.key) && range.contains(entry.key));
            let i = choose|i: int| 0 <= i < listing.len() && (#[trigger] listing[i]).key
                == entry.key;
            assert(listing[i] == entry);
        }
        if shown(limits, auths, entry, key) {
            assert(exists|other: KeyView| shown(limits, auths, entry, other));
        }
    }
}

proof fn lemma_secure_scan_order<C: CryptoProvider>(
    limits: VersionScan,
    auths: Set<Seq<char>>,
    encryption: Option<ValueEncryption<C>>,
    found: Seq<EntryView>,
    listing: Seq<StoredView>,
    entries: Seq<EntryView>,
)
    requires
        secure_scanned(limits, auths, encryption, found, listing, Ok(entries)),
        ascending_keys(listing),
        forall|i: int, j: int|
            0 <= i < j < found.len() ==> key_less(
                (#[trigger] found[i]).key,
                (#[trigger] found[j]).key,
            ),
        forall|i: int, j: int|
            0 <= i < found.len() && 0 <= j < listing.len() ==> lex_less(
                encoded_key((#[trigger] found[i]).key),
                (#[trigger] listing[j]).key,
            ),
    ensures
        forall|i: int, j: int|
            0 <= i < j < entries.len() ==> key_less(
                (#[trigger] entries[i]).key,
                (#[trigger] entries[j]).key,
            ),
    decreases listing.len(),
{
    if listing.len() > 0 {
        let rest = listing.drop_first();
        let step = lemma_first_step(limits, auths, encryption, found, listing, Ok(entries));
        let more = step->Ok_0;
        lemma_secure_step(limits, auths, encryption, found, listing[0], more);
        assert forall|i: int, j: int| 0 <= i < j < rest.len() implies lex_less(
            (#[trigger] rest[i]).key,
            (#[trigger] rest[j]).key,
        ) by {
            assert(rest[i] == listing[i + 1]);
            assert(rest[j] == listing[j + 1]);
        }
        if more != found {
            lemma_encode_inverts_decode(listing[0].key);
        }
        assert forall|i: int, j: int| 0 <= i < more.len() && 0 <= j < rest.len() implies lex_less(
            encoded_key((#[trigger] more[i]).key),
            (#[trigger] rest[j]).key,
        ) by {
            assert(rest[j] == listing[j + 1]);
            if i < found.len() {
                assert(more == found || more.drop_last()[i] == found[i]);
                assert(more[i] == found[i]);
            } else {
                assert(more[i] == more.last());
                assert(lex_less(listing[0].key, listing[j + 1].key));
            }
        }
        assert forall|i: int, j: int| 0 <= i < j < more.len() implies key_less(
            (#[trigger] more[i]).key,
            (#[trigger] more[j]).key,
        ) by {
            assert(more == found || more.drop_last()[i] == found[i]);
            assert(more[i] == found[i]);
            if j < found.len() {
                assert(more == found || more.drop_last()[j] == found[j]);
                assert(more[j] == found[j]);
            } else {
                assert(lex_less(encoded_key(found[i].key), listing[0].key));
                lemma_encoding_keeps_order(more[i].key, more[j].key);
            }
        }
        lemma_secure_scan_order(limits, auths, encryption, more, rest, entries);
    }
}

/// A secure scan returns versions in logical key order, newest first within a
/// cell.
pub proof fn lemma_secure_scan_is_ordered<C: CryptoProvider>(
    limits: VersionScan,
    auths: Set<Seq<char>>,
    encryption: Option<ValueEncryption<C>>,
    listing: Seq<StoredView>,
    entries: Seq<EntryView>,
)
    requires
        secure_scanned(limits, auths, encryption, Seq::empty(), listing, Ok(entries)),
        ascending_keys(listing),
    ensures
        forall|i: int, j: int|
            0 <= i < j < entries.len() ==> key_less(
                (#[trigger] entries[i]).key,
                (#[trigger] entries[j]).key,
            ),
{
    lemma_secure_scan_order(limits, auths, encryption, Seq::empty(), listing, entries);
}

/// A version that was inserted is returned, with its value, by every scan that
/// selects it and whose session may see it, as long as the scan may return
/// more, if the encryption provider decrypts what it encrypted.
pub proof fn lemma_inserted_version_is_scanned<C: CryptoProvider>(
    contents: Map<Seq<u8>, Seq<u8>>,
    keyspace: Keyspace,
    encryption: Option<ValueEncryption<C>>,
    key: KeyView,
    value: Seq<u8>,
    mutation: Mutation,
    range: KeyRange,
    listing: Seq<StoredView>,
    limits: VersionScan,
    auths: Set<Seq<char>>,
    entries: Seq<EntryView>,
)
    requires
        encryption matches Some(encryption) ==> provider_inverts(encryption.config().provider()),
        inserts(Ok(()), keyspace, encryption, key, value, Ok(mutation)),
        lists(changed(contents, mutation.change@), range, listing),
        range.contains(encoded_key(key)),
        limits.selects(key.timestamp),
        visible(key.visibility, auths) == Ok::<bool, Error>(true),
        secure_scanned(limits, auths, encryption, Seq::empty(), listing, Ok(entries)),
        !limits.exhausted(entries.len()),
    ensures
        entries.contains(EntryView { key, value }),
{
    let encoded = encoded_key(key);
    let after = changed(contents, mutation.change@);
    let bytes = lemma_insert_stores(keyspace, encryption, key, value, mutation);
    lemma_secure_scan_is_exact(limits, auths, encryption, listing, entries);
    lemma_decode_inverts_encode(key);
    assert(after.contains_key(encoded) && range.contains(encoded));
    let j = choose|j: int| 0 <= j < listing.len() && (#[trigger] listing[j]).key == encoded;
    assert(shown(limits, auths, listing[j], key));
    let i = choose|i: int| 0 <= i < entries.len() && (#[trigger] entries[i]).key == key;
    let k = lemma_listed_origin(limits, auths, encryption, listing, entries, i);
    assert(listing[k].value == bytes);
    lemma_read_inverts_write(encryption, encoded, value, bytes, Ok(entries[i].value));
    assert(entries[i] == EntryView { key, value });
}

// ---------------------------------------------------------------------------
// Scans and reads of one version
// ---------------------------------------------------------------------------
/// Whether what is listed under a key has one decryption.
pub open spec fn decrypts_once<C: CryptoProvider>(
    encryption: Option<ValueEncryption<C>>,
    listing: Seq<StoredView>,
    key: Seq<u8>,
) -> bool {
    forall|i: int, value: Result<Seq<u8>, Error>, other: Result<Seq<u8>, Error>|
        0 <= i < listing.len() && listing[i].key == key && #[trigger] maybe_decrypts(
            encryption,
            listing[i].key,
            listing[i].value,
            value,
        ) && #[trigger] maybe_decrypts(encryption, listing[i].key, listing[i].value, other)
            ==> value == other
}

/// Whether carrying out a read inside a transaction can come out as `outcome`.
pub open spec fn reads_in_tx<C: CryptoProvider>(
    contents: Map<Seq<u8>, Seq<u8>>,
    fetched: Result<SecureFetch<C>, Error>,
    outcome: Result<Option<Seq<u8>>, Error>,
) -> bool {
    match fetched {
        Err(error) => outcome == Err::<Option<Seq<u8>>, Error>(error),
        Ok(fetch) => fetches(
            fetch.visibility(),
            fetch.encryption(),
            fetch.wanted().key@,
            looked_up(contents, fetch.wanted().key@),
            outcome,
        ),
    }
}

/// Whether carrying out a read outside a transaction can come out as `outcome`.
pub open spec fn reads<C: CryptoProvider>(
    contents: Map<Seq<u8>, Seq<u8>>,
    fetched: Result<Option<SecureFetch<C>>, Error>,
    outcome: Result<Option<Seq<u8>>, Error>,
) -> bool {
    match fetched {
        Err(error) => outcome == Err::<Option<Seq<u8>>, Error>(error),
        Ok(None) => outcome == Ok::<Option<Seq<u8>>, Error>(None),
        Ok(Some(fetch)) => reads_in_tx(contents, Ok(fetch), outcome),
    }
}

/// A scan without a limit and a read of one version agree: where the version, if
/// it is listed, has one decryption, the scan returns it with a value exactly if
/// the prefix and the timestamp bounds select it and reading it gives that
/// value.
pub proof fn lemma_scan_agrees_with_fetch<C: CryptoProvider>(
    contents: Map<Seq<u8>, Seq<u8>>,
    keyspace: Keyspace,
    encryption: Option<ValueEncryption<C>>,
    auths: Set<Seq<char>>,
    fields: Seq<Seq<u8>>,
    range: KeyRange,
    listing: Seq<StoredView>,
    limits: VersionScan,
    entries: Seq<EntryView>,
    key: KeyView,
    value: Seq<u8>,
    fetch: SecureFetch<C>,
    outcome: Result<Option<Seq<u8>>, Error>,
)
    requires
        fields.len() <= 4,
        prefix_range_outcome(Some(fields), Ok(range)),
        lists(contents, range, listing),
        limits.max_versions is None,
        decrypts_once(encryption, listing, encoded_key(key)),
        secure_scanned(limits, auths, encryption, Seq::empty(), listing, Ok(entries)),
        fetch_of(keyspace, encryption, auths, key, fetch),
        reads_in_tx(contents, Ok(fetch), outcome),
    ensures
        entries.contains(EntryView { key, value }) <==> {
            &&& selected_by(fields, key)
            &&& limits.selects(key.timestamp)
            &&& outcome == Ok::<Option<Seq<u8>>, Error>(Some(value))
        },
{
    let encoded = encoded_key(key);
    let entry = EntryView { key, value };
    lemma_secure_scan_is_exact(limits, auths, encryption, listing, entries);
    lemma_prefix_range_selects(fields, range);
    lemma_decode_inverts_encode(key);
    assert(range.contains(encoded) == selected_by(fields, key));
    if entries.contains(entry) {
        let i = choose|i: int| 0 <= i < entries.len() && entries[i] == entry;
        let j = lemma_listed_origin(limits, auths, encryption, listing, entries, i);
        assert(contents.contains_key(encoded) && contents[encoded] == listing[j].value);
        assert(maybe_decrypts(encryption, listing[j].key, listing[j].value, Ok(value)));
    }
    if selected_by(fields, key) && limits.selects(key.timestamp) && outcome == Ok::<
        Option<Seq<u8>>,
        Error,
    >(Some(value)) {
        assert(contents.contains_key(encoded) && range.contains(encoded));
        let j = choose|j: int| 0 <= j < listing.len() && (#[trigger] listing[j]).key == encoded;
        assert(shown(limits, auths, listing[j], key));
        let i = choose|i: int| 0 <= i < entries.len() && (#[trigger] entries[i]).key == key;
        let k = lemma_listed_origin(limits, auths, encryption, listing, entries, i);
        assert(contents[encoded] == listing[k].value);
        assert(maybe_decrypts(encryption, listing[k].key, listing[k].value, Ok(value)));
        assert(entries[i] == entry);
    }
}

/// Where in the listing an entry that a scan found comes from.
proof fn lemma_listed_origin<C: CryptoProvider>(
    limits: VersionScan,
    auths: Set<Seq<char>>,
    encryption: Option<ValueEncryption<C>>,
    listing: Seq<StoredView>,
    entries: Seq<EntryView>,
    at: int,
) -> (origin: int)
    requires
        secure_scanned(limits, auths, encryption, Seq::empty(), listing, Ok(entries)),
        0 <= at < entries.len(),
    ensures
        0 <= origin < listing.len(),
        comes_from(limits, auths, encryption, entries[at], listing[origin]),
        listing[origin].key == encoded_key(entries[at].key),
{
    lemma_secure_scan_is_exact(limits, auths, encryption, listing, entries);
    let origin = choose|j: int|
        0 <= j < listing.len() && comes_from(
            limits,
            auths,
            encryption,
            entries[at],
            #[trigger] listing[j],
        );
    lemma_encode_inverts_decode(listing[origin].key);
    origin
}

/// What the session may not see is not among what a scan returns.
pub proof fn lemma_hidden_version_is_not_scanned<C: CryptoProvider>(
    limits: VersionScan,
    auths: Set<Seq<char>>,
    encryption: Option<ValueEncryption<C>>,
    listing: Seq<StoredView>,
    entries: Seq<EntryView>,
    entry: EntryView,
)
    requires
        secure_scanned(limits, auths, encryption, Seq::empty(), listing, Ok(entries)),
        visible(entry.key.visibility, auths) != Ok::<bool, Error>(true),
    ensures
        !entries.contains(entry),
{
    if entries.contains(entry) {
        let i = choose|i: int| 0 <= i < entries.len() && entries[i] == entry;
        let j = lemma_listed_origin(limits, auths, encryption, listing, entries, i);
        assert(comes_from(limits, auths, encryption, entry, listing[j]));
    }
}

/// Outside a transaction too, a scan without a limit and a read of one version
/// agree, where the version, if it is listed, has one decryption and a key that
/// is no longer than the storage engine accepts.
pub proof fn lemma_scan_agrees_with_read<C: CryptoProvider>(
    contents: Map<Seq<u8>, Seq<u8>>,
    keyspace: Keyspace,
    encryption: Option<ValueEncryption<C>>,
    auths: Set<Seq<char>>,
    fields: Seq<Seq<u8>>,
    range: KeyRange,
    listing: Seq<StoredView>,
    limits: VersionScan,
    entries: Seq<EntryView>,
    key: KeyView,
    value: Seq<u8>,
    fetched: Result<Option<SecureFetch<C>>, Error>,
    outcome: Result<Option<Seq<u8>>, Error>,
)
    requires
        fields.len() <= 4,
        prefix_range_outcome(Some(fields), Ok(range)),
        lists(contents, range, listing),
        forall|i: int|
            0 <= i < listing.len() && (#[trigger] listing[i]).key == encoded_key(key)
                ==> encoded_key(key).len() <= MAX_USER_KEY_LEN,
        limits.max_versions is None,
        decrypts_once(encryption, listing, encoded_key(key)),
        secure_scanned(limits, auths, encryption, Seq::empty(), listing, Ok(entries)),
        gets(Ok(()), keyspace, encryption, auths, key, fetched),
        reads(contents, fetched, outcome),
    ensures
        entries.contains(EntryView { key, value }) <==> {
            &&& selected_by(fields, key)
            &&& limits.selects(key.timestamp)
            &&& outcome == Ok::<Option<Seq<u8>>, Error>(Some(value))
        },
{
    if let Ok(Some(fetch)) = fetched {
        lemma_scan_agrees_with_fetch(
            contents,
            keyspace,
            encryption,
            auths,
            fields,
            range,
            listing,
            limits,
            entries,
            key,
            value,
            fetch,
            outcome,
        );
    } else if entries.contains(EntryView { key, value }) {
        let i = choose|i: int|
            0 <= i < entries.len() && entries[i] == (EntryView { key, value });
        let j = lemma_listed_origin(limits, auths, encryption, listing, entries, i);
        assert(listing[j].key == encoded_key(key));
    }
}

// ---------------------------------------------------------------------------
// Visibility of stored cells, read off their bytes
// ---------------------------------------------------------------------------
/// Visibility bytes mean what the text that they encode means; bytes that encode
/// no text are refused.
pub proof fn lemma_visibility_bytes_mean_their_text(bytes: Seq<u8>, auths: Set<Seq<char>>)
    ensures
        forall|text: Seq<char>|
            bytes == #[trigger] encode_utf8(text) ==> visible(bytes, auths) == sees(text, auths),
        !valid_utf8(bytes) ==> visible(bytes, auths) == Err::<bool, Error>(
            Error::InvalidVisibilityExpression("visibility expression must be valid UTF-8"),
        ),
{
    assert forall|text: Seq<char>| bytes == #[trigger] encode_utf8(text) implies visible(
        bytes,
        auths,
    ) == sees(text, auths) by {
        encode_utf8_decode_utf8(text);
        encode_utf8_valid_utf8(text);
    }
}

/// A cell guarded by a single label is visible exactly to those who hold it.
pub proof fn lemma_label_guards_its_cell(label: Seq<char>, auths: Set<Seq<char>>)
    requires
        label.len() > 0,
        forall|i: int|
            0 <= i < label.len() ==> ({
                let c = #[trigger] label[i];
                ||| 'a' <= c <= 'z'
                ||| 'A' <= c <= 'Z'
                ||| '0' <= c <= '9'
                ||| c == '_' || c == '-' || c == '.' || c == ':'
            }),
    ensures
        visible(encode_utf8(label), auths) == Ok::<bool, Error>(auths.contains(label)),
{
    lemma_label_characters(label);
    lemma_label_is_membership(label, auths);
    lemma_visibility_bytes_mean_their_text(encode_utf8(label), auths);
}

/// A version guarded by a label that the session does not hold is not shown: a
/// read outside a transaction looks nothing up, a read inside one shows nothing
/// of what it looked up, and no scan returns it.
pub proof fn lemma_unheld_label_hides<C: CryptoProvider>(
    label: Seq<char>,
    keyspace: Keyspace,
    encryption: Option<ValueEncryption<C>>,
    auths: Set<Seq<char>>,
    key: KeyView,
    fetched: Result<Option<SecureFetch<C>>, Error>,
    fetch: SecureFetch<C>,
    stored: Option<Seq<u8>>,
    outcome: Result<Option<Seq<u8>>, Error>,
    limits: VersionScan,
    listing: Seq<StoredView>,
    entries: Seq<EntryView>,
    value: Seq<u8>,
)
    requires
        valid_label(label),
        key.visibility == encode_utf8(label),
        !auths.contains(label),
        gets(Ok(()), keyspace, encryption, auths, key, fetched),
        fetch_of(keyspace, encryption, auths, key, fetch),
        fetches(fetch.visibility(), fetch.encryption(), fetch.wanted().key@, stored, outcome),
        secure_scanned(limits, auths, encryption, Seq::empty(), listing, Ok(entries)),
    ensures
        fetched == Ok::<Option<SecureFetch<C>>, Error>(None),
        outcome == Ok::<Option<Seq<u8>>, Error>(None),
        !entries.contains(EntryView { key, value }),
{
    lemma_label_characters(label);
    lemma_label_guards_its_cell(label, auths);
    lemma_hidden_version_is_not_scanned(
        limits,
        auths,
        encryption,
        listing,
        entries,
        EntryView { key, value },
    );
}

/// Every version that a secure scan returns is guarded by bytes that encode a
/// text which, read as a boolean formula over the session's labels, is true, or
/// by none; it is at least as new as the lower bound, if there is one, and at
/// most as new as the upper bound, if there is one; and there are no more of
/// them than the limit. Where the limit leaves room, a listed version that meets
/// the bounds and that the session may see is among them.
pub proof fn lemma_secure_scans_keep_bounds<C: CryptoProvider>(
    limits: VersionScan,
    auths: Set<Seq<char>>,
    encryption: Option<ValueEncryption<C>>,
    listing: Seq<StoredView>,
    entries: Seq<EntryView>,
)
    requires
        secure_scanned(limits, auths, encryption, Seq::empty(), listing, Ok(entries)),
    ensures
        forall|i: int|
            0 <= i < entries.len() ==> {
                let key = (#[trigger] entries[i]).key;
                &&& limits.min_timestamp matches Some(min) ==> min <= key.timestamp
                &&& limits.max_timestamp matches Some(max) ==> key.timestamp <= max
                &&& key.visibility.len() == 0 || true_or(decode_utf8(key.visibility), auths)
            },
        limits.max_versions matches Some(most) ==> entries.len() <= most,
        forall|key: KeyView, stored: Seq<u8>|
            {
                &&& #[trigger] listing.contains(
                    StoredView { key: encoded_key(key), value: stored },
                )
                &&& limits.min_timestamp matches Some(min) ==> min <= key.timestamp
                &&& limits.max_timestamp matches Some(max) ==> key.timestamp <= max
                &&& limits.max_versions matches Some(most) ==> entries.len() < most
                &&& sees(decode_utf8(key.visibility), auths) == Ok::<bool, Error>(true)
                &&& valid_utf8(key.visibility)
            } ==> exists|i: int| 0 <= i < entries.len() && (#[trigger] entries[i]).key == key,
{
    lemma_secure_scan_is_exact(limits, auths, encryption, listing, entries);
    assert forall|i: int| 0 <= i < entries.len() implies {
        let key = (#[trigger] entries[i]).key;
        &&& limits.min_timestamp matches Some(min) ==> min <= key.timestamp
        &&& limits.max_timestamp matches Some(max) ==> key.timestamp <= max
        &&& key.visibility.len() == 0 || true_or(decode_utf8(key.visibility), auths)
    } by {
        let key = entries[i].key;
        let j = lemma_listed_origin(limits, auths, encryption, listing, entries, i);
        assert(shown(limits, auths, listing[j], key));
        let text = decode_utf8(key.visibility);
        decode_utf8_encode_utf8(key.visibility);
        lemma_expression_means_its_text(text, auths);
        if text.len() == 0 {
            assert(encode_utf8(text).len() == 0);
        }
    }
    assert forall|key: KeyView, stored: Seq<u8>|
        {
            &&& #[trigger] listing.contains(StoredView { key: encoded_key(key), value: stored })
            &&& limits.min_timestamp matches Some(min) ==> min <= key.timestamp
            &&& limits.max_timestamp matches Some(max) ==> key.timestamp <= max
            &&& limits.max_versions matches Some(most) ==> entries.len() < most
            &&& sees(decode_utf8(key.visibility), auths) == Ok::<bool, Error>(true)
            &&& valid_utf8(key.visibility)
        } implies exists|i: int| 0 <= i < entries.len() && (#[trigger] entries[i]).key == key by {
        let entry = StoredView { key: encoded_key(key), value: stored };
        let j = choose|j: int| 0 <= j < listing.len() && listing[j] == entry;
        lemma_decode_inverts_encode(key);
        assert(shown(limits, auths, listing[j], key));
    }
}

/// A version with an invalid visibility is never shown.
pub proof fn lemma_invalid_visibility_is_not_shown<C: CryptoProvider>(
    keyspace: Keyspace,
    encryption: Option<ValueEncryption<C>>,
    auths: Set<Seq<char>>,
    key: KeyView,
    error: Error,
    fetched: Result<Option<SecureFetch<C>>, Error>,
    fetch: SecureFetch<C>,
    stored: Option<Seq<u8>>,
    outcome: Result<Option<Seq<u8>>, Error>,
)
    requires
        visible(key.visibility, auths) == Err::<bool, Error>(error),
        gets(Ok(()), keyspace, encryption, auths, key, fetched),
        fetch_of(keyspace, encryption, auths, key, fetch),
        fetches(fetch.visibility(), fetch.encryption(), fetch.wanted().key@, stored, outcome),
    ensures
        fetched == Err::<Option<SecureFetch<C>>, Error>(error),
        outcome == Err::<Option<Seq<u8>>, Error>(error),
{
}

// ---------------------------------------------------------------------------
// What is asked of the storage engine
// ---------------------------------------------------------------------------
/// An insert writes to its own keyspace, under a key that decodes to the
/// version, and without encryption the value as it is. It is refused exactly
/// without clearance, for a visibility that is not canonical, for a key that is
/// too long, or where encryption fails.
pub proof fn lemma_inserts_write_the_version<C: CryptoProvider>(
    cleared: Result<(), Error>,
    keyspace: Keyspace,
    encryption: Option<ValueEncryption<C>>,
    cell: VersionedCell,
    value: Seq<u8>,
    outcome: Result<Mutation, Error>,
)
    requires
        inserts(cleared, keyspace, encryption, cell@, value, outcome),
    ensures
        outcome matches Ok(mutation) ==> {
            &&& cleared is Ok
            &&& mutation.keyspace == keyspace
            &&& mutation.change matches Change::Insert { key, value: stored } && decoded_key(key@)
                == Ok::<KeyView, Error>(cell@) && (encryption is None ==> stored@ == value)
            &&& key_room(cell@) <= 65535
            &&& canonical_visibility(cell@.visibility) is Ok
        },
        cleared matches Err(error) ==> outcome == Err::<Mutation, Error>(error),
        cleared is Ok && canonical_visibility(cell@.visibility) is Ok && key_room(cell@) <= 65535
            && encryption is None ==> outcome is Ok,
{
    lemma_decode_inverts_encode(cell@);
    lemma_version_room(cell);
    if let Ok(mutation) = outcome {
        let stored = lemma_insert_stores(keyspace, encryption, cell@, value, mutation);
        assert(maybe_encrypts(encryption, encoded_key(cell@), value, Ok(stored)));
    }
}

proof fn lemma_version_room(cell: VersionedCell)
    ensures
        encoded_key(cell@).len() == key_room(cell@),
{
    let whole = CompositeKey {
        row: cell.cell.row,
        family: cell.cell.family,
        qualifier: cell.cell.qualifier,
        visibility: cell.cell.visibility,
        timestamp: cell.timestamp,
    };
    assert(whole@ == cell@);
    lemma_key_layout(whole);
}

/// A delete removes from its own keyspace a key that decodes to the version. It
/// is refused exactly without clearance, for a visibility that is not canonical,
/// or for a key that is too long.
pub proof fn lemma_deletes_remove_the_version(
    cleared: Result<(), Error>,
    keyspace: Keyspace,
    cell: VersionedCell,
    outcome: Result<Mutation, Error>,
)
    requires
        deletes(cleared, keyspace, cell@, outcome),
    ensures
        outcome matches Ok(mutation) ==> {
            &&& mutation.keyspace == keyspace
            &&& mutation.change matches Change::Remove { key } && decoded_key(key@) == Ok::<
                KeyView,
                Error,
            >(cell@)
        },
        outcome is Ok <==> cleared is Ok && canonical_visibility(cell@.visibility) is Ok
            && key_room(cell@) <= 65535,
        cleared matches Err(error) ==> outcome == Err::<Mutation, Error>(error),
{
    lemma_decode_inverts_encode(cell@);
    lemma_version_room(cell);
}

/// A read of a version that the session may see asks its own keyspace, in the
/// state that the reader sees, for a key that decodes to the version, and keeps
/// the keyspace's encryption; inside a transaction so does a read of any
/// version. Each is refused exactly for a key that is too long.
pub proof fn lemma_reads_look_up_the_version<C: CryptoProvider>(
    keyspace: Keyspace,
    encryption: Option<ValueEncryption<C>>,
    auths: Set<Seq<char>>,
    cell: VersionedCell,
    fetched: Result<Option<SecureFetch<C>>, Error>,
    fetched_in_tx: Result<SecureFetch<C>, Error>,
)
    requires
        visible(cell@.visibility, auths) == Ok::<bool, Error>(true),
        gets(Ok(()), keyspace, encryption, auths, cell@, fetched),
        gets_in_tx(Ok(()), keyspace, encryption, auths, cell@, fetched_in_tx),
    ensures
        key_room(cell@) <= 65535 ==> {
            &&& fetched matches Ok(Some(fetch)) && asks_for(fetch, keyspace, encryption, cell@)
            &&& fetched_in_tx matches Ok(fetch) && asks_for(fetch, keyspace, encryption, cell@)
        },
        key_room(cell@) > 65535 ==> {
            &&& fetched matches Err(error) && error is InvalidCompositeKey
            &&& fetched_in_tx matches Err(error) && error is InvalidCompositeKey
        },
{
    lemma_decode_inverts_encode(cell@);
    lemma_version_room(cell);
}

/// Whether a read asks a keyspace, in the state that the reader sees, for a key
/// that decodes to a version, and keeps the keyspace's encryption.
pub open spec fn asks_for<C>(
    fetch: SecureFetch<C>,
    keyspace: Keyspace,
    encryption: Option<ValueEncryption<C>>,
    key: KeyView,
) -> bool {
    &&& fetch.wanted().keyspace == keyspace
    &&& fetch.wanted().snapshot is None
    &&& decoded_key(fetch.wanted().key@) == Ok::<KeyView, Error>(key)
    &&& fetch.encryption() == encryption
}

/// A scan asks its own keyspace, in the state that the reader sees, for a range
/// that contains a version exactly if each component of the prefix that is given
/// equals that field of the version; it keeps the session's labels, the limits
/// and the keyspace's encryption, and starts with nothing found.
pub proof fn lemma_scans_ask_by_component<C: CryptoProvider>(
    keyspace: Keyspace,
    encryption: Option<ValueEncryption<C>>,
    auths: Set<Seq<char>>,
    prefix: CompositePrefix,
    limits: VersionScan,
    scan: SecureScan<C>,
    key: CompositeKey,
)
    requires
        scans(Ok(()), keyspace, encryption, auths, prefix.fields(), limits, Ok(scan)),
    ensures
        scan.wanted().keyspace == keyspace,
        scan.wanted().snapshot is None,
        scan.auths() == auths,
        scan.limits() == limits,
        scan.encryption() == encryption,
        scan.found().len() == 0,
        scan.wanted().range.contains(encoded_key(key@)) <==> {
            &&& prefix.row matches Some(row) ==> row@ == key.row@
            &&& prefix.family matches Some(family) ==> family@ == key.family@
            &&& prefix.qualifier matches Some(qualifier) ==> qualifier@ == key.qualifier@
            &&& prefix.visibility matches Some(visibility) ==> visibility@ == key.visibility@
        },
{
    lemma_range_selects_by_component(prefix, scan.wanted().range, key);
}

/// Outcomes are viewed as what they hold: values and entries whole, and errors
/// as they are.
pub proof fn lemma_outcomes_are_whole(
    bytes: Result<Vec<u8>, Error>,
    value: Option<Vec<u8>>,
    read: Result<Option<Vec<u8>>, Error>,
    scanned: Result<Vec<VersionedEntry>, Error>,
)
    ensures
        match bytes {
            Ok(whole) => bytes_outcome(bytes) == Ok::<Seq<u8>, Error>(whole@),
            Err(error) => bytes_outcome(bytes) == Err::<Seq<u8>, Error>(error),
        },
        match value {
            Some(whole) => optional_bytes(value) == Some(whole@),
            None => optional_bytes(value) is None,
        },
        match read {
            Ok(Some(whole)) => optional_outcome(read) == Ok::<Option<Seq<u8>>, Error>(
                Some(whole@),
            ),
            Ok(None) => optional_outcome(read) == Ok::<Option<Seq<u8>>, Error>(None),
            Err(error) => optional_outcome(read) == Err::<Option<Seq<u8>>, Error>(error),
        },
        match scanned {
            Ok(entries) => entries_outcome(scanned) matches Ok(views) && views.len()
                == entries@.len() && forall|i: int|
                0 <= i < views.len() ==> (#[trigger] views[i]).key == entries@[i].cell@
                    && views[i].value == entries@[i].value@,
            Err(error) => entries_outcome(scanned) == Err::<Seq<EntryView>, Error>(error),
        },
{
}

/// A secure scan that may still return more passes over no key that is no
/// version and no selected version with an invalid visibility.
pub proof fn lemma_secure_scans_skip_no_invalid_entry<C: CryptoProvider>(
    limits: VersionScan,
    auths: Set<Seq<char>>,
    encryption: Option<ValueEncryption<C>>,
    found: Seq<EntryView>,
    listing: Seq<StoredView>,
    entries: Seq<EntryView>,
)
    requires
        secure_scanned(limits, auths, encryption, found, listing, Ok(entries)),
        limits.max_versions matches Some(most) ==> entries.len() < most,
    ensures
        forall|i: int|
            0 <= i < listing.len() ==> {
                &&& decoded_key((#[trigger] listing[i]).key) matches Ok(key)
                &&& {
                    &&& limits.min_timestamp matches Some(min) ==> min <= key.timestamp
                    &&& limits.max_timestamp matches Some(max) ==> key.timestamp <= max
                } ==> visible(key.visibility, auths) is Ok
            },
    decreases listing.len(),
{
    if listing.len() > 0 {
        let rest = listing.drop_first();
        let step = lemma_first_step(limits, auths, encryption, found, listing, Ok(entries));
        let more = step->Ok_0;
        lemma_secure_scan(limits, auths, encryption, more, rest, entries);
        lemma_secure_step(limits, auths, encryption, found, listing[0], more);
        lemma_secure_scans_skip_no_invalid_entry(limits, auths, encryption, more, rest, entries);
        assert forall|i: int| 0 <= i < listing.len() implies {
            &&& decoded_key((#[trigger] listing[i]).key) matches Ok(key)
            &&& {
                &&& limits.min_timestamp matches Some(min) ==> min <= key.timestamp
                &&& limits.max_timestamp matches Some(max) ==> key.timestamp <= max
            } ==> visible(key.visibility, auths) is Ok
        } by {
            if i > 0 {
                assert(rest[i - 1] == listing[i]);
            }
        }
    }
}

/// A version whose visibility is no expression is refused with the error of that,
/// one whose visibility is an expression but not canonical with an error that
/// says so, and one with too long a key with an error that says so.
pub proof fn lemma_write_refusals<C: CryptoProvider>(
    keyspace: Keyspace,
    encryption: Option<ValueEncryption<C>>,
    auths: Set<Seq<char>>,
    cell: VersionedCell,
    value: Seq<u8>,
    written: Result<Mutation, Error>,
    removed: Result<Mutation, Error>,
)
    requires
        inserts(Ok(()), keyspace, encryption, cell@, value, written),
        deletes(Ok(()), keyspace, cell@, removed),
    ensures
        visible(cell@.visibility, auths) matches Err(error) ==> written == Err::<Mutation, Error>(
            error,
        ) && removed == Err::<Mutation, Error>(error),
        visible(cell@.visibility, auths) is Ok && (forall|formula: Formula|
            #[trigger] normal(formula) ==> cell@.visibility != encode_utf8(text_of(formula)))
            ==> written == Err::<Mutation, Error>(
            Error::InvalidVisibilityExpression(
                "secure writes require canonical visibility expressions",
            ),
        ) && removed == written,
        canonical_visibility(cell@.visibility) is Ok && key_room(cell@) > 65535 ==> written == Err::<
            Mutation,
            Error,
        >(
            Error::InvalidCompositeKey(
                "encoded composite key exceeds Fjall's user-key length limit",
            ),
        ) && removed == written,
{
    lemma_version_room(cell);
    lemma_writes_accept_canonical_visibility(cell@.visibility);
}

} // verus!
