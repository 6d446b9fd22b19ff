//! Secure reads and writes of versioned cells, once the permission check has
//! been answered.

use vstd::prelude::*;
use vstd::utf8::{decode_utf8, encode_utf8, valid_utf8};

use crate::cell::{entry_views, EntryView, VersionScan, VersionedCell, VersionedEntry};
use crate::composite::{
    decoded_key, encoded_key, key_too_long, prefix_range_outcome, CompositeKey, CompositePrefix,
    KeyView, MAX_USER_KEY_LEN,
};
use crate::crypto::{
    bytes_outcome, maybe_decrypt_entry, maybe_decrypts, maybe_encrypt_value, maybe_encrypts,
    CryptoProvider, ValueEncryption,
};
use crate::error::Error;
use crate::order::bytes_equal;
use crate::storage::{
    stored_views, Change, ChangeView, Keyspace, Mutation, PointRead, RangeRead, Snapshot,
    StoredEntry, StoredView, UserKey, UserValue,
};
use crate::visibility::formula::{canonical, holds, text_of, Formula};
use crate::visibility::{Authorizations, VisibilityExpr};

pub mod laws;

verus! {

// ---------------------------------------------------------------------------
// Visibility of stored cells
// ---------------------------------------------------------------------------
/// `core::str::from_utf8` gives the text that bytes encode if they are valid
/// UTF-8, and an error otherwise.
#[verifier::external_body]
fn utf8_text(bytes: &[u8]) -> (text: Option<&str>)
    ensures
        match text {
            Some(text) => valid_utf8(bytes@) && encode_utf8(text@) == bytes@,
            None => !valid_utf8(bytes@),
        },
{
    match core::str::from_utf8(bytes) {
        Ok(text) => Some(text),
        Err(_) => None,
    }
}

/// The visibility expression that bytes stand for, or why they stand for none.
pub open spec fn visibility_of(bytes: Seq<u8>) -> Result<Formula, Error> {
    if valid_utf8(bytes) {
        canonical(decode_utf8(bytes))
    } else {
        Err(Error::InvalidVisibilityExpression("visibility expression must be valid UTF-8"))
    }
}

/// Whether a cell with these visibility bytes is visible to a holder of the
/// labels `auths`.
pub open spec fn visible(bytes: Seq<u8>, auths: Set<Seq<char>>) -> Result<bool, Error> {
    match visibility_of(bytes) {
        Ok(formula) => Ok(holds(formula, auths)),
        Err(error) => Err(error),
    }
}

/// Whether visibility bytes are a canonical visibility expression.
pub open spec fn canonical_visibility(bytes: Seq<u8>) -> Result<(), Error> {
    match visibility_of(bytes) {
        Err(error) => Err(error),
        Ok(formula) => if encode_utf8(text_of(formula)) != bytes {
            Err(
                Error::InvalidVisibilityExpression(
                    "secure writes require canonical visibility expressions",
                ),
            )
        } else {
            Ok(())
        },
    }
}

/// Whether a version may be written or deleted: its visibility must be a
/// canonical expression, and its encoded key must not be too long.
pub open spec fn writable(key: KeyView) -> Result<(), Error> {
    match canonical_visibility(key.visibility) {
        Err(error) => Err(error),
        Ok(()) => if encoded_key(key).len() > MAX_USER_KEY_LEN {
            Err(key_too_long())
        } else {
            Ok(())
        },
    }
}

/// Parses the visibility bytes of a cell.
///
/// # Errors
///
/// Returns an error if the bytes are not UTF-8 or not a visibility expression.
pub fn parse_visibility(bytes: &[u8]) -> (visibility: Result<VisibilityExpr, Error>)
    ensures
        match visibility {
            Ok(expr) => visibility_of(bytes@) == Ok::<Formula, Error>(expr@),
            Err(error) => visibility_of(bytes@) == Err::<Formula, Error>(error),
        },
{
    match utf8_text(bytes) {
        Some(text) => {
            proof {
                vstd::utf8::encode_utf8_decode_utf8(text@);
            }
            VisibilityExpr::parse(text)
        },
        None => Err(
            Error::InvalidVisibilityExpression("visibility expression must be valid UTF-8"),
        ),
    }
}

/// Returns whether a cell with these visibility bytes is visible to a holder
/// of the labels `auths`.
///
/// # Errors
///
/// Returns an error if the bytes are not a visibility expression.
pub fn is_visible(bytes: &[u8], auths: &Authorizations) -> (outcome: Result<bool, Error>)
    ensures
        outcome == visible(bytes@, auths@),
{
    match parse_visibility(bytes) {
        Ok(expr) => Ok(expr.evaluate(auths)),
        Err(error) => Err(error),
    }
}

/// Returns a cell to write or delete, if its visibility is canonical.
///
/// # Errors
///
/// Returns an error if the visibility bytes are not a canonical visibility
/// expression.
pub fn canonicalize_cell(cell: &VersionedCell) -> (canonical_cell: Result<VersionedCell, Error>)
    ensures
        match canonical_cell {
            Ok(same) => canonical_visibility(cell@.visibility) is Ok && same@ == cell@,
            Err(error) => canonical_visibility(cell@.visibility) == Err::<(), Error>(error),
        },
{
    let visibility = match parse_visibility(cell.cell.visibility.as_slice()) {
        Ok(visibility) => visibility,
        Err(error) => return Err(error),
    };
    if !bytes_equal(visibility.as_bytes(), cell.cell.visibility.as_slice()) {
        return Err(
            Error::InvalidVisibilityExpression(
                "secure writes require canonical visibility expressions",
            ),
        );
    }
    Ok(cell.clone())
}

/// Encodes the key of a cell to write or delete.
///
/// # Errors
///
/// Returns an error if the cell may not be written or deleted.
fn encode_writable(cell: &VersionedCell) -> (encoded: Result<UserKey, Error>)
    ensures
        match encoded {
            Ok(bytes) => writable(cell@) is Ok && bytes@ == encoded_key(cell@),
            Err(error) => writable(cell@) == Err::<(), Error>(error),
        },
{
    match canonicalize_cell(cell) {
        Ok(canonical_cell) => canonical_cell.encode(),
        Err(error) => Err(error),
    }
}

// ---------------------------------------------------------------------------
// Writes
// ---------------------------------------------------------------------------
/// Whether inserting a version can come out as `outcome`, given how the
/// permission check came out: nothing is written without clearance, nor with a
/// visibility that is not canonical, nor unencrypted in an encrypted keyspace.
pub open spec fn inserts<C: CryptoProvider>(
    cleared: Result<(), Error>,
    keyspace: Keyspace,
    encryption: Option<ValueEncryption<C>>,
    key: KeyView,
    value: Seq<u8>,
    outcome: Result<Mutation, Error>,
) -> bool {
    match (cleared, writable(key)) {
        (Err(error), _) => outcome == Err::<Mutation, Error>(error),
        (Ok(()), Err(error)) => outcome == Err::<Mutation, Error>(error),
        (Ok(()), Ok(())) => exists|stored: Result<Seq<u8>, Error>|
            {
                &&& #[trigger] maybe_encrypts(encryption, encoded_key(key), value, stored)
                &&& match stored {
                    Err(error) => outcome == Err::<Mutation, Error>(error),
                    Ok(bytes) => outcome matches Ok(mutation) && mutation.keyspace == keyspace
                        && mutation.change@ == (ChangeView::Insert {
                        key: encoded_key(key),
                        value: bytes,
                    }),
                }
            },
    }
}

/// Decides how a version is inserted, given how the permission check came out.
///
/// # Errors
///
/// Returns the error of the permission check, or an error if the version may
/// not be written or its value cannot be encrypted.
pub fn plan_insert<C: CryptoProvider>(
    cleared: Result<(), Error>,
    keyspace: &Keyspace,
    encryption: &Option<ValueEncryption<C>>,
    cell: &VersionedCell,
    value: UserValue,
) -> (outcome: Result<Mutation, Error>)
    ensures
        inserts(cleared, *keyspace, *encryption, cell@, value@, outcome),
{
    match cleared {
        Ok(()) => {},
        Err(error) => return Err(error),
    }
    let key = match encode_writable(cell) {
        Ok(key) => key,
        Err(error) => return Err(error),
    };
    let stored = maybe_encrypt_value(encryption, key.as_slice(), value);
    assert(maybe_encrypts(*encryption, encoded_key(cell@), value@, bytes_outcome(stored)));
    match stored {
        Ok(value) => Ok(
            Mutation { keyspace: keyspace.clone(), change: Change::Insert { key, value } },
        ),
        Err(error) => Err(error),
    }
}

/// What deleting a version comes out as, given how the permission check came
/// out.
pub open spec fn deletes(
    cleared: Result<(), Error>,
    keyspace: Keyspace,
    key: KeyView,
    outcome: Result<Mutation, Error>,
) -> bool {
    match (cleared, writable(key)) {
        (Err(error), _) => outcome == Err::<Mutation, Error>(error),
        (Ok(()), Err(error)) => outcome == Err::<Mutation, Error>(error),
        (Ok(()), Ok(())) => outcome matches Ok(mutation) && mutation.keyspace == keyspace
            && mutation.change@ == (ChangeView::Remove { key: encoded_key(key) }),
    }
}

/// Decides how a version is deleted, given how the permission check came out.
///
/// # Errors
///
/// Returns the error of the permission check, or an error if the version may
/// not be deleted.
pub fn plan_delete(cleared: Result<(), Error>, keyspace: &Keyspace, cell: &VersionedCell) -> (
outcome: Result<Mutation, Error>)
    ensures
        deletes(cleared, *keyspace, cell@, outcome),
{
    match cleared {
        Ok(()) => {},
        Err(error) => return Err(error),
    }
    match encode_writable(cell) {
        Ok(key) => Ok(Mutation { keyspace: keyspace.clone(), change: Change::Remove { key } }),
        Err(error) => Err(error),
    }
}

// ---------------------------------------------------------------------------
// Reads of one version
// ---------------------------------------------------------------------------
/// A read of one version that waits for what the storage engine holds.
pub struct SecureFetch<C> {
    read: PointRead,
    visibility: Result<bool, Error>,
    encryption: Option<ValueEncryption<C>>,
}

/// Whether reading a version can come out as `outcome`, given what the storage
/// engine held: what is not visible is not shown, and the rest is decrypted.
pub open spec fn fetches<C: CryptoProvider>(
    visibility: Result<bool, Error>,
    encryption: Option<ValueEncryption<C>>,
    key: Seq<u8>,
    stored: Option<Seq<u8>>,
    outcome: Result<Option<Seq<u8>>, Error>,
) -> bool {
    match (visibility, stored) {
        (Err(error), _) => outcome == Err::<Option<Seq<u8>>, Error>(error),
        (Ok(false), _) => outcome == Ok::<Option<Seq<u8>>, Error>(None),
        (Ok(true), None) => outcome == Ok::<Option<Seq<u8>>, Error>(None),
        (Ok(true), Some(bytes)) => exists|value: Result<Seq<u8>, Error>|
            {
                &&& #[trigger] maybe_decrypts(encryption, key, bytes, value)
                &&& outcome == match value {
                    Ok(plaintext) => Ok::<Option<Seq<u8>>, Error>(Some(plaintext)),
                    Err(error) => Err(error),
                }
            },
    }
}

/// An optional value as mathematical values.
pub open spec fn optional_bytes(value: Option<Vec<u8>>) -> Option<Seq<u8>> {
    match value {
        Some(bytes) => Some(bytes@),
        None => None,
    }
}

/// A result with an optional value as mathematical values.
pub open spec fn optional_outcome(outcome: Result<Option<Vec<u8>>, Error>) -> Result<
    Option<Seq<u8>>,
    Error,
> {
    match outcome {
        Ok(value) => Ok(optional_bytes(value)),
        Err(error) => Err(error),
    }
}

impl<C> SecureFetch<C> {
    /// The value that the read asks for.
    pub closed spec fn wanted(self) -> PointRead {
        self.read
    }

    /// Whether the version may be shown.
    pub closed spec fn visibility(self) -> Result<bool, Error> {
        self.visibility
    }

    /// How values of the keyspace are encrypted.
    pub closed spec fn encryption(self) -> Option<ValueEncryption<C>> {
        self.encryption
    }

    /// Returns the value that the read asks for.
    pub fn read(&self) -> (read: &PointRead)
        ensures
            *read == self.wanted(),
    {
        &self.read
    }
}

impl<C: CryptoProvider> SecureFetch<C> {
    /// Consumes the read and what the storage engine holds, and returns the
    /// value to show.
    ///
    /// # Errors
    ///
    /// Returns an error if the visibility bytes of the version are not a
    /// visibility expression, or the value cannot be decrypted.
    pub fn finish(self, stored: Option<UserValue>) -> (value: Result<Option<UserValue>, Error>)
        ensures
            fetches(
                self.visibility(),
                self.encryption(),
                self.wanted().key@,
                optional_bytes(stored),
                optional_outcome(value),
            ),
    {
        match self.visibility {
            Ok(true) => {},
            Ok(false) => return Ok(None),
            Err(error) => return Err(error),
        }
        match stored {
            Some(bytes) => {
                let value = maybe_decrypt_entry(&self.encryption, self.read.key.as_slice(), bytes);
                assert(maybe_decrypts(
                    self.encryption(),
                    self.wanted().key@,
                    optional_bytes(stored)->Some_0,
                    bytes_outcome(value),
                ));
                match value {
                    Ok(plaintext) => Ok(Some(plaintext)),
                    Err(error) => Err(error),
                }
            },
            None => Ok(None),
        }
    }
}

/// Whether `fetch` is a read of a version: it asks for the version's key and
/// will show the value as its visibility says.
pub open spec fn fetch_of<C>(
    keyspace: Keyspace,
    encryption: Option<ValueEncryption<C>>,
    auths: Set<Seq<char>>,
    key: KeyView,
    fetch: SecureFetch<C>,
) -> bool {
    &&& fetch.wanted().keyspace == keyspace
    &&& fetch.wanted().snapshot == None::<Snapshot>
    &&& fetch.wanted().key@ == encoded_key(key)
    &&& fetch.visibility() == visible(key.visibility, auths)
    &&& fetch.encryption() == encryption
}

/// What reading a version outside a transaction comes to, given how the
/// permission check came out: a hidden version is not even looked up.
pub open spec fn gets<C>(
    cleared: Result<(), Error>,
    keyspace: Keyspace,
    encryption: Option<ValueEncryption<C>>,
    auths: Set<Seq<char>>,
    key: KeyView,
    outcome: Result<Option<SecureFetch<C>>, Error>,
) -> bool {
    match (cleared, visible(key.visibility, auths)) {
        (Err(error), _) => outcome == Err::<Option<SecureFetch<C>>, Error>(error),
        (Ok(()), Err(error)) => outcome == Err::<Option<SecureFetch<C>>, Error>(error),
        (Ok(()), Ok(false)) => outcome == Ok::<Option<SecureFetch<C>>, Error>(None),
        (Ok(()), Ok(true)) => if encoded_key(key).len() > MAX_USER_KEY_LEN {
            outcome == Err::<Option<SecureFetch<C>>, Error>(key_too_long())
        } else {
            outcome matches Ok(Some(fetch)) && fetch_of(keyspace, encryption, auths, key, fetch)
        },
    }
}

/// Decides how a version is read outside a transaction, given how the
/// permission check came out. `None` means that there is nothing to show.
///
/// # Errors
///
/// Returns the error of the permission check, or an error if the visibility
/// bytes are not a visibility expression or the key is too long.
pub fn plan_get<C>(
    cleared: Result<(), Error>,
    keyspace: &Keyspace,
    encryption: &Option<ValueEncryption<C>>,
    auths: &Authorizations,
    cell: &VersionedCell,
) -> (outcome: Result<Option<SecureFetch<C>>, Error>)
    ensures
        gets(cleared, *keyspace, *encryption, auths@, cell@, outcome),
{
    match cleared {
        Ok(()) => {},
        Err(error) => return Err(error),
    }
    match is_visible(cell.cell.visibility.as_slice(), auths) {
        Ok(true) => {},
        Ok(false) => return Ok(None),
        Err(error) => return Err(error),
    }
    match cell.encode() {
        Ok(key) => Ok(
            Some(
                SecureFetch {
                    read: PointRead { keyspace: keyspace.clone(), snapshot: None, key },
                    visibility: Ok(true),
                    encryption: share_encryption(encryption),
                },
            ),
        ),
        Err(error) => Err(error),
    }
}

/// What reading a version inside a transaction comes to, given how the
/// permission check came out: the version is looked up whether it is visible
/// or not, so that the transaction has read it.
pub open spec fn gets_in_tx<C>(
    cleared: Result<(), Error>,
    keyspace: Keyspace,
    encryption: Option<ValueEncryption<C>>,
    auths: Set<Seq<char>>,
    key: KeyView,
    outcome: Result<SecureFetch<C>, Error>,
) -> bool {
    match cleared {
        Err(error) => outcome == Err::<SecureFetch<C>, Error>(error),
        Ok(()) => if encoded_key(key).len() > MAX_USER_KEY_LEN {
            outcome == Err::<SecureFetch<C>, Error>(key_too_long())
        } else {
            outcome matches Ok(fetch) && fetch_of(keyspace, encryption, auths, key, fetch)
        },
    }
}

/// Decides how a version is read inside a transaction, given how the
/// permission check came out.
///
/// # Errors
///
/// Returns the error of the permission check, or an error if the key is too
/// long.
pub fn plan_get_in_tx<C>(
    cleared: Result<(), Error>,
    keyspace: &Keyspace,
    encryption: &Option<ValueEncryption<C>>,
    auths: &Authorizations,
    cell: &VersionedCell,
) -> (outcome: Result<SecureFetch<C>, Error>)
    ensures
        gets_in_tx(cleared, *keyspace, *encryption, auths@, cell@, outcome),
{
    match cleared {
        Ok(()) => {},
        Err(error) => return Err(error),
    }
    match cell.encode() {
        Ok(key) => Ok(
            SecureFetch {
                read: PointRead { keyspace: keyspace.clone(), snapshot: None, key },
                visibility: is_visible(cell.cell.visibility.as_slice(), auths),
                encryption: share_encryption(encryption),
            },
        ),
        Err(error) => Err(error),
    }
}

fn share_encryption<C>(encryption: &Option<ValueEncryption<C>>) -> (shared: Option<
    ValueEncryption<C>,
>)
    ensures
        shared == *encryption,
{
    match encryption {
        Some(encryption) => Some(encryption.clone()),
        None => None,
    }
}

// ---------------------------------------------------------------------------
// Scans
// ---------------------------------------------------------------------------
/// Whether a secure scan can have found `outcome` after it was offered one
/// more entry: it takes a selected version only if the version is visible, and
/// decrypts its value.
pub open spec fn secure_step<C: CryptoProvider>(
    limits: VersionScan,
    auths: Set<Seq<char>>,
    encryption: Option<ValueEncryption<C>>,
    found: Seq<EntryView>,
    entry: StoredView,
    outcome: Result<Seq<EntryView>, Error>,
) -> bool {
    if limits.exhausted(found.len()) {
        outcome == Ok::<Seq<EntryView>, Error>(found)
    } else {
        match decoded_key(entry.key) {
            Err(error) => outcome == Err::<Seq<EntryView>, Error>(error),
            Ok(key) => if !limits.selects(key.timestamp) {
                outcome == Ok::<Seq<EntryView>, Error>(found)
            } else {
                match visible(key.visibility, auths) {
                    Err(error) => outcome == Err::<Seq<EntryView>, Error>(error),
                    Ok(false) => outcome == Ok::<Seq<EntryView>, Error>(found),
                    Ok(true) => exists|value: Result<Seq<u8>, Error>|
                        {
                            &&& #[trigger] maybe_decrypts(encryption, entry.key, entry.value, value)
                            &&& outcome == match value {
                                Ok(plaintext) => Ok::<Seq<EntryView>, Error>(
                                    found.push(EntryView { key, value: plaintext }),
                                ),
                                Err(error) => Err(error),
                            }
                        },
                }
            },
        }
    }
}

/// Whether a secure scan can have found `outcome` after it was offered a whole
/// listing.
pub open spec fn secure_scanned<C: CryptoProvider>(
    limits: VersionScan,
    auths: Set<Seq<char>>,
    encryption: Option<ValueEncryption<C>>,
    found: Seq<EntryView>,
    listing: Seq<StoredView>,
    outcome: Result<Seq<EntryView>, Error>,
) -> bool
    decreases listing.len(),
{
    if listing.len() == 0 {
        outcome == Ok::<Seq<EntryView>, Error>(found)
    } else {
        exists|step: Result<Seq<EntryView>, Error>|
            {
                &&& #[trigger] secure_step(limits, auths, encryption, found, listing[0], step)
                &&& match step {
                    Err(error) => outcome == Err::<Seq<EntryView>, Error>(error),
                    Ok(more) => secure_scanned(
                        limits,
                        auths,
                        encryption,
                        more,
                        listing.drop_first(),
                        outcome,
                    ),
                }
            }
    }
}

/// A scan for the versions that a session may see.
pub struct SecureScan<C> {
    read: RangeRead,
    limits: VersionScan,
    auths: Authorizations,
    encryption: Option<ValueEncryption<C>>,
    entries: Vec<VersionedEntry>,
}

impl<C> SecureScan<C> {
    /// The entries that the scan asks for.
    pub closed spec fn wanted(self) -> RangeRead {
        self.read
    }

    /// Which versions the scan is to return.
    pub closed spec fn limits(self) -> VersionScan {
        self.limits
    }

    /// The labels that decide what the scan may return.
    pub closed spec fn auths(self) -> Set<Seq<char>> {
        self.auths@
    }

    /// How values of the keyspace are encrypted.
    pub closed spec fn encryption(self) -> Option<ValueEncryption<C>> {
        self.encryption
    }

    /// What the scan has found so far.
    pub closed spec fn found(self) -> Seq<EntryView> {
        entry_views(self.entries@)
    }

    /// Returns the entries that the scan asks for.
    pub fn read(&self) -> (read: &RangeRead)
        ensures
            *read == self.wanted(),
    {
        &self.read
    }

    /// Returns whether the scan can still find something.
    pub fn wants_more(&self) -> (more: bool)
        ensures
            more == !self.limits().exhausted(self.found().len()),
    {
        !self.limits.is_satisfied_by(self.entries.len())
    }

    /// Consumes the scan and returns what it has found.
    pub fn into_entries(self) -> (entries: Vec<VersionedEntry>)
        ensures
            entry_views(entries@) == self.found(),
    {
        self.entries
    }
}

/// A result with its entries as mathematical values.
pub open spec fn entries_outcome(outcome: Result<Vec<VersionedEntry>, Error>) -> Result<
    Seq<EntryView>,
    Error,
> {
    match outcome {
        Ok(entries) => Ok(entry_views(entries@)),
        Err(error) => Err(error),
    }
}

impl<C: CryptoProvider> SecureScan<C> {
    /// Offers the next entry of the range to the scan.
    ///
    /// # Errors
    ///
    /// Returns an error if the key of the entry cannot be decoded, its
    /// visibility bytes are not a visibility expression, or its value cannot be
    /// decrypted.
    pub fn offer(&mut self, entry: StoredEntry) -> (outcome: Result<(), Error>)
        ensures
            final(self).wanted() == old(self).wanted(),
            final(self).limits() == old(self).limits(),
            final(self).auths() == old(self).auths(),
            final(self).encryption() == old(self).encryption(),
            secure_step(
                old(self).limits(),
                old(self).auths(),
                old(self).encryption(),
                old(self).found(),
                entry@,
                match outcome {
                    Ok(()) => Ok::<Seq<EntryView>, Error>(final(self).found()),
                    Err(error) => Err(error),
                },
            ),
            outcome is Err ==> final(self).found() == old(self).found(),
    {
        if !self.wants_more() {
            return Ok(());
        }
        let key = match CompositeKey::decode(entry.key.as_slice()) {
            Ok(key) => key,
            Err(error) => return Err(error),
        };
        if !self.limits.includes(key.timestamp) {
            return Ok(());
        }
        match is_visible(key.visibility.as_slice(), &self.auths) {
            Ok(true) => {},
            Ok(false) => return Ok(()),
            Err(error) => return Err(error),
        }
        let value = maybe_decrypt_entry(&self.encryption, entry.key.as_slice(), entry.value);
        assert(maybe_decrypts(
            self.encryption,
            entry@.key,
            entry@.value,
            bytes_outcome(value),
        ));
        match value {
            Ok(value) => {
                let ghost before = self.entries@;
                let found = VersionedEntry { cell: VersionedCell::from(key), value };
                self.entries.push(found);
                assert(entry_views(self.entries@) =~= entry_views(before).push(
                    EntryView { key: key@, value: value@ },
                ));
                Ok(())
            },
            Err(error) => Err(error),
        }
    }

    /// Offers a whole listing to the scan and returns what it finds.
    ///
    /// # Errors
    ///
    /// Returns the error of the first entry that cannot be taken before the
    /// scan has enough.
    pub fn run(self, listing: Vec<StoredEntry>) -> (outcome: Result<Vec<VersionedEntry>, Error>)
        ensures
            secure_scanned(
                self.limits(),
                self.auths(),
                self.encryption(),
                self.found(),
                stored_views(listing@),
                entries_outcome(outcome),
            ),
    {
        let ghost views = stored_views(listing@);
        let ghost start = self;
        let mut scan = self;
        assert(views.skip(0) =~= views);
        for entry in it: listing
            invariant
                start == self,
                views == stored_views(listing@),
                views == stored_views(it.seq()),
                scan.limits() == start.limits(),
                scan.auths() == start.auths(),
                scan.encryption() == start.encryption(),
                forall|outcome: Result<Seq<EntryView>, Error>|
                    #[trigger] secure_scanned(
                        start.limits(),
                        start.auths(),
                        start.encryption(),
                        scan.found(),
                        views.skip(it.index() as int),
                        outcome,
                    ) ==> secure_scanned(
                        start.limits(),
                        start.auths(),
                        start.encryption(),
                        start.found(),
                        views,
                        outcome,
                    ),
        {
            let ghost at = it.index() as int;
            let ghost before = scan.found();
            proof {
                assert(views.skip(at)[0] == views[at]);
                assert(views[at] == entry@);
                assert(views.skip(at).drop_first() =~= views.skip(at + 1));
            }
            match scan.offer(entry) {
                Ok(()) => {
                    proof {
                        let step = Ok::<Seq<EntryView>, Error>(scan.found());
                        assert(secure_step(
                            start.limits(),
                            start.auths(),
                            start.encryption(),
                            before,
                            views.skip(at)[0],
                            step,
                        ));
                        assert forall|outcome: Result<Seq<EntryView>, Error>|
                            #[trigger] secure_scanned(
                                start.limits(),
                                start.auths(),
                                start.encryption(),
                                scan.found(),
                                views.skip(at + 1),
                                outcome,
                            ) implies secure_scanned(
                            start.limits(),
                            start.auths(),
                            start.encryption(),
                            start.found(),
                            views,
                            outcome,
                        ) by {
                            assert(secure_scanned(
                                start.limits(),
                                start.auths(),
                                start.encryption(),
                                before,
                                views.skip(at),
                                outcome,
                            ));
                        }
                    }
                },
                Err(error) => {
                    proof {
                        let step = Err::<Seq<EntryView>, Error>(error);
                        assert(secure_step(
                            start.limits(),
                            start.auths(),
                            start.encryption(),
                            before,
                            views.skip(at)[0],
                            step,
                        ));
                        assert(secure_scanned(
                            start.limits(),
                            start.auths(),
                            start.encryption(),
                            before,
                            views.skip(at),
                            step,
                        ));
                    }
                    return Err(error);
                },
            }
        }
        proof {
            let result = Ok::<Seq<EntryView>, Error>(scan.found());
            assert(secure_scanned(
                start.limits(),
                start.auths(),
                start.encryption(),
                scan.found(),
                views.skip(views.len() as int),
                result,
            ));
        }
        Ok(scan.into_entries())
    }
}

/// What starting a scan comes to, given how the permission check came out.
pub open spec fn scans<C>(
    cleared: Result<(), Error>,
    keyspace: Keyspace,
    encryption: Option<ValueEncryption<C>>,
    auths: Set<Seq<char>>,
    fields: Option<Seq<Seq<u8>>>,
    limits: VersionScan,
    outcome: Result<SecureScan<C>, Error>,
) -> bool {
    match (cleared, outcome) {
        (Err(error), _) => outcome == Err::<SecureScan<C>, Error>(error),
        (Ok(()), Err(error)) => prefix_range_outcome(fields, Err(error)),
        (Ok(()), Ok(scan)) => {
            &&& prefix_range_outcome(fields, Ok(scan.wanted().range))
            &&& scan.wanted().keyspace == keyspace
            &&& scan.wanted().snapshot == None::<Snapshot>
            &&& scan.limits() == limits
            &&& scan.auths() == auths
            &&& scan.encryption() == encryption
            &&& scan.found() == Seq::<EntryView>::empty()
        },
    }
}

/// Decides how versions are scanned, given how the permission check came out.
///
/// # Errors
///
/// Returns the error of the permission check, or an error if the prefix selects
/// no range.
pub fn plan_scan<C>(
    cleared: Result<(), Error>,
    keyspace: &Keyspace,
    encryption: &Option<ValueEncryption<C>>,
    auths: &Authorizations,
    prefix: &CompositePrefix,
    limits: &VersionScan,
) -> (outcome: Result<SecureScan<C>, Error>)
    ensures
        scans(cleared, *keyspace, *encryption, auths@, prefix.fields(), *limits, outcome),
{
    match cleared {
        Ok(()) => {},
        Err(error) => return Err(error),
    }
    match prefix.range() {
        Ok(range) => {
            let scan = SecureScan {
                read: RangeRead { keyspace: keyspace.clone(), snapshot: None, range },
                limits: *limits,
                auths: auths.clone(),
                encryption: share_encryption(encryption),
                entries: Vec::new(),
            };
            assert(scan.found() =~= Seq::empty());
            Ok(scan)
        },
        Err(error) => Err(error),
    }
}

} // verus!
