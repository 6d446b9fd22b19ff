//! What the secure layer exchanges with the storage engine.
//!
//! This crate performs no I/O. Its operations decide which keys to read and
//! which entries to write, and hand those decisions out as the plain values
//! defined here; the caller performs them and hands back what was read.

use std::sync::Arc;

use vstd::prelude::*;

use crate::error::Error;
use crate::naming::{is_reserved_raw_keyspace_name, reserved};
use crate::order::{append_bytes, has_prefix, lex_less};

verus! {

/// Bytes of one key field.
pub type Slice = Vec<u8>;

/// An encoded key as the storage engine sees it.
pub type UserKey = Vec<u8>;

/// A value as the storage engine sees it.
pub type UserValue = Vec<u8>;

/// One end of a key range.
#[derive(Debug, Eq, PartialEq)]
pub enum KeyBound {
    /// The range ends at this key and contains it.
    Included(UserKey),

    /// The range ends at this key and does not contain it.
    Excluded(UserKey),

    /// The range has no end on this side.
    Unbounded,
}

/// A range of encoded keys.
#[derive(Debug, Eq, PartialEq)]
pub struct KeyRange {
    /// Lower end of the range.
    pub start: KeyBound,

    /// Upper end of the range.
    pub end: KeyBound,
}

impl Clone for KeyBound {
    fn clone(&self) -> (copy: Self)
        ensures
            copy.same_as(*self),
    {
        match self {
            KeyBound::Included(key) => KeyBound::Included(key.clone()),
            KeyBound::Excluded(key) => KeyBound::Excluded(key.clone()),
            KeyBound::Unbounded => KeyBound::Unbounded,
        }
    }
}

impl Clone for KeyRange {
    fn clone(&self) -> (copy: Self)
        ensures
            copy.start.same_as(self.start),
            copy.end.same_as(self.end),
    {
        KeyRange { start: self.start.clone(), end: self.end.clone() }
    }
}

impl KeyBound {
    /// Whether two ends are of the same kind and at the same key.
    pub open spec fn same_as(self, other: KeyBound) -> bool {
        match (self, other) {
            (KeyBound::Included(a), KeyBound::Included(b)) => a@ == b@,
            (KeyBound::Excluded(a), KeyBound::Excluded(b)) => a@ == b@,
            (KeyBound::Unbounded, KeyBound::Unbounded) => true,
            _ => false,
        }
    }

    /// Whether a range that starts here admits `key`.
    pub open spec fn admits_from(self, key: Seq<u8>) -> bool {
        match self {
            KeyBound::Included(bound) => !lex_less(key, bound@),
            KeyBound::Excluded(bound) => lex_less(bound@, key),
            KeyBound::Unbounded => true,
        }
    }

    /// Whether a range that ends here admits `key`.
    pub open spec fn admits_up_to(self, key: Seq<u8>) -> bool {
        match self {
            KeyBound::Included(bound) => !lex_less(bound@, key),
            KeyBound::Excluded(bound) => lex_less(key, bound@),
            KeyBound::Unbounded => true,
        }
    }
}

impl KeyRange {
    /// Whether `key` lies in the range.
    pub open spec fn contains(self, key: Seq<u8>) -> bool {
        &&& self.start.admits_from(key)
        &&& self.end.admits_up_to(key)
    }

    /// Whether this is the range that [`prefix_to_range`] gives for `prefix`.
    pub open spec fn covers_prefix(self, prefix: Seq<u8>) -> bool {
        if prefix.len() == 0 {
            self.start is Unbounded && self.end is Unbounded
        } else {
            &&& self.start matches KeyBound::Included(bound)
            &&& bound@ == prefix
            &&& match successor(prefix) {
                Some(next) => self.end matches KeyBound::Excluded(bound) && bound@ == next,
                None => self.end is Unbounded,
            }
        }
    }
}

/// The least byte string above every string that begins with `prefix`, if
/// there is one: trailing `0xff` bytes are cut and the last byte is raised.
pub open spec fn successor(prefix: Seq<u8>) -> Option<Seq<u8>>
    decreases prefix.len(),
{
    if prefix.len() == 0 {
        None
    } else if prefix.last() < 255 {
        Some(prefix.drop_last().push((prefix.last() + 1) as u8))
    } else {
        successor(prefix.drop_last())
    }
}

proof fn lemma_successor_first(prefix: Seq<u8>)
    requires
        prefix.len() > 0,
    ensures
        successor(prefix) == match successor(prefix.drop_first()) {
            Some(next) => Some(seq![prefix[0]] + next),
            None => if prefix[0] < 255 {
                Some(seq![(prefix[0] + 1) as u8])
            } else {
                None::<Seq<u8>>
            },
        },
    decreases prefix.len(),
{
    let rest = prefix.drop_first();
    if rest.len() == 0 {
        assert(prefix.drop_last() =~= rest);
        assert(rest.push((prefix[0] + 1) as u8) =~= seq![(prefix[0] + 1) as u8]);
    } else if prefix.last() < 255 {
        assert(prefix.drop_last().push((prefix.last() + 1) as u8) =~= seq![prefix[0]]
            + rest.drop_last().push((rest.last() + 1) as u8));
    } else {
        lemma_successor_first(prefix.drop_last());
        assert(prefix.drop_last().drop_first() =~= rest.drop_last());
    }
}

proof fn lemma_between_prefix_and_successor(prefix: Seq<u8>, key: Seq<u8>)
    ensures
        has_prefix(key, prefix) == (!lex_less(key, prefix) && match successor(prefix) {
            Some(next) => lex_less(key, next),
            None => true,
        }),
    decreases prefix.len(),
{
    if prefix.len() == 0 {
        assert(key.take(0) =~= prefix);
    } else {
        lemma_successor_first(prefix);
        if key.len() > 0 {
            let key_rest = key.drop_first();
            let rest = prefix.drop_first();
            lemma_between_prefix_and_successor(rest, key_rest);
            if has_prefix(key, prefix) {
                assert(key[0] == key.take(prefix.len() as int)[0]);
                assert(key_rest.take(rest.len() as int) =~= key.take(
                    prefix.len() as int,
                ).drop_first());
            }
            if key[0] == prefix[0] && has_prefix(key_rest, rest) {
                assert(key.take(prefix.len() as int) =~= seq![key[0]] + key_rest.take(
                    rest.len() as int,
                ));
                assert(prefix =~= seq![prefix[0]] + rest);
            }
            reveal_with_fuel(lex_less, 2);
            if let Some(next) = successor(rest) {
                assert((seq![prefix[0]] + next)[0] == prefix[0]);
                assert((seq![prefix[0]] + next).drop_first() =~= next);
            }
            if prefix[0] < 255 {
                let raised = seq![(prefix[0] + 1) as u8];
                assert(raised.drop_first().len() == 0);
            }
        }
    }
}

/// A prefix range holds exactly the keys that begin with the prefix.
pub proof fn lemma_prefix_range_is_exact(range: KeyRange, prefix: Seq<u8>, key: Seq<u8>)
    requires
        range.covers_prefix(prefix),
    ensures
        range.contains(key) == has_prefix(key, prefix),
{
    lemma_between_prefix_and_successor(prefix, key);
}

/// Converts a prefix to the range of keys that begin with it.
pub fn prefix_to_range(prefix: &[u8]) -> (range: KeyRange)
    ensures
        range.covers_prefix(prefix@),
{
    if prefix.len() == 0 {
        return KeyRange { start: KeyBound::Unbounded, end: KeyBound::Unbounded };
    }
    let mut start: Vec<u8> = Vec::new();
    append_bytes(&mut start, prefix);
    assert(start@ =~= prefix@);

    let mut end: Vec<u8> = Vec::new();
    append_bytes(&mut end, prefix);
    assert(end@ =~= prefix@);
    while end.len() > 0
        invariant
            successor(end@) == successor(prefix@),
            prefix@.len() > 0,
            start@ == prefix@,
        decreases end.len(),
    {
        let last: u8 = end[end.len() - 1];
        let ghost before = end@;
        end.pop();
        assert(end@ =~= before.drop_last());
        if last < 255 {
            end.push(last + 1);
            return KeyRange { start: KeyBound::Included(start), end: KeyBound::Excluded(end) };
        }
    }
    KeyRange { start: KeyBound::Included(start), end: KeyBound::Unbounded }
}

// ---------------------------------------------------------------------------
// Handles and requests
// ---------------------------------------------------------------------------
/// `std::path::PathBuf`: a file system path, carried as it is.
#[verifier::external_type_specification]
#[verifier::external_body]
pub struct ExPathBuf(std::path::PathBuf);

/// A raw database, known to the storage engine by its path.
pub struct Database {
    /// Where the database lies.
    pub path: Arc<std::path::PathBuf>,
}

impl Clone for Database {
    fn clone(&self) -> (copy: Self)
        ensures
            copy == *self,
    {
        Database { path: self.path.clone() }
    }
}

impl Database {
    /// Names a raw keyspace of the database to create or open.
    ///
    /// # Errors
    ///
    /// Returns an error if the name is reserved for secure keyspaces.
    pub fn keyspace(&self, name: &str) -> (keyspace: Result<Keyspace, Error>)
        ensures
            match keyspace {
                Ok(keyspace) => !reserved(name@) && keyspace@ == name@,
                Err(error) => reserved(name@) && error == Error::ReservedKeyspaceName,
            },
    {
        if is_reserved_raw_keyspace_name(name) {
            return Err(Error::ReservedKeyspaceName);
        }
        Ok(Keyspace::named(name.to_owned()))
    }
}

/// A raw database whose transactions are run one after another.
pub struct SingleWriterTxDatabase {
    /// The raw database.
    pub inner: Database,
}

impl Clone for SingleWriterTxDatabase {
    fn clone(&self) -> (copy: Self)
        ensures
            copy == *self,
    {
        SingleWriterTxDatabase { inner: self.inner.clone() }
    }
}

/// A raw database whose transactions are checked for conflicts when they are
/// committed.
pub struct OptimisticTxDatabase {
    /// The raw database.
    pub inner: Database,
}

impl Clone for OptimisticTxDatabase {
    fn clone(&self) -> (copy: Self)
        ensures
            copy == *self,
    {
        OptimisticTxDatabase { inner: self.inner.clone() }
    }
}

/// A raw keyspace, known to the storage engine by its name.
#[derive(Debug, Eq, PartialEq)]
pub struct Keyspace {
    name: String,
}

impl View for Keyspace {
    type V = Seq<char>;

    /// The name of the keyspace.
    closed spec fn view(&self) -> Seq<char> {
        self.name@
    }
}

impl Clone for Keyspace {
    fn clone(&self) -> (copy: Self)
        ensures
            copy == *self,
    {
        Keyspace { name: self.name.clone() }
    }
}

impl Keyspace {
    /// Names a raw keyspace, reserved or not.
    pub(crate) fn named(name: String) -> (keyspace: Self)
        ensures
            keyspace@ == name@,
    {
        Keyspace { name }
    }

    /// Returns the name of the keyspace.
    #[must_use]
    pub fn name(&self) -> (name: &str)
        ensures
            name@ == self@,
    {
        self.name.as_str()
    }
}

/// A point in the history of the storage engine to read at.
#[derive(Clone, Copy, Debug, Eq, PartialEq)]
pub struct Snapshot {
    /// Sequence number that the snapshot was taken at.
    pub seqno: u64,
}

/// A request for the value of one key.
#[derive(Debug, Eq, PartialEq)]
pub struct PointRead {
    /// Keyspace to read.
    pub keyspace: Keyspace,

    /// Where to read in the history of the keyspace. `None` is the state that
    /// the reader itself sees: the newest one outside a transaction, and inside
    /// one the transaction's own, with its staged writes.
    pub snapshot: Option<Snapshot>,

    /// Key to look up.
    pub key: UserKey,
}

/// A request for the entries of a key range, in ascending key order.
#[derive(Debug, Eq, PartialEq)]
pub struct RangeRead {
    /// Keyspace to read.
    pub keyspace: Keyspace,

    /// Where to read in the history of the keyspace. `None` is the state that
    /// the reader itself sees: the newest one outside a transaction, and inside
    /// one the transaction's own, with its staged writes.
    pub snapshot: Option<Snapshot>,

    /// Keys to list.
    pub range: KeyRange,
}

/// One entry of a keyspace as the storage engine holds it.
#[derive(Debug, Eq, PartialEq)]
pub struct StoredEntry {
    /// Encoded key.
    pub key: UserKey,

    /// Stored value.
    pub value: UserValue,
}

/// A stored entry as mathematical values.
#[verifier::ext_equal]
pub struct StoredView {
    /// Encoded key.
    pub key: Seq<u8>,
    /// Stored value.
    pub value: Seq<u8>,
}

impl View for StoredEntry {
    type V = StoredView;

    open spec fn view(&self) -> StoredView {
        StoredView { key: self.key@, value: self.value@ }
    }
}

/// The contents of stored entries.
pub open spec fn stored_views(entries: Seq<StoredEntry>) -> Seq<StoredView> {
    Seq::new(entries.len(), |i: int| entries[i]@)
}

/// A change to one key.
#[derive(Debug, Eq, PartialEq)]
pub enum Change {
    /// Store the value under the key.
    Insert {
        /// Encoded key.
        key: UserKey,
        /// Value to store.
        value: UserValue,
    },

    /// Remove the key.
    Remove {
        /// Encoded key.
        key: UserKey,
    },
}

/// A change as mathematical values.
#[verifier::ext_equal]
pub enum ChangeView {
    /// Store the value under the key.
    Insert {
        /// Encoded key.
        key: Seq<u8>,
        /// Value to store.
        value: Seq<u8>,
    },
    /// Remove the key.
    Remove {
        /// Encoded key.
        key: Seq<u8>,
    },
}

impl View for Change {
    type V = ChangeView;

    open spec fn view(&self) -> ChangeView {
        match self {
            Change::Insert { key, value } => ChangeView::Insert { key: key@, value: value@ },
            Change::Remove { key } => ChangeView::Remove { key: key@ },
        }
    }
}

/// A request to change one key of a keyspace.
#[derive(Debug, Eq, PartialEq)]
pub struct Mutation {
    /// Keyspace to write.
    pub keyspace: Keyspace,

    /// The change to make.
    pub change: Change,
}

// ---------------------------------------------------------------------------
// What a keyspace holds
// ---------------------------------------------------------------------------
/// The contents of a keyspace after a change.
pub open spec fn changed(
    contents: Map<Seq<u8>, Seq<u8>>,
    change: ChangeView,
) -> Map<Seq<u8>, Seq<u8>> {
    match change {
        ChangeView::Insert { key, value } => contents.insert(key, value),
        ChangeView::Remove { key } => contents.remove(key),
    }
}

/// What the storage engine answers to a look-up.
pub open spec fn looked_up(contents: Map<Seq<u8>, Seq<u8>>, key: Seq<u8>) -> Option<Seq<u8>> {
    if contents.contains_key(key) {
        Some(contents[key])
    } else {
        None
    }
}

/// Whether `listing` is what the storage engine lists of a range: exactly the
/// entries of the range, in strictly ascending key order.
pub open spec fn lists(
    contents: Map<Seq<u8>, Seq<u8>>,
    range: KeyRange,
    listing: Seq<StoredView>,
) -> bool {
    &&& ascending_keys(listing)
    &&& forall|i: int|
        0 <= i < listing.len() ==> {
            &&& range.contains((#[trigger] listing[i]).key)
            &&& contents.contains_key(listing[i].key)
            &&& contents[listing[i].key] == listing[i].value
        }
    &&& forall|key: Seq<u8>| #[trigger]
        contents.contains_key(key) && range.contains(key) ==> exists|i: int|
            0 <= i < listing.len() && (#[trigger] listing[i]).key == key
}

/// Whether entries stand in strictly ascending key order.
pub open spec fn ascending_keys(listing: Seq<StoredView>) -> bool {
    forall|i: int, j: int|
        0 <= i < j < listing.len() ==> lex_less(
            (#[trigger] listing[i]).key,
            (#[trigger] listing[j]).key,
        )
}

/// Stored entries and changes are viewed as what they hold: each key and each
/// value whole, each change as what it does, and lists element by element.
pub proof fn lemma_views_are_whole(entries: Seq<StoredEntry>, change: Change)
    ensures
        stored_views(entries).len() == entries.len(),
        forall|i: int|
            0 <= i < entries.len() ==> (#[trigger] stored_views(entries)[i]).key == entries[i].key@
                && stored_views(entries)[i].value == entries[i].value@,
        match change {
            Change::Insert { key, value } => change@ == (ChangeView::Insert {
                key: key@,
                value: value@,
            }),
            Change::Remove { key } => change@ == (ChangeView::Remove { key: key@ }),
        },
{
}

} // verus!
