//! Versioned cell helpers built on ordered composite keys.

use vstd::prelude::*;

use crate::composite::laws::key_room;
use crate::composite::{
    encoded_key, key_too_long, prefix_range_outcome, CompositeKey, CompositePrefix, KeyView,
    MAX_USER_KEY_LEN,
};
use crate::error::Error;
use crate::scan::{VersionDeletion, VersionedScan};
use crate::storage::{
    Change, ChangeView, Keyspace, Mutation, PointRead, RangeRead, Slice, Snapshot, UserKey,
    UserValue,
};

pub mod laws;

verus! {

/// A logical secure cell without a version timestamp.
///
/// Versions are grouped by the full `(row, family, qualifier, visibility)`
/// tuple. Cross-visibility latest-version selection is intentionally not
/// provided here.
#[derive(Debug, Eq, PartialEq)]
pub struct Cell {
    /// Row bytes.
    pub row: Slice,

    /// Column family bytes.
    pub family: Slice,

    /// Column qualifier bytes.
    pub qualifier: Slice,

    /// Visibility expression bytes.
    pub visibility: Slice,
}

impl Clone for Cell {
    fn clone(&self) -> (copy: Self)
        ensures
            forall|timestamp: i64| #[trigger] copy.at(timestamp) == self.at(timestamp),
            copy.row@ == self.row@,
            copy.family@ == self.family@,
            copy.qualifier@ == self.qualifier@,
            copy.visibility@ == self.visibility@,
    {
        Cell {
            row: self.row.clone(),
            family: self.family.clone(),
            qualifier: self.qualifier.clone(),
            visibility: self.visibility.clone(),
        }
    }
}

impl Cell {
    /// The version of this cell at a timestamp.
    pub open spec fn at(self, timestamp: i64) -> KeyView {
        KeyView {
            row: self.row@,
            family: self.family@,
            qualifier: self.qualifier@,
            visibility: self.visibility@,
            timestamp,
        }
    }

    /// Returns a timestamped version of this cell.
    #[must_use]
    pub fn version(&self, timestamp: i64) -> (version: VersionedCell)
        ensures
            version@ == self.at(timestamp),
            version.cell.row@ == self.row@,
            version.cell.family@ == self.family@,
            version.cell.qualifier@ == self.qualifier@,
            version.cell.visibility@ == self.visibility@,
            version.timestamp == timestamp,
    {
        let cell = self.clone();
        assert(cell.at(timestamp) == self.at(timestamp));
        VersionedCell { cell, timestamp }
    }

    /// The prefix that selects all versions of this cell.
    pub fn composite_prefix(&self) -> (prefix: CompositePrefix)
        ensures
            prefix.fields() == Some(self.at(0).fields()),
            prefix.row matches Some(row) && row@ == self.row@,
            prefix.family matches Some(family) && family@ == self.family@,
            prefix.qualifier matches Some(qualifier) && qualifier@ == self.qualifier@,
            prefix.visibility matches Some(visibility) && visibility@ == self.visibility@,
    {
        CompositePrefix {
            row: Some(self.row.clone()),
            family: Some(self.family.clone()),
            qualifier: Some(self.qualifier.clone()),
            visibility: Some(self.visibility.clone()),
        }
    }
}

/// A logical secure cell with an explicit user-level version timestamp.
#[derive(Debug, Eq, PartialEq)]
pub struct VersionedCell {
    /// Logical cell identity.
    pub cell: Cell,

    /// User-level version timestamp.
    pub timestamp: i64,
}

impl View for VersionedCell {
    type V = KeyView;

    open spec fn view(&self) -> KeyView {
        self.cell.at(self.timestamp)
    }
}

impl Clone for VersionedCell {
    fn clone(&self) -> (copy: Self)
        ensures
            copy@ == self@,
    {
        self.cell.version(self.timestamp)
    }
}

impl VersionedCell {
    /// Encodes this versioned cell as a sortable user key.
    ///
    /// # Errors
    ///
    /// Returns an error if the encoded key would exceed the user-key length
    /// limit.
    pub fn encode(&self) -> (encoded: Result<UserKey, Error>)
        ensures
            key_outcome(self@, encoded),
            encoded is Ok <==> key_room(self@) <= 65535,
    {
        CompositeKey::from(self).encode()
    }
}

/// What encoding a key answers: its encoding unless that is too long.
pub open spec fn key_outcome(key: KeyView, encoded: Result<UserKey, Error>) -> bool {
    match encoded {
        Ok(bytes) => bytes@ == encoded_key(key) && bytes@.len() <= MAX_USER_KEY_LEN,
        Err(error) => encoded_key(key).len() > MAX_USER_KEY_LEN && error == key_too_long(),
    }
}

impl From<&VersionedCell> for CompositeKey {
    fn from(cell: &VersionedCell) -> (key: Self)
        ensures
            key@ == cell@,
    {
        CompositeKey {
            row: cell.cell.row.clone(),
            family: cell.cell.family.clone(),
            qualifier: cell.cell.qualifier.clone(),
            visibility: cell.cell.visibility.clone(),
            timestamp: cell.timestamp,
        }
    }
}

impl vstd::std_specs::convert::FromSpecImpl<&VersionedCell> for CompositeKey {
    open spec fn obeys_from_spec() -> bool {
        false
    }

    open spec fn from_spec(cell: &VersionedCell) -> Self {
        arbitrary()
    }
}

impl From<CompositeKey> for VersionedCell {
    fn from(key: CompositeKey) -> (cell: Self)
        ensures
            cell@ == key@,
    {
        VersionedCell {
            cell: Cell {
                row: key.row,
                family: key.family,
                qualifier: key.qualifier,
                visibility: key.visibility,
            },
            timestamp: key.timestamp,
        }
    }
}

impl vstd::std_specs::convert::FromSpecImpl<CompositeKey> for VersionedCell {
    open spec fn obeys_from_spec() -> bool {
        true
    }

    open spec fn from_spec(key: CompositeKey) -> Self {
        VersionedCell {
            cell: Cell {
                row: key.row,
                family: key.family,
                qualifier: key.qualifier,
                visibility: key.visibility,
            },
            timestamp: key.timestamp,
        }
    }
}

/// Version scan controls for a version group or composite-key prefix.
///
/// Timestamp bounds are inclusive logical timestamp filters applied after the
/// storage snapshot is chosen.
#[derive(Clone, Copy, Debug, Eq, PartialEq)]
pub struct VersionScan {
    /// Lowest timestamp to return, inclusive.
    pub min_timestamp: Option<i64>,

    /// Highest timestamp to return, inclusive.
    pub max_timestamp: Option<i64>,

    /// Maximum number of matching versions to return.
    pub max_versions: Option<usize>,
}

impl Default for VersionScan {
    fn default() -> (scan: Self)
        ensures
            scan == (VersionScan { min_timestamp: None, max_timestamp: None, max_versions: None }),
    {
        VersionScan { min_timestamp: None, max_timestamp: None, max_versions: None }
    }
}

impl VersionScan {
    /// Whether a timestamp lies within the bounds.
    pub open spec fn selects(self, timestamp: i64) -> bool {
        &&& self.min_timestamp matches Some(min) ==> timestamp >= min
        &&& self.max_timestamp matches Some(max) ==> timestamp <= max
    }

    /// Whether `count` versions are as many as may be returned.
    pub open spec fn exhausted(self, count: nat) -> bool {
        self.max_versions matches Some(max) && count >= max
    }

    /// Whether a version with this timestamp is to be returned.
    pub fn includes(&self, timestamp: i64) -> (included: bool)
        ensures
            included == self.selects(timestamp),
            included <==> (self.min_timestamp is Some ==> self.min_timestamp->Some_0 <= timestamp)
                && (self.max_timestamp is Some ==> timestamp <= self.max_timestamp->Some_0),
    {
        let late_enough = match self.min_timestamp {
            Some(min) => timestamp >= min,
            None => true,
        };
        let early_enough = match self.max_timestamp {
            Some(max) => timestamp <= max,
            None => true,
        };
        late_enough && early_enough
    }

    /// Whether no more than `count` versions are to be returned.
    pub fn is_satisfied_by(&self, count: usize) -> (satisfied: bool)
        ensures
            satisfied == self.exhausted(count as nat),
            satisfied <==> self.max_versions is Some && self.max_versions->Some_0 <= count,
    {
        match self.max_versions {
            Some(max) => count >= max,
            None => false,
        }
    }
}

/// A decoded versioned cell and its value.
#[derive(Debug, Eq, PartialEq)]
pub struct VersionedEntry {
    /// Decoded versioned cell.
    pub cell: VersionedCell,

    /// Stored value.
    pub value: UserValue,
}

/// A decoded versioned cell and its value, as mathematical values.
#[verifier::ext_equal]
pub struct EntryView {
    /// Decoded versioned cell.
    pub key: KeyView,
    /// Stored value.
    pub value: Seq<u8>,
}

impl View for VersionedEntry {
    type V = EntryView;

    open spec fn view(&self) -> EntryView {
        EntryView { key: self.cell@, value: self.value@ }
    }
}

impl Clone for VersionedEntry {
    fn clone(&self) -> (copy: Self)
        ensures
            copy@ == self@,
    {
        VersionedEntry { cell: self.cell.clone(), value: self.value.clone() }
    }
}

/// The contents of entries.
pub open spec fn entry_views(entries: Seq<VersionedEntry>) -> Seq<EntryView> {
    Seq::new(entries.len(), |i: int| entries[i]@)
}

// ---------------------------------------------------------------------------
// Reads
// ---------------------------------------------------------------------------
/// Whether `read` asks for the version `key` of a keyspace, or the version's
/// key cannot be encoded.
pub open spec fn reads_version(
    keyspace: Keyspace,
    snapshot: Option<Snapshot>,
    key: KeyView,
    read: Result<PointRead, Error>,
) -> bool {
    match read {
        Ok(read) => {
            &&& read.keyspace == keyspace
            &&& read.snapshot == snapshot
            &&& key_outcome(key, Ok(read.key))
        },
        Err(error) => key_outcome(key, Err(error)),
    }
}

/// Whether `scan` is a fresh scan for the versions of a keyspace with the
/// given leading fields, or those fields select no range.
pub open spec fn scans_fields(
    keyspace: Keyspace,
    snapshot: Option<Snapshot>,
    fields: Option<Seq<Seq<u8>>>,
    limits: VersionScan,
    scan: Result<VersionedScan, Error>,
) -> bool {
    match scan {
        Ok(scan) => {
            &&& scan.wanted().keyspace == keyspace
            &&& scan.wanted().snapshot == snapshot
            &&& prefix_range_outcome(fields, Ok(scan.wanted().range))
            &&& scan.limits() == limits
            &&& scan.found() == Seq::<EntryView>::empty()
        },
        Err(error) => prefix_range_outcome(fields, Err(error)),
    }
}

/// The limits of a scan for the newest version.
pub open spec fn newest_only() -> VersionScan {
    VersionScan { min_timestamp: None, max_timestamp: None, max_versions: Some(1) }
}

fn read_version(
    keyspace: &Keyspace,
    snapshot: Option<Snapshot>,
    cell: &VersionedCell,
) -> (read: Result<PointRead, Error>)
    ensures
        reads_version(*keyspace, snapshot, cell@, read),
{
    match cell.encode() {
        Ok(key) => Ok(PointRead { keyspace: keyspace.clone(), snapshot, key }),
        Err(error) => Err(error),
    }
}

fn scan_prefix(
    keyspace: &Keyspace,
    snapshot: Option<Snapshot>,
    prefix: &CompositePrefix,
    limits: VersionScan,
) -> (scan: Result<VersionedScan, Error>)
    ensures
        scans_fields(*keyspace, snapshot, prefix.fields(), limits, scan),
{
    match prefix.range() {
        Ok(range) => Ok(
            VersionedScan::new(RangeRead { keyspace: keyspace.clone(), snapshot, range }, limits),
        ),
        Err(error) => Err(error),
    }
}

/// Read helpers for explicit user-level versioned cells.
pub trait VersionedCellReadExt {
    /// Asks for one exact version of a cell in a readable snapshot.
    ///
    /// # Errors
    ///
    /// Returns an error if key encoding fails.
    fn get_version(&self, keyspace: &Keyspace, cell: &VersionedCell) -> Result<PointRead, Error>;

    /// Starts a scan for the newest version in one
    /// `(row, family, qualifier, visibility)` group.
    ///
    /// # Errors
    ///
    /// Returns an error if key encoding fails.
    fn latest_version(&self, keyspace: &Keyspace, cell: &Cell) -> Result<VersionedScan, Error>;

    /// Starts a scan for versions in one `(row, family, qualifier, visibility)`
    /// group.
    ///
    /// Results follow encoded order, which means newest matching timestamp
    /// first for a single version group.
    ///
    /// # Errors
    ///
    /// Returns an error if prefix encoding fails.
    fn scan_versions(&self, keyspace: &Keyspace, cell: &Cell, scan: VersionScan) -> Result<
        VersionedScan,
        Error,
    >;

    /// Starts a scan for versioned cells matching a composite-key prefix.
    ///
    /// This supports row, family, qualifier, or full-cell scans while preserving
    /// the encoded composite-key order.
    ///
    /// # Errors
    ///
    /// Returns an error if prefix encoding fails.
    fn scan_versioned_prefix(
        &self,
        keyspace: &Keyspace,
        prefix: &CompositePrefix,
        scan: VersionScan,
    ) -> Result<VersionedScan, Error>;
}

impl VersionedCellReadExt for Snapshot {
    fn get_version(&self, keyspace: &Keyspace, cell: &VersionedCell) -> (read: Result<
        PointRead,
        Error,
    >)
        ensures
            reads_version(*keyspace, Some(*self), cell@, read),
    {
        read_version(keyspace, Some(*self), cell)
    }

    fn latest_version(&self, keyspace: &Keyspace, cell: &Cell) -> (latest: Result<
        VersionedScan,
        Error,
    >)
        ensures
            scans_fields(
                *keyspace,
                Some(*self),
                Some(cell.at(0).fields()),
                newest_only(),
                latest,
            ),
    {
        let limits = VersionScan { min_timestamp: None, max_timestamp: None, max_versions: Some(1) };
        self.scan_versions(keyspace, cell, limits)
    }

    fn scan_versions(&self, keyspace: &Keyspace, cell: &Cell, scan: VersionScan) -> (versions:
        Result<VersionedScan, Error>)
        ensures
            scans_fields(*keyspace, Some(*self), Some(cell.at(0).fields()), scan, versions),
    {
        self.scan_versioned_prefix(keyspace, &cell.composite_prefix(), scan)
    }

    fn scan_versioned_prefix(
        &self,
        keyspace: &Keyspace,
        prefix: &CompositePrefix,
        scan: VersionScan,
    ) -> (versions: Result<VersionedScan, Error>)
        ensures
            scans_fields(*keyspace, Some(*self), prefix.fields(), scan, versions),
    {
        scan_prefix(keyspace, Some(*self), prefix, scan)
    }
}

// ---------------------------------------------------------------------------
// Reads and writes on raw keyspaces
// ---------------------------------------------------------------------------
/// Whether `deletion` is a fresh deletion of versions of a cell, or the cell
/// selects no range.
pub open spec fn deletes_fields(
    keyspace: Keyspace,
    fields: Option<Seq<Seq<u8>>>,
    older_than: Option<i64>,
    deletion: Result<VersionDeletion, Error>,
) -> bool {
    match deletion {
        Ok(deletion) => {
            &&& deletion.wanted().keyspace == keyspace
            &&& deletion.wanted().snapshot == None::<Snapshot>
            &&& prefix_range_outcome(fields, Ok(deletion.wanted().range))
            &&& deletion.cutoff() == older_than
            &&& deletion.keys() == Seq::<Seq<u8>>::empty()
        },
        Err(error) => prefix_range_outcome(fields, Err(error)),
    }
}

/// Read and write helpers for explicit user-level versioned cells on raw
/// keyspaces.
pub trait VersionedCellKeyspaceExt {
    /// Inserts or replaces one exact version of a cell.
    ///
    /// The timestamp must be supplied explicitly through [`VersionedCell`].
    ///
    /// # Errors
    ///
    /// Returns an error if key encoding fails.
    fn insert_version(&self, cell: &VersionedCell, value: UserValue) -> Result<Mutation, Error>;

    /// Asks for one exact version of a cell.
    ///
    /// # Errors
    ///
    /// Returns an error if key encoding fails.
    fn get_version(&self, cell: &VersionedCell) -> Result<PointRead, Error>;

    /// Starts a scan for the newest version in one
    /// `(row, family, qualifier, visibility)` group.
    ///
    /// # Errors
    ///
    /// Returns an error if key encoding fails.
    fn latest_version(&self, cell: &Cell) -> Result<VersionedScan, Error>;

    /// Starts a scan for versions in one `(row, family, qualifier, visibility)`
    /// group.
    ///
    /// Results are newest matching timestamp first.
    ///
    /// # Errors
    ///
    /// Returns an error if prefix encoding fails.
    fn scan_versions(&self, cell: &Cell, scan: VersionScan) -> Result<VersionedScan, Error>;

    /// Starts a scan for versioned cells matching a composite-key prefix in
    /// encoded order.
    ///
    /// # Errors
    ///
    /// Returns an error if prefix encoding fails.
    fn scan_versioned_prefix(&self, prefix: &CompositePrefix, scan: VersionScan) -> Result<
        VersionedScan,
        Error,
    >;

    /// Deletes one exact version of a cell.
    ///
    /// # Errors
    ///
    /// Returns an error if key encoding fails.
    fn delete_version(&self, cell: &VersionedCell) -> Result<Mutation, Error>;

    /// Starts a deletion of all versions in one
    /// `(row, family, qualifier, visibility)` group.
    ///
    /// This helper issues one raw delete per matching encoded key.
    ///
    /// # Errors
    ///
    /// Returns an error if prefix encoding fails.
    fn delete_versions(&self, cell: &Cell) -> Result<VersionDeletion, Error>;

    /// Starts a deletion of versions older than `timestamp` in one version
    /// group.
    ///
    /// The cutoff is exclusive: a version with exactly `timestamp` is retained.
    ///
    /// # Errors
    ///
    /// Returns an error if prefix encoding fails.
    fn delete_versions_older_than(&self, cell: &Cell, timestamp: i64) -> Result<
        VersionDeletion,
        Error,
    >;
}

impl VersionedCellKeyspaceExt for Keyspace {
    fn insert_version(&self, cell: &VersionedCell, value: UserValue) -> (mutation: Result<
        Mutation,
        Error,
    >)
        ensures
            match mutation {
                Ok(mutation) => {
                    &&& encoded_key(cell@).len() <= MAX_USER_KEY_LEN
                    &&& mutation.keyspace == *self
                    &&& mutation.change@ == (ChangeView::Insert {
                        key: encoded_key(cell@),
                        value: value@,
                    })
                },
                Err(error) => key_outcome(cell@, Err(error)),
            },
    {
        match cell.encode() {
            Ok(key) => Ok(
                Mutation { keyspace: self.clone(), change: Change::Insert { key, value } },
            ),
            Err(error) => Err(error),
        }
    }

    fn get_version(&self, cell: &VersionedCell) -> (read: Result<PointRead, Error>)
        ensures
            reads_version(*self, None, cell@, read),
    {
        read_version(self, None, cell)
    }

    fn latest_version(&self, cell: &Cell) -> (latest: Result<VersionedScan, Error>)
        ensures
            scans_fields(*self, None, Some(cell.at(0).fields()), newest_only(), latest),
    {
        let limits = VersionScan { min_timestamp: None, max_timestamp: None, max_versions: Some(1) };
        self.scan_versions(cell, limits)
    }

    fn scan_versions(&self, cell: &Cell, scan: VersionScan) -> (versions: Result<
        VersionedScan,
        Error,
    >)
        ensures
            scans_fields(*self, None, Some(cell.at(0).fields()), scan, versions),
    {
        self.scan_versioned_prefix(&cell.composite_prefix(), scan)
    }

    fn scan_versioned_prefix(&self, prefix: &CompositePrefix, scan: VersionScan) -> (versions:
        Result<VersionedScan, Error>)
        ensures
            scans_fields(*self, None, prefix.fields(), scan, versions),
    {
        scan_prefix(self, None, prefix, scan)
    }

    fn delete_version(&self, cell: &VersionedCell) -> (mutation: Result<Mutation, Error>)
        ensures
            match mutation {
                Ok(mutation) => {
                    &&& encoded_key(cell@).len() <= MAX_USER_KEY_LEN
                    &&& mutation.keyspace == *self
                    &&& mutation.change@ == (ChangeView::Remove { key: encoded_key(cell@) })
                },
                Err(error) => key_outcome(cell@, Err(error)),
            },
    {
        match cell.encode() {
            Ok(key) => Ok(Mutation { keyspace: self.clone(), change: Change::Remove { key } }),
            Err(error) => Err(error),
        }
    }

    fn delete_versions(&self, cell: &Cell) -> (deletion: Result<VersionDeletion, Error>)
        ensures
            deletes_fields(*self, Some(cell.at(0).fields()), None, deletion),
    {
        delete_versions_matching(self, cell, None)
    }

    fn delete_versions_older_than(&self, cell: &Cell, timestamp: i64) -> (deletion: Result<
        VersionDeletion,
        Error,
    >)
        ensures
            deletes_fields(*self, Some(cell.at(0).fields()), Some(timestamp), deletion),
    {
        delete_versions_matching(self, cell, Some(timestamp))
    }
}

fn delete_versions_matching(keyspace: &Keyspace, cell: &Cell, older_than: Option<i64>) -> (deletion:
    Result<VersionDeletion, Error>)
    ensures
        deletes_fields(*keyspace, Some(cell.at(0).fields()), older_than, deletion),
{
    match cell.composite_prefix().range() {
        Ok(range) => Ok(
            VersionDeletion::new(
                RangeRead { keyspace: keyspace.clone(), snapshot: None, range },
                older_than,
            ),
        ),
        Err(error) => Err(error),
    }
}

} // verus!
