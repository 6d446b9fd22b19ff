//! Laws of versioned cells: what the requests for them ask for.

use vstd::prelude::*;

use crate::cell::{
    deletes_fields, entry_views, key_outcome, newest_only, reads_version, scans_fields, Cell,
    VersionScan, VersionedCell, VersionedEntry,
};
use crate::composite::laws::{
    key_room, lemma_decode_inverts_encode, lemma_key_layout, lemma_prefix_range_selects,
    lemma_range_selects_by_component,
};
use crate::composite::{decoded_key, encoded_key, CompositeKey, CompositePrefix, KeyView};
use crate::error::Error;
use crate::scan::{VersionDeletion, VersionedScan};
use crate::storage::{Keyspace, PointRead, Snapshot, UserKey};

verus! {

/// The view of a version is made of its own fields and timestamp, and so are
/// those of entries.
pub proof fn lemma_views_are_fields(version: VersionedCell, cell: Cell, key: CompositeKey)
    ensures
        version@.row == version.cell.row@,
        version@.family == version.cell.family@,
        version@.qualifier == version.cell.qualifier@,
        version@.visibility == version.cell.visibility@,
        version@.timestamp == version.timestamp,
        key@.row == key.row@,
        key@.family == key.family@,
        key@.qualifier == key.qualifier@,
        key@.visibility == key.visibility@,
        key@.timestamp == key.timestamp,
        forall|timestamp: i64|
            {
                let at = #[trigger] cell.at(timestamp);
                &&& at.row == cell.row@
                &&& at.family == cell.family@
                &&& at.qualifier == cell.qualifier@
                &&& at.visibility == cell.visibility@
                &&& at.timestamp == timestamp
            },
{
}

/// The contents of a list of entries are those of each entry, in order.
pub proof fn lemma_entries_are_elementwise(entries: Seq<VersionedEntry>)
    ensures
        entry_views(entries).len() == entries.len(),
        forall|i: int|
            0 <= i < entries.len() ==> (#[trigger] entry_views(entries)[i]).key
                == entries[i].cell@ && entry_views(entries)[i].value == entries[i].value@,
{
}

/// A key is refused exactly if it takes more room than the user-key length
/// limit allows, and is otherwise one that decodes to the version.
pub proof fn lemma_key_limit(key: KeyView, whole: CompositeKey, outcome: Result<UserKey, Error>)
    requires
        whole@ == key,
        key_outcome(key, outcome),
    ensures
        match outcome {
            Ok(bytes) => key_room(key) <= 65535 && decoded_key(bytes@) == Ok::<KeyView, Error>(key),
            Err(error) => key_room(key) > 65535 && error == Error::InvalidCompositeKey(
                "encoded composite key exceeds Fjall's user-key length limit",
            ),
        },
{
    lemma_key_layout(whole);
    lemma_decode_inverts_encode(key);
}

/// A read of a version asks the given keyspace, at the given point of its
/// history, for a key that decodes to the version.
pub proof fn lemma_reads_ask_for_the_version(
    keyspace: Keyspace,
    snapshot: Option<Snapshot>,
    key: KeyView,
    read: PointRead,
)
    requires
        reads_version(keyspace, snapshot, key, Ok(read)),
    ensures
        read.keyspace == keyspace,
        read.snapshot == snapshot,
        decoded_key(read.key@) == Ok::<KeyView, Error>(key),
{
    lemma_decode_inverts_encode(key);
}

/// A scan for a cell asks the given keyspace, at the given point of its
/// history, for a range that contains a version exactly if it is one of that
/// cell, and starts with nothing found and the given limits.
pub proof fn lemma_cell_scans_ask_for_the_cell(
    keyspace: Keyspace,
    snapshot: Option<Snapshot>,
    cell: Cell,
    limits: VersionScan,
    scan: VersionedScan,
    key: CompositeKey,
)
    requires
        scans_fields(keyspace, snapshot, Some(cell.at(0).fields()), limits, Ok(scan)),
    ensures
        scan.wanted().keyspace == keyspace,
        scan.wanted().snapshot == snapshot,
        scan.limits() == limits,
        scan.found().len() == 0,
        scan.wanted().range.contains(encoded_key(key@)) <==> {
            &&& cell.row@ == key.row@
            &&& cell.family@ == key.family@
            &&& cell.qualifier@ == key.qualifier@
            &&& cell.visibility@ == key.visibility@
        },
{
    let given = cell.at(0).fields();
    lemma_prefix_range_selects(given, scan.wanted().range);
    lemma_same_cell(cell, key);
}

/// A deletion of versions asks the given keyspace for the range of the cell and
/// keeps the given cutoff.
pub proof fn lemma_deletions_ask_for_the_cell(
    keyspace: Keyspace,
    cell: Cell,
    older_than: Option<i64>,
    deletion: VersionDeletion,
    key: CompositeKey,
)
    requires
        deletes_fields(keyspace, Some(cell.at(0).fields()), older_than, Ok(deletion)),
    ensures
        deletion.wanted().keyspace == keyspace,
        deletion.wanted().snapshot is None,
        deletion.cutoff() == older_than,
        deletion.keys().len() == 0,
        deletion.wanted().range.contains(encoded_key(key@)) <==> {
            &&& cell.row@ == key.row@
            &&& cell.family@ == key.family@
            &&& cell.qualifier@ == key.qualifier@
            &&& cell.visibility@ == key.visibility@
        },
{
    let given = cell.at(0).fields();
    lemma_prefix_range_selects(given, deletion.wanted().range);
    lemma_same_cell(cell, key);
}

proof fn lemma_same_cell(cell: Cell, key: CompositeKey)
    ensures
        key@.fields().take(4) == cell.at(0).fields() <==> {
            &&& cell.row@ == key.row@
            &&& cell.family@ == key.family@
            &&& cell.qualifier@ == key.qualifier@
            &&& cell.visibility@ == key.visibility@
        },
{
    let given = cell.at(0).fields();
    let fields = key@.fields();
    let taken = fields.take(4);
    if taken == given {
        assert(forall|i: int| 0 <= i < 4 ==> #[trigger] taken[i] == given[i]);
        assert(forall|i: int| 0 <= i < 4 ==> fields[i] == #[trigger] given[i]);
        assert(given[0] == cell.row@ && given[1] == cell.family@);
        assert(given[2] == cell.qualifier@ && given[3] == cell.visibility@);
    }
    if cell.row@ == key.row@ && cell.family@ == key.family@ && cell.qualifier@ == key.qualifier@
        && cell.visibility@ == key.visibility@ {
        assert(taken =~= given);
    }
}

/// The newest version is asked for by a scan for one version, whatever its
/// timestamp.
pub proof fn lemma_newest_is_one_of_any_age()
    ensures
        newest_only().max_versions == Some(1usize),
        newest_only().min_timestamp is None,
        newest_only().max_timestamp is None,
{
}

/// A prefix scan of a raw keyspace asks for a range that contains a version
/// exactly if each component of the prefix that is given equals that field of
/// the version.
pub proof fn lemma_prefix_scans_ask_by_component(
    keyspace: Keyspace,
    snapshot: Option<Snapshot>,
    prefix: CompositePrefix,
    limits: VersionScan,
    scan: VersionedScan,
    key: CompositeKey,
)
    requires
        scans_fields(keyspace, snapshot, prefix.fields(), limits, Ok(scan)),
    ensures
        scan.wanted().keyspace == keyspace,
        scan.wanted().snapshot == snapshot,
        scan.limits() == limits,
        scan.wanted().range.contains(encoded_key(key@)) <==> {
            &&& prefix.row matches Some(row) ==> row@ == key.row@
            &&& prefix.family matches Some(family) ==> family@ == key.family@
            &&& prefix.qualifier matches Some(qualifier) ==> qualifier@ == key.qualifier@
            &&& prefix.visibility matches Some(visibility) ==> visibility@ == key.visibility@
        },
{
    lemma_range_selects_by_component(prefix, scan.wanted().range, key);
}

} // verus!
