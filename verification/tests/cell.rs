use secure_keyspaces::{
    Cell, Change, CompositeKey, CompositePrefix, Database, Error, KeyBound, Keyspace, Mutation,
    PointRead, RangeRead, Snapshot, StoredEntry, VersionDeletion, VersionScan, VersionedCell,
    VersionedCellKeyspaceExt, VersionedCellReadExt, VersionedEntry, VersionedScan,
};
use std::collections::BTreeMap;
use std::path::PathBuf;
use std::sync::Arc;

/// An in-memory storage engine that performs the library's requests.
#[derive(Clone, Default)]
struct Store {
    keyspaces: BTreeMap<String, BTreeMap<Vec<u8>, Vec<u8>>>,
    snapshots: Vec<BTreeMap<String, BTreeMap<Vec<u8>, Vec<u8>>>>,
}

#[allow(dead_code)]
impl Store {
    fn apply(&mut self, mutation: Mutation) {
        let keyspace = self.keyspaces.entry(mutation.keyspace.name().to_string()).or_default();
        match mutation.change {
            Change::Insert { key, value } => {
                keyspace.insert(key, value);
            }
            Change::Remove { key } => {
                keyspace.remove(&key);
            }
        }
    }

    fn snapshot(&mut self) -> Snapshot {
        self.snapshots.push(self.keyspaces.clone());
        Snapshot {
            seqno: self.snapshots.len() as u64 - 1,
        }
    }

    fn contents(&self, name: &str, snapshot: Option<Snapshot>) -> BTreeMap<Vec<u8>, Vec<u8>> {
        let keyspaces = match snapshot {
            Some(snapshot) => &self.snapshots[snapshot.seqno as usize],
            None => &self.keyspaces,
        };
        keyspaces.get(name).cloned().unwrap_or_default()
    }

    fn get(&self, read: &PointRead) -> Option<Vec<u8>> {
        self.contents(read.keyspace.name(), read.snapshot)
            .get(&read.key)
            .cloned()
    }

    fn list(&self, read: &RangeRead) -> Vec<StoredEntry> {
        let inside = |key: &Vec<u8>| {
            let lower = match &read.range.start {
                KeyBound::Included(bound) => key >= bound,
                KeyBound::Excluded(bound) => key > bound,
                KeyBound::Unbounded => true,
            };
            let upper = match &read.range.end {
                KeyBound::Included(bound) => key <= bound,
                KeyBound::Excluded(bound) => key < bound,
                KeyBound::Unbounded => true,
            };
            lower && upper
        };
        self.contents(read.keyspace.name(), read.snapshot)
            .into_iter()
            .filter(|(key, _)| inside(key))
            .map(|(key, value)| StoredEntry { key, value })
            .collect()
    }
}

fn bytes(text: &str) -> Vec<u8> {
    text.as_bytes().to_vec()
}

fn open_keyspace() -> (Store, Keyspace) {
    let database = Database {
        path: Arc::new(PathBuf::from("database")),
    };
    let keyspace = database.keyspace("secure").unwrap();

    (Store::default(), keyspace)
}

fn cell() -> Cell {
    Cell {
        row: bytes("row-a"),
        family: bytes("family-a"),
        qualifier: bytes("qualifier-a"),
        visibility: bytes("admin"),
    }
}

fn timestamps(entries: &[VersionedEntry]) -> Vec<i64> {
    entries.iter().map(|entry| entry.cell.timestamp).collect()
}

fn values(entries: &[VersionedEntry]) -> Vec<Vec<u8>> {
    entries.iter().map(|entry| entry.value.clone()).collect()
}

fn scan(store: &Store, scan: VersionedScan) -> Result<Vec<VersionedEntry>, Error> {
    let listing = store.list(scan.read());
    scan.run(listing)
}

fn latest(store: &Store, mut scan: VersionedScan) -> Result<Option<VersionedEntry>, Error> {
    for entry in store.list(scan.read()) {
        if !scan.wants_more() {
            break;
        }
        scan.offer(entry)?;
    }
    Ok(scan.into_first())
}

fn delete(store: &mut Store, deletion: VersionDeletion) -> Result<usize, Error> {
    let keys = store
        .list(deletion.read())
        .into_iter()
        .map(|entry| entry.key)
        .collect();
    let mutations = deletion.run(keys)?;
    let count = mutations.len();
    for mutation in mutations {
        store.apply(mutation);
    }
    Ok(count)
}

#[test]
fn scans_versions_newest_first() -> Result<(), Error> {
    let (mut store, keyspace) = open_keyspace();
    let cell = cell();

    store.apply(keyspace.insert_version(&cell.version(7), bytes("value-7"))?);
    store.apply(keyspace.insert_version(&cell.version(9), bytes("value-9"))?);
    store.apply(keyspace.insert_version(&cell.version(5), bytes("value-5"))?);

    let history = scan(&store, keyspace.scan_versions(&cell, VersionScan::default())?)?;

    assert_eq!(vec![9, 7, 5], timestamps(&history));
    assert_eq!(
        vec![bytes("value-9"), bytes("value-7"), bytes("value-5")],
        values(&history),
    );

    Ok(())
}

#[test]
fn reads_exact_and_latest_versions() -> Result<(), Error> {
    let (mut store, keyspace) = open_keyspace();
    let cell = cell();

    store.apply(keyspace.insert_version(&cell.version(1), bytes("old"))?);
    store.apply(keyspace.insert_version(&cell.version(2), bytes("new"))?);

    let exact = keyspace.get_version(&cell.version(1))?;
    assert_eq!(Some(bytes("old")), store.get(&exact));
    assert_eq!(
        Some(VersionedEntry {
            cell: cell.version(2),
            value: bytes("new"),
        }),
        latest(&store, keyspace.latest_version(&cell)?)?,
    );

    Ok(())
}

#[test]
fn applies_timestamp_bounds_and_version_limit() -> Result<(), Error> {
    let (mut store, keyspace) = open_keyspace();
    let cell = cell();

    for timestamp in [1, 2, 3, 4, 5] {
        store.apply(
            keyspace.insert_version(&cell.version(timestamp), bytes(&timestamp.to_string()))?,
        );
    }

    let history = scan(
        &store,
        keyspace.scan_versions(
            &cell,
            VersionScan {
                min_timestamp: Some(2),
                max_timestamp: Some(4),
                max_versions: Some(2),
            },
        )?,
    )?;

    assert_eq!(vec![4, 3], timestamps(&history));

    Ok(())
}

#[test]
fn snapshot_reads_filter_versions_after_storage_snapshot() -> Result<(), Error> {
    let (mut store, keyspace) = open_keyspace();
    let cell = cell();

    store.apply(keyspace.insert_version(&cell.version(1), bytes("v1"))?);
    let snapshot = store.snapshot();
    store.apply(keyspace.insert_version(&cell.version(2), bytes("v2"))?);

    assert_eq!(
        vec![1],
        timestamps(&scan(
            &store,
            snapshot.scan_versions(&keyspace, &cell, VersionScan::default())?
        )?),
    );
    assert_eq!(
        vec![2, 1],
        timestamps(&scan(
            &store,
            keyspace.scan_versions(&cell, VersionScan::default())?
        )?),
    );

    Ok(())
}

#[test]
fn deletes_exact_group_and_older_versions() -> Result<(), Error> {
    let (mut store, keyspace) = open_keyspace();
    let cell = cell();

    for timestamp in [1, 2, 3, 4] {
        store.apply(
            keyspace.insert_version(&cell.version(timestamp), bytes(&timestamp.to_string()))?,
        );
    }

    store.apply(keyspace.delete_version(&cell.version(3))?);
    assert_eq!(
        vec![4, 2, 1],
        timestamps(&scan(
            &store,
            keyspace.scan_versions(&cell, VersionScan::default())?
        )?),
    );

    delete(&mut store, keyspace.delete_versions_older_than(&cell, 2)?)?;
    assert_eq!(
        vec![4, 2],
        timestamps(&scan(
            &store,
            keyspace.scan_versions(&cell, VersionScan::default())?
        )?),
    );

    delete(&mut store, keyspace.delete_versions(&cell)?)?;
    assert!(scan(
        &store,
        keyspace.scan_versions(&cell, VersionScan::default())?
    )?
    .is_empty());

    Ok(())
}

#[test]
fn scans_composite_prefix_in_encoded_order() -> Result<(), Error> {
    let (mut store, keyspace) = open_keyspace();
    let first = cell();
    let second = Cell {
        row: bytes("row-a"),
        family: bytes("family-a"),
        qualifier: bytes("qualifier-b"),
        visibility: bytes("admin"),
    };

    store.apply(keyspace.insert_version(&second.version(1), bytes("second"))?);
    store.apply(keyspace.insert_version(&first.version(1), bytes("first-old"))?);
    store.apply(keyspace.insert_version(&first.version(2), bytes("first-new"))?);

    let entries = scan(
        &store,
        keyspace.scan_versioned_prefix(
            &CompositePrefix {
                row: Some(bytes("row-a")),
                family: Some(bytes("family-a")),
                qualifier: None,
                visibility: None,
            },
            VersionScan::default(),
        )?,
    )?;

    assert_eq!(
        vec![first.version(2), first.version(1), second.version(1),],
        entries
            .into_iter()
            .map(|entry| entry.cell)
            .collect::<Vec<_>>(),
    );

    Ok(())
}

#[test]
fn a_limit_of_zero_returns_nothing() -> Result<(), Error> {
    let (mut store, keyspace) = open_keyspace();
    let cell = cell();
    store.apply(keyspace.insert_version(&cell.version(1), bytes("v1"))?);

    let limits = VersionScan {
        max_versions: Some(0),
        ..VersionScan::default()
    };
    assert!(!keyspace.scan_versions(&cell, limits)?.wants_more());
    assert!(scan(&store, keyspace.scan_versions(&cell, limits)?)?.is_empty());

    Ok(())
}

#[test]
fn latest_version_of_nothing_is_none() -> Result<(), Error> {
    let (mut store, keyspace) = open_keyspace();
    let cell = cell();
    let other = Cell {
        visibility: bytes("audit"),
        ..cell.clone()
    };
    store.apply(keyspace.insert_version(&other.version(9), bytes("other"))?);

    assert_eq!(None, latest(&store, keyspace.latest_version(&cell)?)?);
    let read = keyspace.get_version(&cell.version(9))?;
    assert_eq!(None, store.get(&read));

    Ok(())
}

#[test]
fn snapshots_read_exact_and_latest_versions() -> Result<(), Error> {
    let (mut store, keyspace) = open_keyspace();
    let cell = cell();
    store.apply(keyspace.insert_version(&cell.version(1), bytes("old"))?);
    let snapshot = store.snapshot();
    store.apply(keyspace.insert_version(&cell.version(1), bytes("replaced"))?);
    store.apply(keyspace.insert_version(&cell.version(2), bytes("new"))?);

    let read = snapshot.get_version(&keyspace, &cell.version(1))?;
    assert_eq!(Some(snapshot), read.snapshot);
    assert_eq!(Some(bytes("old")), store.get(&read));
    let newest = latest(&store, snapshot.latest_version(&keyspace, &cell)?)?;
    assert_eq!(Some(1), newest.map(|entry| entry.cell.timestamp));
    let prefix = cell.composite_prefix();
    let scanned = snapshot.scan_versioned_prefix(&keyspace, &prefix, VersionScan::default())?;
    assert_eq!(vec![1], timestamps(&scan(&store, scanned)?));

    Ok(())
}

#[test]
fn scans_stop_at_undecodable_keys() -> Result<(), Error> {
    let keyspace = open_keyspace().1;
    let malformed = Error::InvalidCompositeKey("unterminated composite key field");
    let listing = || {
        vec![
            StoredEntry {
                key: cell().version(2).encode().unwrap(),
                value: bytes("v2"),
            },
            StoredEntry {
                key: vec![1, 7],
                value: bytes("stray"),
            },
        ]
    };

    let unlimited = keyspace.scan_versions(&cell(), VersionScan::default())?;
    assert_eq!(Err(malformed), unlimited.run(listing()));
    // A scan that has enough does not look at the rest.
    let limited = keyspace.latest_version(&cell())?;
    assert_eq!(vec![2], timestamps(&limited.run(listing())?));
    let deletion = keyspace.delete_versions(&cell())?;
    assert_eq!(
        Err(malformed),
        deletion.run(listing().into_iter().map(|entry| entry.key).collect()),
    );

    Ok(())
}

#[test]
fn deletion_cutoff_is_exclusive_and_leaves_other_cells() -> Result<(), Error> {
    let (mut store, keyspace) = open_keyspace();
    let other = Cell {
        qualifier: bytes("qualifier-b"),
        ..cell()
    };
    for timestamp in [-1, 0, 1] {
        store.apply(keyspace.insert_version(&cell().version(timestamp), bytes("x"))?);
        store.apply(keyspace.insert_version(&other.version(timestamp), bytes("y"))?);
    }

    let mut deletion = keyspace.delete_versions_older_than(&cell(), 0)?;
    for entry in store.list(deletion.read()) {
        deletion.offer(entry.key)?;
    }
    let mutations = deletion.into_mutations();
    assert_eq!(
        vec![Mutation {
            keyspace: keyspace.clone(),
            change: Change::Remove {
                key: cell().version(-1).encode()?,
            },
        }],
        mutations,
    );
    assert_eq!(2, delete(&mut store, keyspace.delete_versions_older_than(&cell(), 1)?)?);
    assert_eq!(
        vec![1, 0, -1],
        timestamps(&scan(
            &store,
            keyspace.scan_versions(&other, VersionScan::default())?
        )?),
    );

    Ok(())
}

#[test]
fn oversized_cells_are_refused_everywhere() {
    let keyspace = open_keyspace().1;
    let huge = Cell {
        row: vec![b'r'; 70_000],
        ..cell()
    };
    let too_long = Error::InvalidCompositeKey(
        "encoded composite key exceeds Fjall's user-key length limit",
    );

    assert_eq!(Err(too_long), keyspace.insert_version(&huge.version(1), vec![]));
    assert_eq!(Err(too_long), keyspace.get_version(&huge.version(1)));
    assert_eq!(Err(too_long), keyspace.delete_version(&huge.version(1)));
    assert_eq!(Some(too_long), keyspace.latest_version(&huge).err());
    assert_eq!(Some(too_long), keyspace.delete_versions(&huge).err());
}

#[test]
fn versions_convert_to_keys_and_back() -> Result<(), Error> {
    let version = cell().version(-3);
    let key = CompositeKey::from(&version);

    assert_eq!(version.encode(), key.encode());
    assert_eq!(version, VersionedCell::from(key));
    assert_eq!(
        version,
        VersionedCell::from(CompositeKey::decode(&version.encode()?)?),
    );

    Ok(())
}

#[test]
fn keys_outside_the_range_do_not_matter() -> Result<(), Error> {
    let (mut store, keyspace) = open_keyspace();
    let cell = cell();
    let stray = |key: &[u8]| Mutation {
        keyspace: keyspace.clone(),
        change: Change::Insert {
            key: key.to_vec(),
            value: bytes("stray"),
        },
    };
    store.apply(stray(b"\0"));
    store.apply(stray(b"plain"));
    for timestamp in [1, 2] {
        store.apply(keyspace.insert_version(&cell.version(timestamp), bytes("v"))?);
    }

    let versions = scan(&store, keyspace.scan_versions(&cell, VersionScan::default())?)?;
    assert_eq!(vec![2, 1], timestamps(&versions));
    let newest = latest(&store, keyspace.latest_version(&cell)?)?;
    assert_eq!(Some(2), newest.map(|entry| entry.cell.timestamp));
    assert_eq!(2, delete(&mut store, keyspace.delete_versions(&cell)?)?);
    assert_eq!(
        vec![b"\0".to_vec(), b"plain".to_vec()],
        store
            .contents(keyspace.name(), None)
            .into_keys()
            .collect::<Vec<_>>(),
    );

    Ok(())
}
