use secure_keyspaces::{
    Authorizations, Cell, Change, CompositePrefix, CryptoContext, CryptoProvider, EncryptionConfig,
    EncryptionScope, Error, KeyBound, KeyspacePermission, Mutation, NoEncryption,
    OptimisticSecureTxDatabase, PointRead, RangeRead, SecureFetch, SecureScan,
    SecureTxKeyspaceOptions, Session, SingleWriterSecureTxDatabase, Snapshot, StaticAuthenticator,
    StaticAuthorizor, StaticPermissionHandler, StoredEntry, TxEnd, VersionScan, VersionedCell,
    VersionedEntry,
};
use std::cell::RefCell;
use std::collections::{BTreeMap, BTreeSet};
use std::path::PathBuf;

/// An in-memory storage engine that performs the library's requests.
#[derive(Clone, Default)]
struct Store {
    keyspaces: BTreeMap<String, BTreeMap<Vec<u8>, Vec<u8>>>,
    snapshots: Vec<BTreeMap<String, BTreeMap<Vec<u8>, Vec<u8>>>>,
}

#[allow(dead_code)]
impl Store {
    fn apply(&mut self, mutation: Mutation) {
        let keyspace = self.keyspaces.entry(mutation.keyspace.name().to_string()).or_default();
        match mutation.change {
            Change::Insert { key, value } => {
                keyspace.insert(key, value);
            }
            Change::Remove { key } => {
                keyspace.remove(&key);
            }
        }
    }

    fn snapshot(&mut self) -> Snapshot {
        self.snapshots.push(self.keyspaces.clone());
        Snapshot {
            seqno: self.snapshots.len() as u64 - 1,
        }
    }

    fn contents(&self, name: &str, snapshot: Option<Snapshot>) -> BTreeMap<Vec<u8>, Vec<u8>> {
        let keyspaces = match snapshot {
            Some(snapshot) => &self.snapshots[snapshot.seqno as usize],
            None => &self.keyspaces,
        };
        keyspaces.get(name).cloned().unwrap_or_default()
    }

    fn get(&self, read: &PointRead) -> Option<Vec<u8>> {
        self.contents(read.keyspace.name(), read.snapshot)
            .get(&read.key)
            .cloned()
    }

    fn list(&self, read: &RangeRead) -> Vec<StoredEntry> {
        let inside = |key: &Vec<u8>| {
            let lower = match &read.range.start {
                KeyBound::Included(bound) => key >= bound,
                KeyBound::Excluded(bound) => key > bound,
                KeyBound::Unbounded => true,
            };
            let upper = match &read.range.end {
                KeyBound::Included(bound) => key <= bound,
                KeyBound::Excluded(bound) => key < bound,
                KeyBound::Unbounded => true,
            };
            lower && upper
        };
        self.contents(read.keyspace.name(), read.snapshot)
            .into_iter()
            .filter(|(key, _)| inside(key))
            .map(|(key, value)| StoredEntry { key, value })
            .collect()
    }
}

/// A transaction of the in-memory engine: it reads its own writes, and notes
/// what it has looked up.
struct EngineTx {
    base: Store,
    view: Store,
    writes: Vec<Mutation>,
    reads: RefCell<BTreeSet<(String, Vec<u8>)>>,
}

#[derive(Debug, PartialEq)]
struct Conflict;

impl EngineTx {
    fn begin(store: &Store) -> Self {
        EngineTx {
            base: store.clone(),
            view: store.clone(),
            writes: vec![],
            reads: RefCell::default(),
        }
    }

    fn write(&mut self, mutation: Mutation) {
        let copy = Mutation {
            keyspace: mutation.keyspace.clone(),
            change: match &mutation.change {
                Change::Insert { key, value } => Change::Insert {
                    key: key.clone(),
                    value: value.clone(),
                },
                Change::Remove { key } => Change::Remove { key: key.clone() },
            },
        };
        self.view.apply(copy);
        self.writes.push(mutation);
    }

    fn fetch<C: CryptoProvider>(&self, fetch: SecureFetch<C>) -> Result<Option<Vec<u8>>, Error> {
        let read = fetch.read();
        self.reads
            .borrow_mut()
            .insert((read.keyspace.name().to_string(), read.key.clone()));
        let stored = self.view.get(read);
        fetch.finish(stored)
    }

    fn scan<C: CryptoProvider>(&self, scan: SecureScan<C>) -> Result<Vec<VersionedEntry>, Error> {
        let listing = self.view.list(scan.read());
        scan.run(listing)
    }

    /// Ends the transaction; a commit conflicts if what it looked up has
    /// changed since it began.
    fn end(self, store: &mut Store, end: TxEnd) -> Result<(), Conflict> {
        if end == TxEnd::Rollback {
            return Ok(());
        }
        for (name, key) in self.reads.borrow().iter() {
            if self.base.contents(name, None).get(key) != store.contents(name, None).get(key) {
                return Err(Conflict);
            }
        }
        for write in self.writes {
            store.apply(write);
        }
        Ok(())
    }
}

type PlainOptions = SecureTxKeyspaceOptions<NoEncryption, ()>;

fn path() -> PathBuf {
    PathBuf::from("secure-database")
}

fn bytes(text: &str) -> Vec<u8> {
    text.as_bytes().to_vec()
}

fn labels(auths: &[&str]) -> Result<Authorizations, Error> {
    Authorizations::from_labels(auths.iter().map(|label| label.to_string()).collect())
}

fn authenticator() -> StaticAuthenticator<String> {
    StaticAuthenticator::new().with_principal(
        "alice".to_string(),
        bytes("secret"),
        "alice".to_string(),
    )
}

fn session(auths: &[&str]) -> Result<Session<String>, Error> {
    Ok(Session {
        identity: "alice".to_string(),
        auths: labels(auths)?,
    })
}

fn authorizor(auths: &[&str]) -> Result<StaticAuthorizor, Error> {
    Ok(StaticAuthorizor::new(labels(auths)?))
}

fn permissions() -> StaticPermissionHandler<String> {
    StaticPermissionHandler::new()
        .with_keyspace_permission("events".to_string(), KeyspacePermission::Read)
        .with_keyspace_permission("events".to_string(), KeyspacePermission::Write)
        .with_keyspace_permission("events".to_string(), KeyspacePermission::Delete)
}

fn cell(visibility: &str, timestamp: i64) -> VersionedCell {
    Cell {
        row: bytes("row"),
        family: bytes("family"),
        qualifier: bytes("qualifier"),
        visibility: bytes(visibility),
    }
    .version(timestamp)
}

fn row_prefix() -> CompositePrefix {
    CompositePrefix {
        row: Some(bytes("row")),
        family: None,
        qualifier: None,
        visibility: None,
    }
}

#[derive(Clone)]
struct TaggedXorCryptoProvider {
    key: u8,
}

impl CryptoProvider for TaggedXorCryptoProvider {
    fn encrypt(&self, _context: CryptoContext<'_>, plaintext: &[u8]) -> Result<Vec<u8>, Error> {
        let mut ciphertext = Vec::with_capacity(plaintext.len() + 1);
        ciphertext.push(self.key);
        ciphertext.extend(plaintext.iter().map(|byte| byte ^ self.key));
        Ok(ciphertext)
    }

    fn decrypt(&self, _context: CryptoContext<'_>, ciphertext: &[u8]) -> Result<Vec<u8>, Error> {
        let Some((&key, rest)) = ciphertext.split_first() else {
            return Err(Error::Crypto("missing test key tag"));
        };

        if key != self.key {
            return Err(Error::Crypto("wrong test key"));
        }

        Ok(rest.iter().map(|byte| byte ^ self.key).collect())
    }
}

fn encryption(key: u8) -> EncryptionConfig<TaggedXorCryptoProvider> {
    EncryptionConfig::new(TaggedXorCryptoProvider { key }, EncryptionScope::Value)
}

#[test]
fn single_writer_secure_tx_reads_own_visible_writes() -> Result<(), Error> {
    let mut store = Store::default();
    let db = SingleWriterSecureTxDatabase::builder(path())
        .authenticator(authenticator())
        .permission_handler(permissions())
        .authorizor(authorizor(&["admin"])?)
        .open()?;
    let keyspace = db.secure_keyspace("events", PlainOptions::default)?.keyspace;
    let session = session(&["admin"])?;

    let mut tx = db.begin_secure_tx(&session);
    let mut engine = EngineTx::begin(&store);
    engine.write(tx.insert_version(&keyspace, &cell("admin", 1), bytes("visible"))?);
    engine.write(tx.insert_version(&keyspace, &cell("audit", 1), bytes("hidden"))?);

    assert_eq!(
        Some(bytes("visible")),
        engine.fetch(tx.get_version(&keyspace, &cell("admin", 1))?)?,
    );
    assert_eq!(
        None,
        engine.fetch(tx.get_version(&keyspace, &cell("audit", 1))?)?,
    );

    let entries = engine.scan(tx.scan_versioned_prefix(
        &keyspace,
        &CompositePrefix {
            row: Some(bytes("row")),
            family: None,
            qualifier: None,
            visibility: None,
        },
        &VersionScan::default(),
    )?)?;
    assert_eq!(1, entries.len());

    assert_eq!(Ok(()), engine.end(&mut store, tx.commit()));

    Ok(())
}

#[test]
fn single_writer_secure_tx_encrypts_and_decrypts_values() -> Result<(), Error> {
    let mut store = Store::default();
    let db = SingleWriterSecureTxDatabase::builder(path())
        .authenticator(authenticator())
        .permission_handler(permissions())
        .authorizor(authorizor(&["admin"])?)
        .open()?;
    let opening = db.secure_keyspace("events", || {
        PlainOptions::default().with_encryption(encryption(0x5a))
    })?;
    let keyspace = opening.keyspace;
    let session = session(&["admin"])?;
    let cell = cell("admin", 1);

    let mut tx = db.begin_secure_tx(&session);
    let mut engine = EngineTx::begin(&store);
    engine.write(tx.insert_version(&keyspace, &cell, bytes("plaintext"))?);
    assert_eq!(
        Some(bytes("plaintext")),
        engine.fetch(tx.get_version(&keyspace, &cell)?)?,
    );
    assert_eq!(Ok(()), engine.end(&mut store, tx.commit()));

    let encoded_key = cell.encode()?;
    let stored = store
        .contents(opening.request.keyspace.name(), None)
        .get(&encoded_key)
        .cloned()
        .expect("value should exist");
    assert_ne!(stored, b"plaintext");

    let tx = db.begin_secure_tx(&session);
    let engine = EngineTx::begin(&store);
    assert_eq!(
        Some(bytes("plaintext")),
        engine.fetch(tx.get_version(&keyspace, &cell)?)?,
    );

    Ok(())
}

#[test]
fn single_writer_permission_denial_happens_before_staging() -> Result<(), Error> {
    let mut store = Store::default();
    let db = SingleWriterSecureTxDatabase::builder(path())
        .authenticator(authenticator())
        .permission_handler(StaticPermissionHandler::new())
        .authorizor(authorizor(&["admin"])?)
        .open()?;
    let opening = db.secure_keyspace("events", PlainOptions::default)?;
    let keyspace = opening.keyspace;
    let session = session(&["admin"])?;

    let mut tx = db.begin_secure_tx(&session);
    let engine = EngineTx::begin(&store);
    assert!(matches!(
        tx.insert_version(&keyspace, &cell("admin", 1), bytes("blocked")),
        Err(Error::PermissionDenied("keyspace:write")),
    ));
    assert_eq!(Ok(()), engine.end(&mut store, tx.commit()));

    assert!(store
        .contents(opening.request.keyspace.name(), None)
        .is_empty());

    Ok(())
}

#[test]
fn optimistic_secure_tx_reads_and_commits_visible_writes() -> Result<(), Error> {
    let mut store = Store::default();
    let db = OptimisticSecureTxDatabase::builder(path())
        .authenticator(authenticator())
        .permission_handler(permissions())
        .authorizor(authorizor(&["admin"])?)
        .open()?;
    let keyspace = db.secure_keyspace("events", PlainOptions::default)?.keyspace;
    let session = session(&["admin"])?;

    let mut tx = db.begin_secure_tx(&session);
    let mut engine = EngineTx::begin(&store);
    engine.write(tx.insert_version(&keyspace, &cell("admin", 1), bytes("visible"))?);
    assert_eq!(
        Some(bytes("visible")),
        engine.fetch(tx.get_version(&keyspace, &cell("admin", 1))?)?,
    );
    assert!(engine.end(&mut store, tx.commit()).is_ok());

    Ok(())
}

#[test]
fn optimistic_secure_tx_conflicts_on_unauthorized_physical_key() -> Result<(), Error> {
    let mut store = Store::default();
    let db = OptimisticSecureTxDatabase::builder(path())
        .authenticator(authenticator())
        .permission_handler(permissions())
        .authorizor(authorizor(&["admin"])?)
        .open()?;
    let keyspace = db.secure_keyspace("events", PlainOptions::default)?.keyspace;
    let admin_session = session(&["admin"])?;
    let hidden_session = session(&[])?;

    let mut tx1 = db.begin_secure_tx(&admin_session);
    let mut engine1 = EngineTx::begin(&store);
    let mut tx2 = db.begin_secure_tx(&hidden_session);
    let mut engine2 = EngineTx::begin(&store);

    assert_eq!(
        None,
        engine2.fetch(tx2.get_version(&keyspace, &cell("admin", 1))?)?,
    );

    engine1.write(tx1.insert_version(&keyspace, &cell("admin", 1), bytes("tx1"))?);
    assert!(engine1.end(&mut store, tx1.commit()).is_ok());

    engine2.write(tx2.insert_version(&keyspace, &cell("admin", 1), bytes("tx2"))?);
    assert!(matches!(engine2.end(&mut store, tx2.commit()), Err(Conflict)));

    Ok(())
}

#[test]
fn optimistic_begin_captures_authorizations() -> Result<(), Error> {
    let store = Store::default();
    let db = OptimisticSecureTxDatabase::builder(path())
        .authenticator(authenticator())
        .permission_handler(permissions())
        .authorizor(authorizor(&["admin"])?)
        .open()?;
    let keyspace = db.secure_keyspace("events", PlainOptions::default)?.keyspace;
    let mut session = session(&["admin"])?;

    let mut tx = db.begin_secure_tx(&session);
    let mut engine = EngineTx::begin(&store);
    session.auths = Authorizations::empty();

    engine.write(tx.insert_version(&keyspace, &cell("admin", 1), bytes("visible"))?);
    assert_eq!(
        Some(bytes("visible")),
        engine.fetch(tx.get_version(&keyspace, &cell("admin", 1))?)?,
    );

    Ok(())
}

#[test]
fn rolled_back_and_deleted_versions_are_gone() -> Result<(), Error> {
    let mut store = Store::default();
    let db = OptimisticSecureTxDatabase::builder(path())
        .authenticator(authenticator())
        .permission_handler(permissions())
        .authorizor(authorizor(&["admin"])?)
        .open()?
        .clone();
    let opening = db.secure_keyspace("events", PlainOptions::default)?;
    let keyspace = opening.keyspace.clone();
    let session = session(&["admin"])?;

    let mut tx = db.begin_secure_tx(&session);
    let mut engine = EngineTx::begin(&store);
    engine.write(tx.insert_version(&keyspace, &cell("admin", 1), bytes("v"))?);
    assert_eq!(TxEnd::Rollback, tx.rollback());
    assert_eq!(Ok(()), engine.end(&mut store, TxEnd::Rollback));
    assert!(store
        .contents(opening.request.keyspace.name(), None)
        .is_empty());

    let mut tx = db.begin_secure_tx(&session);
    let mut engine = EngineTx::begin(&store);
    engine.write(tx.insert_version(&keyspace, &cell("admin", 1), bytes("v"))?);
    engine.write(tx.delete_version(&keyspace, &cell("admin", 1))?);
    assert_eq!(
        None,
        engine.fetch(tx.get_version(&keyspace, &cell("admin", 1))?)?,
    );
    let scan = tx.scan_versioned_prefix(&keyspace, &row_prefix(), &VersionScan::default())?;
    assert_eq!(Ok(vec![]), engine.scan(scan));
    assert_eq!("events", keyspace.name());
    assert_eq!(path(), *db.inner().inner.path);

    Ok(())
}

#[test]
fn transactions_look_up_hidden_versions_and_report_invalid_ones_late() -> Result<(), Error> {
    let db = SingleWriterSecureTxDatabase::builder(path())
        .authenticator(authenticator())
        .permission_handler(permissions())
        .authorizor(authorizor(&[])?)
        .open()?;
    let keyspace = db.secure_keyspace("events", PlainOptions::default)?.keyspace;
    let tx = db.begin_secure_tx(&session(&[])?);

    let hidden = tx.get_version(&keyspace, &cell("admin", 1))?;
    assert_eq!(cell("admin", 1).encode()?, hidden.read().key);
    assert_eq!(Ok(None), hidden.finish(Some(bytes("stored"))));
    let invalid = tx.get_version(&keyspace, &cell("admin|", 1))?;
    assert_eq!(
        Err(Error::InvalidVisibilityExpression(
            "expected label or parenthesized expression"
        )),
        invalid.finish(None),
    );

    Ok(())
}

#[test]
fn transactional_databases_need_every_provider_and_valid_retention() -> Result<(), Error> {
    let missing = SingleWriterSecureTxDatabase::builder(path())
        .permission_handler(permissions())
        .authorizor(authorizor(&[])?);
    let missing = secure_keyspaces::SingleWriterSecureTxDatabaseBuilder::<
        StaticAuthenticator<String>,
        _,
        _,
        _,
    >::open(missing);
    assert_eq!(
        Some(Error::MissingSecurityProvider("authenticator")),
        missing.err(),
    );
    let db = OptimisticSecureTxDatabase::builder(path())
        .authenticator(authenticator())
        .permission_handler(permissions())
        .authorizor(authorizor(&[])?)
        .open()?;
    let refused = db.secure_keyspace("events", || {
        PlainOptions::default().with_retention(secure_keyspaces::RetentionPolicy {
            max_versions: None,
            ttl: Some(secure_keyspaces::Ttl::from_secs(0)),
        })
    });
    assert_eq!(
        Some(Error::InvalidPolicy("ttl must be greater than zero")),
        refused.err(),
    );

    Ok(())
}

#[test]
fn transactions_need_a_permission_for_every_operation() -> Result<(), Error> {
    let db = OptimisticSecureTxDatabase::builder(path())
        .authenticator(authenticator())
        .permission_handler(StaticPermissionHandler::new())
        .authorizor(authorizor(&["admin"])?)
        .open()?;
    let keyspace = db.secure_keyspace("events", PlainOptions::default)?.keyspace;
    let mut tx = db.begin_secure_tx(&session(&["admin"])?);
    let cell = cell("admin", 1);

    assert_eq!(
        Some(Error::PermissionDenied("keyspace:write")),
        tx.insert_version(&keyspace, &cell, bytes("v")).err(),
    );
    assert_eq!(
        Some(Error::PermissionDenied("keyspace:delete")),
        tx.delete_version(&keyspace, &cell).err(),
    );
    assert_eq!(
        Some(Error::PermissionDenied("keyspace:read")),
        tx.get_version(&keyspace, &cell).err(),
    );
    assert_eq!(
        Some(Error::PermissionDenied("keyspace:read")),
        tx.scan_versioned_prefix(&keyspace, &row_prefix(), &VersionScan::default())
            .err(),
    );

    Ok(())
}
