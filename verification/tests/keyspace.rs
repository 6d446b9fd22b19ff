use secure_keyspaces::policy::{SecureRetentionFilter, Verdict};
use secure_keyspaces::{
    AllowAllPermissions, AuditEvent, AuditFailureMode, AuditSink, Authorizations, Cell, Change,
    CompositePrefix, Credentials, CryptoContext, CryptoProvider, EncryptionConfig, EncryptionScope,
    Error, KeyBound, KeyspacePermission, Mutation, NoAuditSink, NoEncryption, OpenKeyspace,
    PointRead, RangeRead, RetentionPolicy, SecureDatabase, SecureFetch, SecureKeyspaceOptions,
    SecureScan, Session, StaticAuthenticator, StaticAuthorizor, StaticPermissionHandler,
    StoredEntry, Ttl, VersionScan, VersionedCell, VersionedEntry,
};
use std::collections::BTreeMap;
use std::path::PathBuf;
use std::sync::{Arc, Mutex};
use std::time::{SystemTime, UNIX_EPOCH};

/// Part of a keyspace; a key without a value is a tombstone.
type Segment = BTreeMap<Vec<u8>, Option<Vec<u8>>>;

/// An in-memory storage engine that performs the library's requests. Each
/// keyspace is a list of segments, of which the last takes the writes.
#[derive(Default)]
struct Store {
    keyspaces: BTreeMap<String, Vec<Segment>>,
}

impl Store {
    fn apply(&mut self, mutation: Mutation) {
        let segments = self.keyspaces.entry(mutation.keyspace.name().to_string()).or_default();
        if segments.is_empty() {
            segments.push(Segment::new());
        }
        if let Some(active) = segments.last_mut() {
            match mutation.change {
                Change::Insert { key, value } => active.insert(key, Some(value)),
                Change::Remove { key } => active.insert(key, None),
            };
        }
    }

    /// Seals the segment that takes the writes.
    fn rotate(&mut self, name: &str) {
        if let Some(segments) = self.keyspaces.get_mut(name) {
            segments.push(Segment::new());
        }
    }

    /// Merges the segments of a keyspace; newer ones win, and tombstones hide.
    fn contents(&self, name: &str) -> BTreeMap<Vec<u8>, Vec<u8>> {
        let mut merged = Segment::new();
        for segment in self.keyspaces.get(name).into_iter().flatten() {
            merged.extend(segment.clone());
        }
        merged
            .into_iter()
            .filter_map(|(key, value)| value.map(|value| (key, value)))
            .collect()
    }

    fn get(&self, read: &PointRead) -> Option<Vec<u8>> {
        assert_eq!(None, read.snapshot);
        self.contents(read.keyspace.name()).get(&read.key).cloned()
    }

    fn list(&self, read: &RangeRead) -> Vec<StoredEntry> {
        let inside = |key: &Vec<u8>| {
            let lower = match &read.range.start {
                KeyBound::Included(bound) => key >= bound,
                KeyBound::Excluded(bound) => key > bound,
                KeyBound::Unbounded => true,
            };
            let upper = match &read.range.end {
                KeyBound::Included(bound) => key <= bound,
                KeyBound::Excluded(bound) => key < bound,
                KeyBound::Unbounded => true,
            };
            lower && upper
        };
        self.contents(read.keyspace.name())
            .into_iter()
            .filter(|(key, _)| inside(key))
            .map(|(key, value)| StoredEntry { key, value })
            .collect()
    }
}

impl Store {
    fn fetch<C: CryptoProvider>(
        &self,
        fetch: Option<SecureFetch<C>>,
    ) -> Result<Option<Vec<u8>>, Error> {
        match fetch {
            Some(fetch) => {
                let stored = self.get(fetch.read());
                fetch.finish(stored)
            }
            None => Ok(None),
        }
    }

    fn scan<C: CryptoProvider>(&self, scan: SecureScan<C>) -> Result<Vec<VersionedEntry>, Error> {
        let listing = self.list(scan.read());
        scan.run(listing)
    }

    /// Merges all segments of a keyspace into one, with its retention. Tombstones
    /// are not shown to the filter; what it removes becomes one, so that older
    /// segments stay hidden, and all of them are dropped from the result.
    fn compact<S: AuditSink<String>, O>(
        &mut self,
        request: OpenKeyspace<String, S, O>,
        now: i64,
    ) -> Result<(), Error> {
        let name = request.keyspace.name().to_string();
        let mut merged = Segment::new();
        for segment in self.keyspaces.get(&name).into_iter().flatten() {
            merged.extend(segment.clone());
        }
        if let Some(policy) = request.retention {
            let mut filter = SecureRetentionFilter::new(policy, now);
            for (key, value) in merged.iter_mut().filter(|(_, value)| value.is_some()) {
                assert!(filter.has_room());
                if filter.filter_item(key)? == Verdict::Remove {
                    *value = None;
                }
            }
        }
        merged.retain(|_, value| value.is_some());
        self.keyspaces.insert(name, vec![merged]);
        Ok(())
    }
}

type PlainOptions = SecureKeyspaceOptions<NoEncryption, ()>;

fn path() -> PathBuf {
    PathBuf::from("secure-database")
}

fn bytes(text: &str) -> Vec<u8> {
    text.as_bytes().to_vec()
}

fn authenticator() -> StaticAuthenticator<String> {
    StaticAuthenticator::new().with_principal(
        "alice".to_string(),
        bytes("secret"),
        "alice".to_string(),
    )
}

fn authorizor(labels: &[&str]) -> Result<StaticAuthorizor, Error> {
    Ok(StaticAuthorizor::new(Authorizations::from_labels(
        labels.iter().map(|label| label.to_string()).collect(),
    )?))
}

fn credentials(principal: &str, secret: &str) -> Credentials {
    Credentials::new(principal.to_string(), bytes(secret))
}

fn cell(visibility: &str, timestamp: i64) -> VersionedCell {
    VersionedCell {
        cell: Cell {
            row: bytes("row"),
            family: bytes("family"),
            qualifier: bytes("qualifier"),
            visibility: bytes(visibility),
        },
        timestamp,
    }
}

#[derive(Clone)]
struct TaggedXorCryptoProvider {
    key: u8,
}

impl CryptoProvider for TaggedXorCryptoProvider {
    fn encrypt(&self, _context: CryptoContext<'_>, plaintext: &[u8]) -> Result<Vec<u8>, Error> {
        let mut ciphertext = Vec::with_capacity(plaintext.len() + 1);
        ciphertext.push(self.key);
        ciphertext.extend(plaintext.iter().map(|byte| byte ^ self.key));
        Ok(ciphertext)
    }

    fn decrypt(&self, _context: CryptoContext<'_>, ciphertext: &[u8]) -> Result<Vec<u8>, Error> {
        let Some((&key, rest)) = ciphertext.split_first() else {
            return Err(Error::Crypto("missing test key tag"));
        };

        if key != self.key {
            return Err(Error::Crypto("wrong test key"));
        }

        Ok(rest.iter().map(|byte| byte ^ self.key).collect())
    }
}

fn encryption(key: u8) -> EncryptionConfig<TaggedXorCryptoProvider> {
    EncryptionConfig::new(TaggedXorCryptoProvider { key }, EncryptionScope::Value)
}

#[derive(Clone, Default)]
struct RecordingAuditSink {
    events: Arc<Mutex<Vec<String>>>,
    fail: bool,
}

impl RecordingAuditSink {
    fn failing() -> Self {
        Self {
            events: Arc::default(),
            fail: true,
        }
    }

    fn events(&self) -> Vec<String> {
        match self.events.lock() {
            Ok(events) => events.clone(),
            Err(err) => panic!("audit events lock: {err}"),
        }
    }
}

impl AuditSink<String> for RecordingAuditSink {
    fn record(&self, event: AuditEvent<'_, String>) -> Result<(), Error> {
        if self.fail {
            return Err(Error::Audit("test audit failure"));
        }

        let label = match event {
            AuditEvent::AuthenticationSucceeded { .. } => "auth-succeeded".to_string(),
            AuditEvent::AuthenticationFailed => "auth-failed".to_string(),
            AuditEvent::AuthorizationDenied { keyspace, .. } => {
                format!("authorization-denied:{keyspace}")
            }
            AuditEvent::PolicyViolation { keyspace } => {
                format!("policy-violation:{keyspace}")
            }
            AuditEvent::CompactionDeleted { keyspace, reason } => {
                format!("compaction-deleted:{keyspace}:{reason:?}")
            }
            AuditEvent::KeyspaceAccess { keyspace, .. } => {
                format!("keyspace-access:{keyspace}")
            }
        };

        match self.events.lock() {
            Ok(mut events) => events.push(label),
            Err(err) => panic!("audit events lock: {err}"),
        }
        Ok(())
    }
}

fn row_prefix() -> CompositePrefix {
    CompositePrefix {
        row: Some(bytes("row")),
        family: None,
        qualifier: None,
        visibility: None,
    }
}

fn unix_seconds_now() -> i64 {
    let seconds = SystemTime::now()
        .duration_since(UNIX_EPOCH)
        .map_or(0, |duration| duration.as_secs());

    i64::try_from(seconds).unwrap_or(i64::MAX)
}

fn raw_insert(keyspace: &secure_keyspaces::Keyspace, key: Vec<u8>, value: &str) -> Mutation {
    Mutation {
        keyspace: keyspace.clone(),
        change: Change::Insert {
            key,
            value: bytes(value),
        },
    }
}

#[test]
fn missing_providers_fail_closed() {
    type Db = SecureDatabase<
        StaticAuthenticator<String>,
        AllowAllPermissions<String>,
        StaticAuthorizor,
        NoAuditSink,
    >;

    assert!(Db::builder(path()).open().is_err());
}

#[test]
fn rejects_bad_credentials() -> Result<(), Error> {
    let db = SecureDatabase::builder(path())
        .authenticator(authenticator())
        .permission_handler(AllowAllPermissions::new())
        .authorizor(authorizor(&["admin"])?)
        .open()?;

    assert!(matches!(
        db.authenticate(&credentials("alice", "wrong")),
        Err(Error::AuthenticationDenied),
    ));

    Ok(())
}

#[test]
fn permission_denial_blocks_writes() -> Result<(), Error> {
    let db = SecureDatabase::builder(path())
        .authenticator(authenticator())
        .permission_handler(StaticPermissionHandler::new())
        .authorizor(authorizor(&["admin"])?)
        .open()?;
    let session = db.authenticate(&credentials("alice", "secret"))?;
    let keyspace = db.secure_keyspace("events", PlainOptions::default)?.keyspace;

    assert!(matches!(
        keyspace.insert_version(&session, &cell("admin", 1), bytes("value")),
        Err(Error::PermissionDenied("keyspace:write")),
    ));

    Ok(())
}

#[test]
fn scans_filter_unauthorized_records() -> Result<(), Error> {
    let mut store = Store::default();
    let db = SecureDatabase::builder(path())
        .authenticator(authenticator())
        .permission_handler(
            StaticPermissionHandler::new()
                .with_keyspace_permission("events".to_string(), KeyspacePermission::Read)
                .with_keyspace_permission("events".to_string(), KeyspacePermission::Write),
        )
        .authorizor(authorizor(&["admin"])?)
        .open()?;
    let session = db.authenticate(&credentials("alice", "secret"))?;
    let keyspace = db.secure_keyspace("events", PlainOptions::default)?.keyspace;

    store.apply(keyspace.insert_version(&session, &cell("admin", 2), bytes("admin"))?);
    store.apply(keyspace.insert_version(
        &session,
        &cell("admin|audit", 1),
        bytes("audit-or-admin"),
    )?);
    store.apply(raw_insert(keyspace.inner(), cell("audit", 3).encode()?, "audit"));

    let entries = store.scan(keyspace.scan_versioned_prefix(
        &session,
        &CompositePrefix {
            row: Some(bytes("row")),
            family: None,
            qualifier: None,
            visibility: None,
        },
        &VersionScan::default(),
    )?)?;

    assert_eq!(2, entries.len());
    assert!(entries
        .iter()
        .all(|entry| entry.cell.cell.visibility.as_slice() != b"audit"));

    Ok(())
}

#[test]
fn raw_open_of_secure_physical_keyspace_is_rejected() -> Result<(), Error> {
    let db = SecureDatabase::builder(path())
        .authenticator(authenticator())
        .permission_handler(AllowAllPermissions::<String>::new())
        .authorizor(authorizor(&["admin"])?)
        .open()?;

    let opening = db.secure_keyspace("events", PlainOptions::default)?;
    assert_eq!("$fjall.secure.events", opening.request.keyspace.name());

    assert!(matches!(
        db.inner().keyspace("$fjall.secure.events"),
        Err(Error::ReservedKeyspaceName),
    ));

    Ok(())
}

#[test]
fn writes_require_canonical_visibility() -> Result<(), Error> {
    let db = SecureDatabase::builder(path())
        .authenticator(authenticator())
        .permission_handler(AllowAllPermissions::new())
        .authorizor(authorizor(&["admin", "audit"])?)
        .open()?;
    let session = db.authenticate(&credentials("alice", "secret"))?;
    let keyspace = db.secure_keyspace("events", PlainOptions::default)?.keyspace;

    assert!(matches!(
        keyspace.insert_version(&session, &cell("audit&admin", 1), bytes("value")),
        Err(Error::InvalidVisibilityExpression(_)),
    ));
    keyspace.insert_version(&session, &cell("admin&audit", 1), bytes("value"))?;

    Ok(())
}

#[test]
fn encrypted_values_are_not_stored_as_plaintext_and_decrypt_on_read() -> Result<(), Error> {
    let mut store = Store::default();
    let db = SecureDatabase::builder(path())
        .authenticator(authenticator())
        .permission_handler(AllowAllPermissions::new())
        .authorizor(authorizor(&["admin"])?)
        .open()?;
    let session = db.authenticate(&credentials("alice", "secret"))?;
    let keyspace = db
        .secure_keyspace("events", || {
            PlainOptions::default().with_encryption(encryption(0x5a))
        })?
        .keyspace;
    let cell = cell("admin", 7);

    store.apply(keyspace.insert_version(&session, &cell, bytes("plaintext"))?);

    let encoded_key = cell.encode()?;
    let stored = store
        .contents(keyspace.inner().name())
        .get(&encoded_key)
        .cloned()
        .expect("value should exist");
    assert_ne!(stored, b"plaintext");
    assert_eq!(
        Some(bytes("plaintext")),
        store.fetch(keyspace.get_version(&session, &cell)?)?,
    );

    Ok(())
}

#[test]
fn wrong_encryption_provider_fails_closed() -> Result<(), Error> {
    let mut store = Store::default();
    let db = SecureDatabase::builder(path())
        .authenticator(authenticator())
        .permission_handler(AllowAllPermissions::new())
        .authorizor(authorizor(&["admin"])?)
        .open()?;
    let session = db.authenticate(&credentials("alice", "secret"))?;
    let writer = db
        .secure_keyspace("events", || {
            PlainOptions::default().with_encryption(encryption(0x5a))
        })?
        .keyspace;
    let reader = db
        .secure_keyspace("events", || {
            PlainOptions::default().with_encryption(encryption(0x33))
        })?
        .keyspace;
    let cell = cell("admin", 7);

    store.apply(writer.insert_version(&session, &cell, bytes("plaintext"))?);

    assert!(matches!(
        store.fetch(reader.get_version(&session, &cell)?),
        Err(Error::Crypto("wrong test key")),
    ));

    Ok(())
}

#[test]
fn malformed_retention_policy_rejects_keyspace_configuration() -> Result<(), Error> {
    let db = SecureDatabase::builder(path())
        .authenticator(authenticator())
        .permission_handler(AllowAllPermissions::<String>::new())
        .authorizor(authorizor(&["admin"])?)
        .open()?;

    assert!(matches!(
        db.secure_keyspace("events", || PlainOptions::default().with_retention(
            RetentionPolicy {
                max_versions: Some(0),
                ttl: None,
            }
        )),
        Err(Error::InvalidPolicy(
            "max_versions must be greater than zero"
        )),
    ));

    Ok(())
}

#[test]
fn retention_compaction_enforces_max_versions_per_visibility_group() -> Result<(), Error> {
    let mut store = Store::default();
    let audit = RecordingAuditSink::default();
    let db = SecureDatabase::builder(path())
        .authenticator(authenticator())
        .permission_handler(AllowAllPermissions::new())
        .authorizor(authorizor(&["admin"])?)
        .audit_sink(audit.clone(), AuditFailureMode::FailClosed)
        .open()?;
    let session = db.authenticate(&credentials("alice", "secret"))?;
    let opening = db.secure_keyspace("events", || {
        PlainOptions::default().with_retention(RetentionPolicy {
            max_versions: Some(2),
            ttl: None,
        })
    })?;
    let keyspace = opening.keyspace;

    for timestamp in [1, 2, 3] {
        store.apply(keyspace.insert_version(
            &session,
            &cell("admin", timestamp),
            bytes(&timestamp.to_string()),
        )?);
        store.rotate(keyspace.inner().name());
    }

    store.compact(opening.request, unix_seconds_now())?;

    let timestamps = store
        .scan(keyspace.scan_versioned_prefix(&session, &row_prefix(), &VersionScan::default())?)?
        .into_iter()
        .map(|entry| entry.cell.timestamp)
        .collect::<Vec<_>>();
    assert_eq!(vec![3, 2], timestamps);
    assert_eq!(
        None,
        store.fetch(keyspace.get_version(&session, &cell("admin", 1))?)?,
    );
    assert!(audit
        .events()
        .contains(&"compaction-deleted:events:MaxVersions".to_string()));

    Ok(())
}

#[test]
fn retention_compaction_enforces_ttl() -> Result<(), Error> {
    let mut store = Store::default();
    let db = SecureDatabase::builder(path())
        .authenticator(authenticator())
        .permission_handler(AllowAllPermissions::new())
        .authorizor(authorizor(&["admin"])?)
        .open()?;
    let session = db.authenticate(&credentials("alice", "secret"))?;
    let opening = db.secure_keyspace("events", || {
        PlainOptions::default().with_retention(RetentionPolicy {
            max_versions: None,
            ttl: Some(Ttl::from_secs(1)),
        })
    })?;
    let keyspace = opening.keyspace;
    let fresh_timestamp = unix_seconds_now().saturating_add(3_600);

    store.apply(keyspace.insert_version(&session, &cell("admin", 0), bytes("expired"))?);
    store.rotate(keyspace.inner().name());
    store.apply(keyspace.insert_version(
        &session,
        &cell("admin", fresh_timestamp),
        bytes("fresh"),
    )?);
    store.rotate(keyspace.inner().name());
    store.compact(opening.request, unix_seconds_now())?;

    assert_eq!(
        None,
        store.fetch(keyspace.get_version(&session, &cell("admin", 0))?)?,
    );
    assert_eq!(
        Some(bytes("fresh")),
        store.fetch(keyspace.get_version(&session, &cell("admin", fresh_timestamp))?)?,
    );

    Ok(())
}

#[test]
fn retention_compaction_preserves_tombstone_correctness() -> Result<(), Error> {
    let mut store = Store::default();
    let db = SecureDatabase::builder(path())
        .authenticator(authenticator())
        .permission_handler(AllowAllPermissions::new())
        .authorizor(authorizor(&["admin"])?)
        .open()?;
    let session = db.authenticate(&credentials("alice", "secret"))?;
    let opening = db.secure_keyspace("events", || {
        PlainOptions::default().with_retention(RetentionPolicy {
            max_versions: Some(1),
            ttl: None,
        })
    })?;
    let keyspace = opening.keyspace;
    let cell = cell("admin", 1);

    store.apply(keyspace.insert_version(&session, &cell, bytes("deleted"))?);
    store.rotate(keyspace.inner().name());
    store.apply(keyspace.delete_version(&session, &cell)?);
    store.rotate(keyspace.inner().name());
    store.compact(opening.request, unix_seconds_now())?;

    assert_eq!(None, store.fetch(keyspace.get_version(&session, &cell)?)?);

    Ok(())
}

#[test]
fn retention_compaction_is_independent_from_session_authorizations() -> Result<(), Error> {
    let mut store = Store::default();
    let db = SecureDatabase::builder(path())
        .authenticator(authenticator())
        .permission_handler(AllowAllPermissions::<String>::new())
        .authorizor(authorizor(&["admin"])?)
        .open()?;
    let opening = db.secure_keyspace("events", || {
        PlainOptions::default().with_retention(RetentionPolicy {
            max_versions: Some(1),
            ttl: None,
        })
    })?;
    let keyspace = opening.keyspace;
    let old_hidden = cell("audit", 1).encode()?;
    let new_hidden = cell("audit", 2).encode()?;

    store.apply(raw_insert(keyspace.inner(), old_hidden.clone(), "old-hidden"));
    store.rotate(keyspace.inner().name());
    store.apply(raw_insert(keyspace.inner(), new_hidden.clone(), "new-hidden"));
    store.rotate(keyspace.inner().name());
    store.compact(opening.request, unix_seconds_now())?;

    let contents = store.contents(keyspace.inner().name());
    assert_eq!(None, contents.get(&old_hidden).cloned());
    assert_eq!(Some(bytes("new-hidden")), contents.get(&new_hidden).cloned());

    Ok(())
}

#[test]
fn audit_sink_records_allowed_and_denied_keyspace_operations() -> Result<(), Error> {
    let store = Store::default();
    let audit = RecordingAuditSink::default();
    let db = SecureDatabase::builder(path())
        .authenticator(authenticator())
        .permission_handler(
            StaticPermissionHandler::new()
                .with_keyspace_permission("events".to_string(), KeyspacePermission::Read),
        )
        .authorizor(authorizor(&["admin"])?)
        .audit_sink(audit.clone(), AuditFailureMode::FailClosed)
        .open()?;
    let session = db.authenticate(&credentials("alice", "secret"))?;
    let keyspace = db.secure_keyspace("events", PlainOptions::default)?.keyspace;

    assert_eq!(
        None,
        store.fetch(keyspace.get_version(&session, &cell("admin", 1))?)?,
    );
    assert!(matches!(
        keyspace.insert_version(&session, &cell("admin", 1), bytes("blocked")),
        Err(Error::PermissionDenied("keyspace:write")),
    ));

    let events = audit.events();
    assert!(events.contains(&"auth-succeeded".to_string()));
    assert!(events.contains(&"keyspace-access:events".to_string()));
    assert!(events.contains(&"authorization-denied:events".to_string()));

    Ok(())
}

#[test]
fn audit_failure_mode_controls_operation_failure() -> Result<(), Error> {
    let fail_closed = SecureDatabase::builder(path())
        .authenticator(authenticator())
        .permission_handler(AllowAllPermissions::new())
        .authorizor(authorizor(&["admin"])?)
        .audit_sink(RecordingAuditSink::failing(), AuditFailureMode::FailClosed)
        .open()?;

    assert!(matches!(
        fail_closed.authenticate(&credentials("alice", "secret")),
        Err(Error::Audit("audit sink failed")),
    ));

    let best_effort = SecureDatabase::builder(path())
        .authenticator(authenticator())
        .permission_handler(AllowAllPermissions::new())
        .authorizor(authorizor(&["admin"])?)
        .audit_sink(RecordingAuditSink::failing(), AuditFailureMode::BestEffort)
        .open()?;

    assert!(best_effort
        .authenticate(&credentials("alice", "secret"))
        .is_ok());

    Ok(())
}

#[test]
fn compaction_preserves_decryptability() -> Result<(), Error> {
    let mut store = Store::default();
    let db = SecureDatabase::builder(path())
        .authenticator(authenticator())
        .permission_handler(AllowAllPermissions::new())
        .authorizor(authorizor(&["admin"])?)
        .open()?;
    let session = db.authenticate(&credentials("alice", "secret"))?;
    let opening = db.secure_keyspace("events", || {
        PlainOptions::default()
            .with_encryption(encryption(0x5a))
            .with_retention(RetentionPolicy {
                max_versions: Some(2),
                ttl: None,
            })
    })?;
    let keyspace = opening.keyspace;
    let cell = cell("admin", 7);

    store.apply(keyspace.insert_version(&session, &cell, bytes("plaintext"))?);
    store.rotate(keyspace.inner().name());
    store.compact(opening.request, unix_seconds_now())?;

    assert_eq!(
        Some(bytes("plaintext")),
        store.fetch(keyspace.get_version(&session, &cell)?)?,
    );

    Ok(())
}

#[test]
fn names_the_first_missing_provider() -> Result<(), Error> {
    type Db = SecureDatabase<
        StaticAuthenticator<String>,
        AllowAllPermissions<String>,
        StaticAuthorizor,
        NoAuditSink,
    >;

    assert_eq!(
        Some(Error::MissingSecurityProvider("authenticator")),
        Db::builder(path()).open().err(),
    );
    assert_eq!(
        Some(Error::MissingSecurityProvider("permission_handler")),
        Db::builder(path()).authenticator(authenticator()).open().err(),
    );
    assert_eq!(
        Some(Error::MissingSecurityProvider("authorizor")),
        Db::builder(path())
            .authenticator(authenticator())
            .permission_handler(AllowAllPermissions::default())
            .open()
            .err(),
    );
    let db = Db::builder(path())
        .authorizor(authorizor(&[])?)
        .permission_handler(AllowAllPermissions::new())
        .authenticator(authenticator())
        .open()?;
    assert_eq!(path(), *db.clone().inner().path);

    Ok(())
}

#[test]
fn every_operation_needs_its_own_permission() -> Result<(), Error> {
    for (granted, read, write, delete) in [
        (KeyspacePermission::Read, true, false, false),
        (KeyspacePermission::Write, false, true, false),
        (KeyspacePermission::Delete, false, false, true),
        (KeyspacePermission::Compact, false, false, false),
    ] {
        let db = SecureDatabase::builder(path())
            .authenticator(authenticator())
            .permission_handler(
                StaticPermissionHandler::new()
                    .with_keyspace_permission("events".to_string(), granted)
                    .with_keyspace_permission("other".to_string(), KeyspacePermission::Alter),
            )
            .authorizor(authorizor(&["admin"])?)
            .open()?;
        let session = db.authenticate(&credentials("alice", "secret"))?;
        let keyspace = db.secure_keyspace("events", PlainOptions::default)?.keyspace.clone();
        let cell = cell("admin", 1);
        let denied = |allowed: bool, name: &'static str| {
            if allowed {
                None
            } else {
                Some(Error::PermissionDenied(name))
            }
        };

        assert_eq!("events", keyspace.name());
        assert_eq!(
            denied(read, "keyspace:read"),
            keyspace.get_version(&session, &cell).err(),
        );
        assert_eq!(
            denied(read, "keyspace:read"),
            keyspace
                .scan_versioned_prefix(&session, &row_prefix(), &VersionScan::default())
                .err(),
        );
        assert_eq!(
            denied(write, "keyspace:write"),
            keyspace.insert_version(&session, &cell, bytes("v")).err(),
        );
        assert_eq!(
            denied(delete, "keyspace:delete"),
            keyspace.delete_version(&session, &cell).err(),
        );
    }

    Ok(())
}

#[test]
fn hidden_versions_are_not_looked_up_and_invalid_ones_are_errors() -> Result<(), Error> {
    let mut store = Store::default();
    let db = SecureDatabase::builder(path())
        .authenticator(authenticator())
        .permission_handler(AllowAllPermissions::new())
        .authorizor(authorizor(&["admin"])?)
        .open()?;
    let session = db.authenticate(&credentials("alice", "secret"))?;
    let keyspace = db.secure_keyspace("events", PlainOptions::default)?.keyspace;

    assert!(keyspace.get_version(&session, &cell("audit", 1))?.is_none());
    let invalid = Error::InvalidVisibilityExpression("expected label or parenthesized expression");
    assert_eq!(
        Some(invalid),
        keyspace.get_version(&session, &cell("admin|", 1)).err(),
    );
    assert_eq!(
        Some(invalid),
        keyspace.delete_version(&session, &cell("admin|", 1)).err(),
    );
    assert_eq!(
        Some(invalid),
        keyspace
            .insert_version(&session, &cell("admin|", 1), bytes("v"))
            .err(),
    );
    // A stored record with an invalid visibility is never exposed.
    store.apply(raw_insert(keyspace.inner(), cell("admin|", 1).encode()?, "stray"));
    let scan = keyspace.scan_versioned_prefix(&session, &row_prefix(), &VersionScan::default())?;
    assert_eq!(Err(invalid), store.scan(scan));
    // Outside the timestamp bounds it is passed over.
    let bounds = VersionScan {
        min_timestamp: Some(2),
        ..VersionScan::default()
    };
    let scan = keyspace.scan_versioned_prefix(&session, &row_prefix(), &bounds)?;
    assert_eq!(Ok(vec![]), store.scan(scan));

    Ok(())
}

#[test]
fn public_versions_are_visible_to_everyone() -> Result<(), Error> {
    let mut store = Store::default();
    let db = SecureDatabase::builder(path())
        .authenticator(authenticator())
        .permission_handler(AllowAllPermissions::new())
        .authorizor(authorizor(&[])?)
        .open()?;
    let session = db.authenticate(&credentials("alice", "secret"))?;
    let keyspace = db.secure_keyspace("events", PlainOptions::default)?.keyspace;

    store.apply(keyspace.insert_version(&session, &cell("", 1), bytes("public"))?);
    store.apply(keyspace.insert_version(&session, &cell("admin", 1), bytes("hidden"))?);

    assert_eq!(
        Some(bytes("public")),
        store.fetch(keyspace.get_version(&session, &cell("", 1))?)?,
    );
    let mut scan =
        keyspace.scan_versioned_prefix(&session, &row_prefix(), &VersionScan::default())?;
    for entry in store.list(scan.read()) {
        assert!(scan.wants_more());
        scan.offer(entry)?;
    }
    assert_eq!(
        vec![VersionedEntry {
            cell: cell("", 1),
            value: bytes("public"),
        }],
        scan.into_entries(),
    );
    store.apply(keyspace.delete_version(&session, &cell("", 1))?);
    assert_eq!(
        None,
        store.fetch(keyspace.get_version(&session, &cell("", 1))?)?,
    );

    Ok(())
}

#[test]
fn scans_are_limited_and_newest_first() -> Result<(), Error> {
    let mut store = Store::default();
    let db = SecureDatabase::builder(path())
        .authenticator(authenticator())
        .permission_handler(AllowAllPermissions::new())
        .authorizor(authorizor(&["admin"])?)
        .open()?;
    let session = db.authenticate(&credentials("alice", "secret"))?;
    let keyspace = db
        .secure_keyspace("events", || {
            PlainOptions::default().with_encryption(encryption(7))
        })?
        .keyspace;
    for timestamp in [5, -5, 9, 0] {
        let value = bytes(&timestamp.to_string());
        store.apply(keyspace.insert_version(&session, &cell("admin", timestamp), value)?);
    }

    let limits = VersionScan {
        min_timestamp: Some(-5),
        max_timestamp: Some(5),
        max_versions: Some(2),
    };
    let scan = keyspace.scan_versioned_prefix(&session, &row_prefix(), &limits)?;
    let entries = store.scan(scan)?;
    assert_eq!(
        vec![(5, bytes("5")), (0, bytes("0"))],
        entries
            .into_iter()
            .map(|entry| (entry.cell.timestamp, entry.value))
            .collect::<Vec<_>>(),
    );
    let none = VersionScan {
        max_versions: Some(0),
        ..VersionScan::default()
    };
    let scan = keyspace.scan_versioned_prefix(&session, &row_prefix(), &none)?;
    assert_eq!(Ok(vec![]), store.scan(scan));

    Ok(())
}

#[test]
fn raw_keyspaces_keep_their_names() -> Result<(), Error> {
    let db = SecureDatabase::new(
        secure_keyspaces::Database {
            path: Arc::new(path()),
        },
        secure_keyspaces::SecurityProviders::new(
            authenticator(),
            AllowAllPermissions::<String>::new(),
            authorizor(&[])?,
        )
        .with_audit_sink(RecordingAuditSink::default(), AuditFailureMode::BestEffort),
    );

    assert_eq!("events", db.inner().keyspace("events")?.name());
    assert_eq!("$fjall.secure", db.inner().keyspace("$fjall.secure")?.name());
    assert!(db.inner().keyspace("$fjall.secure.").is_err());
    let refused: Result<Session<String>, Error> = db.authenticate(&credentials("bob", "secret"));
    assert_eq!(Err(Error::AuthenticationDenied), refused);

    Ok(())
}

#[test]
fn guided_tour_of_a_secure_keyspace() -> Result<(), Error> {
    let mut store = Store::default();
    let audit = RecordingAuditSink::default();
    let db = SecureDatabase::builder(path())
        .authenticator(StaticAuthenticator::new().with_principal(
            "alice".to_string(),
            bytes("correct-horse-battery-staple"),
            "alice".to_string(),
        ))
        .authorizor(authorizor(&["admin"])?)
        .permission_handler(
            StaticPermissionHandler::new()
                .with_keyspace_permission("events".to_string(), KeyspacePermission::Read)
                .with_keyspace_permission("events".to_string(), KeyspacePermission::Write)
                .with_keyspace_permission("events".to_string(), KeyspacePermission::Delete),
        )
        .audit_sink(audit.clone(), AuditFailureMode::FailClosed)
        .open()?;

    assert!(db.authenticate(&credentials("alice", "wrong-password")).is_err());
    let session = db.authenticate(&credentials("alice", "correct-horse-battery-staple"))?;

    let opening = db.secure_keyspace("events", || {
        PlainOptions::default()
            .with_encryption(encryption(0x5a))
            .with_retention(RetentionPolicy {
                max_versions: Some(2),
                ttl: Some(Ttl::from_secs(60 * 60 * 24)),
            })
    })?;
    let keyspace = opening.keyspace;
    let admin_cell = Cell {
        row: bytes("account:123"),
        family: bytes("profile"),
        qualifier: bytes("email"),
        visibility: bytes("admin"),
    };
    let audit_cell = Cell {
        visibility: bytes("audit"),
        ..admin_cell.clone()
    };
    let base = unix_seconds_now();

    for (cell, timestamp, value) in [
        (&admin_cell, base, "old@example.com"),
        (&admin_cell, base + 1, "new@example.com"),
        (&admin_cell, base + 2, "newest@example.com"),
        (&audit_cell, base, "hidden@example.com"),
    ] {
        store.apply(keyspace.insert_version(&session, &cell.version(timestamp), bytes(value))?);
        store.rotate(keyspace.inner().name());
    }

    let newest = admin_cell.version(base + 2);
    let stored = store.contents(keyspace.inner().name())[&newest.encode()?].clone();
    assert_ne!(stored, b"newest@example.com");
    assert_eq!(
        Some(bytes("newest@example.com")),
        store.fetch(keyspace.get_version(&session, &newest)?)?,
    );
    assert_eq!(
        None,
        store.fetch(keyspace.get_version(&session, &audit_cell.version(base))?)?,
    );

    store.compact(opening.request, base)?;

    let versions = store.scan(keyspace.scan_versioned_prefix(
        &session,
        &admin_cell.composite_prefix(),
        &VersionScan::default(),
    )?)?;
    assert_eq!(
        vec![base + 2, base + 1],
        versions
            .iter()
            .map(|entry| entry.cell.timestamp)
            .collect::<Vec<_>>(),
    );
    assert_eq!(
        None,
        store.fetch(keyspace.get_version(&session, &admin_cell.version(base))?)?,
    );
    assert!(audit
        .events()
        .iter()
        .any(|event| event == "compaction-deleted:events:MaxVersions"));

    Ok(())
}

#[test]
fn a_deleted_version_frees_its_place_for_an_older_one() -> Result<(), Error> {
    let mut store = Store::default();
    let db = SecureDatabase::builder(path())
        .authenticator(authenticator())
        .permission_handler(AllowAllPermissions::new())
        .authorizor(authorizor(&["admin"])?)
        .open()?;
    let session = db.authenticate(&credentials("alice", "secret"))?;
    let opening = db.secure_keyspace("events", || {
        PlainOptions::default().with_retention(RetentionPolicy {
            max_versions: Some(1),
            ttl: None,
        })
    })?;
    let keyspace = opening.keyspace;

    store.apply(keyspace.insert_version(&session, &cell("admin", 1), bytes("kept"))?);
    store.apply(keyspace.insert_version(&session, &cell("admin", 2), bytes("deleted"))?);
    store.rotate(keyspace.inner().name());
    store.apply(keyspace.delete_version(&session, &cell("admin", 2))?);
    store.compact(opening.request, unix_seconds_now())?;

    assert_eq!(
        None,
        store.fetch(keyspace.get_version(&session, &cell("admin", 2))?)?,
    );
    assert_eq!(
        Some(bytes("kept")),
        store.fetch(keyspace.get_version(&session, &cell("admin", 1))?)?,
    );

    Ok(())
}

#[test]
fn scans_and_reads_agree() -> Result<(), Error> {
    let mut store = Store::default();
    let db = SecureDatabase::builder(path())
        .authenticator(authenticator())
        .permission_handler(AllowAllPermissions::new())
        .authorizor(authorizor(&["admin"])?)
        .open()?;
    let session = db.authenticate(&credentials("alice", "secret"))?;
    let keyspace = db
        .secure_keyspace("events", || {
            PlainOptions::default().with_encryption(encryption(0x5a))
        })?
        .keyspace;
    for visibility in ["", "admin", "admin&audit", "admin|audit", "audit"] {
        for timestamp in [-1, 0, 7] {
            let value = bytes(&format!("{visibility}@{timestamp}"));
            store.apply(keyspace.insert_version(&session, &cell(visibility, timestamp), value)?);
        }
    }

    let scanned = store.scan(keyspace.scan_versioned_prefix(
        &session,
        &row_prefix(),
        &VersionScan::default(),
    )?)?;
    assert_eq!(9, scanned.len());
    for visibility in ["", "admin", "admin&audit", "admin|audit", "audit", "other"] {
        for timestamp in [-1, 0, 7, 8] {
            let cell = cell(visibility, timestamp);
            let read = store.fetch(keyspace.get_version(&session, &cell)?)?;
            let found = scanned.iter().find(|entry| entry.cell == cell);
            assert_eq!(read, found.map(|entry| entry.value.clone()));
        }
    }
    // A limited scan returns the first of them.
    for max_versions in 0..11 {
        let limits = VersionScan {
            max_versions: Some(max_versions),
            ..VersionScan::default()
        };
        let limited =
            store.scan(keyspace.scan_versioned_prefix(&session, &row_prefix(), &limits)?)?;
        assert_eq!(scanned[..max_versions.min(9)], limited);
    }

    Ok(())
}
