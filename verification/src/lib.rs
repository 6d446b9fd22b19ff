//! Secure keyspaces over an ordered key-value store.
//!
//! Records are versioned cells with a visibility expression. Sessions see only
//! what their authorization labels allow, writes need a permission and a
//! canonical visibility, values can be encrypted, and retention is applied
//! during compaction.
//!
//! The crate performs no I/O: its operations answer with requests to the
//! storage engine, and consume what the engine replies.

pub mod access;
pub mod audit;
pub mod cell;
pub mod composite;
pub mod crypto;
pub mod error;
pub mod keyspace;
pub mod naming;
pub mod order;
pub mod policy;
pub mod providers;
pub mod scan;
pub mod storage;
pub mod tx;
pub mod visibility;

pub use access::{SecureFetch, SecureScan};
pub use audit::{AuditEvent, AuditFailureMode, AuditSink, NoAuditSink};
pub use cell::{
    Cell, VersionScan, VersionedCell, VersionedCellKeyspaceExt, VersionedCellReadExt,
    VersionedEntry,
};
pub use composite::{CompositeKey, CompositePrefix};
pub use crypto::{
    CryptoContext, CryptoProvider, EncryptionConfig, EncryptionScope, NoEncryption,
    SecureKeyspaceOptions,
};
pub use error::Error;
pub use keyspace::{
    OpenKeyspace, Opening, SecureDatabase, SecureDatabaseBuilder, SecureKeyspace, Session,
};
pub use policy::{CompactionDeleteReason, RetentionPolicy, Ttl};
pub use providers::builtin::{
    AllowAllPermissions, StaticAuthenticator, StaticAuthorizor, StaticPermissionHandler,
};
pub use providers::{
    Authenticator, Authorizor, Credentials, KeyspacePermission, PermissionHandler,
    SecurityProviders, SystemPermission,
};
pub use scan::{VersionDeletion, VersionedScan};
pub use storage::{
    Change, Database, KeyBound, KeyRange, Keyspace, Mutation, OptimisticTxDatabase, PointRead,
    RangeRead, SingleWriterTxDatabase, Slice, Snapshot, StoredEntry, UserKey, UserValue,
};
pub use tx::{
    OptimisticSecureTxDatabase, OptimisticSecureTxDatabaseBuilder, OptimisticSecureTxKeyspace,
    OptimisticSecureWriteTransaction, SecureTxKeyspaceOptions, SingleWriterSecureTxDatabase,
    SingleWriterSecureTxDatabaseBuilder, SingleWriterSecureTxKeyspace,
    SingleWriterSecureWriteTransaction, TxEnd,
};
pub use visibility::{Authorizations, VisibilityExpr};
