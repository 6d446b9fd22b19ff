//! Session-aware secure transaction wrappers.

use std::sync::Arc;

use vstd::prelude::*;

use crate::access::{
    deletes, gets_in_tx, inserts, plan_delete, plan_get_in_tx, plan_insert, plan_scan, scans,
    SecureFetch, SecureScan,
};
use crate::audit::{AuditConfig, AuditFailureMode, AuditSink, NoAuditSink};
use crate::cell::{VersionScan, VersionedCell};
use crate::composite::{CompositePrefix, KeyView};
use crate::crypto::{CryptoProvider, SecureKeyspaceOptions, ValueEncryption};
use crate::error::Error;
use crate::keyspace::{opens, plan_open, refused_options, Opening, Session};
use crate::providers::{
    assembled, Authenticator, Authorizor, KeyspacePermission, PermissionHandler, SecurityProviders,
};
use crate::storage::{
    Database, Keyspace, Mutation, OptimisticTxDatabase, SingleWriterTxDatabase, UserValue,
};

pub mod laws;

verus! {

/// Create options for secure transactional keyspaces.
pub type SecureTxKeyspaceOptions<C, O> = SecureKeyspaceOptions<C, O>;

/// How the storage engine has to end a transaction.
#[derive(Clone, Copy, Debug, Eq, PartialEq)]
pub enum TxEnd {
    /// Make the writes of the transaction visible.
    Commit,

    /// Drop the writes of the transaction.
    Rollback,
}

// ---------------------------------------------------------------------------
// Single-writer transactions
// ---------------------------------------------------------------------------
/// Secure wrapper around [`SingleWriterTxDatabase`].
pub struct SingleWriterSecureTxDatabase<A, P, Z, S> {
    inner: SingleWriterTxDatabase,
    security: Arc<SecurityProviders<A, P, Z, S>>,
}

impl<A, P, Z, S> Clone for SingleWriterSecureTxDatabase<A, P, Z, S> {
    fn clone(&self) -> (copy: Self)
        ensures
            copy == *self,
    {
        SingleWriterSecureTxDatabase { inner: self.inner.clone(), security: self.security.clone() }
    }
}

impl<A, P, Z> SingleWriterSecureTxDatabase<A, P, Z, NoAuditSink> {
    /// Creates a builder for a secure single-writer transactional database.
    pub fn builder(path: std::path::PathBuf) -> (builder: SingleWriterSecureTxDatabaseBuilder<
        A,
        P,
        Z,
        NoAuditSink,
    >)
        ensures
            builder == (SingleWriterSecureTxDatabaseBuilder {
                path,
                authenticator: None::<A>,
                permission_handler: None::<P>,
                authorizor: None::<Z>,
                audit: None::<AuditConfig<NoAuditSink>>,
            }),
    {
        SingleWriterSecureTxDatabaseBuilder {
            path,
            authenticator: None,
            permission_handler: None,
            authorizor: None,
            audit: None,
        }
    }
}

impl<A, P, Z, S> SingleWriterSecureTxDatabase<A, P, Z, S> {
    /// The wrapped transactional database.
    pub closed spec fn raw(self) -> SingleWriterTxDatabase {
        self.inner
    }

    /// The security providers.
    pub closed spec fn security(self) -> SecurityProviders<A, P, Z, S> {
        *self.security
    }

    /// Returns the wrapped transactional database.
    #[must_use]
    pub fn inner(&self) -> (inner: &SingleWriterTxDatabase)
        ensures
            *inner == self.raw(),
    {
        &self.inner
    }
}

impl<A, P, Z, S> SingleWriterSecureTxDatabase<A, P, Z, S> where
    A: Authenticator,
    P: PermissionHandler<A::Identity>,
    Z: Authorizor<A::Identity>,
    S: AuditSink<A::Identity>,
 {
    /// Starts a session-aware secure transaction, which keeps the session as it
    /// is now.
    #[must_use]
    pub fn begin_secure_tx(&self, session: &Session<A::Identity>) -> (tx:
        SingleWriterSecureWriteTransaction<A, P, Z, S>)
        ensures
            call_ensures(
                A::Identity::clone,
                (&session.identity,),
                tx.session().identity,
            ),
            tx.session().auths@ == session.auths@,
            tx.security() == self.security(),
    {
        SingleWriterSecureWriteTransaction { session: session.clone(), security: self.security.clone() }
    }

    /// Creates or opens a secure transactional keyspace.
    ///
    /// The request that comes with the handle is to be performed before the
    /// handle is used. The storage engine decides whether it accepts the name.
    ///
    /// # Errors
    ///
    /// Returns an error when the retention policy is malformed.
    pub fn secure_keyspace<C, O, F>(&self, name: &str, create_options: F) -> (opening: Result<
        Opening<SingleWriterSecureTxKeyspace<C>, A::Identity, S, O>,
        Error,
    >) where F: FnOnce() -> SecureTxKeyspaceOptions<C, O>
        requires
            call_requires(create_options, ()),
        ensures
            exists|options: SecureTxKeyspaceOptions<C, O>|
                {
                    &&& #[trigger] call_ensures(create_options, (), options)
                    &&& match opening {
                        Ok(opening) => {
                            &&& refused_options(options) is None
                            &&& opens(
                                name@,
                                options,
                                self.security().audit(),
                                opening.keyspace.raw(),
                                opening.keyspace.encryption(),
                                opening.request,
                            )
                            &&& opening.keyspace.logical_name() == name@
                        },
                        Err(error) => refused_options(options) == Some(error),
                    }
                },
    {
        let options = create_options();
        let backing = match plan_open(name, options, self.security.audit_config()) {
            Ok(backing) => backing,
            Err(error) => return Err(error),
        };
        Ok(
            Opening {
                keyspace: SingleWriterSecureTxKeyspace {
                    inner: backing.inner,
                    name: name.to_owned(),
                    encryption: backing.encryption,
                },
                request: backing.request,
            },
        )
    }
}

/// Builder for [`SingleWriterSecureTxDatabase`].
pub struct SingleWriterSecureTxDatabaseBuilder<A, P, Z, S> {
    /// Where the database lies.
    pub path: std::path::PathBuf,

    /// The authenticator, once set.
    pub authenticator: Option<A>,

    /// The permission handler, once set.
    pub permission_handler: Option<P>,

    /// The authorizor, once set.
    pub authorizor: Option<Z>,

    /// The audit configuration, once set.
    pub audit: Option<AuditConfig<S>>,
}

impl<A, P, Z, S> SingleWriterSecureTxDatabaseBuilder<A, P, Z, S> {
    /// Sets the authenticator.
    #[must_use]
    pub fn authenticator(self, authenticator: A) -> (builder: Self)
        ensures
            builder == (SingleWriterSecureTxDatabaseBuilder {
                authenticator: Some(authenticator),
                ..self
            }),
    {
        SingleWriterSecureTxDatabaseBuilder { authenticator: Some(authenticator), ..self }
    }

    /// Sets the permission handler.
    #[must_use]
    pub fn permission_handler(self, permission_handler: P) -> (builder: Self)
        ensures
            builder == (SingleWriterSecureTxDatabaseBuilder {
                permission_handler: Some(permission_handler),
                ..self
            }),
    {
        SingleWriterSecureTxDatabaseBuilder { permission_handler: Some(permission_handler), ..self }
    }

    /// Sets the authorizor.
    #[must_use]
    pub fn authorizor(self, authorizor: Z) -> (builder: Self)
        ensures
            builder == (SingleWriterSecureTxDatabaseBuilder { authorizor: Some(authorizor), ..self }),
    {
        SingleWriterSecureTxDatabaseBuilder { authorizor: Some(authorizor), ..self }
    }

    /// Installs an audit sink.
    #[must_use]
    pub fn audit_sink<T>(self, sink: T, failure_mode: AuditFailureMode) -> (builder:
        SingleWriterSecureTxDatabaseBuilder<A, P, Z, T>)
        ensures
            builder.path == self.path,
            builder.authenticator == self.authenticator,
            builder.permission_handler == self.permission_handler,
            builder.authorizor == self.authorizor,
            builder.audit matches Some(config) && config.sink() == sink && config.failure_mode()
                == failure_mode,
    {
        SingleWriterSecureTxDatabaseBuilder {
            path: self.path,
            authenticator: self.authenticator,
            permission_handler: self.permission_handler,
            authorizor: self.authorizor,
            audit: Some(AuditConfig::new(sink, failure_mode)),
        }
    }

    /// Wraps the raw transactional database at the builder's path, which is to
    /// be opened before it is used.
    ///
    /// # Errors
    ///
    /// Returns an error when a provider is missing.
    pub fn open(self) -> (database: Result<SingleWriterSecureTxDatabase<A, P, Z, S>, Error>)
        ensures
            match database {
                Ok(database) => {
                    &&& *database.raw().inner.path == self.path
                    &&& assembled(
                        self.authenticator,
                        self.permission_handler,
                        self.authorizor,
                        self.audit,
                        Ok(database.security()),
                    )
                },
                Err(error) => assembled(
                    self.authenticator,
                    self.permission_handler,
                    self.authorizor,
                    self.audit,
                    Err(error),
                ),
            },
    {
        match SecurityProviders::from_parts(
            self.authenticator,
            self.permission_handler,
            self.authorizor,
            self.audit,
        ) {
            Ok(security) => Ok(
                SingleWriterSecureTxDatabase {
                    inner: SingleWriterTxDatabase { inner: Database { path: Arc::new(self.path) } },
                    security: Arc::new(security),
                },
            ),
            Err(error) => Err(error),
        }
    }
}

/// Secure keyspace handle for single-writer transactions.
pub struct SingleWriterSecureTxKeyspace<C> {
    inner: Keyspace,
    name: String,
    encryption: Option<ValueEncryption<C>>,
}

impl<C> Clone for SingleWriterSecureTxKeyspace<C> {
    fn clone(&self) -> (copy: Self)
        ensures
            copy == *self,
    {
        SingleWriterSecureTxKeyspace {
            inner: self.inner.clone(),
            name: self.name.clone(),
            encryption: match &self.encryption {
                Some(encryption) => Some(encryption.clone()),
                None => None,
            },
        }
    }
}

impl<C> SingleWriterSecureTxKeyspace<C> {
    /// The raw keyspace.
    pub closed spec fn raw(self) -> Keyspace {
        self.inner
    }

    /// The secure logical keyspace name.
    pub closed spec fn logical_name(self) -> Seq<char> {
        self.name@
    }

    /// How values of the keyspace are encrypted.
    pub closed spec fn encryption(self) -> Option<ValueEncryption<C>> {
        self.encryption
    }

    /// Returns the secure logical keyspace name.
    #[must_use]
    pub fn name(&self) -> (name: &str)
        ensures
            name@ == self.logical_name(),
    {
        self.name.as_str()
    }
}

/// Session-aware single-writer secure transaction.
///
/// What its operations answer is to be performed in one transaction of the
/// storage engine.
pub struct SingleWriterSecureWriteTransaction<A: Authenticator, P, Z, S> {
    session: Session<A::Identity>,
    security: Arc<SecurityProviders<A, P, Z, S>>,
}

impl<A, P, Z, S> SingleWriterSecureWriteTransaction<A, P, Z, S> where
    A: Authenticator,
    P: PermissionHandler<A::Identity>,
    Z: Authorizor<A::Identity>,
    S: AuditSink<A::Identity>,
 {
    /// The session that the transaction was started with.
    pub closed spec fn session(self) -> Session<A::Identity> {
        self.session
    }

    /// The security providers.
    pub closed spec fn security(self) -> SecurityProviders<A, P, Z, S> {
        *self.security
    }

    /// Whether checking a permission of the captured session on a keyspace can
    /// come out as `cleared`.
    pub open spec fn checks(
        self,
        keyspace: Seq<char>,
        permission: KeyspacePermission,
        cleared: Result<(), Error>,
    ) -> bool {
        self.security().checks(self.session().identity, keyspace, permission, cleared)
    }

    /// Whether inserting a version can come out as `outcome`.
    pub open spec fn inserts_version<C: CryptoProvider>(
        self,
        keyspace: SingleWriterSecureTxKeyspace<C>,
        key: KeyView,
        value: Seq<u8>,
        outcome: Result<Mutation, Error>,
    ) -> bool {
        exists|cleared: Result<(), Error>|
            {
                &&& #[trigger] self.checks(
                    keyspace.logical_name(),
                    KeyspacePermission::Write,
                    cleared,
                )
                &&& inserts(cleared, keyspace.raw(), keyspace.encryption(), key, value, outcome)
            }
    }

    /// Whether reading a version can come to `outcome`.
    pub open spec fn gets_version<C: CryptoProvider>(
        self,
        keyspace: SingleWriterSecureTxKeyspace<C>,
        key: KeyView,
        outcome: Result<SecureFetch<C>, Error>,
    ) -> bool {
        exists|cleared: Result<(), Error>|
            {
                &&& #[trigger] self.checks(
                    keyspace.logical_name(),
                    KeyspacePermission::Read,
                    cleared,
                )
                &&& gets_in_tx(
                    cleared,
                    keyspace.raw(),
                    keyspace.encryption(),
                    self.session().auths@,
                    key,
                    outcome,
                )
            }
    }

    /// Whether starting a scan can come to `outcome`.
    pub open spec fn scans_prefix<C: CryptoProvider>(
        self,
        keyspace: SingleWriterSecureTxKeyspace<C>,
        fields: Option<Seq<Seq<u8>>>,
        limits: VersionScan,
        outcome: Result<SecureScan<C>, Error>,
    ) -> bool {
        exists|cleared: Result<(), Error>|
            {
                &&& #[trigger] self.checks(
                    keyspace.logical_name(),
                    KeyspacePermission::Read,
                    cleared,
                )
                &&& scans(
                    cleared,
                    keyspace.raw(),
                    keyspace.encryption(),
                    self.session().auths@,
                    fields,
                    limits,
                    outcome,
                )
            }
    }

    /// Whether deleting a version can come out as `outcome`.
    pub open spec fn deletes_version<C: CryptoProvider>(
        self,
        keyspace: SingleWriterSecureTxKeyspace<C>,
        key: KeyView,
        outcome: Result<Mutation, Error>,
    ) -> bool {
        exists|cleared: Result<(), Error>|
            {
                &&& #[trigger] self.checks(
                    keyspace.logical_name(),
                    KeyspacePermission::Delete,
                    cleared,
                )
                &&& deletes(cleared, keyspace.raw(), key, outcome)
            }
    }

    /// Inserts or replaces one versioned cell after checking captured
    /// permissions.
    ///
    /// # Errors
    ///
    /// Returns an error when permission is denied, key validation fails, or
    /// encryption fails.
    pub fn insert_version<C: CryptoProvider>(
        &mut self,
        keyspace: &SingleWriterSecureTxKeyspace<C>,
        cell: &VersionedCell,
        value: UserValue,
    ) -> (mutation: Result<Mutation, Error>)
        ensures
            *final(self) == *old(self),
            old(self).inserts_version(*keyspace, cell@, value@, mutation),
    {
        let cleared = self.check(keyspace.name(), KeyspacePermission::Write);
        plan_insert(cleared, &keyspace.inner, &keyspace.encryption, cell, value)
    }

    /// Asks for one exact version, to be shown if it is visible to the captured
    /// session.
    ///
    /// # Errors
    ///
    /// Returns an error when permission is denied or key encoding fails.
    pub fn get_version<C: CryptoProvider>(
        &self,
        keyspace: &SingleWriterSecureTxKeyspace<C>,
        cell: &VersionedCell,
    ) -> (fetch: Result<SecureFetch<C>, Error>)
        ensures
            self.gets_version(*keyspace, cell@, fetch),
    {
        let cleared = self.check(keyspace.name(), KeyspacePermission::Read);
        plan_get_in_tx(cleared, &keyspace.inner, &keyspace.encryption, &self.session.auths, cell)
    }

    /// Starts a scan for versioned cells matching a prefix and captured
    /// authorizations.
    ///
    /// # Errors
    ///
    /// Returns an error when permission is denied or prefix encoding fails.
    pub fn scan_versioned_prefix<C: CryptoProvider>(
        &self,
        keyspace: &SingleWriterSecureTxKeyspace<C>,
        prefix: &CompositePrefix,
        scan: &VersionScan,
    ) -> (versions: Result<SecureScan<C>, Error>)
        ensures
            self.scans_prefix(*keyspace, prefix.fields(), *scan, versions),
    {
        let cleared = self.check(keyspace.name(), KeyspacePermission::Read);
        plan_scan(
            cleared,
            &keyspace.inner,
            &keyspace.encryption,
            &self.session.auths,
            prefix,
            scan,
        )
    }

    /// Deletes one exact version after checking captured delete permission.
    ///
    /// # Errors
    ///
    /// Returns an error when permission is denied or key validation fails.
    pub fn delete_version<C: CryptoProvider>(
        &mut self,
        keyspace: &SingleWriterSecureTxKeyspace<C>,
        cell: &VersionedCell,
    ) -> (mutation: Result<Mutation, Error>)
        ensures
            *final(self) == *old(self),
            old(self).deletes_version(*keyspace, cell@, mutation),
    {
        let cleared = self.check(keyspace.name(), KeyspacePermission::Delete);
        plan_delete(cleared, &keyspace.inner, cell)
    }

    fn check(&self, keyspace: &str, permission: KeyspacePermission) -> (cleared: Result<(), Error>)
        ensures
            self.checks(keyspace@, permission, cleared),
    {
        self.security.check_keyspace_permission(&self.session.identity, keyspace, permission)
    }

    /// Commits the transaction.
    pub fn commit(self) -> (end: TxEnd)
        ensures
            end == TxEnd::Commit,
    {
        TxEnd::Commit
    }

    /// Rolls the transaction back.
    pub fn rollback(self) -> (end: TxEnd)
        ensures
            end == TxEnd::Rollback,
    {
        TxEnd::Rollback
    }
}

// ---------------------------------------------------------------------------
// Optimistic transactions
// ---------------------------------------------------------------------------
/// Secure wrapper around [`OptimisticTxDatabase`].
pub struct OptimisticSecureTxDatabase<A, P, Z, S> {
    inner: OptimisticTxDatabase,
    security: Arc<SecurityProviders<A, P, Z, S>>,
}

impl<A, P, Z, S> Clone for OptimisticSecureTxDatabase<A, P, Z, S> {
    fn clone(&self) -> (copy: Self)
        ensures
            copy == *self,
    {
        OptimisticSecureTxDatabase { inner: self.inner.clone(), security: self.security.clone() }
    }
}

impl<A, P, Z> OptimisticSecureTxDatabase<A, P, Z, NoAuditSink> {
    /// Creates a builder for a secure optimistic transactional database.
    pub fn builder(path: std::path::PathBuf) -> (builder: OptimisticSecureTxDatabaseBuilder<
        A,
        P,
        Z,
        NoAuditSink,
    >)
        ensures
            builder == (OptimisticSecureTxDatabaseBuilder {
                path,
                authenticator: None::<A>,
                permission_handler: None::<P>,
                authorizor: None::<Z>,
                audit: None::<AuditConfig<NoAuditSink>>,
            }),
    {
        OptimisticSecureTxDatabaseBuilder {
            path,
            authenticator: None,
            permission_handler: None,
            authorizor: None,
            audit: None,
        }
    }
}

impl<A, P, Z, S> OptimisticSecureTxDatabase<A, P, Z, S> {
    /// The wrapped transactional database.
    pub closed spec fn raw(self) -> OptimisticTxDatabase {
        self.inner
    }

    /// The security providers.
    pub closed spec fn security(self) -> SecurityProviders<A, P, Z, S> {
        *self.security
    }

    /// Returns the wrapped transactional database.
    #[must_use]
    pub fn inner(&self) -> (inner: &OptimisticTxDatabase)
        ensures
            *inner == self.raw(),
    {
        &self.inner
    }
}

impl<A, P, Z, S> OptimisticSecureTxDatabase<A, P, Z, S> where
    A: Authenticator,
    P: PermissionHandler<A::Identity>,
    Z: Authorizor<A::Identity>,
    S: AuditSink<A::Identity>,
 {
    /// Starts a session-aware secure transaction, which keeps the session as it
    /// is now.
    #[must_use]
    pub fn begin_secure_tx(&self, session: &Session<A::Identity>) -> (tx:
        OptimisticSecureWriteTransaction<A, P, Z, S>)
        ensures
            call_ensures(
                A::Identity::clone,
                (&session.identity,),
                tx.session().identity,
            ),
            tx.session().auths@ == session.auths@,
            tx.security() == self.security(),
    {
        OptimisticSecureWriteTransaction { session: session.clone(), security: self.security.clone() }
    }

    /// Creates or opens a secure transactional keyspace.
    ///
    /// The request that comes with the handle is to be performed before the
    /// handle is used. The storage engine decides whether it accepts the name.
    ///
    /// # Errors
    ///
    /// Returns an error when the retention policy is malformed.
    pub fn secure_keyspace<C, O, F>(&self, name: &str, create_options: F) -> (opening: Result<
        Opening<OptimisticSecureTxKeyspace<C>, A::Identity, S, O>,
        Error,
    >) where F: FnOnce() -> SecureTxKeyspaceOptions<C, O>
        requires
            call_requires(create_options, ()),
        ensures
            exists|options: SecureTxKeyspaceOptions<C, O>|
                {
                    &&& #[trigger] call_ensures(create_options, (), options)
                    &&& match opening {
                        Ok(opening) => {
                            &&& refused_options(options) is None
                            &&& opens(
                                name@,
                                options,
                                self.security().audit(),
                                opening.keyspace.raw(),
                                opening.keyspace.encryption(),
                                opening.request,
                            )
                            &&& opening.keyspace.logical_name() == name@
                        },
                        Err(error) => refused_options(options) == Some(error),
                    }
                },
    {
        let options = create_options();
        let backing = match plan_open(name, options, self.security.audit_config()) {
            Ok(backing) => backing,
            Err(error) => return Err(error),
        };
        Ok(
            Opening {
                keyspace: OptimisticSecureTxKeyspace {
                    inner: backing.inner,
                    name: name.to_owned(),
                    encryption: backing.encryption,
                },
                request: backing.request,
            },
        )
    }
}

/// Builder for [`OptimisticSecureTxDatabase`].
pub struct OptimisticSecureTxDatabaseBuilder<A, P, Z, S> {
    /// Where the database lies.
    pub path: std::path::PathBuf,

    /// The authenticator, once set.
    pub authenticator: Option<A>,

    /// The permission handler, once set.
    pub permission_handler: Option<P>,

    /// The authorizor, once set.
    pub authorizor: Option<Z>,

    /// The audit configuration, once set.
    pub audit: Option<AuditConfig<S>>,
}

impl<A, P, Z, S> OptimisticSecureTxDatabaseBuilder<A, P, Z, S> {
    /// Sets the authenticator.
    #[must_use]
    pub fn authenticator(self, authenticator: A) -> (builder: Self)
        ensures
            builder == (OptimisticSecureTxDatabaseBuilder {
                authenticator: Some(authenticator),
                ..self
            }),
    {
        OptimisticSecureTxDatabaseBuilder { authenticator: Some(authenticator), ..self }
    }

    /// Sets the permission handler.
    #[must_use]
    pub fn permission_handler(self, permission_handler: P) -> (builder: Self)
        ensures
            builder == (OptimisticSecureTxDatabaseBuilder {
                permission_handler: Some(permission_handler),
                ..self
            }),
    {
        OptimisticSecureTxDatabaseBuilder { permission_handler: Some(permission_handler), ..self }
    }

    /// Sets the authorizor.
    #[must_use]
    pub fn authorizor(self, authorizor: Z) -> (builder: Self)
        ensures
            builder == (OptimisticSecureTxDatabaseBuilder { authorizor: Some(authorizor), ..self }),
    {
        OptimisticSecureTxDatabaseBuilder { authorizor: Some(authorizor), ..self }
    }

    /// Installs an audit sink.
    #[must_use]
    pub fn audit_sink<T>(self, sink: T, failure_mode: AuditFailureMode) -> (builder:
        OptimisticSecureTxDatabaseBuilder<A, P, Z, T>)
        ensures
            builder.path == self.path,
            builder.authenticator == self.authenticator,
            builder.permission_handler == self.permission_handler,
            builder.authorizor == self.authorizor,
            builder.audit matches Some(config) && config.sink() == sink && config.failure_mode()
                == failure_mode,
    {
        OptimisticSecureTxDatabaseBuilder {
            path: self.path,
            authenticator: self.authenticator,
            permission_handler: self.permission_handler,
            authorizor: self.authorizor,
            audit: Some(AuditConfig::new(sink, failure_mode)),
        }
    }

    /// Wraps the raw transactional database at the builder's path, which is to
    /// be opened before it is used.
    ///
    /// # Errors
    ///
    /// Returns an error when a provider is missing.
    pub fn open(self) -> (database: Result<OptimisticSecureTxDatabase<A, P, Z, S>, Error>)
        ensures
            match database {
                Ok(database) => {
                    &&& *database.raw().inner.path == self.path
                    &&& assembled(
                        self.authenticator,
                        self.permission_handler,
                        self.authorizor,
                        self.audit,
                        Ok(database.security()),
                    )
                },
                Err(error) => assembled(
                    self.authenticator,
                    self.permission_handler,
                    self.authorizor,
                    self.audit,
                    Err(error),
                ),
            },
    {
        match SecurityProviders::from_parts(
            self.authenticator,
            self.permission_handler,
            self.authorizor,
            self.audit,
        ) {
            Ok(security) => Ok(
                OptimisticSecureTxDatabase {
                    inner: OptimisticTxDatabase { inner: Database { path: Arc::new(self.path) } },
                    security: Arc::new(security),
                },
            ),
            Err(error) => Err(error),
        }
    }
}

/// Secure keyspace handle for optimistic transactions.
pub struct OptimisticSecureTxKeyspace<C> {
    inner: Keyspace,
    name: String,
    encryption: Option<ValueEncryption<C>>,
}

impl<C> Clone for OptimisticSecureTxKeyspace<C> {
    fn clone(&self) -> (copy: Self)
        ensures
            copy == *self,
    {
        OptimisticSecureTxKeyspace {
            inner: self.inner.clone(),
            name: self.name.clone(),
            encryption: match &self.encryption {
                Some(encryption) => Some(encryption.clone()),
                None => None,
            },
        }
    }
}

impl<C> OptimisticSecureTxKeyspace<C> {
    /// The raw keyspace.
    pub closed spec fn raw(self) -> Keyspace {
        self.inner
    }

    /// The secure logical keyspace name.
    pub closed spec fn logical_name(self) -> Seq<char> {
        self.name@
    }

    /// How values of the keyspace are encrypted.
    pub closed spec fn encryption(self) -> Option<ValueEncryption<C>> {
        self.encryption
    }

    /// Returns the secure logical keyspace name.
    #[must_use]
    pub fn name(&self) -> (name: &str)
        ensures
            name@ == self.logical_name(),
    {
        self.name.as_str()
    }
}

/// Session-aware optimistic secure transaction.
///
/// What its operations answer is to be performed in one transaction of the
/// storage engine.
pub struct OptimisticSecureWriteTransaction<A: Authenticator, P, Z, S> {
    session: Session<A::Identity>,
    security: Arc<SecurityProviders<A, P, Z, S>>,
}

impl<A, P, Z, S> OptimisticSecureWriteTransaction<A, P, Z, S> where
    A: Authenticator,
    P: PermissionHandler<A::Identity>,
    Z: Authorizor<A::Identity>,
    S: AuditSink<A::Identity>,
 {
    /// The session that the transaction was started with.
    pub closed spec fn session(self) -> Session<A::Identity> {
        self.session
    }

    /// The security providers.
    pub closed spec fn security(self) -> SecurityProviders<A, P, Z, S> {
        *self.security
    }

    /// Whether checking a permission of the captured session on a keyspace can
    /// come out as `cleared`.
    pub open spec fn checks(
        self,
        keyspace: Seq<char>,
        permission: KeyspacePermission,
        cleared: Result<(), Error>,
    ) -> bool {
        self.security().checks(self.session().identity, keyspace, permission, cleared)
    }

    /// Whether inserting a version can come out as `outcome`.
    pub open spec fn inserts_version<C: CryptoProvider>(
        self,
        keyspace: OptimisticSecureTxKeyspace<C>,
        key: KeyView,
        value: Seq<u8>,
        outcome: Result<Mutation, Error>,
    ) -> bool {
        exists|cleared: Result<(), Error>|
            {
                &&& #[trigger] self.checks(
                    keyspace.logical_name(),
                    KeyspacePermission::Write,
                    cleared,
                )
                &&& inserts(cleared, keyspace.raw(), keyspace.encryption(), key, value, outcome)
            }
    }

    /// Whether reading a version can come to `outcome`.
    pub open spec fn gets_version<C: CryptoProvider>(
        self,
        keyspace: OptimisticSecureTxKeyspace<C>,
        key: KeyView,
        outcome: Result<SecureFetch<C>, Error>,
    ) -> bool {
        exists|cleared: Result<(), Error>|
            {
                &&& #[trigger] self.checks(
                    keyspace.logical_name(),
                    KeyspacePermission::Read,
                    cleared,
                )
                &&& gets_in_tx(
                    cleared,
                    keyspace.raw(),
                    keyspace.encryption(),
                    self.session().auths@,
                    key,
                    outcome,
                )
            }
    }

    /// Whether starting a scan can come to `outcome`.
    pub open spec fn scans_prefix<C: CryptoProvider>(
        self,
        keyspace: OptimisticSecureTxKeyspace<C>,
        fields: Option<Seq<Seq<u8>>>,
        limits: VersionScan,
        outcome: Result<SecureScan<C>, Error>,
    ) -> bool {
        exists|cleared: Result<(), Error>|
            {
                &&& #[trigger] self.checks(
                    keyspace.logical_name(),
                    KeyspacePermission::Read,
                    cleared,
                )
                &&& scans(
                    cleared,
                    keyspace.raw(),
                    keyspace.encryption(),
                    self.session().auths@,
                    fields,
                    limits,
                    outcome,
                )
            }
    }

    /// Whether deleting a version can come out as `outcome`.
    pub open spec fn deletes_version<C: CryptoProvider>(
        self,
        keyspace: OptimisticSecureTxKeyspace<C>,
        key: KeyView,
        outcome: Result<Mutation, Error>,
    ) -> bool {
        exists|cleared: Result<(), Error>|
            {
                &&& #[trigger] self.checks(
                    keyspace.logical_name(),
                    KeyspacePermission::Delete,
                    cleared,
                )
                &&& deletes(cleared, keyspace.raw(), key, outcome)
            }
    }

    /// Inserts or replaces one versioned cell after checking captured
    /// permissions.
    ///
    /// # Errors
    ///
    /// Returns an error when permission is denied, key validation fails, or
    /// encryption fails.
    pub fn insert_version<C: CryptoProvider>(
        &mut self,
        keyspace: &OptimisticSecureTxKeyspace<C>,
        cell: &VersionedCell,
        value: UserValue,
    ) -> (mutation: Result<Mutation, Error>)
        ensures
            *final(self) == *old(self),
            old(self).inserts_version(*keyspace, cell@, value@, mutation),
    {
        let cleared = self.check(keyspace.name(), KeyspacePermission::Write);
        plan_insert(cleared, &keyspace.inner, &keyspace.encryption, cell, value)
    }

    /// Asks for one exact version, to be shown if it is visible to the captured
    /// session.
    ///
    /// # Errors
    ///
    /// Returns an error when permission is denied or key encoding fails.
    pub fn get_version<C: CryptoProvider>(
        &self,
        keyspace: &OptimisticSecureTxKeyspace<C>,
        cell: &VersionedCell,
    ) -> (fetch: Result<SecureFetch<C>, Error>)
        ensures
            self.gets_version(*keyspace, cell@, fetch),
    {
        let cleared = self.check(keyspace.name(), KeyspacePermission::Read);
        plan_get_in_tx(cleared, &keyspace.inner, &keyspace.encryption, &self.session.auths, cell)
    }

    /// Starts a scan for versioned cells matching a prefix and captured
    /// authorizations.
    ///
    /// # Errors
    ///
    /// Returns an error when permission is denied or prefix encoding fails.
    pub fn scan_versioned_prefix<C: CryptoProvider>(
        &self,
        keyspace: &OptimisticSecureTxKeyspace<C>,
        prefix: &CompositePrefix,
        scan: &VersionScan,
    ) -> (versions: Result<SecureScan<C>, Error>)
        ensures
            self.scans_prefix(*keyspace, prefix.fields(), *scan, versions),
    {
        let cleared = self.check(keyspace.name(), KeyspacePermission::Read);
        plan_scan(
            cleared,
            &keyspace.inner,
            &keyspace.encryption,
            &self.session.auths,
            prefix,
            scan,
        )
    }

    /// Deletes one exact version after checking captured delete permission.
    ///
    /// # Errors
    ///
    /// Returns an error when permission is denied or key validation fails.
    pub fn delete_version<C: CryptoProvider>(
        &mut self,
        keyspace: &OptimisticSecureTxKeyspace<C>,
        cell: &VersionedCell,
    ) -> (mutation: Result<Mutation, Error>)
        ensures
            *final(self) == *old(self),
            old(self).deletes_version(*keyspace, cell@, mutation),
    {
        let cleared = self.check(keyspace.name(), KeyspacePermission::Delete);
        plan_delete(cleared, &keyspace.inner, cell)
    }

    fn check(&self, keyspace: &str, permission: KeyspacePermission) -> (cleared: Result<(), Error>)
        ensures
            self.checks(keyspace@, permission, cleared),
    {
        self.security.check_keyspace_permission(&self.session.identity, keyspace, permission)
    }

    /// Commits the transaction.
    pub fn commit(self) -> (end: TxEnd)
        ensures
            end == TxEnd::Commit,
    {
        TxEnd::Commit
    }

    /// Rolls the transaction back.
    pub fn rollback(self) -> (end: TxEnd)
        ensures
            end == TxEnd::Rollback,
    {
        TxEnd::Rollback
    }
}

} // verus!
