//! Secure database and keyspace wrappers.

use std::sync::Arc;

use vstd::prelude::*;

use crate::access::{
    deletes, gets, inserts, plan_delete, plan_get, plan_insert, plan_scan, scans, SecureFetch,
    SecureScan,
};
use crate::audit::{AuditConfig, AuditFailureMode, AuditSink, NoAuditSink};
use crate::cell::{VersionScan, VersionedCell};
use crate::composite::{CompositePrefix, KeyView};
use crate::crypto::{CryptoProvider, EncryptionConfig, SecureKeyspaceOptions, ValueEncryption};
use crate::error::Error;
use crate::naming::{physical_keyspace_name, physical_name};
use crate::policy::{RetentionPolicy, SecureCompactionPolicy};
use crate::providers::{
    assembled, Authenticator, Authorizor, Credentials, KeyspacePermission, PermissionHandler,
    SecurityProviders,
};
use crate::storage::{Database, Keyspace, Mutation, UserValue};
use crate::visibility::Authorizations;

pub mod laws;

verus! {

/// Authenticated session context for secure operations.
#[derive(Debug, Eq, PartialEq)]
pub struct Session<I> {
    /// Authenticated application identity.
    pub identity: I,

    /// Authorization labels resolved for the identity.
    pub auths: Authorizations,
}

impl<I: Clone> Clone for Session<I> {
    fn clone(&self) -> (copy: Self)
        ensures
            call_ensures(I::clone, (&self.identity,), copy.identity),
            copy.auths@ == self.auths@,
    {
        Session { identity: self.identity.clone(), auths: self.auths.clone() }
    }
}

// ---------------------------------------------------------------------------
// Opening keyspaces
// ---------------------------------------------------------------------------
/// A request to create or open the raw keyspace behind a secure one.
pub struct OpenKeyspace<I, S, O> {
    /// The raw keyspace.
    pub keyspace: Keyspace,

    /// Raw keyspace creation options.
    pub create_options: O,

    /// The retention that compaction of the keyspace has to apply.
    pub retention: Option<SecureCompactionPolicy<I, S>>,
}

/// A secure keyspace handle with the request to open what is behind it.
pub struct Opening<K, I, S, O> {
    /// The secure keyspace handle.
    pub keyspace: K,

    /// The request to perform before the handle is used.
    pub request: OpenKeyspace<I, S, O>,
}

/// Whether `installed` is the retention of a keyspace with these options: none
/// without a policy, and an error with a malformed one.
pub open spec fn installs<I, S>(
    name: Seq<char>,
    retention: Option<RetentionPolicy>,
    audit: Option<AuditConfig<S>>,
    installed: Result<Option<SecureCompactionPolicy<I, S>>, Error>,
) -> bool {
    match retention {
        None => installed matches Ok(None),
        Some(policy) => match policy.validation() {
            Err(error) => installed == Err::<Option<SecureCompactionPolicy<I, S>>, Error>(error),
            Ok(()) => {
                &&& installed matches Ok(Some(compaction))
                &&& compaction.keyspace() == name
                &&& compaction.retention() == policy
                &&& compaction.audit() == audit
            },
        },
    }
}

/// Prepares the retention of a keyspace.
///
/// # Errors
///
/// Returns an error if the retention policy is malformed.
pub fn install_retention_policy<I, S>(
    name: &str,
    retention: Option<RetentionPolicy>,
    audit: Option<AuditConfig<S>>,
) -> (installed: Result<Option<SecureCompactionPolicy<I, S>>, Error>)
    ensures
        installs(name@, retention, audit, installed),
{
    match retention {
        None => Ok(None),
        Some(retention) => match SecureCompactionPolicy::new(name, retention, audit) {
            Ok(policy) => Ok(Some(policy)),
            Err(error) => Err(error),
        },
    }
}

/// Whether `encryption` is the encryption of a keyspace with this
/// configuration.
pub open spec fn encrypts_as<C>(
    name: Seq<char>,
    config: Option<EncryptionConfig<C>>,
    encryption: Option<ValueEncryption<C>>,
) -> bool {
    match config {
        None => encryption is None,
        Some(config) => encryption matches Some(encryption) && encryption.keyspace() == name
            && encryption.config() == config,
    }
}

/// Whether a keyspace with this name and these options is behind a handle: its
/// raw keyspace has the reserved physical name, the options are handed on, and
/// retention and encryption are as configured.
pub open spec fn opens<C, I, S, O>(
    name: Seq<char>,
    options: SecureKeyspaceOptions<C, O>,
    audit: Option<AuditConfig<S>>,
    inner: Keyspace,
    encryption: Option<ValueEncryption<C>>,
    request: OpenKeyspace<I, S, O>,
) -> bool {
    &&& inner@ == physical_name(name)
    &&& encrypts_as(name, options.encryption, encryption)
    &&& request.keyspace == inner
    &&& request.create_options == options.create_options
    &&& installs(name, options.retention, audit, Ok(request.retention))
}

/// Why a keyspace with these options cannot be opened, if it cannot.
pub open spec fn refused_options<C, O>(options: SecureKeyspaceOptions<C, O>) -> Option<Error> {
    match options.retention {
        Some(policy) => match policy.validation() {
            Err(error) => Some(error),
            Ok(()) => None,
        },
        None => None,
    }
}

/// What is behind a secure keyspace handle.
pub struct Backing<C, I, S, O> {
    /// The raw keyspace.
    pub inner: Keyspace,

    /// How values of the keyspace are encrypted.
    pub encryption: Option<ValueEncryption<C>>,

    /// The request to open the raw keyspace.
    pub request: OpenKeyspace<I, S, O>,
}

/// Decides what is behind a secure keyspace with these options.
///
/// # Errors
///
/// Returns an error if the retention policy is malformed.
pub fn plan_open<C, I, S, O>(
    name: &str,
    options: SecureKeyspaceOptions<C, O>,
    audit: Option<AuditConfig<S>>,
) -> (backing: Result<Backing<C, I, S, O>, Error>)
    ensures
        match backing {
            Ok(backing) => {
                &&& refused_options(options) is None
                &&& opens(
                    name@,
                    options,
                    audit,
                    backing.inner,
                    backing.encryption,
                    backing.request,
                )
            },
            Err(error) => refused_options(options) == Some(error),
        },
{
    let encryption = match options.encryption {
        Some(config) => Some(ValueEncryption::new(name, config)),
        None => None,
    };
    let retention = match install_retention_policy(name, options.retention, audit) {
        Ok(retention) => retention,
        Err(error) => return Err(error),
    };
    let inner = Keyspace::named(physical_keyspace_name(name));
    let request = OpenKeyspace {
        keyspace: inner.clone(),
        create_options: options.create_options,
        retention,
    };
    Ok(Backing { inner, encryption, request })
}

// ---------------------------------------------------------------------------
// Databases
// ---------------------------------------------------------------------------
/// Secure database wrapper backed by a raw [`Database`].
pub struct SecureDatabase<A, P, Z, S> {
    inner: Database,
    security: Arc<SecurityProviders<A, P, Z, S>>,
}

impl<A, P, Z, S> SecureDatabase<A, P, Z, S> {
    /// The wrapped raw database.
    pub closed spec fn raw(self) -> Database {
        self.inner
    }

    /// The security providers.
    pub closed spec fn security(self) -> SecurityProviders<A, P, Z, S> {
        *self.security
    }

    /// Wraps an already-open database with security providers.
    #[must_use]
    pub fn new(inner: Database, security: SecurityProviders<A, P, Z, S>) -> (database: Self)
        ensures
            database.raw() == inner,
            database.security() == security,
    {
        SecureDatabase { inner, security: Arc::new(security) }
    }

    /// Returns the wrapped raw database.
    #[must_use]
    pub fn inner(&self) -> (inner: &Database)
        ensures
            *inner == self.raw(),
    {
        &self.inner
    }
}

impl<A, P, Z, S> SecureDatabase<A, P, Z, S> where
    A: Authenticator,
    P: PermissionHandler<A::Identity>,
    Z: Authorizor<A::Identity>,
    S: AuditSink<A::Identity>,
 {
    /// Authenticates credentials and resolves a session.
    ///
    /// # Errors
    ///
    /// Returns an error when authentication fails or the authorizor cannot
    /// resolve authorization labels.
    pub fn authenticate(&self, credentials: &Credentials) -> (session: Result<
        Session<A::Identity>,
        Error,
    >)
        ensures
            self.security().authenticates(*credentials, session),
    {
        self.security.authenticate(credentials)
    }

    /// Creates or opens a secure keyspace handle.
    ///
    /// The request that comes with the handle is to be performed before the
    /// handle is used. The storage engine decides whether it accepts the name.
    ///
    /// # Errors
    ///
    /// Returns an error when the retention policy is malformed.
    pub fn secure_keyspace<C, O, F>(&self, name: &str, create_options: F) -> (opening: Result<
        Opening<SecureKeyspace<A, P, Z, S, C>, A::Identity, S, O>,
        Error,
    >) where F: FnOnce() -> SecureKeyspaceOptions<C, O>
        requires
            call_requires(create_options, ()),
        ensures
            exists|options: SecureKeyspaceOptions<C, O>|
                {
                    &&& #[trigger] call_ensures(create_options, (), options)
                    &&& match opening {
                        Ok(opening) => {
                            &&& refused_options(options) is None
                            &&& opens(
                                name@,
                                options,
                                self.security().audit(),
                                opening.keyspace.raw(),
                                opening.keyspace.encryption(),
                                opening.request,
                            )
                            &&& opening.keyspace.logical_name() == name@
                            &&& opening.keyspace.security() == self.security()
                        },
                        Err(error) => refused_options(options) == Some(error),
                    }
                },
    {
        let options = create_options();
        let backing = match plan_open(name, options, self.security.audit_config()) {
            Ok(backing) => backing,
            Err(error) => return Err(error),
        };
        Ok(
            Opening {
                keyspace: SecureKeyspace {
                    inner: backing.inner,
                    name: name.to_owned(),
                    security: self.security.clone(),
                    encryption: backing.encryption,
                },
                request: backing.request,
            },
        )
    }
}

impl<A, P, Z> SecureDatabase<A, P, Z, NoAuditSink> {
    /// Creates a builder for a secure database at `path`.
    pub fn builder(path: std::path::PathBuf) -> (builder: SecureDatabaseBuilder<
        A,
        P,
        Z,
        NoAuditSink,
    >)
        ensures
            builder == (SecureDatabaseBuilder {
                path,
                authenticator: None::<A>,
                permission_handler: None::<P>,
                authorizor: None::<Z>,
                audit: None::<AuditConfig<NoAuditSink>>,
            }),
    {
        SecureDatabaseBuilder {
            path,
            authenticator: None,
            permission_handler: None,
            authorizor: None,
            audit: None,
        }
    }
}

impl<A, P, Z, S> Clone for SecureDatabase<A, P, Z, S> {
    fn clone(&self) -> (copy: Self)
        ensures
            copy == *self,
    {
        SecureDatabase { inner: self.inner.clone(), security: self.security.clone() }
    }
}

/// Builder for [`SecureDatabase`].
pub struct SecureDatabaseBuilder<A, P, Z, S> {
    /// Where the database lies.
    pub path: std::path::PathBuf,

    /// The authenticator, once set.
    pub authenticator: Option<A>,

    /// The permission handler, once set.
    pub permission_handler: Option<P>,

    /// The authorizor, once set.
    pub authorizor: Option<Z>,

    /// The audit configuration, once set.
    pub audit: Option<AuditConfig<S>>,
}

impl<A, P, Z, S> SecureDatabaseBuilder<A, P, Z, S> {
    /// Sets the authenticator.
    #[must_use]
    pub fn authenticator(self, authenticator: A) -> (builder: Self)
        ensures
            builder == (SecureDatabaseBuilder { authenticator: Some(authenticator), ..self }),
    {
        SecureDatabaseBuilder { authenticator: Some(authenticator), ..self }
    }

    /// Sets the permission handler.
    #[must_use]
    pub fn permission_handler(self, permission_handler: P) -> (builder: Self)
        ensures
            builder == (SecureDatabaseBuilder {
                permission_handler: Some(permission_handler),
                ..self
            }),
    {
        SecureDatabaseBuilder { permission_handler: Some(permission_handler), ..self }
    }

    /// Sets the authorizor.
    #[must_use]
    pub fn authorizor(self, authorizor: Z) -> (builder: Self)
        ensures
            builder == (SecureDatabaseBuilder { authorizor: Some(authorizor), ..self }),
    {
        SecureDatabaseBuilder { authorizor: Some(authorizor), ..self }
    }

    /// Installs an audit sink.
    #[must_use]
    pub fn audit_sink<T>(self, sink: T, failure_mode: AuditFailureMode) -> (builder:
        SecureDatabaseBuilder<A, P, Z, T>)
        ensures
            builder.path == self.path,
            builder.authenticator == self.authenticator,
            builder.permission_handler == self.permission_handler,
            builder.authorizor == self.authorizor,
            builder.audit matches Some(config) && config.sink() == sink && config.failure_mode()
                == failure_mode,
    {
        SecureDatabaseBuilder {
            path: self.path,
            authenticator: self.authenticator,
            permission_handler: self.permission_handler,
            authorizor: self.authorizor,
            audit: Some(AuditConfig::new(sink, failure_mode)),
        }
    }

    /// Wraps the raw database at the builder's path, which is to be opened
    /// before it is used.
    ///
    /// # Errors
    ///
    /// Returns an error when a provider is missing.
    pub fn open(self) -> (database: Result<SecureDatabase<A, P, Z, S>, Error>)
        ensures
            match database {
                Ok(database) => {
                    &&& *database.raw().path == self.path
                    &&& assembled(
                        self.authenticator,
                        self.permission_handler,
                        self.authorizor,
                        self.audit,
                        Ok(database.security()),
                    )
                },
                Err(error) => assembled(
                    self.authenticator,
                    self.permission_handler,
                    self.authorizor,
                    self.audit,
                    Err(error),
                ),
            },
    {
        match SecurityProviders::from_parts(
            self.authenticator,
            self.permission_handler,
            self.authorizor,
            self.audit,
        ) {
            Ok(security) => Ok(SecureDatabase::new(Database { path: Arc::new(self.path) }, security)),
            Err(error) => Err(error),
        }
    }
}

// ---------------------------------------------------------------------------
// Keyspaces
// ---------------------------------------------------------------------------
/// Secure keyspace wrapper that requires a [`Session`] for data access.
pub struct SecureKeyspace<A, P, Z, S, C> {
    inner: Keyspace,
    name: String,
    security: Arc<SecurityProviders<A, P, Z, S>>,
    encryption: Option<ValueEncryption<C>>,
}

impl<A, P, Z, S, C> Clone for SecureKeyspace<A, P, Z, S, C> {
    fn clone(&self) -> (copy: Self)
        ensures
            copy == *self,
    {
        SecureKeyspace {
            inner: self.inner.clone(),
            name: self.name.clone(),
            security: self.security.clone(),
            encryption: match &self.encryption {
                Some(encryption) => Some(encryption.clone()),
                None => None,
            },
        }
    }
}

impl<A, P, Z, S, C> SecureKeyspace<A, P, Z, S, C> {
    /// The wrapped raw keyspace.
    pub closed spec fn raw(self) -> Keyspace {
        self.inner
    }

    /// The secure keyspace name.
    pub closed spec fn logical_name(self) -> Seq<char> {
        self.name@
    }

    /// The security providers.
    pub closed spec fn security(self) -> SecurityProviders<A, P, Z, S> {
        *self.security
    }

    /// How values of the keyspace are encrypted.
    pub closed spec fn encryption(self) -> Option<ValueEncryption<C>> {
        self.encryption
    }

    /// Returns the secure keyspace name.
    #[must_use]
    pub fn name(&self) -> (name: &str)
        ensures
            name@ == self.logical_name(),
    {
        self.name.as_str()
    }

    /// Returns the wrapped raw keyspace.
    #[must_use]
    pub fn inner(&self) -> (inner: &Keyspace)
        ensures
            *inner == self.raw(),
    {
        &self.inner
    }
}

impl<A, P, Z, S, C> SecureKeyspace<A, P, Z, S, C> where
    A: Authenticator,
    P: PermissionHandler<A::Identity>,
    Z: Authorizor<A::Identity>,
    S: AuditSink<A::Identity>,
    C: CryptoProvider,
 {
    /// Whether checking a permission of a session on this keyspace can come
    /// out as `cleared`.
    pub open spec fn checks(
        self,
        session: Session<A::Identity>,
        permission: KeyspacePermission,
        cleared: Result<(), Error>,
    ) -> bool {
        self.security().checks(session.identity, self.logical_name(), permission, cleared)
    }

    /// Whether inserting a version for a session can come out as `outcome`.
    pub open spec fn inserts_version(
        self,
        session: Session<A::Identity>,
        key: KeyView,
        value: Seq<u8>,
        outcome: Result<Mutation, Error>,
    ) -> bool {
        exists|cleared: Result<(), Error>|
            {
                &&& #[trigger] self.checks(session, KeyspacePermission::Write, cleared)
                &&& inserts(cleared, self.raw(), self.encryption(), key, value, outcome)
            }
    }

    /// Whether reading a version for a session can come to `outcome`.
    pub open spec fn gets_version(
        self,
        session: Session<A::Identity>,
        key: KeyView,
        outcome: Result<Option<SecureFetch<C>>, Error>,
    ) -> bool {
        exists|cleared: Result<(), Error>|
            {
                &&& #[trigger] self.checks(session, KeyspacePermission::Read, cleared)
                &&& gets(
                    cleared,
                    self.raw(),
                    self.encryption(),
                    session.auths@,
                    key,
                    outcome,
                )
            }
    }

    /// Whether starting a scan for a session can come to `outcome`.
    pub open spec fn scans_prefix(
        self,
        session: Session<A::Identity>,
        fields: Option<Seq<Seq<u8>>>,
        limits: VersionScan,
        outcome: Result<SecureScan<C>, Error>,
    ) -> bool {
        exists|cleared: Result<(), Error>|
            {
                &&& #[trigger] self.checks(session, KeyspacePermission::Read, cleared)
                &&& scans(
                    cleared,
                    self.raw(),
                    self.encryption(),
                    session.auths@,
                    fields,
                    limits,
                    outcome,
                )
            }
    }

    /// Whether deleting a version for a session can come out as `outcome`.
    pub open spec fn deletes_version(
        self,
        session: Session<A::Identity>,
        key: KeyView,
        outcome: Result<Mutation, Error>,
    ) -> bool {
        exists|cleared: Result<(), Error>|
            {
                &&& #[trigger] self.checks(session, KeyspacePermission::Delete, cleared)
                &&& deletes(cleared, self.raw(), key, outcome)
            }
    }

    /// Inserts or replaces one versioned cell after checking write permission.
    ///
    /// # Errors
    ///
    /// Returns an error when permission is denied, the visibility expression is
    /// invalid or non-canonical, key encoding fails, or encryption fails.
    pub fn insert_version(
        &self,
        session: &Session<A::Identity>,
        cell: &VersionedCell,
        value: UserValue,
    ) -> (mutation: Result<Mutation, Error>)
        ensures
            self.inserts_version(*session, cell@, value@, mutation),
    {
        let cleared = self.check(session, KeyspacePermission::Write);
        plan_insert(cleared, &self.inner, &self.encryption, cell, value)
    }

    /// Asks for one exact version if it is visible to the session; `None` means
    /// that there is nothing to show.
    ///
    /// # Errors
    ///
    /// Returns an error when permission is denied, key encoding fails, or the
    /// visibility expression is invalid.
    pub fn get_version(&self, session: &Session<A::Identity>, cell: &VersionedCell) -> (fetch:
        Result<Option<SecureFetch<C>>, Error>)
        ensures
            self.gets_version(*session, cell@, fetch),
    {
        let cleared = self.check(session, KeyspacePermission::Read);
        plan_get(cleared, &self.inner, &self.encryption, &session.auths, cell)
    }

    /// Starts a scan for versioned cells matching a composite-key prefix in
    /// encoded order.
    ///
    /// Returned records are filtered by the session's authorization labels.
    ///
    /// # Errors
    ///
    /// Returns an error when permission is denied or prefix encoding fails.
    pub fn scan_versioned_prefix(
        &self,
        session: &Session<A::Identity>,
        prefix: &CompositePrefix,
        scan: &VersionScan,
    ) -> (versions: Result<SecureScan<C>, Error>)
        ensures
            self.scans_prefix(*session, prefix.fields(), *scan, versions),
    {
        let cleared = self.check(session, KeyspacePermission::Read);
        plan_scan(cleared, &self.inner, &self.encryption, &session.auths, prefix, scan)
    }

    /// Deletes one exact version after checking delete permission.
    ///
    /// # Errors
    ///
    /// Returns an error when permission is denied, the visibility expression is
    /// invalid or non-canonical, or key encoding fails.
    pub fn delete_version(&self, session: &Session<A::Identity>, cell: &VersionedCell) -> (mutation:
        Result<Mutation, Error>)
        ensures
            self.deletes_version(*session, cell@, mutation),
    {
        let cleared = self.check(session, KeyspacePermission::Delete);
        plan_delete(cleared, &self.inner, cell)
    }

    fn check(&self, session: &Session<A::Identity>, permission: KeyspacePermission) -> (cleared:
        Result<(), Error>)
        ensures
            self.checks(*session, permission, cleared),
    {
        self.security.check_keyspace_permission(
            &session.identity,
            self.name.as_str(),
            permission,
        )
    }
}

} // verus!
