//! Security provider traits and minimal built-in providers.

use vstd::prelude::*;

use crate::audit::{
    record_audit, records, AuditConfig, AuditEvent, AuditFailureMode, AuditSink, EventView,
    NoAuditSink,
};
use crate::error::Error;
use crate::keyspace::Session;
use crate::storage::Slice;
use crate::visibility::Authorizations;

pub mod builtin;
pub mod laws;

verus! {

/// Authentication material passed to an [`Authenticator`].
#[derive(Debug, Eq, PartialEq)]
pub struct Credentials {
    principal: String,
    secret: Slice,
}

impl Clone for Credentials {
    fn clone(&self) -> (copy: Self)
        ensures
            copy.name() == self.name(),
            copy.key() == self.key(),
    {
        Credentials { principal: self.principal.clone(), secret: self.secret.clone() }
    }
}

impl Credentials {
    /// The principal name.
    pub closed spec fn name(self) -> Seq<char> {
        self.principal@
    }

    /// The secret bytes.
    pub closed spec fn key(self) -> Seq<u8> {
        self.secret@
    }

    /// Creates credentials from a principal and secret bytes.
    #[must_use]
    pub fn new(principal: String, secret: Slice) -> (credentials: Self)
        ensures
            credentials.name() == principal@,
            credentials.key() == secret@,
    {
        Credentials { principal, secret }
    }

    /// Returns the principal name.
    #[must_use]
    pub fn principal(&self) -> (principal: &str)
        ensures
            principal@ == self.name(),
    {
        self.principal.as_str()
    }

    /// Returns the secret bytes.
    #[must_use]
    pub fn secret(&self) -> (secret: &[u8])
        ensures
            secret@ == self.key(),
    {
        self.secret.as_slice()
    }
}

/// Authenticates credentials into an application identity.
pub trait Authenticator: Send + Sync + 'static {
    /// Authenticated identity type.
    type Identity: Clone + Send + Sync + 'static;

    /// Authenticates credentials.
    ///
    /// Returning `Ok(None)` denies authentication without exposing whether the
    /// principal or secret was wrong.
    ///
    /// # Errors
    ///
    /// Returns an error when the provider cannot evaluate the credentials.
    fn authenticate(&self, credentials: &Credentials) -> Result<Option<Self::Identity>, Error>;
}

/// Checks system-level and keyspace-level permissions.
pub trait PermissionHandler<I>: Send + Sync + 'static where I: Clone + Send + Sync + 'static {
    /// Returns `true` if `identity` has a system permission.
    fn has_system_permission(&self, identity: &I, permission: SystemPermission) -> bool;

    /// Returns `true` if `identity` has a permission on `keyspace`.
    fn has_keyspace_permission(
        &self,
        identity: &I,
        keyspace: &str,
        permission: KeyspacePermission,
    ) -> bool;
}

/// Resolves authorization labels for an authenticated identity.
pub trait Authorizor<I>: Send + Sync + 'static where I: Clone + Send + Sync + 'static {
    /// Returns the authorization label set for `identity`.
    ///
    /// # Errors
    ///
    /// Returns an error when the provider cannot resolve the identity's
    /// authorizations.
    fn authorizations(&self, identity: &I) -> Result<Authorizations, Error>;
}

/// System-level permissions.
#[derive(Clone, Copy, Debug, Eq, Ord, PartialEq, PartialOrd, Structural)]
pub enum SystemPermission {
    /// Create a secure keyspace.
    CreateKeyspace,

    /// Drop a secure keyspace.
    DropKeyspace,

    /// Manage identities or users.
    ManageUsers,

    /// Manage security policies.
    ManagePolicies,

    /// Compact keyspaces.
    Compact,
}

/// Keyspace-level permissions.
#[derive(Clone, Copy, Debug, Eq, Ord, PartialEq, PartialOrd, Structural)]
pub enum KeyspacePermission {
    /// Read records.
    Read,

    /// Write records.
    Write,

    /// Delete records.
    Delete,

    /// Compact the keyspace.
    Compact,

    /// Alter keyspace configuration.
    Alter,
}

impl KeyspacePermission {
    /// The name of the permission.
    pub open spec fn text(self) -> &'static str {
        match self {
            KeyspacePermission::Read => "keyspace:read",
            KeyspacePermission::Write => "keyspace:write",
            KeyspacePermission::Delete => "keyspace:delete",
            KeyspacePermission::Compact => "keyspace:compact",
            KeyspacePermission::Alter => "keyspace:alter",
        }
    }

    /// Returns the name of the permission.
    pub fn as_str(self) -> (text: &'static str)
        ensures
            text == self.text(),
    {
        match self {
            KeyspacePermission::Read => "keyspace:read",
            KeyspacePermission::Write => "keyspace:write",
            KeyspacePermission::Delete => "keyspace:delete",
            KeyspacePermission::Compact => "keyspace:compact",
            KeyspacePermission::Alter => "keyspace:alter",
        }
    }
}

// ---------------------------------------------------------------------------
// Decisions on what the providers answered
// ---------------------------------------------------------------------------
/// The error of credentials that were not accepted.
pub open spec fn refusal(audited: Result<(), Error>) -> Error {
    match audited {
        Ok(()) => Error::AuthenticationDenied,
        Err(error) => error,
    }
}

/// Decides the error of credentials that were not accepted.
pub fn refuse_credentials(audited: Result<(), Error>) -> (error: Error)
    ensures
        error == refusal(audited),
{
    match audited {
        Ok(()) => Error::AuthenticationDenied,
        Err(error) => error,
    }
}

/// The session of accepted credentials: none unless it was audited.
pub open spec fn admission<I>(
    identity: I,
    auths: Authorizations,
    audited: Result<(), Error>,
) -> Result<Session<I>, Error> {
    match audited {
        Ok(()) => Ok(Session { identity, auths }),
        Err(error) => Err(error),
    }
}

/// Decides whether accepted credentials get a session.
///
/// # Errors
///
/// Returns the error of the audit.
pub fn admit_identity<I>(identity: I, auths: Authorizations, audited: Result<(), Error>) -> (session:
    Result<Session<I>, Error>)
    ensures
        session == admission(identity, auths, audited),
{
    match audited {
        Ok(()) => Ok(Session { identity, auths }),
        Err(error) => Err(error),
    }
}

/// Whether an operation may go on: only if its permission was granted and the
/// decision was audited.
pub open spec fn clearance(
    granted: bool,
    permission: KeyspacePermission,
    audited: Result<(), Error>,
) -> Result<(), Error> {
    match audited {
        Err(error) => Err(error),
        Ok(()) => if granted {
            Ok(())
        } else {
            Err(Error::PermissionDenied(permission.text()))
        },
    }
}

/// The audit event of a permission decision.
pub open spec fn access_event<I>(granted: bool, identity: I, keyspace: Seq<char>) -> EventView<I> {
    if granted {
        EventView::KeyspaceAccess { identity, keyspace }
    } else {
        EventView::AuthorizationDenied { identity, keyspace }
    }
}

/// Decides whether an operation may go on.
///
/// # Errors
///
/// Returns the error of the audit, or an error if the permission was not
/// granted.
pub fn judge_permission(
    granted: bool,
    permission: KeyspacePermission,
    audited: Result<(), Error>,
) -> (cleared: Result<(), Error>)
    ensures
        cleared == clearance(granted, permission, audited),
{
    match audited {
        Err(error) => Err(error),
        Ok(()) => if granted {
            Ok(())
        } else {
            Err(Error::PermissionDenied(permission.as_str()))
        },
    }
}

// ---------------------------------------------------------------------------
// Provider sets
// ---------------------------------------------------------------------------
/// Configured provider set for secure keyspace APIs.
pub struct SecurityProviders<A, P, Z, S> {
    authenticator: A,
    permission_handler: P,
    authorizor: Z,
    audit: Option<AuditConfig<S>>,
}

impl<A, P, Z, S> SecurityProviders<A, P, Z, S> {
    /// The authenticator.
    pub closed spec fn authenticator(self) -> A {
        self.authenticator
    }

    /// The permission handler.
    pub closed spec fn permission_handler(self) -> P {
        self.permission_handler
    }

    /// The authorizor.
    pub closed spec fn authorizor(self) -> Z {
        self.authorizor
    }

    /// The audit configuration.
    pub closed spec fn audit(self) -> Option<AuditConfig<S>> {
        self.audit
    }

    /// Creates a provider set from providers of which each may be missing.
    ///
    /// # Errors
    ///
    /// Returns an error that names the first missing provider.
    pub fn from_parts(
        authenticator: Option<A>,
        permission_handler: Option<P>,
        authorizor: Option<Z>,
        audit: Option<AuditConfig<S>>,
    ) -> (providers: Result<Self, Error>)
        ensures
            assembled(authenticator, permission_handler, authorizor, audit, providers),
    {
        let authenticator = match authenticator {
            Some(authenticator) => authenticator,
            None => return Err(Error::MissingSecurityProvider("authenticator")),
        };
        let permission_handler = match permission_handler {
            Some(permission_handler) => permission_handler,
            None => return Err(Error::MissingSecurityProvider("permission_handler")),
        };
        let authorizor = match authorizor {
            Some(authorizor) => authorizor,
            None => return Err(Error::MissingSecurityProvider("authorizor")),
        };
        Ok(SecurityProviders { authenticator, permission_handler, authorizor, audit })
    }

    /// Installs an audit sink.
    #[must_use]
    pub fn with_audit_sink<T>(self, sink: T, failure_mode: AuditFailureMode) -> (providers:
        SecurityProviders<A, P, Z, T>)
        ensures
            providers.authenticator() == self.authenticator(),
            providers.permission_handler() == self.permission_handler(),
            providers.authorizor() == self.authorizor(),
            providers.audit() matches Some(config) && config.sink() == sink
                && config.failure_mode() == failure_mode,
    {
        SecurityProviders {
            authenticator: self.authenticator,
            permission_handler: self.permission_handler,
            authorizor: self.authorizor,
            audit: Some(AuditConfig::new(sink, failure_mode)),
        }
    }

    /// Returns the audit configuration.
    pub fn audit_config(&self) -> (audit: Option<AuditConfig<S>>)
        ensures
            audit == self.audit(),
    {
        match &self.audit {
            Some(audit) => Some(audit.clone()),
            None => None,
        }
    }
}

/// Whether `providers` is what comes of putting these providers together: the
/// set of all of them, or an error that names the first missing one.
pub open spec fn assembled<A, P, Z, S>(
    authenticator: Option<A>,
    permission_handler: Option<P>,
    authorizor: Option<Z>,
    audit: Option<AuditConfig<S>>,
    providers: Result<SecurityProviders<A, P, Z, S>, Error>,
) -> bool {
    match (authenticator, permission_handler, authorizor) {
        (Some(authenticator), Some(permission_handler), Some(authorizor)) => {
            &&& providers matches Ok(set)
            &&& set.authenticator() == authenticator
            &&& set.permission_handler() == permission_handler
            &&& set.authorizor() == authorizor
            &&& set.audit() == audit
        },
        (None, _, _) => providers == Err::<SecurityProviders<A, P, Z, S>, Error>(
            Error::MissingSecurityProvider("authenticator"),
        ),
        (Some(_), None, _) => providers == Err::<SecurityProviders<A, P, Z, S>, Error>(
            Error::MissingSecurityProvider("permission_handler"),
        ),
        (Some(_), Some(_), None) => providers == Err::<SecurityProviders<A, P, Z, S>, Error>(
            Error::MissingSecurityProvider("authorizor"),
        ),
    }
}

impl<A, P, Z> SecurityProviders<A, P, Z, NoAuditSink> where
    A: Authenticator,
    P: PermissionHandler<A::Identity>,
    Z: Authorizor<A::Identity>,
 {
    /// Creates a provider set from concrete providers.
    #[must_use]
    pub fn new(authenticator: A, permission_handler: P, authorizor: Z) -> (providers: Self)
        ensures
            providers.authenticator() == authenticator,
            providers.permission_handler() == permission_handler,
            providers.authorizor() == authorizor,
            providers.audit() is None,
    {
        SecurityProviders { authenticator, permission_handler, authorizor, audit: None }
    }
}

impl<A, P, Z, S> SecurityProviders<A, P, Z, S> where
    A: Authenticator,
    P: PermissionHandler<A::Identity>,
    Z: Authorizor<A::Identity>,
    S: AuditSink<A::Identity>,
 {
    /// Whether authenticating `credentials` can come out as `outcome`: the
    /// authenticator is asked first; refused credentials are audited as such;
    /// for accepted ones the authorizor is asked, and a session is given only
    /// if that was audited.
    pub open spec fn authenticates(
        self,
        credentials: Credentials,
        outcome: Result<Session<A::Identity>, Error>,
    ) -> bool {
        exists|found: Result<Option<A::Identity>, Error>|
            {
                &&& #[trigger] call_ensures(
                    A::authenticate,
                    (&self.authenticator(), &credentials),
                    found,
                )
                &&& match found {
                    Err(error) => outcome == Err::<Session<A::Identity>, Error>(error),
                    Ok(None) => exists|audited: Result<(), Error>|
                        {
                            &&& #[trigger] records::<A::Identity, S>(
                                self.audit(),
                                EventView::AuthenticationFailed,
                                audited,
                            )
                            &&& outcome == Err::<Session<A::Identity>, Error>(refusal(audited))
                        },
                    Ok(Some(identity)) => self.admits(identity, outcome),
                }
            }
    }

    /// Whether an authenticated identity can get `outcome`.
    pub open spec fn admits(
        self,
        identity: A::Identity,
        outcome: Result<Session<A::Identity>, Error>,
    ) -> bool {
        exists|resolved: Result<Authorizations, Error>|
            {
                &&& #[trigger] call_ensures(
                    Z::authorizations,
                    (&self.authorizor(), &identity),
                    resolved,
                )
                &&& match resolved {
                    Err(error) => outcome == Err::<Session<A::Identity>, Error>(error),
                    Ok(auths) => exists|audited: Result<(), Error>|
                        {
                            &&& #[trigger] records::<A::Identity, S>(
                                self.audit(),
                                EventView::AuthenticationSucceeded { identity },
                                audited,
                            )
                            &&& outcome == admission(identity, auths, audited)
                        },
                }
            }
    }

    /// Whether checking a permission can come out as `outcome`: the permission
    /// handler is asked, its decision is audited, and the operation is cleared
    /// only if it was granted and audited.
    pub open spec fn checks(
        self,
        identity: A::Identity,
        keyspace: Seq<char>,
        permission: KeyspacePermission,
        outcome: Result<(), Error>,
    ) -> bool {
        exists|name: &str, granted: bool, audited: Result<(), Error>|
            {
                &&& #[trigger] call_ensures(
                    P::has_keyspace_permission,
                    (&self.permission_handler(), &identity, name, permission),
                    granted,
                )
                &&& name@ == keyspace
                &&& #[trigger] records::<A::Identity, S>(
                    self.audit(),
                    access_event(granted, identity, keyspace),
                    audited,
                )
                &&& outcome == clearance(granted, permission, audited)
            }
    }

    /// Authenticates credentials and resolves a session.
    ///
    /// # Errors
    ///
    /// Returns an error when authentication fails, the authorizor cannot
    /// resolve authorization labels, or the outcome cannot be audited.
    pub fn authenticate(&self, credentials: &Credentials) -> (session: Result<
        Session<A::Identity>,
        Error,
    >)
        ensures
            self.authenticates(*credentials, session),
    {
        let found = self.authenticator.authenticate(credentials);
        assert(call_ensures(A::authenticate, (&self.authenticator(), credentials), found));
        let identity = match found {
            Ok(Some(identity)) => identity,
            Ok(None) => {
                let audited = record_audit(&self.audit, AuditEvent::AuthenticationFailed);
                return Err(refuse_credentials(audited));
            },
            Err(error) => return Err(error),
        };
        let resolved = self.authorizor.authorizations(&identity);
        assert(call_ensures(Z::authorizations, (&self.authorizor(), &identity), resolved));
        let auths = match resolved {
            Ok(auths) => auths,
            Err(error) => return Err(error),
        };
        let audited = record_audit(
            &self.audit,
            AuditEvent::AuthenticationSucceeded { identity: &identity },
        );
        admit_identity(identity, auths, audited)
    }

    /// Checks that an identity has a permission on a keyspace.
    ///
    /// # Errors
    ///
    /// Returns an error if the permission is not granted, or the decision
    /// cannot be audited.
    pub fn check_keyspace_permission(
        &self,
        identity: &A::Identity,
        keyspace: &str,
        permission: KeyspacePermission,
    ) -> (cleared: Result<(), Error>)
        ensures
            self.checks(*identity, keyspace@, permission, cleared),
    {
        let granted = self.permission_handler.has_keyspace_permission(
            identity,
            keyspace,
            permission,
        );
        assert(call_ensures(
            P::has_keyspace_permission,
            (&self.permission_handler(), identity, keyspace, permission),
            granted,
        ));
        let audited = if granted {
            record_audit(&self.audit, AuditEvent::KeyspaceAccess { identity, keyspace })
        } else {
            record_audit(&self.audit, AuditEvent::AuthorizationDenied { identity, keyspace })
        };
        assert(records::<A::Identity, S>(
            self.audit(),
            access_event(granted, *identity, keyspace@),
            audited,
        ));
        judge_permission(granted, permission, audited)
    }
}

} // verus!
