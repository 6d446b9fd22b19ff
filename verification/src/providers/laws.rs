//! Laws of provider decisions: they fail closed.

use vstd::prelude::*;

use crate::audit::{records, AuditConfig, AuditSink, EventView, NoAuditSink};
use crate::error::Error;
use crate::keyspace::Session;
use crate::providers::builtin::{StaticAuthenticator, StaticAuthorizor, StaticPermissionHandler};
use crate::providers::{
    access_event, admission, assembled, clearance, refusal, Authenticator, Authorizor, Credentials,
    KeyspacePermission, PermissionHandler, SecurityProviders,
};
use crate::visibility::Authorizations;

verus! {

/// A session is given only for an identity that the authenticator found, and
/// with the labels that the authorizor resolved for it.
pub proof fn lemma_sessions_come_from_providers<A, P, Z, S>(
    providers: SecurityProviders<A, P, Z, S>,
    credentials: Credentials,
    session: Session<A::Identity>,
) where
    A: Authenticator,
    P: PermissionHandler<A::Identity>,
    Z: Authorizor<A::Identity>,
    S: AuditSink<A::Identity>,

    requires
        providers.authenticates(credentials, Ok(session)),
    ensures
        call_ensures(
            A::authenticate,
            (&providers.authenticator(), &credentials),
            Ok::<Option<A::Identity>, Error>(Some(session.identity)),
        ),
        call_ensures(
            Z::authorizations,
            (&providers.authorizor(), &session.identity),
            Ok::<Authorizations, Error>(session.auths),
        ),
{
    let found = choose|found: Result<Option<A::Identity>, Error>|
        {
            &&& #[trigger] call_ensures(
                A::authenticate,
                (&providers.authenticator(), &credentials),
                found,
            )
            &&& match found {
                Err(error) => Ok::<Session<A::Identity>, Error>(session) == Err::<
                    Session<A::Identity>,
                    Error,
                >(error),
                Ok(None) => exists|audited: Result<(), Error>|
                    {
                        &&& #[trigger] records::<A::Identity, S>(
                            providers.audit(),
                            EventView::AuthenticationFailed,
                            audited,
                        )
                        &&& Ok::<Session<A::Identity>, Error>(session) == Err::<
                            Session<A::Identity>,
                            Error,
                        >(refusal(audited))
                    },
                Ok(Some(identity)) => providers.admits(identity, Ok(session)),
            }
        };
    let identity = found->Ok_0->Some_0;
    assert(found == Ok::<Option<A::Identity>, Error>(Some(identity)));
    let resolved = choose|resolved: Result<Authorizations, Error>|
        {
            &&& #[trigger] call_ensures(
                Z::authorizations,
                (&providers.authorizor(), &identity),
                resolved,
            )
            &&& match resolved {
                Err(error) => Ok::<Session<A::Identity>, Error>(session) == Err::<
                    Session<A::Identity>,
                    Error,
                >(error),
                Ok(auths) => exists|audited: Result<(), Error>|
                    {
                        &&& #[trigger] records::<A::Identity, S>(
                            providers.audit(),
                            EventView::AuthenticationSucceeded { identity },
                            audited,
                        )
                        &&& Ok::<Session<A::Identity>, Error>(session) == admission(
                            identity,
                            auths,
                            audited,
                        )
                    },
            }
        };
    let auths = resolved->Ok_0;
    assert(resolved == Ok::<Authorizations, Error>(auths));
}

/// An operation is cleared only if the permission handler granted its
/// permission.
pub proof fn lemma_clearance_needs_grant<A, P, Z, S>(
    providers: SecurityProviders<A, P, Z, S>,
    identity: A::Identity,
    keyspace: Seq<char>,
    permission: KeyspacePermission,
) where
    A: Authenticator,
    P: PermissionHandler<A::Identity>,
    Z: Authorizor<A::Identity>,
    S: AuditSink<A::Identity>,

    requires
        providers.checks(identity, keyspace, permission, Ok(())),
    ensures
        exists|name: &str|
            #![trigger name@]
            name@ == keyspace && call_ensures(
                P::has_keyspace_permission,
                (&providers.permission_handler(), &identity, name, permission),
                true,
            ),
{
    let (name, granted, audited) = choose|name: &str, granted: bool, audited: Result<(), Error>|
        {
            &&& #[trigger] call_ensures(
                P::has_keyspace_permission,
                (&providers.permission_handler(), &identity, name, permission),
                granted,
            )
            &&& name@ == keyspace
            &&& #[trigger] records::<A::Identity, S>(
                providers.audit(),
                access_event(granted, identity, keyspace),
                audited,
            )
            &&& Ok::<(), Error>(()) == clearance(granted, permission, audited)
        };
    assert(granted);
}

/// Whether the permission handler never grants an identity a permission on a
/// keyspace.
pub open spec fn never_grants<A, P, Z, S>(
    providers: SecurityProviders<A, P, Z, S>,
    identity: A::Identity,
    keyspace: Seq<char>,
    permission: KeyspacePermission,
) -> bool where
    A: Authenticator,
    P: PermissionHandler<A::Identity>,
    Z: Authorizor<A::Identity>,
    S: AuditSink<A::Identity>,
 {
    forall|name: &str|
        name@ == keyspace ==> !#[trigger] call_ensures(
            P::has_keyspace_permission,
            (&providers.permission_handler(), &identity, name, permission),
            true,
        )
}

/// Whether an operation was refused for want of a permission: with the name of
/// the permission, or because the refusal could not be audited.
pub open spec fn refused_for(permission: KeyspacePermission, error: Error) -> bool {
    ||| error == Error::PermissionDenied(permission.text())
    ||| error == Error::Audit("audit sink failed")
}

/// Where the permission handler does not grant a permission, the operation is
/// refused: with the name of the permission, or with the audit error.
pub proof fn lemma_missing_permission_refuses<A, P, Z, S>(
    providers: SecurityProviders<A, P, Z, S>,
    identity: A::Identity,
    keyspace: Seq<char>,
    permission: KeyspacePermission,
) where
    A: Authenticator,
    P: PermissionHandler<A::Identity>,
    Z: Authorizor<A::Identity>,
    S: AuditSink<A::Identity>,

    requires
        never_grants(providers, identity, keyspace, permission),
    ensures
        forall|outcome: Result<(), Error>| #[trigger]
            providers.checks(identity, keyspace, permission, outcome) ==> (outcome matches Err(
                error,
            ) && refused_for(permission, error)),
{
}

/// With static permissions and no audit sink, an operation is cleared exactly
/// if its permission was granted on its keyspace.
pub proof fn lemma_static_permissions_decide<A, Z>(
    providers: SecurityProviders<A, StaticPermissionHandler<A::Identity>, Z, NoAuditSink>,
    identity: A::Identity,
    keyspace: Seq<char>,
    permission: KeyspacePermission,
    outcome: Result<(), Error>,
) where A: Authenticator, Z: Authorizor<A::Identity>
    requires
        providers.audit() is None,
        providers.checks(identity, keyspace, permission, outcome),
    ensures
        outcome == if providers.permission_handler().keyspace_permissions().contains(
            (keyspace, permission),
        ) {
            Ok::<(), Error>(())
        } else {
            Err(Error::PermissionDenied(permission.text()))
        },
{
}

/// With static principals, static labels and no audit sink, credentials get a
/// session with those labels exactly if the principal is known with this
/// secret, and all others are refused alike.
pub proof fn lemma_static_principals_decide<I, P>(
    providers: SecurityProviders<StaticAuthenticator<I>, P, StaticAuthorizor, NoAuditSink>,
    credentials: Credentials,
    outcome: Result<Session<I>, Error>,
) where I: Clone + Send + Sync + 'static, P: PermissionHandler<I>
    requires
        providers.audit() is None,
        providers.authenticates(credentials, outcome),
    ensures
        ({
            let principals = providers.authenticator()@;
            let name = credentials.name();
            if principals.contains_key(name) && principals[name].0 == credentials.key() {
                &&& outcome matches Ok(session)
                &&& call_ensures(I::clone, (&principals[name].1,), session.identity)
                &&& session.auths@ == providers.authorizor()@
            } else {
                outcome == Err::<Session<I>, Error>(Error::AuthenticationDenied)
            }
        }),
{
}

// ---------------------------------------------------------------------------
// What each answer of a provider leads to
// ---------------------------------------------------------------------------
/// Checking a permission asks the permission handler for this identity, this
/// keyspace and this permission. If it is granted, access is audited, and the
/// operation goes on unless auditing refuses it; if not, the denial is audited,
/// and the operation is refused with the name of the permission, or by auditing.
pub proof fn lemma_permission_checks<A, P, Z, S>(
    providers: SecurityProviders<A, P, Z, S>,
    identity: A::Identity,
    keyspace: Seq<char>,
    permission: KeyspacePermission,
    outcome: Result<(), Error>,
) where
    A: Authenticator,
    P: PermissionHandler<A::Identity>,
    Z: Authorizor<A::Identity>,
    S: AuditSink<A::Identity>,

    requires
        providers.checks(identity, keyspace, permission, outcome),
    ensures
        exists|name: &str, granted: bool|
            {
                &&& #[trigger] call_ensures(
                    P::has_keyspace_permission,
                    (&providers.permission_handler(), &identity, name, permission),
                    granted,
                )
                &&& name@ == keyspace
                &&& granted ==> exists|audited: Result<(), Error>|
                    {
                        &&& #[trigger] records::<A::Identity, S>(
                            providers.audit(),
                            EventView::KeyspaceAccess { identity, keyspace },
                            audited,
                        )
                        &&& outcome == audited
                    }
                &&& !granted ==> exists|audited: Result<(), Error>|
                    {
                        &&& #[trigger] records::<A::Identity, S>(
                            providers.audit(),
                            EventView::AuthorizationDenied { identity, keyspace },
                            audited,
                        )
                        &&& audited matches Err(error) ==> outcome == Err::<(), Error>(error)
                        &&& audited is Ok ==> outcome == Err::<(), Error>(
                            Error::PermissionDenied(
                                match permission {
                                    KeyspacePermission::Read => "keyspace:read",
                                    KeyspacePermission::Write => "keyspace:write",
                                    KeyspacePermission::Delete => "keyspace:delete",
                                    KeyspacePermission::Compact => "keyspace:compact",
                                    KeyspacePermission::Alter => "keyspace:alter",
                                },
                            ),
                        )
                    }
            },
{
    let (name, granted, audited) = choose|name: &str, granted: bool, audited: Result<(), Error>|
        {
            &&& #[trigger] call_ensures(
                P::has_keyspace_permission,
                (&providers.permission_handler(), &identity, name, permission),
                granted,
            )
            &&& name@ == keyspace
            &&& #[trigger] records::<A::Identity, S>(
                providers.audit(),
                access_event(granted, identity, keyspace),
                audited,
            )
            &&& outcome == clearance(granted, permission, audited)
        };
    assert(call_ensures(
        P::has_keyspace_permission,
        (&providers.permission_handler(), &identity, name, permission),
        granted,
    ));
}

/// Authentication asks the authenticator. Its failure is the outcome; where it
/// finds no identity, that is audited and the credentials are refused; where it
/// finds one, the authorizor is asked for its labels, and the session holds both
/// unless auditing refuses it.
pub proof fn lemma_authentication<A, P, Z, S>(
    providers: SecurityProviders<A, P, Z, S>,
    credentials: Credentials,
    outcome: Result<Session<A::Identity>, Error>,
) where
    A: Authenticator,
    P: PermissionHandler<A::Identity>,
    Z: Authorizor<A::Identity>,
    S: AuditSink<A::Identity>,

    requires
        providers.authenticates(credentials, outcome),
    ensures
        exists|found: Result<Option<A::Identity>, Error>|
            {
                &&& #[trigger] call_ensures(
                    A::authenticate,
                    (&providers.authenticator(), &credentials),
                    found,
                )
                &&& match found {
                    Err(error) => outcome == Err::<Session<A::Identity>, Error>(error),
                    Ok(None) => exists|audited: Result<(), Error>|
                        {
                            &&& #[trigger] records::<A::Identity, S>(
                                providers.audit(),
                                EventView::AuthenticationFailed,
                                audited,
                            )
                            &&& audited is Ok ==> outcome == Err::<Session<A::Identity>, Error>(
                                Error::AuthenticationDenied,
                            )
                            &&& audited matches Err(error) ==> outcome == Err::<
                                Session<A::Identity>,
                                Error,
                            >(error)
                        },
                    Ok(Some(identity)) => exists|resolved: Result<Authorizations, Error>|
                        {
                            &&& #[trigger] call_ensures(
                                Z::authorizations,
                                (&providers.authorizor(), &identity),
                                resolved,
                            )
                            &&& match resolved {
                                Err(error) => outcome == Err::<Session<A::Identity>, Error>(error),
                                Ok(auths) => exists|audited: Result<(), Error>|
                                    {
                                        &&& #[trigger] records::<A::Identity, S>(
                                            providers.audit(),
                                            EventView::AuthenticationSucceeded { identity },
                                            audited,
                                        )
                                        &&& audited is Ok ==> (outcome matches Ok(session)
                                            && session.identity == identity && session.auths
                                            == auths)
                                        &&& audited matches Err(error) ==> outcome == Err::<
                                            Session<A::Identity>,
                                            Error,
                                        >(error)
                                    },
                            }
                        },
                }
            },
{
}

/// A provider set is complete or is refused with the name of the first missing
/// provider.
pub proof fn lemma_missing_providers<A, P, Z, S>(
    authenticator: Option<A>,
    permission_handler: Option<P>,
    authorizor: Option<Z>,
    audit: Option<AuditConfig<S>>,
    providers: Result<SecurityProviders<A, P, Z, S>, Error>,
)
    requires
        assembled(authenticator, permission_handler, authorizor, audit, providers),
    ensures
        authenticator is None ==> providers == Err::<SecurityProviders<A, P, Z, S>, Error>(
            Error::MissingSecurityProvider("authenticator"),
        ),
        authenticator is Some && permission_handler is None ==> providers == Err::<
            SecurityProviders<A, P, Z, S>,
            Error,
        >(Error::MissingSecurityProvider("permission_handler")),
        authenticator is Some && permission_handler is Some && authorizor is None ==> providers
            == Err::<SecurityProviders<A, P, Z, S>, Error>(
            Error::MissingSecurityProvider("authorizor"),
        ),
        authenticator is Some && permission_handler is Some && authorizor is Some ==> (
        providers matches Ok(set) && Some(set.authenticator()) == authenticator && Some(
            set.permission_handler(),
        ) == permission_handler && Some(set.authorizor()) == authorizor && set.audit() == audit),
{
}

/// Whether the permission handler always grants an identity a permission on a
/// keyspace.
pub open spec fn always_grants<A, P, Z, S>(
    providers: SecurityProviders<A, P, Z, S>,
    identity: A::Identity,
    keyspace: Seq<char>,
    permission: KeyspacePermission,
) -> bool where
    A: Authenticator,
    P: PermissionHandler<A::Identity>,
    Z: Authorizor<A::Identity>,
    S: AuditSink<A::Identity>,
 {
    forall|name: &str|
        name@ == keyspace ==> !#[trigger] call_ensures(
            P::has_keyspace_permission,
            (&providers.permission_handler(), &identity, name, permission),
            false,
        )
}

/// Where the permission handler grants a permission and there is no audit sink,
/// the operation is cleared.
pub proof fn lemma_granted_permission_clears<A, P, Z, S>(
    providers: SecurityProviders<A, P, Z, S>,
    identity: A::Identity,
    keyspace: Seq<char>,
    permission: KeyspacePermission,
) where
    A: Authenticator,
    P: PermissionHandler<A::Identity>,
    Z: Authorizor<A::Identity>,
    S: AuditSink<A::Identity>,

    requires
        providers.audit() is None,
        always_grants(providers, identity, keyspace, permission),
    ensures
        forall|outcome: Result<(), Error>| #[trigger]
            providers.checks(identity, keyspace, permission, outcome) ==> outcome is Ok,
{
}

} // verus!
